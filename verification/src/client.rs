//! The synchronous request engine. One call frames a request, writes it,
//! reads exactly one reply frame, and dispatches on the reply's type code:
//! the awaited reply parses and is returned, `RError` becomes a `Protocol`
//! failure, anything else an `UnexpectedType` failure. The engine never
//! pipelines: every call completes before the next begins, and a reply
//! whose tag is not the tag just sent means the stream's framing is lost.

use vstd::prelude::*;

use crate::bytes::{u16_of, u32_of};
use crate::error::Error;
use crate::header::{hdr_enc, Header};
use crate::messages::{dec_rerror, Message, RError, TMessage};
use vstd::slice::{slice_subrange, slice_to_vec};

verus! {

/// What the engine asks of a connection: blocking all-or-nothing writes and
/// exact-length reads. The two ghost projections model the connection as a
/// byte stream in each direction: `sent` is everything accepted for
/// sending, `incoming` what the peer's side will deliver next. A fallible
/// binding fails with `Io` and promises nothing else of itself.
pub trait Transport {
    /// Every byte accepted for sending, in order. A binding outside the
    /// library may leave this unsaid.
    open spec fn sent(&self) -> Seq<u8> {
        arbitrary()
    }

    /// The bytes that reads will deliver, in order. A binding outside the
    /// library may leave this unsaid.
    open spec fn incoming(&self) -> Seq<u8> {
        arbitrary()
    }

    /// Place all of `bytes` on the connection, or fail.
    fn write_all(&mut self, bytes: &[u8]) -> (r: Result<(), Error>)
        ensures
            r is Ok ==> final(self).sent() == old(self).sent() + bytes@ && final(self).incoming()
                == old(self).incoming(),
            r is Err ==> r == Err::<(), Error>(Error::Io),
    ;

    /// Deliver exactly the next `n` bytes, or fail.
    fn read_exact(&mut self, n: usize) -> (r: Result<Vec<u8>, Error>)
        ensures
            match r {
                Ok(data) => n <= old(self).incoming().len() && data@ == old(
                    self,
                ).incoming().take(n as int) && final(self).incoming() == old(
                    self,
                ).incoming().skip(n as int) && final(self).sent() == old(self).sent(),
                Err(e) => e == Error::Io,
            },
    ;
}

/// A connection held in memory: writes accumulate, reads consume a buffer
/// loaded up front. It drives the engine against recorded reply frames and
/// shows the `Transport` contract is satisfiable.
pub struct MemTransport {
    written: Vec<u8>,
    replies: Vec<u8>,
    pos: usize,
}

impl MemTransport {
    /// A transport whose reads will deliver `replies`.
    pub fn new(replies: Vec<u8>) -> (t: MemTransport)
        ensures
            t.sent() == Seq::<u8>::empty(),
            t.incoming() == replies@,
    {
        MemTransport { written: Vec::new(), replies, pos: 0 }
    }

    /// Everything written so far.
    pub fn sent_bytes(&self) -> (r: &Vec<u8>)
        ensures
            r@ == self.sent(),
    {
        &self.written
    }

    /// How many loaded bytes reads have not yet delivered.
    pub fn remaining(&self) -> (n: usize)
        ensures
            n == self.incoming().len(),
    {
        if self.pos <= self.replies.len() {
            self.replies.len() - self.pos
        } else {
            0
        }
    }
}

impl Transport for MemTransport {
    closed spec fn sent(&self) -> Seq<u8> {
        self.written@
    }

    closed spec fn incoming(&self) -> Seq<u8> {
        if self.pos <= self.replies@.len() {
            self.replies@.skip(self.pos as int)
        } else {
            Seq::empty()
        }
    }

    fn write_all(&mut self, bytes: &[u8]) -> (r: Result<(), Error>) {
        crate::bytes::put_bytes(&mut self.written, bytes);
        Ok(())
    }

    fn read_exact(&mut self, n: usize) -> (r: Result<Vec<u8>, Error>) {
        if self.pos > self.replies.len() || self.replies.len() - self.pos < n {
            return Err(Error::Io);
        }
        let out = slice_to_vec(slice_subrange(self.replies.as_slice(), self.pos, self.pos + n));
        proof {
            assert(out@ =~= self.incoming().take(n as int));
            assert(self.replies@.skip(self.pos + n) =~= self.incoming().skip(n as int));
        }
        self.pos = self.pos + n;
        Ok(out)
    }
}

/// The whole frame of `m` under `tag`: header, then body.
pub open spec fn frame_for<M: Message>(m: M, tag: u16) -> Seq<u8> {
    hdr_enc(Header { size: (m.body().len() + 7) as u32, type_: M::mtype(), tag }) + m.body()
}

/// The size field of the frame at the head of stream `s`.
pub open spec fn in_size(s: Seq<u8>) -> u32 {
    u32_of(s)
}

/// The type code of the frame at the head of `s`.
pub open spec fn in_type(s: Seq<u8>) -> u8 {
    s[4]
}

/// The tag of the frame at the head of `s`.
pub open spec fn in_tag(s: Seq<u8>) -> u16 {
    u16_of(s.skip(5))
}

/// The body of the frame at the head of `s`.
pub open spec fn in_body(s: Seq<u8>) -> Seq<u8> {
    s.subrange(7, in_size(s) as int)
}

/// A declared frame size the engine accepts: at least the header, and
/// within the negotiated limit once one is set (`msize == 0` before the
/// version handshake).
pub open spec fn size_admissible(sz: u32, msize: u32) -> bool {
    sz >= 7 && (msize == 0 || sz <= msize)
}

/// Dispatch a reply frame that has already been read: the awaited reply
/// parses from the body, `RError` becomes a `Protocol` failure carrying the
/// server's diagnostic, and any other type code an `UnexpectedType` failure.
/// An adapter that drives its own connection uses this for the same
/// dispatch the engine performs.
pub fn parse_reply<Reply: Message>(header: &Header, body: &[u8]) -> (r: Result<Reply, Error>)
    ensures
        match r {
            Ok(m) => header.type_ == Reply::mtype() && Reply::parse_ok(body@) && m.wf()
                && m.from_body(body@),
            Err(e) => match e {
                Error::Protocol(en) => header.type_ == <RError as Message>::mtype() && dec_rerror(
                    body@,
                ) == Ok::<_, Error>(en@),
                Error::UnexpectedType(c) => c == header.type_ && c != Reply::mtype() && c
                    != <RError as Message>::mtype(),
                Error::MessageLength => (header.type_ == Reply::mtype() && !Reply::parse_ok(body@)
                    && Reply::parse_err(body@) == Error::MessageLength) || (header.type_
                    == <RError as Message>::mtype() && !<RError as Message>::parse_ok(body@)
                    && <RError as Message>::parse_err(body@) == Error::MessageLength),
                Error::Utf8 => (header.type_ == Reply::mtype() && !Reply::parse_ok(body@)
                    && Reply::parse_err(body@) == Error::Utf8) || (header.type_
                    == <RError as Message>::mtype() && !<RError as Message>::parse_ok(body@)
                    && <RError as Message>::parse_err(body@) == Error::Utf8),
                _ => false,
            },
        },
{
    let rc = <Reply as Message>::code();
    let ec = <RError as Message>::code();
    if header.type_ == rc {
        Reply::parse(body)
    } else if header.type_ == ec {
        match RError::parse(body) {
            Ok(re) => Err(Error::Protocol(re.ename)),
            Err(e) => Err(e),
        }
    } else {
        Err(Error::UnexpectedType(header.type_))
    }
}

/// A client that sends one request and blocks until its reply arrives.
pub struct SyncClient<T: Transport> {
    pub transport: T,
    /// The frame-size bound from the version handshake; 0 until the caller
    /// records one with `set_msize`.
    pub msize: u32,
}

impl<T: Transport> SyncClient<T> {
    pub fn new(transport: T) -> (c: SyncClient<T>)
        ensures
            c.transport == transport,
            c.msize == 0,
    {
        SyncClient { transport, msize: 0 }
    }

    /// Record the frame-size bound both sides agreed on, after a version
    /// handshake; every later reply frame must fit it.
    pub fn set_msize(&mut self, msize: u32)
        ensures
            final(self).msize == msize,
            final(self).transport == old(self).transport,
    {
        self.msize = msize;
    }

    /// Send `request` under `tag` and read its reply.
    ///
    /// On success the whole request frame went out and the reply was read
    /// off the head of the stream: it carried an admissible size, the tag
    /// just sent, and the paired reply's type code, and its body parsed as
    /// that reply. Each failure pins what the stream held: a short or
    /// oversized frame or a refused body is `MessageLength` or `Utf8`; a
    /// tag other than `tag` is `UnrecognizedTag`, read no further than the
    /// header; type code 107 is the server's own report, returned as
    /// `Protocol` with its diagnostic; any other code is `UnexpectedType`.
    /// `Io` is the transport's own failure and promises nothing.
    pub fn send<Req: TMessage>(&mut self, tag: u16, request: &Req) -> (r: Result<
        Req::Reply,
        Error,
    >)
        requires
            request.wf(),
            request.body().len() + 7 <= u32::MAX,
        ensures
            final(self).msize == old(self).msize,
            ({
                let s = old(self).transport.incoming();
                let frame = frame_for(*request, tag);
                match r {
                    Ok(reply) => {
                        &&& s.len() >= 7
                        &&& size_admissible(in_size(s), old(self).msize)
                        &&& in_size(s) <= s.len()
                        &&& in_tag(s) == tag
                        &&& in_type(s) == <Req::Reply as Message>::mtype()
                        &&& reply.wf()
                        &&& <Req::Reply as Message>::parse_ok(in_body(s))
                        &&& reply.from_body(in_body(s))
                        &&& final(self).transport.sent() == old(self).transport.sent() + frame
                        &&& final(self).transport.incoming() == s.skip(in_size(s) as int)
                    },
                    Err(e) => match e {
                        Error::Io => true,
                        Error::MessageLength => {
                            &&& s.len() >= 7
                            &&& final(self).transport.sent() == old(self).transport.sent() + frame
                            &&& (!size_admissible(in_size(s), old(self).msize) || (in_tag(s) == tag
                                && in_size(s) <= s.len() && ((in_type(s) == <Req::Reply as Message>::mtype()
                                && !<Req::Reply as Message>::parse_ok(in_body(s))
                                && <Req::Reply as Message>::parse_err(in_body(s))
                                    == Error::MessageLength) || (in_type(s) == <RError as Message>::mtype()
                                && !<RError as Message>::parse_ok(in_body(s))
                                && <RError as Message>::parse_err(in_body(s))
                                    == Error::MessageLength))))
                        },
                        Error::Utf8 => {
                            &&& s.len() >= 7
                            &&& size_admissible(in_size(s), old(self).msize)
                            &&& in_tag(s) == tag
                            &&& in_size(s) <= s.len()
                            &&& final(self).transport.sent() == old(self).transport.sent() + frame
                            &&& ((in_type(s) == <Req::Reply as Message>::mtype()
                                && !<Req::Reply as Message>::parse_ok(in_body(s))
                                && <Req::Reply as Message>::parse_err(in_body(s)) == Error::Utf8)
                                || (in_type(s) == <RError as Message>::mtype()
                                && !<RError as Message>::parse_ok(in_body(s))
                                && <RError as Message>::parse_err(in_body(s)) == Error::Utf8))
                        },
                        Error::UnrecognizedTag(t) => {
                            &&& s.len() >= 7
                            &&& size_admissible(in_size(s), old(self).msize)
                            &&& t == in_tag(s)
                            &&& t != tag
                            &&& final(self).transport.sent() == old(self).transport.sent() + frame
                            &&& final(self).transport.incoming() == s.skip(7)
                        },
                        Error::UnexpectedType(c) => {
                            &&& s.len() >= 7
                            &&& size_admissible(in_size(s), old(self).msize)
                            &&& in_tag(s) == tag
                            &&& in_size(s) <= s.len()
                            &&& c == in_type(s)
                            &&& c != <Req::Reply as Message>::mtype()
                            &&& c != <RError as Message>::mtype()
                            &&& final(self).transport.sent() == old(self).transport.sent() + frame
                        },
                        Error::Protocol(en) => {
                            &&& s.len() >= 7
                            &&& size_admissible(in_size(s), old(self).msize)
                            &&& in_tag(s) == tag
                            &&& in_size(s) <= s.len()
                            &&& in_type(s) == <RError as Message>::mtype()
                            &&& dec_rerror(in_body(s)) == Ok::<_, Error>(en@)
                            &&& final(self).transport.sent() == old(self).transport.sent() + frame
                        },
                    },
                }
            }),
    {
        let ghost s = self.transport.incoming();
        let body_size = request.size();
        let header = Header { size: (body_size as u32) + 7, type_: Req::code(), tag };
        let mut frame = header.encode();
        let mut body = request.encode();
        frame.append(&mut body);
        proof {
            assert(frame@ =~= frame_for(*request, tag));
        }
        match self.transport.write_all(frame.as_slice()) {
            Ok(()) => {},
            Err(e) => {
                return Err(e);
            },
        }
        let hb = match self.transport.read_exact(7) {
            Ok(v) => v,
            Err(e) => {
                return Err(e);
            },
        };
        let arr = [hb[0], hb[1], hb[2], hb[3], hb[4], hb[5], hb[6]];
        let rh = Header::from_array(arr);
        proof {
            assert(arr@ =~= s.take(7));
            assert(s.take(7)[0] == s[0] && s.take(7)[1] == s[1] && s.take(7)[2] == s[2] && s.take(
                7,
            )[3] == s[3]);
            assert(u32_of(s.take(7)) == u32_of(s));
            assert(s.take(7)[4] == s[4]);
            assert(s.take(7).skip(5)[0] == s[5] && s.take(7).skip(5)[1] == s[6]);
            assert(s.skip(5)[0] == s[5] && s.skip(5)[1] == s[6]);
            assert(u16_of(s.take(7).skip(5)) == u16_of(s.skip(5)));
            assert(rh.size == in_size(s) && rh.type_ == in_type(s) && rh.tag == in_tag(s));
        }
        if rh.size < 7 {
            return Err(Error::MessageLength);
        }
        if self.msize != 0 && rh.size > self.msize {
            return Err(Error::MessageLength);
        }
        if rh.tag != tag {
            return Err(Error::UnrecognizedTag(rh.tag));
        }
        let body_len = (rh.size - 7) as usize;
        let rb = match self.transport.read_exact(body_len) {
            Ok(v) => v,
            Err(e) => {
                return Err(e);
            },
        };
        proof {
            assert(rb@ =~= in_body(s));
            assert(s.skip(7).skip(body_len as int) =~= s.skip(in_size(s) as int));
        }
        parse_reply::<Req::Reply>(&rh, rb.as_slice())
    }
}

} // verus!
