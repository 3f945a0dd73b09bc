//! The 7-byte frame prefix: total frame length (header bytes counted too),
//! type code, and tag, all little-endian.

use vstd::prelude::*;

use crate::bytes::{
    le16, le32, lemma_le16_of_bytes, lemma_le16_round_trip, lemma_le32_of_bytes,
    lemma_le32_round_trip, put_u16, put_u32, u16_of, u32_of,
};
use crate::error::Error;
use crate::messages::Message;
use crate::writer::Writer;

verus! {

/// A frame's fixed prefix.
#[derive(Clone, Copy, Debug, PartialEq, Eq, Structural)]
pub struct Header {
    /// Whole frame length: 7 plus the body length.
    pub size: u32,
    /// The message's type code.
    pub type_: u8,
    /// The tag pairing a reply with its request.
    pub tag: u16,
}

/// The 7 bytes of a header.
pub open spec fn hdr_enc(h: Header) -> Seq<u8> {
    le32(h.size) + seq![h.type_] + le16(h.tag)
}

/// The header whose 7 bytes start `b`.
pub open spec fn hdr_dec(b: Seq<u8>) -> Header {
    Header { size: u32_of(b), type_: b[4], tag: u16_of(b.skip(5)) }
}

/// Serializing a header and reading it back is the identity.
pub proof fn lemma_header_round_trip(h: Header)
    ensures
        hdr_enc(h).len() == 7,
        hdr_dec(hdr_enc(h)) == h,
{
    let b = hdr_enc(h);
    lemma_le32_round_trip(h.size);
    assert(b[0] == le32(h.size)[0] && b[1] == le32(h.size)[1] && b[2] == le32(h.size)[2] && b[3]
        == le32(h.size)[3]);
    assert(u32_of(b) == h.size);
    assert(b[4] == h.type_);
    lemma_le16_round_trip(h.tag);
    assert(b.skip(5)[0] == le16(h.tag)[0] && b.skip(5)[1] == le16(h.tag)[1]);
    assert(u16_of(b.skip(5)) == h.tag);
}

/// Reading 7 bytes as a header and serializing it again restores them
/// bit for bit.
pub proof fn lemma_header_bytes_round_trip(b: Seq<u8>)
    ensures
        b.len() == 7 ==> hdr_enc(hdr_dec(b)) == b,
{
    if b.len() == 7 {
        let h = hdr_dec(b);
        assert(b.take(4) =~= seq![b[0], b[1], b[2], b[3]]);
        lemma_le32_of_bytes(b.take(4));
        assert(u32_of(b.take(4)) == u32_of(b));
        assert(le32(h.size) == b.take(4));
        assert(b.skip(5) =~= seq![b[5], b[6]]);
        lemma_le16_of_bytes(b.skip(5));
        assert(le16(h.tag) == b.skip(5));
        assert(hdr_enc(h) =~= b);
    }
}

impl Header {
    /// The header that frames `message` under `tag`.
    pub fn for_message<M: Message>(message: &M, tag: u16) -> (h: Header)
        requires
            message.wf(),
            message.body().len() + 7 <= u32::MAX,
        ensures
            h.size == 7 + message.body().len(),
            h.type_ == M::mtype(),
            h.tag == tag,
    {
        Header { size: 7 + message.size() as u32, type_: M::code(), tag }
    }

    /// Decode a header from its 7 bytes.
    pub fn from_array(header: [u8; 7]) -> (h: Header)
        ensures
            h == hdr_dec(header@),
    {
        let size = (header[0] as u32) | ((header[1] as u32) << 8) | ((header[2] as u32) << 16)
            | ((header[3] as u32) << 24);
        let tag = (header[5] as u16) | ((header[6] as u16) << 8);
        proof {
            assert(header@.skip(5)[0] == header@[5]);
            assert(header@.skip(5)[1] == header@[6]);
        }
        Header { size, type_: header[4], tag }
    }

    /// The 7 bytes of this header.
    pub fn encode(&self) -> (out: Vec<u8>)
        ensures
            out@ == hdr_enc(*self),
    {
        let mut out: Vec<u8> = Vec::new();
        put_u32(&mut out, self.size);
        out.push(self.type_);
        put_u16(&mut out, self.tag);
        proof {
            assert(out@ =~= hdr_enc(*self));
        }
        out
    }

    /// Serialize this header into a sink.
    pub fn write<W: Writer>(&self, writer: &mut W) -> (r: Result<(), Error>)
        ensures
            r is Ok ==> final(writer).sink() == old(writer).sink() + hdr_enc(*self),
    {
        let out = self.encode();
        writer.write(out.as_slice())
    }
}

} // verus!
