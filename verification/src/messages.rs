//! The message catalog: every request (T-message) and reply (R-message) of
//! the protocol, each a plain record of its wire fields with a parser, a
//! size, and a serializer, all proved against one field-level codec. A
//! request names its reply type, which is how the engine returns the right
//! value for each request.

use vstd::prelude::*;

use crate::bytes::{get_u16, get_u32, le16, le32, lemma_le32_round_trip, put_u16, put_u32,
    put_u64, u32_of};
use crate::error::Error;
use crate::fields::{
    dec_fields, dec_msg, dec_str, enc_fvs, enc_names, enc_str, fv_kind, fv_wf, lemma_dec_enc_msg,
    lemma_dec_enc_str, lemma_dec_fields_nil, lemma_dec_fields_step, lemma_enc_fvs1,
    lemma_enc_fvs2, lemma_enc_fvs3, lemma_enc_fvs4, lemma_enc_names_concat, lemma_enc_names_push,
    lemma_enc_qids_len, lemma_msg_extended, lemma_msg_truncated, lemma_str_trunc, names_view,
    put_data, put_names, put_qid, put_qids, put_str, take_data, take_names, take_qid, take_qids,
    take_str, take_u16, take_u32, take_u64, take_u8, Fk, Fv,
};
use crate::pstring::PString;
use crate::qid::Qid;
use crate::stat::{dec_stat, enc_stat, lemma_dec_enc_stat, lemma_stat_prefix_trunc, stat_body,
    stat_wf, Stat, StatV};
use crate::writer::Writer;

verus! {

/// The reserved tag for `TVersion`: no other request may use it.
pub const NOTAG: u16 = 0xffff;

/// The reserved fid meaning "no fid", as `afid` when nothing authenticates.
pub const NOFID: u32 = 0xffffffff;

/// Open for reading.
pub const OREAD: u8 = 0;

/// Open for writing.
pub const OWRITE: u8 = 1;

/// Open for reading and writing.
pub const ORDWR: u8 = 2;

/// Open for execution.
pub const OEXEC: u8 = 3;

/// OR-ed into an open mode: truncate the file first.
pub const OTRUNC: u8 = 0x10;

/// OR-ed into an open mode: remove the file when the fid is clunked.
pub const ORCLOSE: u8 = 0x40;

/// The directory bit in `Stat.mode`.
pub const DMDIR: u32 = 0x80000000;

/// The append-only bit in `Stat.mode`.
pub const DMAPPEND: u32 = 0x40000000;

/// The exclusive-use bit in `Stat.mode`.
pub const DMEXCL: u32 = 0x20000000;

/// The temporary-file bit in `Stat.mode`.
pub const DMTMP: u32 = 0x04000000;

/// The authentication-file bit in `Stat.mode`.
pub const DMAUTH: u32 = 0x02000000;

/// A client-chosen handle for a server-side file.
#[derive(Copy, Clone, Debug, Default, Hash, Eq, PartialEq, Structural)]
pub struct Fid(pub u32);

/// The 8-bit type code of each message. Even codes are requests, the next
/// odd code the paired reply; code 106 would be `Terror`, which the
/// protocol reserves as invalid, so only `RError` exists.
#[derive(Copy, Clone, Debug, PartialEq, Eq, Structural)]
pub enum MessageType {
    TVersion,
    RVersion,
    TAuth,
    RAuth,
    TAttach,
    RAttach,
    RError,
    TFlush,
    RFlush,
    TWalk,
    RWalk,
    TOpen,
    ROpen,
    TCreate,
    RCreate,
    TRead,
    RRead,
    TWrite,
    RWrite,
    TClunk,
    RClunk,
    TRemove,
    RRemove,
    TStat,
    RStat,
    TWStat,
    RWStat,
}

impl MessageType {
    pub open spec fn type_code(self) -> u8 {
        match self {
            MessageType::TVersion => 100,
            MessageType::RVersion => 101,
            MessageType::TAuth => 102,
            MessageType::RAuth => 103,
            MessageType::TAttach => 104,
            MessageType::RAttach => 105,
            MessageType::RError => 107,
            MessageType::TFlush => 108,
            MessageType::RFlush => 109,
            MessageType::TWalk => 110,
            MessageType::RWalk => 111,
            MessageType::TOpen => 112,
            MessageType::ROpen => 113,
            MessageType::TCreate => 114,
            MessageType::RCreate => 115,
            MessageType::TRead => 116,
            MessageType::RRead => 117,
            MessageType::TWrite => 118,
            MessageType::RWrite => 119,
            MessageType::TClunk => 120,
            MessageType::RClunk => 121,
            MessageType::TRemove => 122,
            MessageType::RRemove => 123,
            MessageType::TStat => 124,
            MessageType::RStat => 125,
            MessageType::TWStat => 126,
            MessageType::RWStat => 127,
        }
    }

    /// The code on the wire.
    pub fn code(self) -> (c: u8)
        ensures
            c == self.type_code(),
    {
        match self {
            MessageType::TVersion => 100,
            MessageType::RVersion => 101,
            MessageType::TAuth => 102,
            MessageType::RAuth => 103,
            MessageType::TAttach => 104,
            MessageType::RAttach => 105,
            MessageType::RError => 107,
            MessageType::TFlush => 108,
            MessageType::RFlush => 109,
            MessageType::TWalk => 110,
            MessageType::RWalk => 111,
            MessageType::TOpen => 112,
            MessageType::ROpen => 113,
            MessageType::TCreate => 114,
            MessageType::RCreate => 115,
            MessageType::TRead => 116,
            MessageType::RRead => 117,
            MessageType::TWrite => 118,
            MessageType::RWrite => 119,
            MessageType::TClunk => 120,
            MessageType::RClunk => 121,
            MessageType::TRemove => 122,
            MessageType::RRemove => 123,
            MessageType::TStat => 124,
            MessageType::RStat => 125,
            MessageType::TWStat => 126,
            MessageType::RWStat => 127,
        }
    }
}

/// What every message supports: a type code, a well-formedness condition on
/// its fields, a body encoding, and a parser that is exactly the body
/// encoding's inverse. `parse_ok` says which bodies the type accepts;
/// `parse_err` which fault any other body draws; `from_body` relates a value
/// to a body it was parsed from, pinning every field. The three proof
/// obligations are laws every implementation must establish: a round trip
/// through the codec is the identity, and a body one byte short or one byte
/// long is refused as a `MessageLength` fault.
pub trait Message: Sized {
    /// The fields fit their wire encodings.
    spec fn wf(&self) -> bool;

    /// The serialized body, without the frame header.
    spec fn body(&self) -> Seq<u8>;

    /// The type code of this message kind.
    spec fn mtype() -> u8;

    /// Whether `b` is a body this message kind accepts.
    spec fn parse_ok(b: Seq<u8>) -> bool;

    /// The fault drawn by a body this kind refuses.
    spec fn parse_err(b: Seq<u8>) -> Error;

    /// `self` holds exactly the fields parsed from `b`.
    spec fn from_body(&self, b: Seq<u8>) -> bool;

    fn code() -> (c: u8)
        ensures
            c == Self::mtype(),
    ;

    /// The byte length of the serialized body.
    fn size(&self) -> (n: usize)
        requires
            self.wf(),
            self.body().len() <= usize::MAX,
        ensures
            n == self.body().len(),
    ;

    /// Serialize the body into a fresh vector.
    fn encode(&self) -> (out: Vec<u8>)
        requires
            self.wf(),
        ensures
            out@ == self.body(),
    ;

    /// Parse a body. Success yields a well-formed value whose fields are
    /// pinned by `from_body`; failure reports `MessageLength` or `Utf8`,
    /// and only on bodies this kind refuses.
    fn parse(body: &[u8]) -> (r: Result<Self, Error>)
        ensures
            match r {
                Ok(m) => Self::parse_ok(body@) && m.wf() && m.from_body(body@),
                Err(e) => !Self::parse_ok(body@) && e == Self::parse_err(body@) && (e
                    == Error::MessageLength || e == Error::Utf8),
            },
    ;

    /// Serialize the body into a sink.
    fn write<W: Writer>(&self, w: &mut W) -> (r: Result<(), Error>)
        requires
            self.wf(),
        ensures
            r is Ok ==> final(w).sink() == old(w).sink() + self.body(),
    {
        let out = self.encode();
        w.write(out.as_slice())
    }

    /// Parsing a written body succeeds and returns the value written.
    proof fn round_trip(&self)
        requires
            self.wf(),
        ensures
            Self::parse_ok(self.body()),
            self.from_body(self.body()),
    ;

    /// A body cut one byte short is refused as a `MessageLength` fault.
    proof fn truncated(&self)
        requires
            self.wf(),
            self.body().len() > 0,
        ensures
            !Self::parse_ok(self.body().drop_last()),
            Self::parse_err(self.body().drop_last()) == Error::MessageLength,
    ;

    /// A body with one stray byte after the fields is refused as a
    /// `MessageLength` fault.
    proof fn extended(&self, x: u8)
        requires
            self.wf(),
        ensures
            !Self::parse_ok(self.body().push(x)),
            Self::parse_err(self.body().push(x)) == Error::MessageLength,
    ;
}

/// A request, tied to the reply kind the server answers it with.
pub trait TMessage: Message {
    type Reply: Message;
}


/// Negotiate the protocol version and the maximum frame size. It must be the first message on a
/// connection and carries the reserved tag `NOTAG`; on success all prior fids are gone.
#[derive(Clone, Debug, Default)]
pub struct TVersion {
    pub msize: u32,
    pub version: PString,
}

impl TVersion {
    pub open spec fn schema() -> Seq<Fk> {
        seq![Fk::U32, Fk::Str]
    }

    pub open spec fn fields(&self) -> Seq<Fv> {
        seq![Fv::U32(self.msize), Fv::Str(self.version@)]
    }
}

impl Message for TVersion {
    open spec fn wf(&self) -> bool {
        self.version.wf()
    }

    open spec fn body(&self) -> Seq<u8> {
        enc_fvs(self.fields())
    }

    open spec fn mtype() -> u8 {
        100
    }

    open spec fn parse_ok(b: Seq<u8>) -> bool {
        dec_msg(Self::schema(), b) is Ok
    }

    open spec fn parse_err(b: Seq<u8>) -> Error {
        match dec_msg(Self::schema(), b) {
            Ok(_) => arbitrary(),
            Err(e) => e,
        }
    }

    open spec fn from_body(&self, b: Seq<u8>) -> bool {
        dec_msg(Self::schema(), b) == Ok::<_, Error>(self.fields())
    }

    fn code() -> u8 {
        100
    }

    fn size(&self) -> (n: usize) {
        proof {
            lemma_enc_fvs2(Fv::U32(self.msize), Fv::Str(self.version@));
        }
        6 + self.version.len()
    }

    fn encode(&self) -> (out: Vec<u8>) {
        let mut out: Vec<u8> = Vec::new();
        proof {
            lemma_enc_fvs2(Fv::U32(self.msize), Fv::Str(self.version@));
        }
        put_u32(&mut out, self.msize);
        put_str(&mut out, &self.version);
        proof {
            assert(out@ =~= self.body());
        }
        out
    }

    fn parse(body: &[u8]) -> (r: Result<Self, Error>) {
        let ghost ks0 = seq![Fk::U32, Fk::Str];
        let ghost ks1 = seq![Fk::Str];
        proof {
            assert(ks0.skip(1) =~= ks1);
            assert(ks1.skip(1) =~= Seq::<Fk>::empty());
            assert(body@.skip(0) =~= body@);
            lemma_dec_fields_step(ks0, body@);
        }
        let (msize, p1) = match take_u32(body, 0) {
            Ok(x) => x,
            Err(e) => {
                return Err(e);
            },
        };
        proof {
            lemma_dec_fields_step(ks1, body@.skip(p1 as int));
        }
        let (version, p2) = match take_str(body, p1) {
            Ok(x) => x,
            Err(e) => {
                return Err(e);
            },
        };
        if p2 != body.len() {
            proof {
                lemma_dec_fields_nil(body@.skip(p2 as int));
            }
            return Err(Error::MessageLength);
        }
        let m = TVersion { msize, version };
        proof {
            lemma_dec_fields_nil(body@.skip(p2 as int));
            assert(dec_fields(ks0, body@) matches Ok((got, rest)) && got =~= seq![Fv::U32(m.msize), Fv::Str(m.version@)]
                && rest.len() == 0);
        }
        Ok(m)
    }

    proof fn round_trip(&self) {
        let ks = Self::schema();
        let vs = self.fields();
        assert(forall|i: int|
            0 <= i < vs.len() ==> fv_wf(#[trigger] vs[i]) && ks[i] == fv_kind(vs[i]));
        lemma_dec_enc_msg(ks, vs);
    }

    proof fn truncated(&self) {
        let ks = Self::schema();
        let vs = self.fields();
        assert(forall|i: int|
            0 <= i < vs.len() ==> fv_wf(#[trigger] vs[i]) && ks[i] == fv_kind(vs[i]));
        lemma_msg_truncated(ks, vs);
    }

    proof fn extended(&self, x: u8) {
        let ks = Self::schema();
        let vs = self.fields();
        assert(forall|i: int|
            0 <= i < vs.len() ==> fv_wf(#[trigger] vs[i]) && ks[i] == fv_kind(vs[i]));
        lemma_msg_extended(ks, vs, x);
    }
}

/// The server's side of the version handshake: the version it settled on (`unknown` refuses the
/// client's) and the frame size both sides must respect from now on.
#[derive(Clone, Debug, Default)]
pub struct RVersion {
    pub msize: u32,
    pub version: PString,
}

impl RVersion {
    pub open spec fn schema() -> Seq<Fk> {
        seq![Fk::U32, Fk::Str]
    }

    pub open spec fn fields(&self) -> Seq<Fv> {
        seq![Fv::U32(self.msize), Fv::Str(self.version@)]
    }
}

impl Message for RVersion {
    open spec fn wf(&self) -> bool {
        self.version.wf()
    }

    open spec fn body(&self) -> Seq<u8> {
        enc_fvs(self.fields())
    }

    open spec fn mtype() -> u8 {
        101
    }

    open spec fn parse_ok(b: Seq<u8>) -> bool {
        dec_msg(Self::schema(), b) is Ok
    }

    open spec fn parse_err(b: Seq<u8>) -> Error {
        match dec_msg(Self::schema(), b) {
            Ok(_) => arbitrary(),
            Err(e) => e,
        }
    }

    open spec fn from_body(&self, b: Seq<u8>) -> bool {
        dec_msg(Self::schema(), b) == Ok::<_, Error>(self.fields())
    }

    fn code() -> u8 {
        101
    }

    fn size(&self) -> (n: usize) {
        proof {
            lemma_enc_fvs2(Fv::U32(self.msize), Fv::Str(self.version@));
        }
        6 + self.version.len()
    }

    fn encode(&self) -> (out: Vec<u8>) {
        let mut out: Vec<u8> = Vec::new();
        proof {
            lemma_enc_fvs2(Fv::U32(self.msize), Fv::Str(self.version@));
        }
        put_u32(&mut out, self.msize);
        put_str(&mut out, &self.version);
        proof {
            assert(out@ =~= self.body());
        }
        out
    }

    fn parse(body: &[u8]) -> (r: Result<Self, Error>) {
        let ghost ks0 = seq![Fk::U32, Fk::Str];
        let ghost ks1 = seq![Fk::Str];
        proof {
            assert(ks0.skip(1) =~= ks1);
            assert(ks1.skip(1) =~= Seq::<Fk>::empty());
            assert(body@.skip(0) =~= body@);
            lemma_dec_fields_step(ks0, body@);
        }
        let (msize, p1) = match take_u32(body, 0) {
            Ok(x) => x,
            Err(e) => {
                return Err(e);
            },
        };
        proof {
            lemma_dec_fields_step(ks1, body@.skip(p1 as int));
        }
        let (version, p2) = match take_str(body, p1) {
            Ok(x) => x,
            Err(e) => {
                return Err(e);
            },
        };
        if p2 != body.len() {
            proof {
                lemma_dec_fields_nil(body@.skip(p2 as int));
            }
            return Err(Error::MessageLength);
        }
        let m = RVersion { msize, version };
        proof {
            lemma_dec_fields_nil(body@.skip(p2 as int));
            assert(dec_fields(ks0, body@) matches Ok((got, rest)) && got =~= seq![Fv::U32(m.msize), Fv::Str(m.version@)]
                && rest.len() == 0);
        }
        Ok(m)
    }

    proof fn round_trip(&self) {
        let ks = Self::schema();
        let vs = self.fields();
        assert(forall|i: int|
            0 <= i < vs.len() ==> fv_wf(#[trigger] vs[i]) && ks[i] == fv_kind(vs[i]));
        lemma_dec_enc_msg(ks, vs);
    }

    proof fn truncated(&self) {
        let ks = Self::schema();
        let vs = self.fields();
        assert(forall|i: int|
            0 <= i < vs.len() ==> fv_wf(#[trigger] vs[i]) && ks[i] == fv_kind(vs[i]));
        lemma_msg_truncated(ks, vs);
    }

    proof fn extended(&self, x: u8) {
        let ks = Self::schema();
        let vs = self.fields();
        assert(forall|i: int|
            0 <= i < vs.len() ==> fv_wf(#[trigger] vs[i]) && ks[i] == fv_kind(vs[i]));
        lemma_msg_extended(ks, vs, x);
    }
}

/// Begin authentication on `afid`; `NOFID` as `afid` elsewhere means no authentication is used.
#[derive(Clone, Debug, Default)]
pub struct TAuth {
    pub afid: Fid,
    pub uname: PString,
    pub aname: PString,
}

impl TAuth {
    pub open spec fn schema() -> Seq<Fk> {
        seq![Fk::U32, Fk::Str, Fk::Str]
    }

    pub open spec fn fields(&self) -> Seq<Fv> {
        seq![Fv::U32(self.afid.0), Fv::Str(self.uname@), Fv::Str(self.aname@)]
    }
}

impl Message for TAuth {
    open spec fn wf(&self) -> bool {
        self.uname.wf() && self.aname.wf()
    }

    open spec fn body(&self) -> Seq<u8> {
        enc_fvs(self.fields())
    }

    open spec fn mtype() -> u8 {
        102
    }

    open spec fn parse_ok(b: Seq<u8>) -> bool {
        dec_msg(Self::schema(), b) is Ok
    }

    open spec fn parse_err(b: Seq<u8>) -> Error {
        match dec_msg(Self::schema(), b) {
            Ok(_) => arbitrary(),
            Err(e) => e,
        }
    }

    open spec fn from_body(&self, b: Seq<u8>) -> bool {
        dec_msg(Self::schema(), b) == Ok::<_, Error>(self.fields())
    }

    fn code() -> u8 {
        102
    }

    fn size(&self) -> (n: usize) {
        proof {
            lemma_enc_fvs3(Fv::U32(self.afid.0), Fv::Str(self.uname@), Fv::Str(self.aname@));
        }
        8 + self.uname.len() + self.aname.len()
    }

    fn encode(&self) -> (out: Vec<u8>) {
        let mut out: Vec<u8> = Vec::new();
        proof {
            lemma_enc_fvs3(Fv::U32(self.afid.0), Fv::Str(self.uname@), Fv::Str(self.aname@));
        }
        put_u32(&mut out, self.afid.0);
        put_str(&mut out, &self.uname);
        put_str(&mut out, &self.aname);
        proof {
            assert(out@ =~= self.body());
        }
        out
    }

    fn parse(body: &[u8]) -> (r: Result<Self, Error>) {
        let ghost ks0 = seq![Fk::U32, Fk::Str, Fk::Str];
        let ghost ks1 = seq![Fk::Str, Fk::Str];
        let ghost ks2 = seq![Fk::Str];
        proof {
            assert(ks0.skip(1) =~= ks1);
            assert(ks1.skip(1) =~= ks2);
            assert(ks2.skip(1) =~= Seq::<Fk>::empty());
            assert(body@.skip(0) =~= body@);
            lemma_dec_fields_step(ks0, body@);
        }
        let (afid_raw, p1) = match take_u32(body, 0) {
            Ok(x) => x,
            Err(e) => {
                return Err(e);
            },
        };
        proof {
            lemma_dec_fields_step(ks1, body@.skip(p1 as int));
        }
        let (uname, p2) = match take_str(body, p1) {
            Ok(x) => x,
            Err(e) => {
                return Err(e);
            },
        };
        proof {
            lemma_dec_fields_step(ks2, body@.skip(p2 as int));
        }
        let (aname, p3) = match take_str(body, p2) {
            Ok(x) => x,
            Err(e) => {
                return Err(e);
            },
        };
        if p3 != body.len() {
            proof {
                lemma_dec_fields_nil(body@.skip(p3 as int));
            }
            return Err(Error::MessageLength);
        }
        let m = TAuth { afid: Fid(afid_raw), uname, aname };
        proof {
            lemma_dec_fields_nil(body@.skip(p3 as int));
            assert(dec_fields(ks0, body@) matches Ok((got, rest)) && got =~= seq![Fv::U32(m.afid.0), Fv::Str(m.uname@), Fv::Str(m.aname@)]
                && rest.len() == 0);
        }
        Ok(m)
    }

    proof fn round_trip(&self) {
        let ks = Self::schema();
        let vs = self.fields();
        assert(forall|i: int|
            0 <= i < vs.len() ==> fv_wf(#[trigger] vs[i]) && ks[i] == fv_kind(vs[i]));
        lemma_dec_enc_msg(ks, vs);
    }

    proof fn truncated(&self) {
        let ks = Self::schema();
        let vs = self.fields();
        assert(forall|i: int|
            0 <= i < vs.len() ==> fv_wf(#[trigger] vs[i]) && ks[i] == fv_kind(vs[i]));
        lemma_msg_truncated(ks, vs);
    }

    proof fn extended(&self, x: u8) {
        let ks = Self::schema();
        let vs = self.fields();
        assert(forall|i: int|
            0 <= i < vs.len() ==> fv_wf(#[trigger] vs[i]) && ks[i] == fv_kind(vs[i]));
        lemma_msg_extended(ks, vs, x);
    }
}

/// The identifier of the authentication file the server set up.
#[derive(Clone, Debug, Default)]
pub struct RAuth {
    pub aqid: Qid,
}

impl RAuth {
    pub open spec fn schema() -> Seq<Fk> {
        seq![Fk::Qid]
    }

    pub open spec fn fields(&self) -> Seq<Fv> {
        seq![Fv::Qid(self.aqid)]
    }
}

impl Message for RAuth {
    open spec fn wf(&self) -> bool {
        true
    }

    open spec fn body(&self) -> Seq<u8> {
        enc_fvs(self.fields())
    }

    open spec fn mtype() -> u8 {
        103
    }

    open spec fn parse_ok(b: Seq<u8>) -> bool {
        dec_msg(Self::schema(), b) is Ok
    }

    open spec fn parse_err(b: Seq<u8>) -> Error {
        match dec_msg(Self::schema(), b) {
            Ok(_) => arbitrary(),
            Err(e) => e,
        }
    }

    open spec fn from_body(&self, b: Seq<u8>) -> bool {
        dec_msg(Self::schema(), b) == Ok::<_, Error>(self.fields())
    }

    fn code() -> u8 {
        103
    }

    fn size(&self) -> (n: usize) {
        proof {
            lemma_enc_fvs1(Fv::Qid(self.aqid));
        }
        13
    }

    fn encode(&self) -> (out: Vec<u8>) {
        let mut out: Vec<u8> = Vec::new();
        proof {
            lemma_enc_fvs1(Fv::Qid(self.aqid));
        }
        put_qid(&mut out, &self.aqid);
        proof {
            assert(out@ =~= self.body());
        }
        out
    }

    fn parse(body: &[u8]) -> (r: Result<Self, Error>) {
        let ghost ks0 = seq![Fk::Qid];
        proof {
            assert(ks0.skip(1) =~= Seq::<Fk>::empty());
            assert(body@.skip(0) =~= body@);
            lemma_dec_fields_step(ks0, body@);
        }
        let (aqid, p1) = match take_qid(body, 0) {
            Ok(x) => x,
            Err(e) => {
                return Err(e);
            },
        };
        if p1 != body.len() {
            proof {
                lemma_dec_fields_nil(body@.skip(p1 as int));
            }
            return Err(Error::MessageLength);
        }
        let m = RAuth { aqid };
        proof {
            lemma_dec_fields_nil(body@.skip(p1 as int));
            assert(dec_fields(ks0, body@) matches Ok((got, rest)) && got =~= seq![Fv::Qid(m.aqid)]
                && rest.len() == 0);
        }
        Ok(m)
    }

    proof fn round_trip(&self) {
        let ks = Self::schema();
        let vs = self.fields();
        assert(forall|i: int|
            0 <= i < vs.len() ==> fv_wf(#[trigger] vs[i]) && ks[i] == fv_kind(vs[i]));
        lemma_dec_enc_msg(ks, vs);
    }

    proof fn truncated(&self) {
        let ks = Self::schema();
        let vs = self.fields();
        assert(forall|i: int|
            0 <= i < vs.len() ==> fv_wf(#[trigger] vs[i]) && ks[i] == fv_kind(vs[i]));
        lemma_msg_truncated(ks, vs);
    }

    proof fn extended(&self, x: u8) {
        let ks = Self::schema();
        let vs = self.fields();
        assert(forall|i: int|
            0 <= i < vs.len() ==> fv_wf(#[trigger] vs[i]) && ks[i] == fv_kind(vs[i]));
        lemma_msg_extended(ks, vs, x);
    }
}

/// Bind `fid` to the root of the file tree `aname` as user `uname`.
#[derive(Clone, Debug, Default)]
pub struct TAttach {
    pub fid: Fid,
    pub afid: Fid,
    pub uname: PString,
    pub aname: PString,
}

impl TAttach {
    pub open spec fn schema() -> Seq<Fk> {
        seq![Fk::U32, Fk::U32, Fk::Str, Fk::Str]
    }

    pub open spec fn fields(&self) -> Seq<Fv> {
        seq![Fv::U32(self.fid.0), Fv::U32(self.afid.0), Fv::Str(self.uname@), Fv::Str(self.aname@)]
    }
}

impl Message for TAttach {
    open spec fn wf(&self) -> bool {
        self.uname.wf() && self.aname.wf()
    }

    open spec fn body(&self) -> Seq<u8> {
        enc_fvs(self.fields())
    }

    open spec fn mtype() -> u8 {
        104
    }

    open spec fn parse_ok(b: Seq<u8>) -> bool {
        dec_msg(Self::schema(), b) is Ok
    }

    open spec fn parse_err(b: Seq<u8>) -> Error {
        match dec_msg(Self::schema(), b) {
            Ok(_) => arbitrary(),
            Err(e) => e,
        }
    }

    open spec fn from_body(&self, b: Seq<u8>) -> bool {
        dec_msg(Self::schema(), b) == Ok::<_, Error>(self.fields())
    }

    fn code() -> u8 {
        104
    }

    fn size(&self) -> (n: usize) {
        proof {
            lemma_enc_fvs4(Fv::U32(self.fid.0), Fv::U32(self.afid.0), Fv::Str(self.uname@), Fv::Str(self.aname@));
        }
        12 + self.uname.len() + self.aname.len()
    }

    fn encode(&self) -> (out: Vec<u8>) {
        let mut out: Vec<u8> = Vec::new();
        proof {
            lemma_enc_fvs4(Fv::U32(self.fid.0), Fv::U32(self.afid.0), Fv::Str(self.uname@), Fv::Str(self.aname@));
        }
        put_u32(&mut out, self.fid.0);
        put_u32(&mut out, self.afid.0);
        put_str(&mut out, &self.uname);
        put_str(&mut out, &self.aname);
        proof {
            assert(out@ =~= self.body());
        }
        out
    }

    fn parse(body: &[u8]) -> (r: Result<Self, Error>) {
        let ghost ks0 = seq![Fk::U32, Fk::U32, Fk::Str, Fk::Str];
        let ghost ks1 = seq![Fk::U32, Fk::Str, Fk::Str];
        let ghost ks2 = seq![Fk::Str, Fk::Str];
        let ghost ks3 = seq![Fk::Str];
        proof {
            assert(ks0.skip(1) =~= ks1);
            assert(ks1.skip(1) =~= ks2);
            assert(ks2.skip(1) =~= ks3);
            assert(ks3.skip(1) =~= Seq::<Fk>::empty());
            assert(body@.skip(0) =~= body@);
            lemma_dec_fields_step(ks0, body@);
        }
        let (fid_raw, p1) = match take_u32(body, 0) {
            Ok(x) => x,
            Err(e) => {
                return Err(e);
            },
        };
        proof {
            lemma_dec_fields_step(ks1, body@.skip(p1 as int));
        }
        let (afid_raw, p2) = match take_u32(body, p1) {
            Ok(x) => x,
            Err(e) => {
                return Err(e);
            },
        };
        proof {
            lemma_dec_fields_step(ks2, body@.skip(p2 as int));
        }
        let (uname, p3) = match take_str(body, p2) {
            Ok(x) => x,
            Err(e) => {
                return Err(e);
            },
        };
        proof {
            lemma_dec_fields_step(ks3, body@.skip(p3 as int));
        }
        let (aname, p4) = match take_str(body, p3) {
            Ok(x) => x,
            Err(e) => {
                return Err(e);
            },
        };
        if p4 != body.len() {
            proof {
                lemma_dec_fields_nil(body@.skip(p4 as int));
            }
            return Err(Error::MessageLength);
        }
        let m = TAttach { fid: Fid(fid_raw), afid: Fid(afid_raw), uname, aname };
        proof {
            lemma_dec_fields_nil(body@.skip(p4 as int));
            assert(dec_fields(ks0, body@) matches Ok((got, rest)) && got =~= seq![Fv::U32(m.fid.0), Fv::U32(m.afid.0), Fv::Str(m.uname@), Fv::Str(m.aname@)]
                && rest.len() == 0);
        }
        Ok(m)
    }

    proof fn round_trip(&self) {
        let ks = Self::schema();
        let vs = self.fields();
        assert(forall|i: int|
            0 <= i < vs.len() ==> fv_wf(#[trigger] vs[i]) && ks[i] == fv_kind(vs[i]));
        lemma_dec_enc_msg(ks, vs);
    }

    proof fn truncated(&self) {
        let ks = Self::schema();
        let vs = self.fields();
        assert(forall|i: int|
            0 <= i < vs.len() ==> fv_wf(#[trigger] vs[i]) && ks[i] == fv_kind(vs[i]));
        lemma_msg_truncated(ks, vs);
    }

    proof fn extended(&self, x: u8) {
        let ks = Self::schema();
        let vs = self.fields();
        assert(forall|i: int|
            0 <= i < vs.len() ==> fv_wf(#[trigger] vs[i]) && ks[i] == fv_kind(vs[i]));
        lemma_msg_extended(ks, vs, x);
    }
}

/// The identifier of the attached root.
#[derive(Clone, Debug, Default)]
pub struct RAttach {
    pub qid: Qid,
}

impl RAttach {
    pub open spec fn schema() -> Seq<Fk> {
        seq![Fk::Qid]
    }

    pub open spec fn fields(&self) -> Seq<Fv> {
        seq![Fv::Qid(self.qid)]
    }
}

impl Message for RAttach {
    open spec fn wf(&self) -> bool {
        true
    }

    open spec fn body(&self) -> Seq<u8> {
        enc_fvs(self.fields())
    }

    open spec fn mtype() -> u8 {
        105
    }

    open spec fn parse_ok(b: Seq<u8>) -> bool {
        dec_msg(Self::schema(), b) is Ok
    }

    open spec fn parse_err(b: Seq<u8>) -> Error {
        match dec_msg(Self::schema(), b) {
            Ok(_) => arbitrary(),
            Err(e) => e,
        }
    }

    open spec fn from_body(&self, b: Seq<u8>) -> bool {
        dec_msg(Self::schema(), b) == Ok::<_, Error>(self.fields())
    }

    fn code() -> u8 {
        105
    }

    fn size(&self) -> (n: usize) {
        proof {
            lemma_enc_fvs1(Fv::Qid(self.qid));
        }
        13
    }

    fn encode(&self) -> (out: Vec<u8>) {
        let mut out: Vec<u8> = Vec::new();
        proof {
            lemma_enc_fvs1(Fv::Qid(self.qid));
        }
        put_qid(&mut out, &self.qid);
        proof {
            assert(out@ =~= self.body());
        }
        out
    }

    fn parse(body: &[u8]) -> (r: Result<Self, Error>) {
        let ghost ks0 = seq![Fk::Qid];
        proof {
            assert(ks0.skip(1) =~= Seq::<Fk>::empty());
            assert(body@.skip(0) =~= body@);
            lemma_dec_fields_step(ks0, body@);
        }
        let (qid, p1) = match take_qid(body, 0) {
            Ok(x) => x,
            Err(e) => {
                return Err(e);
            },
        };
        if p1 != body.len() {
            proof {
                lemma_dec_fields_nil(body@.skip(p1 as int));
            }
            return Err(Error::MessageLength);
        }
        let m = RAttach { qid };
        proof {
            lemma_dec_fields_nil(body@.skip(p1 as int));
            assert(dec_fields(ks0, body@) matches Ok((got, rest)) && got =~= seq![Fv::Qid(m.qid)]
                && rest.len() == 0);
        }
        Ok(m)
    }

    proof fn round_trip(&self) {
        let ks = Self::schema();
        let vs = self.fields();
        assert(forall|i: int|
            0 <= i < vs.len() ==> fv_wf(#[trigger] vs[i]) && ks[i] == fv_kind(vs[i]));
        lemma_dec_enc_msg(ks, vs);
    }

    proof fn truncated(&self) {
        let ks = Self::schema();
        let vs = self.fields();
        assert(forall|i: int|
            0 <= i < vs.len() ==> fv_wf(#[trigger] vs[i]) && ks[i] == fv_kind(vs[i]));
        lemma_msg_truncated(ks, vs);
    }

    proof fn extended(&self, x: u8) {
        let ks = Self::schema();
        let vs = self.fields();
        assert(forall|i: int|
            0 <= i < vs.len() ==> fv_wf(#[trigger] vs[i]) && ks[i] == fv_kind(vs[i]));
        lemma_msg_extended(ks, vs, x);
    }
}

/// The server's refusal of a request: a human-readable diagnostic. Under
/// the UNIX extensions a server may append a 4-byte errno, which this
/// client accepts and discards; the serializer writes none.
#[derive(Clone, Debug, Default)]
pub struct RError {
    pub ename: PString,
}

/// Decode an `RError` body: the diagnostic, with nothing after it or
/// exactly the 4-byte errno of the UNIX extensions.
pub open spec fn dec_rerror(b: Seq<u8>) -> Result<Seq<u8>, Error> {
    match dec_str(b) {
        Ok((s, r)) => if r.len() == 0 || r.len() == 4 {
            Ok(s)
        } else {
            Err(Error::MessageLength)
        },
        Err(e) => Err(e),
    }
}

impl Message for RError {
    open spec fn wf(&self) -> bool {
        self.ename.wf()
    }

    open spec fn body(&self) -> Seq<u8> {
        enc_str(self.ename@)
    }

    open spec fn mtype() -> u8 {
        107
    }

    open spec fn parse_ok(b: Seq<u8>) -> bool {
        dec_rerror(b) is Ok
    }

    open spec fn parse_err(b: Seq<u8>) -> Error {
        match dec_rerror(b) {
            Ok(_) => arbitrary(),
            Err(e) => e,
        }
    }

    open spec fn from_body(&self, b: Seq<u8>) -> bool {
        dec_rerror(b) == Ok::<_, Error>(self.ename@)
    }

    fn code() -> u8 {
        107
    }

    fn size(&self) -> (n: usize) {
        2 + self.ename.len()
    }

    fn encode(&self) -> (out: Vec<u8>) {
        let mut out: Vec<u8> = Vec::new();
        put_str(&mut out, &self.ename);
        out
    }

    fn parse(body: &[u8]) -> (r: Result<Self, Error>) {
        let (ename, p) = match take_str(body, 0) {
            Ok(x) => x,
            Err(e) => {
                proof {
                    assert(body@.skip(0) =~= body@);
                }
                return Err(e);
            },
        };
        proof {
            assert(body@.skip(0) =~= body@);
        }
        let rest = body.len() - p;
        if rest == 0 || rest == 4 {
            Ok(RError { ename })
        } else {
            Err(Error::MessageLength)
        }
    }

    proof fn round_trip(&self) {
        lemma_dec_enc_str(self.ename@, Seq::empty());
        assert(enc_str(self.ename@) + Seq::<u8>::empty() =~= enc_str(self.ename@));
    }

    proof fn truncated(&self) {
        lemma_str_trunc(self.ename@);
    }

    proof fn extended(&self, x: u8) {
        assert(self.body().push(x) =~= enc_str(self.ename@) + seq![x]);
        lemma_dec_enc_str(self.ename@, seq![x]);
    }
}

/// Ask the server to forget the request sent under `oldtag`. The pair is on the wire, though the
/// synchronous engine never pipelines and so never sends it.
#[derive(Clone, Debug, Default)]
pub struct TFlush {
    pub oldtag: u16,
}

impl TFlush {
    pub open spec fn schema() -> Seq<Fk> {
        seq![Fk::U16]
    }

    pub open spec fn fields(&self) -> Seq<Fv> {
        seq![Fv::U16(self.oldtag)]
    }
}

impl Message for TFlush {
    open spec fn wf(&self) -> bool {
        true
    }

    open spec fn body(&self) -> Seq<u8> {
        enc_fvs(self.fields())
    }

    open spec fn mtype() -> u8 {
        108
    }

    open spec fn parse_ok(b: Seq<u8>) -> bool {
        dec_msg(Self::schema(), b) is Ok
    }

    open spec fn parse_err(b: Seq<u8>) -> Error {
        match dec_msg(Self::schema(), b) {
            Ok(_) => arbitrary(),
            Err(e) => e,
        }
    }

    open spec fn from_body(&self, b: Seq<u8>) -> bool {
        dec_msg(Self::schema(), b) == Ok::<_, Error>(self.fields())
    }

    fn code() -> u8 {
        108
    }

    fn size(&self) -> (n: usize) {
        proof {
            lemma_enc_fvs1(Fv::U16(self.oldtag));
        }
        2
    }

    fn encode(&self) -> (out: Vec<u8>) {
        let mut out: Vec<u8> = Vec::new();
        proof {
            lemma_enc_fvs1(Fv::U16(self.oldtag));
        }
        put_u16(&mut out, self.oldtag);
        proof {
            assert(out@ =~= self.body());
        }
        out
    }

    fn parse(body: &[u8]) -> (r: Result<Self, Error>) {
        let ghost ks0 = seq![Fk::U16];
        proof {
            assert(ks0.skip(1) =~= Seq::<Fk>::empty());
            assert(body@.skip(0) =~= body@);
            lemma_dec_fields_step(ks0, body@);
        }
        let (oldtag, p1) = match take_u16(body, 0) {
            Ok(x) => x,
            Err(e) => {
                return Err(e);
            },
        };
        if p1 != body.len() {
            proof {
                lemma_dec_fields_nil(body@.skip(p1 as int));
            }
            return Err(Error::MessageLength);
        }
        let m = TFlush { oldtag };
        proof {
            lemma_dec_fields_nil(body@.skip(p1 as int));
            assert(dec_fields(ks0, body@) matches Ok((got, rest)) && got =~= seq![Fv::U16(m.oldtag)]
                && rest.len() == 0);
        }
        Ok(m)
    }

    proof fn round_trip(&self) {
        let ks = Self::schema();
        let vs = self.fields();
        assert(forall|i: int|
            0 <= i < vs.len() ==> fv_wf(#[trigger] vs[i]) && ks[i] == fv_kind(vs[i]));
        lemma_dec_enc_msg(ks, vs);
    }

    proof fn truncated(&self) {
        let ks = Self::schema();
        let vs = self.fields();
        assert(forall|i: int|
            0 <= i < vs.len() ==> fv_wf(#[trigger] vs[i]) && ks[i] == fv_kind(vs[i]));
        lemma_msg_truncated(ks, vs);
    }

    proof fn extended(&self, x: u8) {
        let ks = Self::schema();
        let vs = self.fields();
        assert(forall|i: int|
            0 <= i < vs.len() ==> fv_wf(#[trigger] vs[i]) && ks[i] == fv_kind(vs[i]));
        lemma_msg_extended(ks, vs, x);
    }
}

/// The flush is done; its body is empty.
#[derive(Clone, Debug, Default)]
pub struct RFlush;

impl RFlush {
    pub open spec fn schema() -> Seq<Fk> {
        Seq::<Fk>::empty()
    }

    pub open spec fn fields(&self) -> Seq<Fv> {
        Seq::<Fv>::empty()
    }
}

impl Message for RFlush {
    open spec fn wf(&self) -> bool {
        true
    }

    open spec fn body(&self) -> Seq<u8> {
        enc_fvs(self.fields())
    }

    open spec fn mtype() -> u8 {
        109
    }

    open spec fn parse_ok(b: Seq<u8>) -> bool {
        dec_msg(Self::schema(), b) is Ok
    }

    open spec fn parse_err(b: Seq<u8>) -> Error {
        match dec_msg(Self::schema(), b) {
            Ok(_) => arbitrary(),
            Err(e) => e,
        }
    }

    open spec fn from_body(&self, b: Seq<u8>) -> bool {
        dec_msg(Self::schema(), b) == Ok::<_, Error>(self.fields())
    }

    fn code() -> u8 {
        109
    }

    fn size(&self) -> (n: usize) {
        proof {
            assert(self.body().len() == 0);
        }
        0
    }

    fn encode(&self) -> (out: Vec<u8>) {
        let mut out: Vec<u8> = Vec::new();
        proof {
            assert(out@ =~= self.body());
        }
        out
    }

    fn parse(body: &[u8]) -> (r: Result<Self, Error>) {
        if body.len() == 0 {
            Ok(RFlush)
        } else {
            Err(Error::MessageLength)
        }
    }

    proof fn round_trip(&self) {
    }

    proof fn truncated(&self) {
    }

    proof fn extended(&self, x: u8) {
        assert(self.body().push(x).len() == 1);
    }
}

/// Clone `fid` to `newfid`, then descend through the named components. The protocol caps one walk
/// at sixteen names; longer paths take several walks.
#[derive(Clone, Debug, Default)]
pub struct TWalk {
    pub fid: Fid,
    pub newfid: Fid,
    pub wnames: Vec<PString>,
}

impl TWalk {
    pub open spec fn schema() -> Seq<Fk> {
        seq![Fk::U32, Fk::U32, Fk::NameList]
    }

    pub open spec fn fields(&self) -> Seq<Fv> {
        seq![Fv::U32(self.fid.0), Fv::U32(self.newfid.0), Fv::NameList(names_view(self.wnames@))]
    }
}

impl Message for TWalk {
    open spec fn wf(&self) -> bool {
        self.wnames@.len() <= 0xffff && (forall|i: int| 0 <= i < self.wnames@.len() ==> (#[trigger] self.wnames@[i]).wf())
    }

    open spec fn body(&self) -> Seq<u8> {
        enc_fvs(self.fields())
    }

    open spec fn mtype() -> u8 {
        110
    }

    open spec fn parse_ok(b: Seq<u8>) -> bool {
        dec_msg(Self::schema(), b) is Ok
    }

    open spec fn parse_err(b: Seq<u8>) -> Error {
        match dec_msg(Self::schema(), b) {
            Ok(_) => arbitrary(),
            Err(e) => e,
        }
    }

    open spec fn from_body(&self, b: Seq<u8>) -> bool {
        dec_msg(Self::schema(), b) == Ok::<_, Error>(self.fields())
    }

    fn code() -> u8 {
        110
    }

    fn size(&self) -> (n: usize) {
        proof {
            lemma_enc_fvs3(Fv::U32(self.fid.0), Fv::U32(self.newfid.0), Fv::NameList(names_view(self.wnames@)));
        }
        let ghost nv = names_view(self.wnames@);
        let mut n: usize = 10;
        let mut i: usize = 0;
        proof {
            assert(nv.take(0) =~= Seq::<Seq<u8>>::empty());
        }
        while i < self.wnames.len()
            invariant
                i <= self.wnames@.len(),
                nv == names_view(self.wnames@),
                self.wf(),
                self.body().len() == 10 + enc_names(nv).len(),
                self.body().len() <= usize::MAX,
                n == 10 + enc_names(nv.take(i as int)).len(),
            decreases self.wnames@.len() - i,
        {
            proof {
                assert(nv.take(i + 1) =~= nv.take(i as int).push(nv[i as int]));
                lemma_enc_names_push(nv.take(i as int), nv[i as int]);
                assert(nv =~= nv.take(i + 1) + nv.skip(i + 1));
                lemma_enc_names_concat(nv.take(i + 1), nv.skip(i + 1));
            }
            n = n + 2 + self.wnames[i].len();
            i = i + 1;
        }
        proof {
            assert(nv.take(self.wnames@.len() as int) =~= nv);
        }
        n
    }

    fn encode(&self) -> (out: Vec<u8>) {
        let mut out: Vec<u8> = Vec::new();
        proof {
            lemma_enc_fvs3(Fv::U32(self.fid.0), Fv::U32(self.newfid.0), Fv::NameList(names_view(self.wnames@)));
        }
        put_u32(&mut out, self.fid.0);
        put_u32(&mut out, self.newfid.0);
        put_names(&mut out, &self.wnames);
        proof {
            assert(out@ =~= self.body());
        }
        out
    }

    fn parse(body: &[u8]) -> (r: Result<Self, Error>) {
        let ghost ks0 = seq![Fk::U32, Fk::U32, Fk::NameList];
        let ghost ks1 = seq![Fk::U32, Fk::NameList];
        let ghost ks2 = seq![Fk::NameList];
        proof {
            assert(ks0.skip(1) =~= ks1);
            assert(ks1.skip(1) =~= ks2);
            assert(ks2.skip(1) =~= Seq::<Fk>::empty());
            assert(body@.skip(0) =~= body@);
            lemma_dec_fields_step(ks0, body@);
        }
        let (fid_raw, p1) = match take_u32(body, 0) {
            Ok(x) => x,
            Err(e) => {
                return Err(e);
            },
        };
        proof {
            lemma_dec_fields_step(ks1, body@.skip(p1 as int));
        }
        let (newfid_raw, p2) = match take_u32(body, p1) {
            Ok(x) => x,
            Err(e) => {
                return Err(e);
            },
        };
        proof {
            lemma_dec_fields_step(ks2, body@.skip(p2 as int));
        }
        let (wnames, p3) = match take_names(body, p2) {
            Ok(x) => x,
            Err(e) => {
                return Err(e);
            },
        };
        if p3 != body.len() {
            proof {
                lemma_dec_fields_nil(body@.skip(p3 as int));
            }
            return Err(Error::MessageLength);
        }
        let m = TWalk { fid: Fid(fid_raw), newfid: Fid(newfid_raw), wnames };
        proof {
            lemma_dec_fields_nil(body@.skip(p3 as int));
            assert(dec_fields(ks0, body@) matches Ok((got, rest)) && got =~= seq![Fv::U32(m.fid.0), Fv::U32(m.newfid.0), Fv::NameList(names_view(m.wnames@))]
                && rest.len() == 0);
        }
        Ok(m)
    }

    proof fn round_trip(&self) {
        let ks = Self::schema();
        let vs = self.fields();
        assert(forall|i: int|
            0 <= i < vs.len() ==> fv_wf(#[trigger] vs[i]) && ks[i] == fv_kind(vs[i]));
        lemma_dec_enc_msg(ks, vs);
    }

    proof fn truncated(&self) {
        let ks = Self::schema();
        let vs = self.fields();
        assert(forall|i: int|
            0 <= i < vs.len() ==> fv_wf(#[trigger] vs[i]) && ks[i] == fv_kind(vs[i]));
        lemma_msg_truncated(ks, vs);
    }

    proof fn extended(&self, x: u8) {
        let ks = Self::schema();
        let vs = self.fields();
        assert(forall|i: int|
            0 <= i < vs.len() ==> fv_wf(#[trigger] vs[i]) && ks[i] == fv_kind(vs[i]));
        lemma_msg_extended(ks, vs, x);
    }
}

/// One identifier per component traversed. Fewer identifiers than names means the walk stopped at
/// the first missing component and `newfid` was not bound.
#[derive(Clone, Debug, Default)]
pub struct RWalk {
    pub qids: Vec<Qid>,
}

impl RWalk {
    pub open spec fn schema() -> Seq<Fk> {
        seq![Fk::QidList]
    }

    pub open spec fn fields(&self) -> Seq<Fv> {
        seq![Fv::QidList(self.qids@)]
    }
}

impl Message for RWalk {
    open spec fn wf(&self) -> bool {
        self.qids@.len() <= 0xffff
    }

    open spec fn body(&self) -> Seq<u8> {
        enc_fvs(self.fields())
    }

    open spec fn mtype() -> u8 {
        111
    }

    open spec fn parse_ok(b: Seq<u8>) -> bool {
        dec_msg(Self::schema(), b) is Ok
    }

    open spec fn parse_err(b: Seq<u8>) -> Error {
        match dec_msg(Self::schema(), b) {
            Ok(_) => arbitrary(),
            Err(e) => e,
        }
    }

    open spec fn from_body(&self, b: Seq<u8>) -> bool {
        dec_msg(Self::schema(), b) == Ok::<_, Error>(self.fields())
    }

    fn code() -> u8 {
        111
    }

    fn size(&self) -> (n: usize) {
        proof {
            lemma_enc_fvs1(Fv::QidList(self.qids@));
            lemma_enc_qids_len(self.qids@);
        }
        2 + 13 * self.qids.len()
    }

    fn encode(&self) -> (out: Vec<u8>) {
        let mut out: Vec<u8> = Vec::new();
        proof {
            lemma_enc_fvs1(Fv::QidList(self.qids@));
        }
        put_qids(&mut out, &self.qids);
        proof {
            assert(out@ =~= self.body());
        }
        out
    }

    fn parse(body: &[u8]) -> (r: Result<Self, Error>) {
        let ghost ks0 = seq![Fk::QidList];
        proof {
            assert(ks0.skip(1) =~= Seq::<Fk>::empty());
            assert(body@.skip(0) =~= body@);
            lemma_dec_fields_step(ks0, body@);
        }
        let (qids, p1) = match take_qids(body, 0) {
            Ok(x) => x,
            Err(e) => {
                return Err(e);
            },
        };
        if p1 != body.len() {
            proof {
                lemma_dec_fields_nil(body@.skip(p1 as int));
            }
            return Err(Error::MessageLength);
        }
        let m = RWalk { qids };
        proof {
            lemma_dec_fields_nil(body@.skip(p1 as int));
            assert(dec_fields(ks0, body@) matches Ok((got, rest)) && got =~= seq![Fv::QidList(m.qids@)]
                && rest.len() == 0);
        }
        Ok(m)
    }

    proof fn round_trip(&self) {
        let ks = Self::schema();
        let vs = self.fields();
        assert(forall|i: int|
            0 <= i < vs.len() ==> fv_wf(#[trigger] vs[i]) && ks[i] == fv_kind(vs[i]));
        lemma_dec_enc_msg(ks, vs);
    }

    proof fn truncated(&self) {
        let ks = Self::schema();
        let vs = self.fields();
        assert(forall|i: int|
            0 <= i < vs.len() ==> fv_wf(#[trigger] vs[i]) && ks[i] == fv_kind(vs[i]));
        lemma_msg_truncated(ks, vs);
    }

    proof fn extended(&self, x: u8) {
        let ks = Self::schema();
        let vs = self.fields();
        assert(forall|i: int|
            0 <= i < vs.len() ==> fv_wf(#[trigger] vs[i]) && ks[i] == fv_kind(vs[i]));
        lemma_msg_extended(ks, vs, x);
    }
}

/// Open `fid`; the low bits of `mode` choose read, write, both or execute, OR-ed with 0x10 to
/// truncate and 0x40 to remove on clunk.
#[derive(Clone, Debug, Default)]
pub struct TOpen {
    pub fid: Fid,
    pub mode: u8,
}

impl TOpen {
    pub open spec fn schema() -> Seq<Fk> {
        seq![Fk::U32, Fk::U8]
    }

    pub open spec fn fields(&self) -> Seq<Fv> {
        seq![Fv::U32(self.fid.0), Fv::U8(self.mode)]
    }
}

impl Message for TOpen {
    open spec fn wf(&self) -> bool {
        true
    }

    open spec fn body(&self) -> Seq<u8> {
        enc_fvs(self.fields())
    }

    open spec fn mtype() -> u8 {
        112
    }

    open spec fn parse_ok(b: Seq<u8>) -> bool {
        dec_msg(Self::schema(), b) is Ok
    }

    open spec fn parse_err(b: Seq<u8>) -> Error {
        match dec_msg(Self::schema(), b) {
            Ok(_) => arbitrary(),
            Err(e) => e,
        }
    }

    open spec fn from_body(&self, b: Seq<u8>) -> bool {
        dec_msg(Self::schema(), b) == Ok::<_, Error>(self.fields())
    }

    fn code() -> u8 {
        112
    }

    fn size(&self) -> (n: usize) {
        proof {
            lemma_enc_fvs2(Fv::U32(self.fid.0), Fv::U8(self.mode));
        }
        5
    }

    fn encode(&self) -> (out: Vec<u8>) {
        let mut out: Vec<u8> = Vec::new();
        proof {
            lemma_enc_fvs2(Fv::U32(self.fid.0), Fv::U8(self.mode));
        }
        put_u32(&mut out, self.fid.0);
        out.push(self.mode);
        proof {
            assert(out@ =~= self.body());
        }
        out
    }

    fn parse(body: &[u8]) -> (r: Result<Self, Error>) {
        let ghost ks0 = seq![Fk::U32, Fk::U8];
        let ghost ks1 = seq![Fk::U8];
        proof {
            assert(ks0.skip(1) =~= ks1);
            assert(ks1.skip(1) =~= Seq::<Fk>::empty());
            assert(body@.skip(0) =~= body@);
            lemma_dec_fields_step(ks0, body@);
        }
        let (fid_raw, p1) = match take_u32(body, 0) {
            Ok(x) => x,
            Err(e) => {
                return Err(e);
            },
        };
        proof {
            lemma_dec_fields_step(ks1, body@.skip(p1 as int));
        }
        let (mode, p2) = match take_u8(body, p1) {
            Ok(x) => x,
            Err(e) => {
                return Err(e);
            },
        };
        if p2 != body.len() {
            proof {
                lemma_dec_fields_nil(body@.skip(p2 as int));
            }
            return Err(Error::MessageLength);
        }
        let m = TOpen { fid: Fid(fid_raw), mode };
        proof {
            lemma_dec_fields_nil(body@.skip(p2 as int));
            assert(dec_fields(ks0, body@) matches Ok((got, rest)) && got =~= seq![Fv::U32(m.fid.0), Fv::U8(m.mode)]
                && rest.len() == 0);
        }
        Ok(m)
    }

    proof fn round_trip(&self) {
        let ks = Self::schema();
        let vs = self.fields();
        assert(forall|i: int|
            0 <= i < vs.len() ==> fv_wf(#[trigger] vs[i]) && ks[i] == fv_kind(vs[i]));
        lemma_dec_enc_msg(ks, vs);
    }

    proof fn truncated(&self) {
        let ks = Self::schema();
        let vs = self.fields();
        assert(forall|i: int|
            0 <= i < vs.len() ==> fv_wf(#[trigger] vs[i]) && ks[i] == fv_kind(vs[i]));
        lemma_msg_truncated(ks, vs);
    }

    proof fn extended(&self, x: u8) {
        let ks = Self::schema();
        let vs = self.fields();
        assert(forall|i: int|
            0 <= i < vs.len() ==> fv_wf(#[trigger] vs[i]) && ks[i] == fv_kind(vs[i]));
        lemma_msg_extended(ks, vs, x);
    }
}

/// The opened file's identifier and the largest atomic transfer (`iounit`, 0 when the server leaves
/// it unsaid).
#[derive(Clone, Debug, Default)]
pub struct ROpen {
    pub qid: Qid,
    pub iounit: u32,
}

impl ROpen {
    pub open spec fn schema() -> Seq<Fk> {
        seq![Fk::Qid, Fk::U32]
    }

    pub open spec fn fields(&self) -> Seq<Fv> {
        seq![Fv::Qid(self.qid), Fv::U32(self.iounit)]
    }
}

impl Message for ROpen {
    open spec fn wf(&self) -> bool {
        true
    }

    open spec fn body(&self) -> Seq<u8> {
        enc_fvs(self.fields())
    }

    open spec fn mtype() -> u8 {
        113
    }

    open spec fn parse_ok(b: Seq<u8>) -> bool {
        dec_msg(Self::schema(), b) is Ok
    }

    open spec fn parse_err(b: Seq<u8>) -> Error {
        match dec_msg(Self::schema(), b) {
            Ok(_) => arbitrary(),
            Err(e) => e,
        }
    }

    open spec fn from_body(&self, b: Seq<u8>) -> bool {
        dec_msg(Self::schema(), b) == Ok::<_, Error>(self.fields())
    }

    fn code() -> u8 {
        113
    }

    fn size(&self) -> (n: usize) {
        proof {
            lemma_enc_fvs2(Fv::Qid(self.qid), Fv::U32(self.iounit));
        }
        17
    }

    fn encode(&self) -> (out: Vec<u8>) {
        let mut out: Vec<u8> = Vec::new();
        proof {
            lemma_enc_fvs2(Fv::Qid(self.qid), Fv::U32(self.iounit));
        }
        put_qid(&mut out, &self.qid);
        put_u32(&mut out, self.iounit);
        proof {
            assert(out@ =~= self.body());
        }
        out
    }

    fn parse(body: &[u8]) -> (r: Result<Self, Error>) {
        let ghost ks0 = seq![Fk::Qid, Fk::U32];
        let ghost ks1 = seq![Fk::U32];
        proof {
            assert(ks0.skip(1) =~= ks1);
            assert(ks1.skip(1) =~= Seq::<Fk>::empty());
            assert(body@.skip(0) =~= body@);
            lemma_dec_fields_step(ks0, body@);
        }
        let (qid, p1) = match take_qid(body, 0) {
            Ok(x) => x,
            Err(e) => {
                return Err(e);
            },
        };
        proof {
            lemma_dec_fields_step(ks1, body@.skip(p1 as int));
        }
        let (iounit, p2) = match take_u32(body, p1) {
            Ok(x) => x,
            Err(e) => {
                return Err(e);
            },
        };
        if p2 != body.len() {
            proof {
                lemma_dec_fields_nil(body@.skip(p2 as int));
            }
            return Err(Error::MessageLength);
        }
        let m = ROpen { qid, iounit };
        proof {
            lemma_dec_fields_nil(body@.skip(p2 as int));
            assert(dec_fields(ks0, body@) matches Ok((got, rest)) && got =~= seq![Fv::Qid(m.qid), Fv::U32(m.iounit)]
                && rest.len() == 0);
        }
        Ok(m)
    }

    proof fn round_trip(&self) {
        let ks = Self::schema();
        let vs = self.fields();
        assert(forall|i: int|
            0 <= i < vs.len() ==> fv_wf(#[trigger] vs[i]) && ks[i] == fv_kind(vs[i]));
        lemma_dec_enc_msg(ks, vs);
    }

    proof fn truncated(&self) {
        let ks = Self::schema();
        let vs = self.fields();
        assert(forall|i: int|
            0 <= i < vs.len() ==> fv_wf(#[trigger] vs[i]) && ks[i] == fv_kind(vs[i]));
        lemma_msg_truncated(ks, vs);
    }

    proof fn extended(&self, x: u8) {
        let ks = Self::schema();
        let vs = self.fields();
        assert(forall|i: int|
            0 <= i < vs.len() ==> fv_wf(#[trigger] vs[i]) && ks[i] == fv_kind(vs[i]));
        lemma_msg_extended(ks, vs, x);
    }
}

/// Create `name` in the directory `fid` with permission bits `perm`, then open it with `mode`.
#[derive(Clone, Debug, Default)]
pub struct TCreate {
    pub fid: Fid,
    pub name: PString,
    pub perm: u32,
    pub mode: u8,
}

impl TCreate {
    pub open spec fn schema() -> Seq<Fk> {
        seq![Fk::U32, Fk::Str, Fk::U32, Fk::U8]
    }

    pub open spec fn fields(&self) -> Seq<Fv> {
        seq![Fv::U32(self.fid.0), Fv::Str(self.name@), Fv::U32(self.perm), Fv::U8(self.mode)]
    }
}

impl Message for TCreate {
    open spec fn wf(&self) -> bool {
        self.name.wf()
    }

    open spec fn body(&self) -> Seq<u8> {
        enc_fvs(self.fields())
    }

    open spec fn mtype() -> u8 {
        114
    }

    open spec fn parse_ok(b: Seq<u8>) -> bool {
        dec_msg(Self::schema(), b) is Ok
    }

    open spec fn parse_err(b: Seq<u8>) -> Error {
        match dec_msg(Self::schema(), b) {
            Ok(_) => arbitrary(),
            Err(e) => e,
        }
    }

    open spec fn from_body(&self, b: Seq<u8>) -> bool {
        dec_msg(Self::schema(), b) == Ok::<_, Error>(self.fields())
    }

    fn code() -> u8 {
        114
    }

    fn size(&self) -> (n: usize) {
        proof {
            lemma_enc_fvs4(Fv::U32(self.fid.0), Fv::Str(self.name@), Fv::U32(self.perm), Fv::U8(self.mode));
        }
        11 + self.name.len()
    }

    fn encode(&self) -> (out: Vec<u8>) {
        let mut out: Vec<u8> = Vec::new();
        proof {
            lemma_enc_fvs4(Fv::U32(self.fid.0), Fv::Str(self.name@), Fv::U32(self.perm), Fv::U8(self.mode));
        }
        put_u32(&mut out, self.fid.0);
        put_str(&mut out, &self.name);
        put_u32(&mut out, self.perm);
        out.push(self.mode);
        proof {
            assert(out@ =~= self.body());
        }
        out
    }

    fn parse(body: &[u8]) -> (r: Result<Self, Error>) {
        let ghost ks0 = seq![Fk::U32, Fk::Str, Fk::U32, Fk::U8];
        let ghost ks1 = seq![Fk::Str, Fk::U32, Fk::U8];
        let ghost ks2 = seq![Fk::U32, Fk::U8];
        let ghost ks3 = seq![Fk::U8];
        proof {
            assert(ks0.skip(1) =~= ks1);
            assert(ks1.skip(1) =~= ks2);
            assert(ks2.skip(1) =~= ks3);
            assert(ks3.skip(1) =~= Seq::<Fk>::empty());
            assert(body@.skip(0) =~= body@);
            lemma_dec_fields_step(ks0, body@);
        }
        let (fid_raw, p1) = match take_u32(body, 0) {
            Ok(x) => x,
            Err(e) => {
                return Err(e);
            },
        };
        proof {
            lemma_dec_fields_step(ks1, body@.skip(p1 as int));
        }
        let (name, p2) = match take_str(body, p1) {
            Ok(x) => x,
            Err(e) => {
                return Err(e);
            },
        };
        proof {
            lemma_dec_fields_step(ks2, body@.skip(p2 as int));
        }
        let (perm, p3) = match take_u32(body, p2) {
            Ok(x) => x,
            Err(e) => {
                return Err(e);
            },
        };
        proof {
            lemma_dec_fields_step(ks3, body@.skip(p3 as int));
        }
        let (mode, p4) = match take_u8(body, p3) {
            Ok(x) => x,
            Err(e) => {
                return Err(e);
            },
        };
        if p4 != body.len() {
            proof {
                lemma_dec_fields_nil(body@.skip(p4 as int));
            }
            return Err(Error::MessageLength);
        }
        let m = TCreate { fid: Fid(fid_raw), name, perm, mode };
        proof {
            lemma_dec_fields_nil(body@.skip(p4 as int));
            assert(dec_fields(ks0, body@) matches Ok((got, rest)) && got =~= seq![Fv::U32(m.fid.0), Fv::Str(m.name@), Fv::U32(m.perm), Fv::U8(m.mode)]
                && rest.len() == 0);
        }
        Ok(m)
    }

    proof fn round_trip(&self) {
        let ks = Self::schema();
        let vs = self.fields();
        assert(forall|i: int|
            0 <= i < vs.len() ==> fv_wf(#[trigger] vs[i]) && ks[i] == fv_kind(vs[i]));
        lemma_dec_enc_msg(ks, vs);
    }

    proof fn truncated(&self) {
        let ks = Self::schema();
        let vs = self.fields();
        assert(forall|i: int|
            0 <= i < vs.len() ==> fv_wf(#[trigger] vs[i]) && ks[i] == fv_kind(vs[i]));
        lemma_msg_truncated(ks, vs);
    }

    proof fn extended(&self, x: u8) {
        let ks = Self::schema();
        let vs = self.fields();
        assert(forall|i: int|
            0 <= i < vs.len() ==> fv_wf(#[trigger] vs[i]) && ks[i] == fv_kind(vs[i]));
        lemma_msg_extended(ks, vs, x);
    }
}

/// The created file's identifier and its `iounit`.
#[derive(Clone, Debug, Default)]
pub struct RCreate {
    pub qid: Qid,
    pub iounit: u32,
}

impl RCreate {
    pub open spec fn schema() -> Seq<Fk> {
        seq![Fk::Qid, Fk::U32]
    }

    pub open spec fn fields(&self) -> Seq<Fv> {
        seq![Fv::Qid(self.qid), Fv::U32(self.iounit)]
    }
}

impl Message for RCreate {
    open spec fn wf(&self) -> bool {
        true
    }

    open spec fn body(&self) -> Seq<u8> {
        enc_fvs(self.fields())
    }

    open spec fn mtype() -> u8 {
        115
    }

    open spec fn parse_ok(b: Seq<u8>) -> bool {
        dec_msg(Self::schema(), b) is Ok
    }

    open spec fn parse_err(b: Seq<u8>) -> Error {
        match dec_msg(Self::schema(), b) {
            Ok(_) => arbitrary(),
            Err(e) => e,
        }
    }

    open spec fn from_body(&self, b: Seq<u8>) -> bool {
        dec_msg(Self::schema(), b) == Ok::<_, Error>(self.fields())
    }

    fn code() -> u8 {
        115
    }

    fn size(&self) -> (n: usize) {
        proof {
            lemma_enc_fvs2(Fv::Qid(self.qid), Fv::U32(self.iounit));
        }
        17
    }

    fn encode(&self) -> (out: Vec<u8>) {
        let mut out: Vec<u8> = Vec::new();
        proof {
            lemma_enc_fvs2(Fv::Qid(self.qid), Fv::U32(self.iounit));
        }
        put_qid(&mut out, &self.qid);
        put_u32(&mut out, self.iounit);
        proof {
            assert(out@ =~= self.body());
        }
        out
    }

    fn parse(body: &[u8]) -> (r: Result<Self, Error>) {
        let ghost ks0 = seq![Fk::Qid, Fk::U32];
        let ghost ks1 = seq![Fk::U32];
        proof {
            assert(ks0.skip(1) =~= ks1);
            assert(ks1.skip(1) =~= Seq::<Fk>::empty());
            assert(body@.skip(0) =~= body@);
            lemma_dec_fields_step(ks0, body@);
        }
        let (qid, p1) = match take_qid(body, 0) {
            Ok(x) => x,
            Err(e) => {
                return Err(e);
            },
        };
        proof {
            lemma_dec_fields_step(ks1, body@.skip(p1 as int));
        }
        let (iounit, p2) = match take_u32(body, p1) {
            Ok(x) => x,
            Err(e) => {
                return Err(e);
            },
        };
        if p2 != body.len() {
            proof {
                lemma_dec_fields_nil(body@.skip(p2 as int));
            }
            return Err(Error::MessageLength);
        }
        let m = RCreate { qid, iounit };
        proof {
            lemma_dec_fields_nil(body@.skip(p2 as int));
            assert(dec_fields(ks0, body@) matches Ok((got, rest)) && got =~= seq![Fv::Qid(m.qid), Fv::U32(m.iounit)]
                && rest.len() == 0);
        }
        Ok(m)
    }

    proof fn round_trip(&self) {
        let ks = Self::schema();
        let vs = self.fields();
        assert(forall|i: int|
            0 <= i < vs.len() ==> fv_wf(#[trigger] vs[i]) && ks[i] == fv_kind(vs[i]));
        lemma_dec_enc_msg(ks, vs);
    }

    proof fn truncated(&self) {
        let ks = Self::schema();
        let vs = self.fields();
        assert(forall|i: int|
            0 <= i < vs.len() ==> fv_wf(#[trigger] vs[i]) && ks[i] == fv_kind(vs[i]));
        lemma_msg_truncated(ks, vs);
    }

    proof fn extended(&self, x: u8) {
        let ks = Self::schema();
        let vs = self.fields();
        assert(forall|i: int|
            0 <= i < vs.len() ==> fv_wf(#[trigger] vs[i]) && ks[i] == fv_kind(vs[i]));
        lemma_msg_extended(ks, vs, x);
    }
}

/// Read `count` bytes at `offset` from `fid`. A directory read must continue where the last one
/// stopped, or restart at offset 0.
#[derive(Clone, Debug, Default)]
pub struct TRead {
    pub fid: Fid,
    pub offset: u64,
    pub count: u32,
}

impl TRead {
    pub open spec fn schema() -> Seq<Fk> {
        seq![Fk::U32, Fk::U64, Fk::U32]
    }

    pub open spec fn fields(&self) -> Seq<Fv> {
        seq![Fv::U32(self.fid.0), Fv::U64(self.offset), Fv::U32(self.count)]
    }
}

impl Message for TRead {
    open spec fn wf(&self) -> bool {
        true
    }

    open spec fn body(&self) -> Seq<u8> {
        enc_fvs(self.fields())
    }

    open spec fn mtype() -> u8 {
        116
    }

    open spec fn parse_ok(b: Seq<u8>) -> bool {
        dec_msg(Self::schema(), b) is Ok
    }

    open spec fn parse_err(b: Seq<u8>) -> Error {
        match dec_msg(Self::schema(), b) {
            Ok(_) => arbitrary(),
            Err(e) => e,
        }
    }

    open spec fn from_body(&self, b: Seq<u8>) -> bool {
        dec_msg(Self::schema(), b) == Ok::<_, Error>(self.fields())
    }

    fn code() -> u8 {
        116
    }

    fn size(&self) -> (n: usize) {
        proof {
            lemma_enc_fvs3(Fv::U32(self.fid.0), Fv::U64(self.offset), Fv::U32(self.count));
        }
        16
    }

    fn encode(&self) -> (out: Vec<u8>) {
        let mut out: Vec<u8> = Vec::new();
        proof {
            lemma_enc_fvs3(Fv::U32(self.fid.0), Fv::U64(self.offset), Fv::U32(self.count));
        }
        put_u32(&mut out, self.fid.0);
        put_u64(&mut out, self.offset);
        put_u32(&mut out, self.count);
        proof {
            assert(out@ =~= self.body());
        }
        out
    }

    fn parse(body: &[u8]) -> (r: Result<Self, Error>) {
        let ghost ks0 = seq![Fk::U32, Fk::U64, Fk::U32];
        let ghost ks1 = seq![Fk::U64, Fk::U32];
        let ghost ks2 = seq![Fk::U32];
        proof {
            assert(ks0.skip(1) =~= ks1);
            assert(ks1.skip(1) =~= ks2);
            assert(ks2.skip(1) =~= Seq::<Fk>::empty());
            assert(body@.skip(0) =~= body@);
            lemma_dec_fields_step(ks0, body@);
        }
        let (fid_raw, p1) = match take_u32(body, 0) {
            Ok(x) => x,
            Err(e) => {
                return Err(e);
            },
        };
        proof {
            lemma_dec_fields_step(ks1, body@.skip(p1 as int));
        }
        let (offset, p2) = match take_u64(body, p1) {
            Ok(x) => x,
            Err(e) => {
                return Err(e);
            },
        };
        proof {
            lemma_dec_fields_step(ks2, body@.skip(p2 as int));
        }
        let (count, p3) = match take_u32(body, p2) {
            Ok(x) => x,
            Err(e) => {
                return Err(e);
            },
        };
        if p3 != body.len() {
            proof {
                lemma_dec_fields_nil(body@.skip(p3 as int));
            }
            return Err(Error::MessageLength);
        }
        let m = TRead { fid: Fid(fid_raw), offset, count };
        proof {
            lemma_dec_fields_nil(body@.skip(p3 as int));
            assert(dec_fields(ks0, body@) matches Ok((got, rest)) && got =~= seq![Fv::U32(m.fid.0), Fv::U64(m.offset), Fv::U32(m.count)]
                && rest.len() == 0);
        }
        Ok(m)
    }

    proof fn round_trip(&self) {
        let ks = Self::schema();
        let vs = self.fields();
        assert(forall|i: int|
            0 <= i < vs.len() ==> fv_wf(#[trigger] vs[i]) && ks[i] == fv_kind(vs[i]));
        lemma_dec_enc_msg(ks, vs);
    }

    proof fn truncated(&self) {
        let ks = Self::schema();
        let vs = self.fields();
        assert(forall|i: int|
            0 <= i < vs.len() ==> fv_wf(#[trigger] vs[i]) && ks[i] == fv_kind(vs[i]));
        lemma_msg_truncated(ks, vs);
    }

    proof fn extended(&self, x: u8) {
        let ks = Self::schema();
        let vs = self.fields();
        assert(forall|i: int|
            0 <= i < vs.len() ==> fv_wf(#[trigger] vs[i]) && ks[i] == fv_kind(vs[i]));
        lemma_msg_extended(ks, vs, x);
    }
}

/// The bytes read; fewer than asked is allowed and an empty body marks the end.
#[derive(Clone, Debug, Default)]
pub struct RRead {
    pub data: Vec<u8>,
}

impl RRead {
    pub open spec fn schema() -> Seq<Fk> {
        seq![Fk::Data]
    }

    pub open spec fn fields(&self) -> Seq<Fv> {
        seq![Fv::Data(self.data@)]
    }
}

impl Message for RRead {
    open spec fn wf(&self) -> bool {
        self.data@.len() <= 0xffffffff
    }

    open spec fn body(&self) -> Seq<u8> {
        enc_fvs(self.fields())
    }

    open spec fn mtype() -> u8 {
        117
    }

    open spec fn parse_ok(b: Seq<u8>) -> bool {
        dec_msg(Self::schema(), b) is Ok
    }

    open spec fn parse_err(b: Seq<u8>) -> Error {
        match dec_msg(Self::schema(), b) {
            Ok(_) => arbitrary(),
            Err(e) => e,
        }
    }

    open spec fn from_body(&self, b: Seq<u8>) -> bool {
        dec_msg(Self::schema(), b) == Ok::<_, Error>(self.fields())
    }

    fn code() -> u8 {
        117
    }

    fn size(&self) -> (n: usize) {
        proof {
            lemma_enc_fvs1(Fv::Data(self.data@));
        }
        4 + self.data.len()
    }

    fn encode(&self) -> (out: Vec<u8>) {
        let mut out: Vec<u8> = Vec::new();
        proof {
            lemma_enc_fvs1(Fv::Data(self.data@));
        }
        put_data(&mut out, self.data.as_slice());
        proof {
            assert(out@ =~= self.body());
        }
        out
    }

    fn parse(body: &[u8]) -> (r: Result<Self, Error>) {
        let ghost ks0 = seq![Fk::Data];
        proof {
            assert(ks0.skip(1) =~= Seq::<Fk>::empty());
            assert(body@.skip(0) =~= body@);
            lemma_dec_fields_step(ks0, body@);
        }
        let (data, p1) = match take_data(body, 0) {
            Ok(x) => x,
            Err(e) => {
                return Err(e);
            },
        };
        if p1 != body.len() {
            proof {
                lemma_dec_fields_nil(body@.skip(p1 as int));
            }
            return Err(Error::MessageLength);
        }
        let m = RRead { data };
        proof {
            lemma_dec_fields_nil(body@.skip(p1 as int));
            assert(dec_fields(ks0, body@) matches Ok((got, rest)) && got =~= seq![Fv::Data(m.data@)]
                && rest.len() == 0);
        }
        Ok(m)
    }

    proof fn round_trip(&self) {
        let ks = Self::schema();
        let vs = self.fields();
        assert(forall|i: int|
            0 <= i < vs.len() ==> fv_wf(#[trigger] vs[i]) && ks[i] == fv_kind(vs[i]));
        lemma_dec_enc_msg(ks, vs);
    }

    proof fn truncated(&self) {
        let ks = Self::schema();
        let vs = self.fields();
        assert(forall|i: int|
            0 <= i < vs.len() ==> fv_wf(#[trigger] vs[i]) && ks[i] == fv_kind(vs[i]));
        lemma_msg_truncated(ks, vs);
    }

    proof fn extended(&self, x: u8) {
        let ks = Self::schema();
        let vs = self.fields();
        assert(forall|i: int|
            0 <= i < vs.len() ==> fv_wf(#[trigger] vs[i]) && ks[i] == fv_kind(vs[i]));
        lemma_msg_extended(ks, vs, x);
    }
}

/// Write `data` at `offset` through `fid`.
#[derive(Clone, Debug, Default)]
pub struct TWrite {
    pub fid: Fid,
    pub offset: u64,
    pub data: Vec<u8>,
}

impl TWrite {
    pub open spec fn schema() -> Seq<Fk> {
        seq![Fk::U32, Fk::U64, Fk::Data]
    }

    pub open spec fn fields(&self) -> Seq<Fv> {
        seq![Fv::U32(self.fid.0), Fv::U64(self.offset), Fv::Data(self.data@)]
    }
}

impl Message for TWrite {
    open spec fn wf(&self) -> bool {
        self.data@.len() <= 0xffffffff
    }

    open spec fn body(&self) -> Seq<u8> {
        enc_fvs(self.fields())
    }

    open spec fn mtype() -> u8 {
        118
    }

    open spec fn parse_ok(b: Seq<u8>) -> bool {
        dec_msg(Self::schema(), b) is Ok
    }

    open spec fn parse_err(b: Seq<u8>) -> Error {
        match dec_msg(Self::schema(), b) {
            Ok(_) => arbitrary(),
            Err(e) => e,
        }
    }

    open spec fn from_body(&self, b: Seq<u8>) -> bool {
        dec_msg(Self::schema(), b) == Ok::<_, Error>(self.fields())
    }

    fn code() -> u8 {
        118
    }

    fn size(&self) -> (n: usize) {
        proof {
            lemma_enc_fvs3(Fv::U32(self.fid.0), Fv::U64(self.offset), Fv::Data(self.data@));
        }
        16 + self.data.len()
    }

    fn encode(&self) -> (out: Vec<u8>) {
        let mut out: Vec<u8> = Vec::new();
        proof {
            lemma_enc_fvs3(Fv::U32(self.fid.0), Fv::U64(self.offset), Fv::Data(self.data@));
        }
        put_u32(&mut out, self.fid.0);
        put_u64(&mut out, self.offset);
        put_data(&mut out, self.data.as_slice());
        proof {
            assert(out@ =~= self.body());
        }
        out
    }

    fn parse(body: &[u8]) -> (r: Result<Self, Error>) {
        let ghost ks0 = seq![Fk::U32, Fk::U64, Fk::Data];
        let ghost ks1 = seq![Fk::U64, Fk::Data];
        let ghost ks2 = seq![Fk::Data];
        proof {
            assert(ks0.skip(1) =~= ks1);
            assert(ks1.skip(1) =~= ks2);
            assert(ks2.skip(1) =~= Seq::<Fk>::empty());
            assert(body@.skip(0) =~= body@);
            lemma_dec_fields_step(ks0, body@);
        }
        let (fid_raw, p1) = match take_u32(body, 0) {
            Ok(x) => x,
            Err(e) => {
                return Err(e);
            },
        };
        proof {
            lemma_dec_fields_step(ks1, body@.skip(p1 as int));
        }
        let (offset, p2) = match take_u64(body, p1) {
            Ok(x) => x,
            Err(e) => {
                return Err(e);
            },
        };
        proof {
            lemma_dec_fields_step(ks2, body@.skip(p2 as int));
        }
        let (data, p3) = match take_data(body, p2) {
            Ok(x) => x,
            Err(e) => {
                return Err(e);
            },
        };
        if p3 != body.len() {
            proof {
                lemma_dec_fields_nil(body@.skip(p3 as int));
            }
            return Err(Error::MessageLength);
        }
        let m = TWrite { fid: Fid(fid_raw), offset, data };
        proof {
            lemma_dec_fields_nil(body@.skip(p3 as int));
            assert(dec_fields(ks0, body@) matches Ok((got, rest)) && got =~= seq![Fv::U32(m.fid.0), Fv::U64(m.offset), Fv::Data(m.data@)]
                && rest.len() == 0);
        }
        Ok(m)
    }

    proof fn round_trip(&self) {
        let ks = Self::schema();
        let vs = self.fields();
        assert(forall|i: int|
            0 <= i < vs.len() ==> fv_wf(#[trigger] vs[i]) && ks[i] == fv_kind(vs[i]));
        lemma_dec_enc_msg(ks, vs);
    }

    proof fn truncated(&self) {
        let ks = Self::schema();
        let vs = self.fields();
        assert(forall|i: int|
            0 <= i < vs.len() ==> fv_wf(#[trigger] vs[i]) && ks[i] == fv_kind(vs[i]));
        lemma_msg_truncated(ks, vs);
    }

    proof fn extended(&self, x: u8) {
        let ks = Self::schema();
        let vs = self.fields();
        assert(forall|i: int|
            0 <= i < vs.len() ==> fv_wf(#[trigger] vs[i]) && ks[i] == fv_kind(vs[i]));
        lemma_msg_extended(ks, vs, x);
    }
}

/// How many bytes the server took, possibly fewer than sent.
#[derive(Clone, Debug, Default)]
pub struct RWrite {
    pub count: u32,
}

impl RWrite {
    pub open spec fn schema() -> Seq<Fk> {
        seq![Fk::U32]
    }

    pub open spec fn fields(&self) -> Seq<Fv> {
        seq![Fv::U32(self.count)]
    }
}

impl Message for RWrite {
    open spec fn wf(&self) -> bool {
        true
    }

    open spec fn body(&self) -> Seq<u8> {
        enc_fvs(self.fields())
    }

    open spec fn mtype() -> u8 {
        119
    }

    open spec fn parse_ok(b: Seq<u8>) -> bool {
        dec_msg(Self::schema(), b) is Ok
    }

    open spec fn parse_err(b: Seq<u8>) -> Error {
        match dec_msg(Self::schema(), b) {
            Ok(_) => arbitrary(),
            Err(e) => e,
        }
    }

    open spec fn from_body(&self, b: Seq<u8>) -> bool {
        dec_msg(Self::schema(), b) == Ok::<_, Error>(self.fields())
    }

    fn code() -> u8 {
        119
    }

    fn size(&self) -> (n: usize) {
        proof {
            lemma_enc_fvs1(Fv::U32(self.count));
        }
        4
    }

    fn encode(&self) -> (out: Vec<u8>) {
        let mut out: Vec<u8> = Vec::new();
        proof {
            lemma_enc_fvs1(Fv::U32(self.count));
        }
        put_u32(&mut out, self.count);
        proof {
            assert(out@ =~= self.body());
        }
        out
    }

    fn parse(body: &[u8]) -> (r: Result<Self, Error>) {
        let ghost ks0 = seq![Fk::U32];
        proof {
            assert(ks0.skip(1) =~= Seq::<Fk>::empty());
            assert(body@.skip(0) =~= body@);
            lemma_dec_fields_step(ks0, body@);
        }
        let (count, p1) = match take_u32(body, 0) {
            Ok(x) => x,
            Err(e) => {
                return Err(e);
            },
        };
        if p1 != body.len() {
            proof {
                lemma_dec_fields_nil(body@.skip(p1 as int));
            }
            return Err(Error::MessageLength);
        }
        let m = RWrite { count };
        proof {
            lemma_dec_fields_nil(body@.skip(p1 as int));
            assert(dec_fields(ks0, body@) matches Ok((got, rest)) && got =~= seq![Fv::U32(m.count)]
                && rest.len() == 0);
        }
        Ok(m)
    }

    proof fn round_trip(&self) {
        let ks = Self::schema();
        let vs = self.fields();
        assert(forall|i: int|
            0 <= i < vs.len() ==> fv_wf(#[trigger] vs[i]) && ks[i] == fv_kind(vs[i]));
        lemma_dec_enc_msg(ks, vs);
    }

    proof fn truncated(&self) {
        let ks = Self::schema();
        let vs = self.fields();
        assert(forall|i: int|
            0 <= i < vs.len() ==> fv_wf(#[trigger] vs[i]) && ks[i] == fv_kind(vs[i]));
        lemma_msg_truncated(ks, vs);
    }

    proof fn extended(&self, x: u8) {
        let ks = Self::schema();
        let vs = self.fields();
        assert(forall|i: int|
            0 <= i < vs.len() ==> fv_wf(#[trigger] vs[i]) && ks[i] == fv_kind(vs[i]));
        lemma_msg_extended(ks, vs, x);
    }
}

/// Release `fid`. The fid is gone even when the server reports an error.
#[derive(Clone, Debug, Default)]
pub struct TClunk {
    pub fid: Fid,
}

impl TClunk {
    pub open spec fn schema() -> Seq<Fk> {
        seq![Fk::U32]
    }

    pub open spec fn fields(&self) -> Seq<Fv> {
        seq![Fv::U32(self.fid.0)]
    }
}

impl Message for TClunk {
    open spec fn wf(&self) -> bool {
        true
    }

    open spec fn body(&self) -> Seq<u8> {
        enc_fvs(self.fields())
    }

    open spec fn mtype() -> u8 {
        120
    }

    open spec fn parse_ok(b: Seq<u8>) -> bool {
        dec_msg(Self::schema(), b) is Ok
    }

    open spec fn parse_err(b: Seq<u8>) -> Error {
        match dec_msg(Self::schema(), b) {
            Ok(_) => arbitrary(),
            Err(e) => e,
        }
    }

    open spec fn from_body(&self, b: Seq<u8>) -> bool {
        dec_msg(Self::schema(), b) == Ok::<_, Error>(self.fields())
    }

    fn code() -> u8 {
        120
    }

    fn size(&self) -> (n: usize) {
        proof {
            lemma_enc_fvs1(Fv::U32(self.fid.0));
        }
        4
    }

    fn encode(&self) -> (out: Vec<u8>) {
        let mut out: Vec<u8> = Vec::new();
        proof {
            lemma_enc_fvs1(Fv::U32(self.fid.0));
        }
        put_u32(&mut out, self.fid.0);
        proof {
            assert(out@ =~= self.body());
        }
        out
    }

    fn parse(body: &[u8]) -> (r: Result<Self, Error>) {
        let ghost ks0 = seq![Fk::U32];
        proof {
            assert(ks0.skip(1) =~= Seq::<Fk>::empty());
            assert(body@.skip(0) =~= body@);
            lemma_dec_fields_step(ks0, body@);
        }
        let (fid_raw, p1) = match take_u32(body, 0) {
            Ok(x) => x,
            Err(e) => {
                return Err(e);
            },
        };
        if p1 != body.len() {
            proof {
                lemma_dec_fields_nil(body@.skip(p1 as int));
            }
            return Err(Error::MessageLength);
        }
        let m = TClunk { fid: Fid(fid_raw) };
        proof {
            lemma_dec_fields_nil(body@.skip(p1 as int));
            assert(dec_fields(ks0, body@) matches Ok((got, rest)) && got =~= seq![Fv::U32(m.fid.0)]
                && rest.len() == 0);
        }
        Ok(m)
    }

    proof fn round_trip(&self) {
        let ks = Self::schema();
        let vs = self.fields();
        assert(forall|i: int|
            0 <= i < vs.len() ==> fv_wf(#[trigger] vs[i]) && ks[i] == fv_kind(vs[i]));
        lemma_dec_enc_msg(ks, vs);
    }

    proof fn truncated(&self) {
        let ks = Self::schema();
        let vs = self.fields();
        assert(forall|i: int|
            0 <= i < vs.len() ==> fv_wf(#[trigger] vs[i]) && ks[i] == fv_kind(vs[i]));
        lemma_msg_truncated(ks, vs);
    }

    proof fn extended(&self, x: u8) {
        let ks = Self::schema();
        let vs = self.fields();
        assert(forall|i: int|
            0 <= i < vs.len() ==> fv_wf(#[trigger] vs[i]) && ks[i] == fv_kind(vs[i]));
        lemma_msg_extended(ks, vs, x);
    }
}

/// The fid is released; the body is empty.
#[derive(Clone, Debug, Default)]
pub struct RClunk;

impl RClunk {
    pub open spec fn schema() -> Seq<Fk> {
        Seq::<Fk>::empty()
    }

    pub open spec fn fields(&self) -> Seq<Fv> {
        Seq::<Fv>::empty()
    }
}

impl Message for RClunk {
    open spec fn wf(&self) -> bool {
        true
    }

    open spec fn body(&self) -> Seq<u8> {
        enc_fvs(self.fields())
    }

    open spec fn mtype() -> u8 {
        121
    }

    open spec fn parse_ok(b: Seq<u8>) -> bool {
        dec_msg(Self::schema(), b) is Ok
    }

    open spec fn parse_err(b: Seq<u8>) -> Error {
        match dec_msg(Self::schema(), b) {
            Ok(_) => arbitrary(),
            Err(e) => e,
        }
    }

    open spec fn from_body(&self, b: Seq<u8>) -> bool {
        dec_msg(Self::schema(), b) == Ok::<_, Error>(self.fields())
    }

    fn code() -> u8 {
        121
    }

    fn size(&self) -> (n: usize) {
        proof {
            assert(self.body().len() == 0);
        }
        0
    }

    fn encode(&self) -> (out: Vec<u8>) {
        let mut out: Vec<u8> = Vec::new();
        proof {
            assert(out@ =~= self.body());
        }
        out
    }

    fn parse(body: &[u8]) -> (r: Result<Self, Error>) {
        if body.len() == 0 {
            Ok(RClunk)
        } else {
            Err(Error::MessageLength)
        }
    }

    proof fn round_trip(&self) {
    }

    proof fn truncated(&self) {
    }

    proof fn extended(&self, x: u8) {
        assert(self.body().push(x).len() == 1);
    }
}

/// Remove the file and release `fid`; the fid is gone whatever the outcome.
#[derive(Clone, Debug, Default)]
pub struct TRemove {
    pub fid: Fid,
}

impl TRemove {
    pub open spec fn schema() -> Seq<Fk> {
        seq![Fk::U32]
    }

    pub open spec fn fields(&self) -> Seq<Fv> {
        seq![Fv::U32(self.fid.0)]
    }
}

impl Message for TRemove {
    open spec fn wf(&self) -> bool {
        true
    }

    open spec fn body(&self) -> Seq<u8> {
        enc_fvs(self.fields())
    }

    open spec fn mtype() -> u8 {
        122
    }

    open spec fn parse_ok(b: Seq<u8>) -> bool {
        dec_msg(Self::schema(), b) is Ok
    }

    open spec fn parse_err(b: Seq<u8>) -> Error {
        match dec_msg(Self::schema(), b) {
            Ok(_) => arbitrary(),
            Err(e) => e,
        }
    }

    open spec fn from_body(&self, b: Seq<u8>) -> bool {
        dec_msg(Self::schema(), b) == Ok::<_, Error>(self.fields())
    }

    fn code() -> u8 {
        122
    }

    fn size(&self) -> (n: usize) {
        proof {
            lemma_enc_fvs1(Fv::U32(self.fid.0));
        }
        4
    }

    fn encode(&self) -> (out: Vec<u8>) {
        let mut out: Vec<u8> = Vec::new();
        proof {
            lemma_enc_fvs1(Fv::U32(self.fid.0));
        }
        put_u32(&mut out, self.fid.0);
        proof {
            assert(out@ =~= self.body());
        }
        out
    }

    fn parse(body: &[u8]) -> (r: Result<Self, Error>) {
        let ghost ks0 = seq![Fk::U32];
        proof {
            assert(ks0.skip(1) =~= Seq::<Fk>::empty());
            assert(body@.skip(0) =~= body@);
            lemma_dec_fields_step(ks0, body@);
        }
        let (fid_raw, p1) = match take_u32(body, 0) {
            Ok(x) => x,
            Err(e) => {
                return Err(e);
            },
        };
        if p1 != body.len() {
            proof {
                lemma_dec_fields_nil(body@.skip(p1 as int));
            }
            return Err(Error::MessageLength);
        }
        let m = TRemove { fid: Fid(fid_raw) };
        proof {
            lemma_dec_fields_nil(body@.skip(p1 as int));
            assert(dec_fields(ks0, body@) matches Ok((got, rest)) && got =~= seq![Fv::U32(m.fid.0)]
                && rest.len() == 0);
        }
        Ok(m)
    }

    proof fn round_trip(&self) {
        let ks = Self::schema();
        let vs = self.fields();
        assert(forall|i: int|
            0 <= i < vs.len() ==> fv_wf(#[trigger] vs[i]) && ks[i] == fv_kind(vs[i]));
        lemma_dec_enc_msg(ks, vs);
    }

    proof fn truncated(&self) {
        let ks = Self::schema();
        let vs = self.fields();
        assert(forall|i: int|
            0 <= i < vs.len() ==> fv_wf(#[trigger] vs[i]) && ks[i] == fv_kind(vs[i]));
        lemma_msg_truncated(ks, vs);
    }

    proof fn extended(&self, x: u8) {
        let ks = Self::schema();
        let vs = self.fields();
        assert(forall|i: int|
            0 <= i < vs.len() ==> fv_wf(#[trigger] vs[i]) && ks[i] == fv_kind(vs[i]));
        lemma_msg_extended(ks, vs, x);
    }
}

/// The file is removed; the body is empty.
#[derive(Clone, Debug, Default)]
pub struct RRemove;

impl RRemove {
    pub open spec fn schema() -> Seq<Fk> {
        Seq::<Fk>::empty()
    }

    pub open spec fn fields(&self) -> Seq<Fv> {
        Seq::<Fv>::empty()
    }
}

impl Message for RRemove {
    open spec fn wf(&self) -> bool {
        true
    }

    open spec fn body(&self) -> Seq<u8> {
        enc_fvs(self.fields())
    }

    open spec fn mtype() -> u8 {
        123
    }

    open spec fn parse_ok(b: Seq<u8>) -> bool {
        dec_msg(Self::schema(), b) is Ok
    }

    open spec fn parse_err(b: Seq<u8>) -> Error {
        match dec_msg(Self::schema(), b) {
            Ok(_) => arbitrary(),
            Err(e) => e,
        }
    }

    open spec fn from_body(&self, b: Seq<u8>) -> bool {
        dec_msg(Self::schema(), b) == Ok::<_, Error>(self.fields())
    }

    fn code() -> u8 {
        123
    }

    fn size(&self) -> (n: usize) {
        proof {
            assert(self.body().len() == 0);
        }
        0
    }

    fn encode(&self) -> (out: Vec<u8>) {
        let mut out: Vec<u8> = Vec::new();
        proof {
            assert(out@ =~= self.body());
        }
        out
    }

    fn parse(body: &[u8]) -> (r: Result<Self, Error>) {
        if body.len() == 0 {
            Ok(RRemove)
        } else {
            Err(Error::MessageLength)
        }
    }

    proof fn round_trip(&self) {
    }

    proof fn truncated(&self) {
    }

    proof fn extended(&self, x: u8) {
        assert(self.body().push(x).len() == 1);
    }
}

/// Ask for the metadata of `fid`.
#[derive(Clone, Debug, Default)]
pub struct TStat {
    pub fid: Fid,
}

impl TStat {
    pub open spec fn schema() -> Seq<Fk> {
        seq![Fk::U32]
    }

    pub open spec fn fields(&self) -> Seq<Fv> {
        seq![Fv::U32(self.fid.0)]
    }
}

impl Message for TStat {
    open spec fn wf(&self) -> bool {
        true
    }

    open spec fn body(&self) -> Seq<u8> {
        enc_fvs(self.fields())
    }

    open spec fn mtype() -> u8 {
        124
    }

    open spec fn parse_ok(b: Seq<u8>) -> bool {
        dec_msg(Self::schema(), b) is Ok
    }

    open spec fn parse_err(b: Seq<u8>) -> Error {
        match dec_msg(Self::schema(), b) {
            Ok(_) => arbitrary(),
            Err(e) => e,
        }
    }

    open spec fn from_body(&self, b: Seq<u8>) -> bool {
        dec_msg(Self::schema(), b) == Ok::<_, Error>(self.fields())
    }

    fn code() -> u8 {
        124
    }

    fn size(&self) -> (n: usize) {
        proof {
            lemma_enc_fvs1(Fv::U32(self.fid.0));
        }
        4
    }

    fn encode(&self) -> (out: Vec<u8>) {
        let mut out: Vec<u8> = Vec::new();
        proof {
            lemma_enc_fvs1(Fv::U32(self.fid.0));
        }
        put_u32(&mut out, self.fid.0);
        proof {
            assert(out@ =~= self.body());
        }
        out
    }

    fn parse(body: &[u8]) -> (r: Result<Self, Error>) {
        let ghost ks0 = seq![Fk::U32];
        proof {
            assert(ks0.skip(1) =~= Seq::<Fk>::empty());
            assert(body@.skip(0) =~= body@);
            lemma_dec_fields_step(ks0, body@);
        }
        let (fid_raw, p1) = match take_u32(body, 0) {
            Ok(x) => x,
            Err(e) => {
                return Err(e);
            },
        };
        if p1 != body.len() {
            proof {
                lemma_dec_fields_nil(body@.skip(p1 as int));
            }
            return Err(Error::MessageLength);
        }
        let m = TStat { fid: Fid(fid_raw) };
        proof {
            lemma_dec_fields_nil(body@.skip(p1 as int));
            assert(dec_fields(ks0, body@) matches Ok((got, rest)) && got =~= seq![Fv::U32(m.fid.0)]
                && rest.len() == 0);
        }
        Ok(m)
    }

    proof fn round_trip(&self) {
        let ks = Self::schema();
        let vs = self.fields();
        assert(forall|i: int|
            0 <= i < vs.len() ==> fv_wf(#[trigger] vs[i]) && ks[i] == fv_kind(vs[i]));
        lemma_dec_enc_msg(ks, vs);
    }

    proof fn truncated(&self) {
        let ks = Self::schema();
        let vs = self.fields();
        assert(forall|i: int|
            0 <= i < vs.len() ==> fv_wf(#[trigger] vs[i]) && ks[i] == fv_kind(vs[i]));
        lemma_msg_truncated(ks, vs);
    }

    proof fn extended(&self, x: u8) {
        let ks = Self::schema();
        let vs = self.fields();
        assert(forall|i: int|
            0 <= i < vs.len() ==> fv_wf(#[trigger] vs[i]) && ks[i] == fv_kind(vs[i]));
        lemma_msg_extended(ks, vs, x);
    }
}

/// The metadata of a file. On the wire the entry's block is wrapped in one
/// more `u16` size; the parser reads and discards that outer size, going by
/// the block's own, and the serializer writes the block's length there. An
/// entry whose minimal block would not fit the outer size field is refused
/// as a `MessageLength` fault.
#[derive(Clone, Debug)]
pub struct RStat {
    pub stat: Stat,
}

/// Decode an `RStat` body: the outer size, then exactly one block.
pub open spec fn dec_rstat(b: Seq<u8>) -> Result<StatV, Error> {
    if b.len() < 2 {
        Err(Error::MessageLength)
    } else {
        match dec_stat(b.skip(2)) {
            Ok((v, rest)) => if rest.len() != 0 {
                Err(Error::MessageLength)
            } else if stat_body(v).len() + 2 > 0xffff {
                Err(Error::MessageLength)
            } else {
                Ok(v)
            },
            Err(e) => Err(e),
        }
    }
}

impl Message for RStat {
    open spec fn wf(&self) -> bool {
        stat_wf(self.stat@) && stat_body(self.stat@).len() + 2 <= 0xffff
    }

    open spec fn body(&self) -> Seq<u8> {
        le16(enc_stat(self.stat@).len() as u16) + enc_stat(self.stat@)
    }

    open spec fn mtype() -> u8 {
        125
    }

    open spec fn parse_ok(b: Seq<u8>) -> bool {
        dec_rstat(b) is Ok
    }

    open spec fn parse_err(b: Seq<u8>) -> Error {
        match dec_rstat(b) {
            Ok(_) => arbitrary(),
            Err(e) => e,
        }
    }

    open spec fn from_body(&self, b: Seq<u8>) -> bool {
        dec_rstat(b) == Ok::<_, Error>(self.stat@)
    }

    fn code() -> u8 {
        125
    }

    fn size(&self) -> (n: usize) {
        2 + self.stat.size()
    }

    fn encode(&self) -> (out: Vec<u8>) {
        let mut out: Vec<u8> = Vec::new();
        let block = self.stat.size();
        put_u16(&mut out, block as u16);
        self.stat.encode_onto(&mut out);
        proof {
            assert(out@ =~= self.body());
        }
        out
    }

    fn parse(body: &[u8]) -> (r: Result<Self, Error>) {
        let (_outer, p1) = match get_u16(body, 0) {
            Ok(x) => x,
            Err(e) => {
                return Err(e);
            },
        };
        let (stat, p2) = match Stat::parse(body, 2) {
            Ok(x) => x,
            Err(e) => {
                return Err(e);
            },
        };
        if p2 != body.len() {
            return Err(Error::MessageLength);
        }
        if stat.size() > 0xffff {
            return Err(Error::MessageLength);
        }
        Ok(RStat { stat })
    }

    proof fn round_trip(&self) {
        let e = enc_stat(self.stat@);
        lemma_dec_enc_stat(self.stat@, Seq::empty());
        assert(self.body().skip(2) =~= e + Seq::<u8>::empty());
    }

    proof fn truncated(&self) {
        let e = enc_stat(self.stat@);
        lemma_dec_enc_stat(self.stat@, Seq::empty());
        let d = self.body().drop_last();
        assert(d.skip(2) =~= e.take(e.len() - 1));
        lemma_stat_prefix_trunc(self.stat@, e.len() - 1);
    }

    proof fn extended(&self, x: u8) {
        let e = enc_stat(self.stat@);
        lemma_dec_enc_stat(self.stat@, seq![x]);
        assert(self.body().push(x).skip(2) =~= e + seq![x]);
    }
}

/// Ask the server to change the metadata of `fid`. The entry travels as in
/// `RStat`: an outer `u16` size, then the block, and an entry whose minimal
/// block cannot carry the outer size is refused.
#[derive(Clone, Debug)]
pub struct TWStat {
    pub fid: Fid,
    pub stat: Stat,
}

/// Decode a `TWStat` body: the fid, the outer size, then exactly one block.
pub open spec fn dec_twstat(b: Seq<u8>) -> Result<(u32, StatV), Error> {
    if b.len() < 6 {
        Err(Error::MessageLength)
    } else {
        match dec_stat(b.skip(6)) {
            Ok((v, rest)) => if rest.len() != 0 {
                Err(Error::MessageLength)
            } else if stat_body(v).len() + 2 > 0xffff {
                Err(Error::MessageLength)
            } else {
                Ok((u32_of(b), v))
            },
            Err(e) => Err(e),
        }
    }
}

impl Message for TWStat {
    open spec fn wf(&self) -> bool {
        stat_wf(self.stat@) && stat_body(self.stat@).len() + 2 <= 0xffff
    }

    open spec fn body(&self) -> Seq<u8> {
        le32(self.fid.0) + le16(enc_stat(self.stat@).len() as u16) + enc_stat(self.stat@)
    }

    open spec fn mtype() -> u8 {
        126
    }

    open spec fn parse_ok(b: Seq<u8>) -> bool {
        dec_twstat(b) is Ok
    }

    open spec fn parse_err(b: Seq<u8>) -> Error {
        match dec_twstat(b) {
            Ok(_) => arbitrary(),
            Err(e) => e,
        }
    }

    open spec fn from_body(&self, b: Seq<u8>) -> bool {
        dec_twstat(b) == Ok::<_, Error>((self.fid.0, self.stat@))
    }

    fn code() -> u8 {
        126
    }

    fn size(&self) -> (n: usize) {
        6 + self.stat.size()
    }

    fn encode(&self) -> (out: Vec<u8>) {
        let mut out: Vec<u8> = Vec::new();
        put_u32(&mut out, self.fid.0);
        let block = self.stat.size();
        put_u16(&mut out, block as u16);
        self.stat.encode_onto(&mut out);
        proof {
            assert(out@ =~= self.body());
        }
        out
    }

    fn parse(body: &[u8]) -> (r: Result<Self, Error>) {
        let (fid_raw, _p1) = match get_u32(body, 0) {
            Ok(x) => x,
            Err(e) => {
                proof {
                    assert(body@.skip(0) =~= body@);
                }
                return Err(e);
            },
        };
        let (_outer, _p2) = match get_u16(body, 4) {
            Ok(x) => x,
            Err(e) => {
                return Err(e);
            },
        };
        let (stat, p3) = match Stat::parse(body, 6) {
            Ok(x) => x,
            Err(e) => {
                return Err(e);
            },
        };
        if p3 != body.len() {
            return Err(Error::MessageLength);
        }
        if stat.size() > 0xffff {
            return Err(Error::MessageLength);
        }
        proof {
            assert(body@.skip(0) =~= body@);
        }
        Ok(TWStat { fid: Fid(fid_raw), stat })
    }

    proof fn round_trip(&self) {
        let e = enc_stat(self.stat@);
        let b = self.body();
        lemma_dec_enc_stat(self.stat@, Seq::empty());
        assert(b.skip(6) =~= e + Seq::<u8>::empty());
        lemma_le32_round_trip(self.fid.0);
        assert(b[0] == le32(self.fid.0)[0] && b[1] == le32(self.fid.0)[1] && b[2] == le32(
            self.fid.0,
        )[2] && b[3] == le32(self.fid.0)[3]);
        assert(u32_of(b) == self.fid.0);
    }

    proof fn truncated(&self) {
        let e = enc_stat(self.stat@);
        lemma_dec_enc_stat(self.stat@, Seq::empty());
        let d = self.body().drop_last();
        assert(d.skip(6) =~= e.take(e.len() - 1));
        lemma_stat_prefix_trunc(self.stat@, e.len() - 1);
    }

    proof fn extended(&self, x: u8) {
        let e = enc_stat(self.stat@);
        lemma_dec_enc_stat(self.stat@, seq![x]);
        assert(self.body().push(x).skip(6) =~= e + seq![x]);
    }
}

/// The metadata change is applied; the body is empty.
#[derive(Clone, Debug, Default)]
pub struct RWStat;

impl RWStat {
    pub open spec fn schema() -> Seq<Fk> {
        Seq::<Fk>::empty()
    }

    pub open spec fn fields(&self) -> Seq<Fv> {
        Seq::<Fv>::empty()
    }
}

impl Message for RWStat {
    open spec fn wf(&self) -> bool {
        true
    }

    open spec fn body(&self) -> Seq<u8> {
        enc_fvs(self.fields())
    }

    open spec fn mtype() -> u8 {
        127
    }

    open spec fn parse_ok(b: Seq<u8>) -> bool {
        dec_msg(Self::schema(), b) is Ok
    }

    open spec fn parse_err(b: Seq<u8>) -> Error {
        match dec_msg(Self::schema(), b) {
            Ok(_) => arbitrary(),
            Err(e) => e,
        }
    }

    open spec fn from_body(&self, b: Seq<u8>) -> bool {
        dec_msg(Self::schema(), b) == Ok::<_, Error>(self.fields())
    }

    fn code() -> u8 {
        127
    }

    fn size(&self) -> (n: usize) {
        proof {
            assert(self.body().len() == 0);
        }
        0
    }

    fn encode(&self) -> (out: Vec<u8>) {
        let mut out: Vec<u8> = Vec::new();
        proof {
            assert(out@ =~= self.body());
        }
        out
    }

    fn parse(body: &[u8]) -> (r: Result<Self, Error>) {
        if body.len() == 0 {
            Ok(RWStat)
        } else {
            Err(Error::MessageLength)
        }
    }

    proof fn round_trip(&self) {
    }

    proof fn truncated(&self) {
    }

    proof fn extended(&self, x: u8) {
        assert(self.body().push(x).len() == 1);
    }
}

impl TMessage for TVersion {
    type Reply = RVersion;
}

impl TMessage for TAuth {
    type Reply = RAuth;
}

impl TMessage for TAttach {
    type Reply = RAttach;
}

impl TMessage for TFlush {
    type Reply = RFlush;
}

impl TMessage for TWalk {
    type Reply = RWalk;
}

impl TMessage for TOpen {
    type Reply = ROpen;
}

impl TMessage for TCreate {
    type Reply = RCreate;
}

impl TMessage for TRead {
    type Reply = RRead;
}

impl TMessage for TWrite {
    type Reply = RWrite;
}

impl TMessage for TClunk {
    type Reply = RClunk;
}

impl TMessage for TRemove {
    type Reply = RRemove;
}

impl TMessage for TStat {
    type Reply = RStat;
}

impl TMessage for TWStat {
    type Reply = RWStat;
}

} // verus!
