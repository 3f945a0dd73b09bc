//! Directory-entry metadata. A `Stat` travels as a length-prefixed block: a
//! `u16` size, then the fields it counts. The decoder advances by the
//! declared size, so a block whose declared window holds bytes past the
//! known fields still decodes (a server may extend the record); the encoder
//! always writes the minimal block.

use vstd::prelude::*;

use crate::bytes::{get_u16, le16, le32, le64, lemma_le16_round_trip, put_bytes, put_u16, put_u32,
    put_u64, u16_of};
use crate::error::Error;
use crate::fields::{
    dec_fields, enc_fvs, enc_qid, enc_str, fv_kind, fv_qid, fv_str, fv_u16, fv_u32, fv_u64, fv_wf,
    lemma_dec_enc_fields, lemma_dec_fields_concat, lemma_dec_fields_nil, lemma_dec_fields_step, put_qid, put_str, take_qid,
    take_str, take_u16, take_u32, take_u64, Fk, Fv,
};
use crate::pstring::{str_wf, PString};
use crate::qid::Qid;
use vstd::slice::slice_subrange;

verus! {

/// A directory entry's metadata.
#[derive(Clone, Debug)]
pub struct Stat {
    pub type_: u16,
    pub dev: u32,
    pub qid: Qid,
    pub mode: u32,
    pub atime: u32,
    pub mtime: u32,
    pub length: u64,
    pub name: PString,
    pub uid: PString,
    pub gid: PString,
    pub muid: PString,
}

/// The mathematical value of a `Stat`: plain integers and byte sequences.
pub struct StatV {
    pub type_: u16,
    pub dev: u32,
    pub qid: Qid,
    pub mode: u32,
    pub atime: u32,
    pub mtime: u32,
    pub length: u64,
    pub name: Seq<u8>,
    pub uid: Seq<u8>,
    pub gid: Seq<u8>,
    pub muid: Seq<u8>,
}

impl View for Stat {
    type V = StatV;

    open spec fn view(&self) -> StatV {
        StatV {
            type_: self.type_,
            dev: self.dev,
            qid: self.qid,
            mode: self.mode,
            atime: self.atime,
            mtime: self.mtime,
            length: self.length,
            name: self.name@,
            uid: self.uid@,
            gid: self.gid@,
            muid: self.muid@,
        }
    }
}

/// The field schema of the block's window, in wire order.
pub open spec fn stat_schema() -> Seq<Fk> {
    seq![
        Fk::U16,
        Fk::U32,
        Fk::Qid,
        Fk::U32,
        Fk::U32,
        Fk::U32,
        Fk::U64,
        Fk::Str,
        Fk::Str,
        Fk::Str,
        Fk::Str,
    ]
}

pub open spec fn stat_fields(v: StatV) -> Seq<Fv> {
    seq![
        Fv::U16(v.type_),
        Fv::U32(v.dev),
        Fv::Qid(v.qid),
        Fv::U32(v.mode),
        Fv::U32(v.atime),
        Fv::U32(v.mtime),
        Fv::U64(v.length),
        Fv::Str(v.name),
        Fv::Str(v.uid),
        Fv::Str(v.gid),
        Fv::Str(v.muid),
    ]
}

pub open spec fn stat_of_fields(vs: Seq<Fv>) -> StatV {
    StatV {
        type_: fv_u16(vs[0]),
        dev: fv_u32(vs[1]),
        qid: fv_qid(vs[2]),
        mode: fv_u32(vs[3]),
        atime: fv_u32(vs[4]),
        mtime: fv_u32(vs[5]),
        length: fv_u64(vs[6]),
        name: fv_str(vs[7]),
        uid: fv_str(vs[8]),
        gid: fv_str(vs[9]),
        muid: fv_str(vs[10]),
    }
}

/// The bytes inside the block's window: the fields without the size prefix.
pub open spec fn stat_body(v: StatV) -> Seq<u8> {
    enc_fvs(stat_fields(v))
}

/// The value can be written: its strings are protocol strings and the whole
/// window fits the `u16` size prefix.
pub open spec fn stat_wf(v: StatV) -> bool {
    str_wf(v.name) && str_wf(v.uid) && str_wf(v.gid) && str_wf(v.muid) && stat_body(v).len()
        <= 0xffff
}

/// A whole block: size prefix, then the fields.
pub open spec fn enc_stat(v: StatV) -> Seq<u8> {
    le16(stat_body(v).len() as u16) + stat_body(v)
}

/// Decode one block from the front of `b`: the entry and the tail after the
/// declared window, or the fault. Bytes inside the window past the last
/// field are tolerated; a window that does not fit in `b`, or fields that do
/// not fit in the window, are `MessageLength` faults.
pub open spec fn dec_stat(b: Seq<u8>) -> Result<(StatV, Seq<u8>), Error> {
    if b.len() < 2 {
        Err(Error::MessageLength)
    } else {
        let s = u16_of(b) as int;
        if b.len() < 2 + s {
            Err(Error::MessageLength)
        } else {
            match dec_fields(stat_schema(), b.subrange(2, 2 + s)) {
                Ok((vs, _extra)) => Ok((stat_of_fields(vs), b.skip(2 + s))),
                Err(e) => Err(e),
            }
        }
    }
}

/// `stat_body` spelled out as the concatenation of its field encodings,
/// with its length.
#[verifier::rlimit(100)]
#[verifier::spinoff_prover]
pub proof fn lemma_stat_body_flat(v: StatV)
    ensures
        stat_body(v) == le16(v.type_) + le32(v.dev) + enc_qid(v.qid) + le32(v.mode) + le32(v.atime)
            + le32(v.mtime) + le64(v.length) + enc_str(v.name) + enc_str(v.uid) + enc_str(v.gid)
            + enc_str(v.muid),
        stat_body(v).len() == 47 + v.name.len() + v.uid.len() + v.gid.len() + v.muid.len(),
{
    let fs = stat_fields(v);
    let t1 = seq![
        Fv::U32(v.dev),
        Fv::Qid(v.qid),
        Fv::U32(v.mode),
        Fv::U32(v.atime),
        Fv::U32(v.mtime),
        Fv::U64(v.length),
        Fv::Str(v.name),
        Fv::Str(v.uid),
        Fv::Str(v.gid),
        Fv::Str(v.muid),
    ];
    let t2 = seq![
        Fv::Qid(v.qid),
        Fv::U32(v.mode),
        Fv::U32(v.atime),
        Fv::U32(v.mtime),
        Fv::U64(v.length),
        Fv::Str(v.name),
        Fv::Str(v.uid),
        Fv::Str(v.gid),
        Fv::Str(v.muid),
    ];
    let t3 = seq![
        Fv::U32(v.mode),
        Fv::U32(v.atime),
        Fv::U32(v.mtime),
        Fv::U64(v.length),
        Fv::Str(v.name),
        Fv::Str(v.uid),
        Fv::Str(v.gid),
        Fv::Str(v.muid),
    ];
    let t4 = seq![
        Fv::U32(v.atime),
        Fv::U32(v.mtime),
        Fv::U64(v.length),
        Fv::Str(v.name),
        Fv::Str(v.uid),
        Fv::Str(v.gid),
        Fv::Str(v.muid),
    ];
    let t5 = seq![
        Fv::U32(v.mtime),
        Fv::U64(v.length),
        Fv::Str(v.name),
        Fv::Str(v.uid),
        Fv::Str(v.gid),
        Fv::Str(v.muid),
    ];
    let t6 = seq![
        Fv::U64(v.length),
        Fv::Str(v.name),
        Fv::Str(v.uid),
        Fv::Str(v.gid),
        Fv::Str(v.muid),
    ];
    let t7 = seq![Fv::Str(v.name), Fv::Str(v.uid), Fv::Str(v.gid), Fv::Str(v.muid)];
    let t8 = seq![Fv::Str(v.uid), Fv::Str(v.gid), Fv::Str(v.muid)];
    let t9 = seq![Fv::Str(v.gid), Fv::Str(v.muid)];
    let t10 = seq![Fv::Str(v.muid)];
    assert(fs.skip(1) =~= t1);
    assert(t1.skip(1) =~= t2);
    assert(t2.skip(1) =~= t3);
    assert(t3.skip(1) =~= t4);
    assert(t4.skip(1) =~= t5);
    assert(t5.skip(1) =~= t6);
    assert(t6.skip(1) =~= t7);
    assert(t7.skip(1) =~= t8);
    assert(t8.skip(1) =~= t9);
    assert(t9.skip(1) =~= t10);
    assert(t10.skip(1) =~= Seq::<Fv>::empty());
    assert(enc_fvs(Seq::<Fv>::empty()) =~= Seq::<u8>::empty());
    assert(enc_fvs(t10) =~= enc_str(v.muid));
    assert(enc_fvs(t9) =~= enc_str(v.gid) + enc_str(v.muid));
    assert(enc_fvs(t8) =~= enc_str(v.uid) + enc_str(v.gid) + enc_str(v.muid));
    assert(enc_fvs(t7) =~= enc_str(v.name) + enc_str(v.uid) + enc_str(v.gid) + enc_str(v.muid));
    assert(enc_fvs(t6) =~= le64(v.length) + enc_str(v.name) + enc_str(v.uid) + enc_str(v.gid)
        + enc_str(v.muid));
    assert(enc_fvs(t5) =~= le32(v.mtime) + le64(v.length) + enc_str(v.name) + enc_str(v.uid)
        + enc_str(v.gid) + enc_str(v.muid));
    assert(enc_fvs(t4) =~= le32(v.atime) + le32(v.mtime) + le64(v.length) + enc_str(v.name)
        + enc_str(v.uid) + enc_str(v.gid) + enc_str(v.muid));
    assert(enc_fvs(t3) =~= le32(v.mode) + le32(v.atime) + le32(v.mtime) + le64(v.length) + enc_str(
        v.name,
    ) + enc_str(v.uid) + enc_str(v.gid) + enc_str(v.muid));
    assert(enc_fvs(t2) =~= enc_qid(v.qid) + le32(v.mode) + le32(v.atime) + le32(v.mtime) + le64(
        v.length,
    ) + enc_str(v.name) + enc_str(v.uid) + enc_str(v.gid) + enc_str(v.muid));
    assert(enc_fvs(t1) =~= le32(v.dev) + enc_qid(v.qid) + le32(v.mode) + le32(v.atime) + le32(
        v.mtime,
    ) + le64(v.length) + enc_str(v.name) + enc_str(v.uid) + enc_str(v.gid) + enc_str(v.muid));
    assert(stat_body(v) =~= le16(v.type_) + le32(v.dev) + enc_qid(v.qid) + le32(v.mode) + le32(
        v.atime,
    ) + le32(v.mtime) + le64(v.length) + enc_str(v.name) + enc_str(v.uid) + enc_str(v.gid)
        + enc_str(v.muid));
}

/// A well-formed block decodes to its value and leaves what follows it.
pub proof fn lemma_dec_enc_stat(v: StatV, rest: Seq<u8>)
    requires
        stat_wf(v),
    ensures
        dec_stat(enc_stat(v) + rest) == Ok::<_, Error>((v, rest)),
        enc_stat(v).len() == 2 + stat_body(v).len(),
{
    let body = stat_body(v);
    let b = enc_stat(v) + rest;
    lemma_le16_round_trip(body.len() as u16);
    assert(b[0] == le16(body.len() as u16)[0] && b[1] == le16(body.len() as u16)[1]);
    assert(u16_of(b) == body.len() as u16);
    let s = body.len() as int;
    assert(b.len() == 2 + s + rest.len());
    assert(b.subrange(2, 2 + s) =~= body);
    let fs = stat_fields(v);
    assert(forall|i: int|
        0 <= i < fs.len() ==> fv_wf(#[trigger] fs[i]) && stat_schema()[i] == fv_kind(fs[i]));
    lemma_dec_enc_fields(stat_schema(), fs, Seq::empty());
    assert(enc_fvs(fs) + Seq::<u8>::empty() =~= body);
    assert(dec_fields(stat_schema(), body) == Ok::<_, Error>((fs, Seq::<u8>::empty())));
    assert(stat_of_fields(fs) == v);
    assert(b.skip(2 + s) =~= rest);
}

/// Any strict prefix of a block is refused: either the size prefix itself is
/// cut, or the declared window no longer fits.
pub proof fn lemma_stat_prefix_trunc(v: StatV, n: int)
    requires
        stat_wf(v),
        0 <= n < enc_stat(v).len(),
    ensures
        dec_stat(enc_stat(v).take(n)) == Err::<(StatV, Seq<u8>), _>(Error::MessageLength),
{
    let e = enc_stat(v);
    let d = e.take(n);
    if n >= 2 {
        let body = stat_body(v);
        lemma_le16_round_trip(body.len() as u16);
        assert(d[0] == le16(body.len() as u16)[0] && d[1] == le16(body.len() as u16)[1]);
        assert(u16_of(d) == body.len() as u16);
        assert(d.len() < 2 + body.len());
    }
}

impl Stat {
    pub open spec fn wf(&self) -> bool {
        stat_wf(self@)
    }

    /// The byte length of the whole block as `encode` writes it.
    pub fn size(&self) -> (n: usize)
        requires
            self.wf(),
        ensures
            n == enc_stat(self@).len(),
    {
        proof {
            lemma_stat_body_flat(self@);
        }
        49 + self.name.len() + self.uid.len() + self.gid.len() + self.muid.len()
    }

    /// Append the whole block to `out`.
    pub fn encode_onto(&self, out: &mut Vec<u8>)
        requires
            self.wf(),
        ensures
            final(out)@ == old(out)@ + enc_stat(self@),
    {
        proof {
            lemma_stat_body_flat(self@);
        }
        let mut body: Vec<u8> = Vec::new();
        put_u16(&mut body, self.type_);
        put_u32(&mut body, self.dev);
        put_qid(&mut body, &self.qid);
        put_u32(&mut body, self.mode);
        put_u32(&mut body, self.atime);
        put_u32(&mut body, self.mtime);
        put_u64(&mut body, self.length);
        put_str(&mut body, &self.name);
        put_str(&mut body, &self.uid);
        put_str(&mut body, &self.gid);
        put_str(&mut body, &self.muid);
        proof {
            assert(body@ =~= stat_body(self@));
        }
        put_u16(out, body.len() as u16);
        put_bytes(out, body.as_slice());
        proof {
            assert(out@ =~= old(out)@ + enc_stat(self@));
        }
    }

    /// The whole block as a fresh vector.
    pub fn encode(&self) -> (out: Vec<u8>)
        requires
            self.wf(),
        ensures
            out@ == enc_stat(self@),
    {
        let mut out: Vec<u8> = Vec::new();
        self.encode_onto(&mut out);
        out
    }

    /// Decode one block starting at `pos`; on success the entry and the
    /// position just past its declared window.
    pub fn parse(bytes: &[u8], pos: usize) -> (r: Result<(Stat, usize), Error>)
        requires
            pos <= bytes@.len(),
        ensures
            match r {
                Ok((st, p)) => pos + 2 <= p <= bytes@.len() && st.wf() && dec_stat(
                    bytes@.skip(pos as int),
                ) == Ok::<_, Error>((st@, bytes@.skip(p as int))),
                Err(e) => dec_stat(bytes@.skip(pos as int)) == Err::<(StatV, Seq<u8>), _>(e)
                    && (e == Error::MessageLength || e == Error::Utf8),
            },
    {
        let ghost t = bytes@.skip(pos as int);
        let (s16, p1) = match get_u16(bytes, pos) {
            Ok(x) => x,
            Err(e) => {
                return Err(e);
            },
        };
        let s = s16 as usize;
        if bytes.len() - p1 < s {
            proof {
                assert(t.len() < 2 + s);
            }
            return Err(Error::MessageLength);
        }
        let w = slice_subrange(bytes, p1, p1 + s);
        proof {
            assert(w@ =~= t.subrange(2, 2 + s as int));
            assert(stat_schema() =~= stat_schema_fixed() + stat_schema_strs());
            lemma_dec_fields_concat(stat_schema_fixed(), stat_schema_strs(), w@);
        }
        let (fx, p7) = match parse_fixed(w) {
            Ok(x) => x,
            Err(e) => {
                return Err(e);
            },
        };
        let ((name, uid, gid, muid), p11) = match parse_strs(w, p7) {
            Ok(x) => x,
            Err(e) => {
                return Err(e);
            },
        };
        let st = Stat {
            type_: fx.type_,
            dev: fx.dev,
            qid: fx.qid,
            mode: fx.mode,
            atime: fx.atime,
            mtime: fx.mtime,
            length: fx.length,
            name,
            uid,
            gid,
            muid,
        };
        proof {
            let vs = fixed_fields(fx) + seq![
                Fv::Str(st@.name),
                Fv::Str(st@.uid),
                Fv::Str(st@.gid),
                Fv::Str(st@.muid),
            ];
            assert(dec_fields(stat_schema(), w@) == Ok::<_, Error>((vs, w@.skip(p11 as int))));
            assert(stat_of_fields(vs) == st@);
            lemma_stat_body_flat(st@);
            assert(stat_body(st@).len() == p11);
            assert(t.skip(2 + s as int) =~= bytes@.skip(p1 + s));
        }
        Ok((st, p1 + s))
    }
}

/// The fixed-width front of the window: everything before the four strings.
struct FixedPart {
    type_: u16,
    dev: u32,
    qid: Qid,
    mode: u32,
    atime: u32,
    mtime: u32,
    length: u64,
}

spec fn stat_schema_fixed() -> Seq<Fk> {
    seq![Fk::U16, Fk::U32, Fk::Qid, Fk::U32, Fk::U32, Fk::U32, Fk::U64]
}

spec fn stat_schema_strs() -> Seq<Fk> {
    seq![Fk::Str, Fk::Str, Fk::Str, Fk::Str]
}

spec fn fixed_fields(f: FixedPart) -> Seq<Fv> {
    seq![
        Fv::U16(f.type_),
        Fv::U32(f.dev),
        Fv::Qid(f.qid),
        Fv::U32(f.mode),
        Fv::U32(f.atime),
        Fv::U32(f.mtime),
        Fv::U64(f.length),
    ]
}

#[verifier::rlimit(100)]
#[verifier::spinoff_prover]
fn parse_fixed(w: &[u8]) -> (r: Result<(FixedPart, usize), Error>)
    ensures
        match r {
            Ok((f, p)) => p == 39 && p <= w@.len() && dec_fields(stat_schema_fixed(), w@)
                == Ok::<_, Error>((fixed_fields(f), w@.skip(p as int))),
            Err(e) => dec_fields(stat_schema_fixed(), w@) == Err::<(Seq<Fv>, Seq<u8>), _>(e) && e
                == Error::MessageLength,
        },
{
    let ghost ks0 = stat_schema_fixed();
    let ghost ks1 = seq![Fk::U32, Fk::Qid, Fk::U32, Fk::U32, Fk::U32, Fk::U64];
    let ghost ks2 = seq![Fk::Qid, Fk::U32, Fk::U32, Fk::U32, Fk::U64];
    let ghost ks3 = seq![Fk::U32, Fk::U32, Fk::U32, Fk::U64];
    let ghost ks4 = seq![Fk::U32, Fk::U32, Fk::U64];
    let ghost ks5 = seq![Fk::U32, Fk::U64];
    let ghost ks6 = seq![Fk::U64];
    proof {
        assert(ks0.skip(1) =~= ks1);
        assert(ks1.skip(1) =~= ks2);
        assert(ks2.skip(1) =~= ks3);
        assert(ks3.skip(1) =~= ks4);
        assert(ks4.skip(1) =~= ks5);
        assert(ks5.skip(1) =~= ks6);
        assert(ks6.skip(1) =~= Seq::<Fk>::empty());
        assert(w@.skip(0) =~= w@);
        lemma_dec_fields_step(ks0, w@);
    }
    let (type_, q1) = match take_u16(w, 0) {
        Ok(x) => x,
        Err(e) => {
            return Err(e);
        },
    };
    proof {
        lemma_dec_fields_step(ks1, w@.skip(q1 as int));
    }
    let (dev, q2) = match take_u32(w, q1) {
        Ok(x) => x,
        Err(e) => {
            return Err(e);
        },
    };
    proof {
        lemma_dec_fields_step(ks2, w@.skip(q2 as int));
    }
    let (qid, q3) = match take_qid(w, q2) {
        Ok(x) => x,
        Err(e) => {
            return Err(e);
        },
    };
    proof {
        lemma_dec_fields_step(ks3, w@.skip(q3 as int));
    }
    let (mode, q4) = match take_u32(w, q3) {
        Ok(x) => x,
        Err(e) => {
            return Err(e);
        },
    };
    proof {
        lemma_dec_fields_step(ks4, w@.skip(q4 as int));
    }
    let (atime, q5) = match take_u32(w, q4) {
        Ok(x) => x,
        Err(e) => {
            return Err(e);
        },
    };
    proof {
        lemma_dec_fields_step(ks5, w@.skip(q5 as int));
    }
    let (mtime, q6) = match take_u32(w, q5) {
        Ok(x) => x,
        Err(e) => {
            return Err(e);
        },
    };
    proof {
        lemma_dec_fields_step(ks6, w@.skip(q6 as int));
    }
    let (length, q7) = match take_u64(w, q6) {
        Ok(x) => x,
        Err(e) => {
            return Err(e);
        },
    };
    let f = FixedPart { type_, dev, qid, mode, atime, mtime, length };
    proof {
        lemma_dec_fields_nil(w@.skip(q7 as int));
        assert(dec_fields(ks0, w@) matches Ok((got, _)) && got =~= fixed_fields(f));
    }
    Ok((f, q7))
}

#[verifier::rlimit(100)]
#[verifier::spinoff_prover]
fn parse_strs(w: &[u8], pos: usize) -> (r: Result<((PString, PString, PString, PString), usize), Error>)
    requires
        pos <= w@.len(),
    ensures
        match r {
            Ok(((name, uid, gid, muid), p)) => pos <= p <= w@.len() && p == pos + 8 + name@.len()
                + uid@.len() + gid@.len() + muid@.len() && name.wf() && uid.wf() && gid.wf()
                && muid.wf() && dec_fields(stat_schema_strs(), w@.skip(pos as int))
                == Ok::<_, Error>(
                (
                    seq![Fv::Str(name@), Fv::Str(uid@), Fv::Str(gid@), Fv::Str(muid@)],
                    w@.skip(p as int),
                ),
            ),
            Err(e) => dec_fields(stat_schema_strs(), w@.skip(pos as int)) == Err::<
                (Seq<Fv>, Seq<u8>),
                _,
            >(e) && (e == Error::MessageLength || e == Error::Utf8),
        },
{
    let ghost ks0 = stat_schema_strs();
    let ghost ks1 = seq![Fk::Str, Fk::Str, Fk::Str];
    let ghost ks2 = seq![Fk::Str, Fk::Str];
    let ghost ks3 = seq![Fk::Str];
    proof {
        assert(ks0.skip(1) =~= ks1);
        assert(ks1.skip(1) =~= ks2);
        assert(ks2.skip(1) =~= ks3);
        assert(ks3.skip(1) =~= Seq::<Fk>::empty());
        lemma_dec_fields_step(ks0, w@.skip(pos as int));
    }
    let (name, q1) = match take_str(w, pos) {
        Ok(x) => x,
        Err(e) => {
            return Err(e);
        },
    };
    proof {
        lemma_dec_fields_step(ks1, w@.skip(q1 as int));
    }
    let (uid, q2) = match take_str(w, q1) {
        Ok(x) => x,
        Err(e) => {
            return Err(e);
        },
    };
    proof {
        lemma_dec_fields_step(ks2, w@.skip(q2 as int));
    }
    let (gid, q3) = match take_str(w, q2) {
        Ok(x) => x,
        Err(e) => {
            return Err(e);
        },
    };
    proof {
        lemma_dec_fields_step(ks3, w@.skip(q3 as int));
    }
    let (muid, q4) = match take_str(w, q3) {
        Ok(x) => x,
        Err(e) => {
            return Err(e);
        },
    };
    proof {
        lemma_dec_fields_nil(w@.skip(q4 as int));
        assert(dec_fields(ks0, w@.skip(pos as int)) matches Ok((got, _)) && got =~= seq![
            Fv::Str(name@),
            Fv::Str(uid@),
            Fv::Str(gid@),
            Fv::Str(muid@),
        ]);
    }
    Ok(((name, uid, gid, muid), q4))
}


} // verus!
