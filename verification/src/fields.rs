//! The shared field vocabulary of the message catalog: kinds, values, their
//! wire encodings, a bounded decoder, and the lemmas that tie the two
//! together. Every message body is a sequence of these fields; the catalog's
//! per-message proofs all reduce to the generic lemmas here.

use vstd::prelude::*;

use crate::bytes::{
    get_u16, get_u32, get_u64, get_u8, le16, le32, le64, put_bytes, put_u16, put_u32, put_u64,
    u16_of, u32_of, u64_of, lemma_le16_round_trip, lemma_le32_round_trip, lemma_le64_round_trip,
};
use crate::error::Error;
use crate::pstring::{str_wf, PString};
use crate::qid::Qid;
use crate::utf8::is_utf8;
use vstd::slice::{slice_subrange, slice_to_vec};

verus! {

/// The kinds of wire fields a message body can be made of.
pub enum Fk {
    U8,
    U16,
    U32,
    U64,
    /// A string: `u16` length prefix, then that many UTF-8 bytes.
    Str,
    /// A blob: `u32` length prefix, then that many raw bytes.
    Data,
    /// A 13-byte file identifier.
    Qid,
    /// A `u16` count followed by that many 13-byte identifiers.
    QidList,
    /// A `u16` count followed by that many strings.
    NameList,
}

/// A field's value, at the specification level.
pub enum Fv {
    U8(u8),
    U16(u16),
    U32(u32),
    U64(u64),
    Str(Seq<u8>),
    Data(Seq<u8>),
    Qid(Qid),
    QidList(Seq<Qid>),
    NameList(Seq<Seq<u8>>),
}

pub open spec fn fv_kind(v: Fv) -> Fk {
    match v {
        Fv::U8(_) => Fk::U8,
        Fv::U16(_) => Fk::U16,
        Fv::U32(_) => Fk::U32,
        Fv::U64(_) => Fk::U64,
        Fv::Str(_) => Fk::Str,
        Fv::Data(_) => Fk::Data,
        Fv::Qid(_) => Fk::Qid,
        Fv::QidList(_) => Fk::QidList,
        Fv::NameList(_) => Fk::NameList,
    }
}

/// The value fits its field's length prefix and, for strings, is UTF-8.
pub open spec fn fv_wf(v: Fv) -> bool {
    match v {
        Fv::Str(s) => str_wf(s),
        Fv::Data(d) => d.len() <= 0xffffffff,
        Fv::QidList(qs) => qs.len() <= 0xffff,
        Fv::NameList(ns) => ns.len() <= 0xffff && (forall|i: int|
            0 <= i < ns.len() ==> str_wf(#[trigger] ns[i])),
        _ => true,
    }
}

pub open spec fn enc_qid(q: Qid) -> Seq<u8> {
    seq![q.type_] + le32(q.vers) + le64(q.path)
}

pub open spec fn enc_qids(qs: Seq<Qid>) -> Seq<u8>
    decreases qs.len(),
{
    if qs.len() == 0 {
        Seq::empty()
    } else {
        enc_qid(qs[0]) + enc_qids(qs.skip(1))
    }
}

pub open spec fn enc_str(s: Seq<u8>) -> Seq<u8> {
    le16(s.len() as u16) + s
}

pub open spec fn enc_names(ns: Seq<Seq<u8>>) -> Seq<u8>
    decreases ns.len(),
{
    if ns.len() == 0 {
        Seq::empty()
    } else {
        enc_str(ns[0]) + enc_names(ns.skip(1))
    }
}

pub open spec fn enc_fv(v: Fv) -> Seq<u8> {
    match v {
        Fv::U8(x) => seq![x],
        Fv::U16(x) => le16(x),
        Fv::U32(x) => le32(x),
        Fv::U64(x) => le64(x),
        Fv::Str(s) => enc_str(s),
        Fv::Data(d) => le32(d.len() as u32) + d,
        Fv::Qid(q) => enc_qid(q),
        Fv::QidList(qs) => le16(qs.len() as u16) + enc_qids(qs),
        Fv::NameList(ns) => le16(ns.len() as u16) + enc_names(ns),
    }
}

/// The body bytes of a message whose fields are `vs`, in order.
pub open spec fn enc_fvs(vs: Seq<Fv>) -> Seq<u8>
    decreases vs.len(),
{
    if vs.len() == 0 {
        Seq::empty()
    } else {
        enc_fv(vs[0]) + enc_fvs(vs.skip(1))
    }
}

pub open spec fn dec_qid(b: Seq<u8>) -> Qid {
    Qid { type_: b[0], vers: u32_of(b.skip(1)), path: u64_of(b.skip(5)) }
}

pub open spec fn dec_qidf(b: Seq<u8>) -> Result<(Qid, Seq<u8>), Error> {
    if b.len() >= 13 {
        Ok((dec_qid(b), b.skip(13)))
    } else {
        Err(Error::MessageLength)
    }
}

pub open spec fn dec_str(b: Seq<u8>) -> Result<(Seq<u8>, Seq<u8>), Error> {
    if b.len() < 2 {
        Err(Error::MessageLength)
    } else {
        let l = u16_of(b) as int;
        if b.len() < 2 + l {
            Err(Error::MessageLength)
        } else if !is_utf8(b.subrange(2, 2 + l)) {
            Err(Error::Utf8)
        } else {
            Ok((b.subrange(2, 2 + l), b.skip(2 + l)))
        }
    }
}

/// A string field whose declared payload holds the byte `0xFF` anywhere is
/// refused as a `Utf8` fault: that byte occurs in no UTF-8 text.
pub proof fn lemma_str_field_ff(b: Seq<u8>, i: int)
    requires
        b.len() >= 2,
        2 + (u16_of(b) as int) <= b.len(),
        2 <= i < 2 + (u16_of(b) as int),
        b[i] == 0xff,
    ensures
        dec_str(b) == Err::<(Seq<u8>, Seq<u8>), _>(Error::Utf8),
{
    let l = u16_of(b) as int;
    let w = b.subrange(2, 2 + l);
    crate::utf8::lemma_ff_not_utf8(w, i - 2);
}

pub open spec fn dec_data(b: Seq<u8>) -> Result<(Seq<u8>, Seq<u8>), Error> {
    if b.len() < 4 {
        Err(Error::MessageLength)
    } else {
        let l = u32_of(b) as int;
        if b.len() < 4 + l {
            Err(Error::MessageLength)
        } else {
            Ok((b.subrange(4, 4 + l), b.skip(4 + l)))
        }
    }
}

pub open spec fn dec_qids(n: nat, b: Seq<u8>) -> Result<(Seq<Qid>, Seq<u8>), Error>
    decreases n,
{
    if n == 0 {
        Ok((Seq::empty(), b))
    } else {
        match dec_qidf(b) {
            Ok((q, r)) => match dec_qids((n - 1) as nat, r) {
                Ok((qs, r2)) => Ok((seq![q] + qs, r2)),
                Err(e) => Err(e),
            },
            Err(e) => Err(e),
        }
    }
}

pub open spec fn dec_names(n: nat, b: Seq<u8>) -> Result<(Seq<Seq<u8>>, Seq<u8>), Error>
    decreases n,
{
    if n == 0 {
        Ok((Seq::empty(), b))
    } else {
        match dec_str(b) {
            Ok((s, r)) => match dec_names((n - 1) as nat, r) {
                Ok((ns, r2)) => Ok((seq![s] + ns, r2)),
                Err(e) => Err(e),
            },
            Err(e) => Err(e),
        }
    }
}

/// Decode one field of kind `k` from the front of `b`: the value and the
/// unconsumed tail, or the fault that stopped it.
pub open spec fn dec_field(k: Fk, b: Seq<u8>) -> Result<(Fv, Seq<u8>), Error> {
    match k {
        Fk::U8 => if b.len() >= 1 {
            Ok((Fv::U8(b[0]), b.skip(1)))
        } else {
            Err(Error::MessageLength)
        },
        Fk::U16 => if b.len() >= 2 {
            Ok((Fv::U16(u16_of(b)), b.skip(2)))
        } else {
            Err(Error::MessageLength)
        },
        Fk::U32 => if b.len() >= 4 {
            Ok((Fv::U32(u32_of(b)), b.skip(4)))
        } else {
            Err(Error::MessageLength)
        },
        Fk::U64 => if b.len() >= 8 {
            Ok((Fv::U64(u64_of(b)), b.skip(8)))
        } else {
            Err(Error::MessageLength)
        },
        Fk::Str => match dec_str(b) {
            Ok((s, r)) => Ok((Fv::Str(s), r)),
            Err(e) => Err(e),
        },
        Fk::Data => match dec_data(b) {
            Ok((d, r)) => Ok((Fv::Data(d), r)),
            Err(e) => Err(e),
        },
        Fk::Qid => match dec_qidf(b) {
            Ok((q, r)) => Ok((Fv::Qid(q), r)),
            Err(e) => Err(e),
        },
        Fk::QidList => if b.len() >= 2 {
            match dec_qids(u16_of(b) as nat, b.skip(2)) {
                Ok((qs, r)) => Ok((Fv::QidList(qs), r)),
                Err(e) => Err(e),
            }
        } else {
            Err(Error::MessageLength)
        },
        Fk::NameList => if b.len() >= 2 {
            match dec_names(u16_of(b) as nat, b.skip(2)) {
                Ok((ns, r)) => Ok((Fv::NameList(ns), r)),
                Err(e) => Err(e),
            }
        } else {
            Err(Error::MessageLength)
        },
    }
}

/// Decode the fields of kinds `ks`, in order, from the front of `b`.
pub open spec fn dec_fields(ks: Seq<Fk>, b: Seq<u8>) -> Result<(Seq<Fv>, Seq<u8>), Error>
    decreases ks.len(),
{
    if ks.len() == 0 {
        Ok((Seq::empty(), b))
    } else {
        match dec_field(ks[0], b) {
            Ok((v, r)) => match dec_fields(ks.skip(1), r) {
                Ok((vs, r2)) => Ok((seq![v] + vs, r2)),
                Err(e) => Err(e),
            },
            Err(e) => Err(e),
        }
    }
}

/// Decode a whole message body against its schema: every declared field in
/// order, and nothing may remain.
pub open spec fn dec_msg(ks: Seq<Fk>, b: Seq<u8>) -> Result<Seq<Fv>, Error> {
    match dec_fields(ks, b) {
        Ok((vs, r)) => if r.len() == 0 {
            Ok(vs)
        } else {
            Err(Error::MessageLength)
        },
        Err(e) => Err(e),
    }
}

// Extractors used to state which concrete value a decoded field holds.
pub open spec fn fv_u8(v: Fv) -> u8 {
    match v {
        Fv::U8(x) => x,
        _ => arbitrary(),
    }
}

pub open spec fn fv_u16(v: Fv) -> u16 {
    match v {
        Fv::U16(x) => x,
        _ => arbitrary(),
    }
}

pub open spec fn fv_u32(v: Fv) -> u32 {
    match v {
        Fv::U32(x) => x,
        _ => arbitrary(),
    }
}

pub open spec fn fv_u64(v: Fv) -> u64 {
    match v {
        Fv::U64(x) => x,
        _ => arbitrary(),
    }
}

pub open spec fn fv_str(v: Fv) -> Seq<u8> {
    match v {
        Fv::Str(s) => s,
        _ => arbitrary(),
    }
}

pub open spec fn fv_data(v: Fv) -> Seq<u8> {
    match v {
        Fv::Data(d) => d,
        _ => arbitrary(),
    }
}

pub open spec fn fv_qid(v: Fv) -> Qid {
    match v {
        Fv::Qid(q) => q,
        _ => arbitrary(),
    }
}

pub open spec fn fv_qids(v: Fv) -> Seq<Qid> {
    match v {
        Fv::QidList(qs) => qs,
        _ => arbitrary(),
    }
}

pub open spec fn fv_names(v: Fv) -> Seq<Seq<u8>> {
    match v {
        Fv::NameList(ns) => ns,
        _ => arbitrary(),
    }
}

// ---------------------------------------------------------------------------
// Round trip: decoding an encoding yields the encoded values and leaves the
// trailing bytes untouched.
// ---------------------------------------------------------------------------

proof fn lemma_dec_enc_qid(q: Qid, rest: Seq<u8>)
    ensures
        dec_qidf(enc_qid(q) + rest) == Ok::<_, Error>((q, rest)),
{
    let b = enc_qid(q) + rest;
    assert(b.skip(1).take(4) =~= le32(q.vers));
    assert(b.skip(1)[0] == le32(q.vers)[0]);
    assert(b.skip(1)[1] == le32(q.vers)[1]);
    assert(b.skip(1)[2] == le32(q.vers)[2]);
    assert(b.skip(1)[3] == le32(q.vers)[3]);
    lemma_le32_round_trip(q.vers);
    assert(u32_of(b.skip(1)) == q.vers);
    assert(b.skip(5)[0] == le64(q.path)[0]);
    assert(b.skip(5)[1] == le64(q.path)[1]);
    assert(b.skip(5)[2] == le64(q.path)[2]);
    assert(b.skip(5)[3] == le64(q.path)[3]);
    assert(b.skip(5)[4] == le64(q.path)[4]);
    assert(b.skip(5)[5] == le64(q.path)[5]);
    assert(b.skip(5)[6] == le64(q.path)[6]);
    assert(b.skip(5)[7] == le64(q.path)[7]);
    lemma_le64_round_trip(q.path);
    assert(u64_of(b.skip(5)) == q.path);
    assert(b[0] == q.type_);
    assert(dec_qid(b) == q);
    assert(b.skip(13) =~= rest);
}

pub proof fn lemma_dec_enc_str(s: Seq<u8>, rest: Seq<u8>)
    requires
        str_wf(s),
    ensures
        dec_str(enc_str(s) + rest) == Ok::<_, Error>((s, rest)),
{
    let b = enc_str(s) + rest;
    lemma_le16_round_trip(s.len() as u16);
    assert(b[0] == le16(s.len() as u16)[0]);
    assert(b[1] == le16(s.len() as u16)[1]);
    assert(u16_of(b) == s.len() as u16);
    let l = s.len() as int;
    assert(b.len() == 2 + l + rest.len());
    assert(b.subrange(2, 2 + l) =~= s);
    assert(b.skip(2 + l) =~= rest);
}

proof fn lemma_dec_enc_qids(qs: Seq<Qid>, rest: Seq<u8>)
    ensures
        dec_qids(qs.len(), enc_qids(qs) + rest) == Ok::<_, Error>((qs, rest)),
    decreases qs.len(),
{
    if qs.len() == 0 {
        assert(enc_qids(qs) + rest =~= rest);
        assert(qs =~= Seq::<Qid>::empty());
    } else {
        let tail = qs.skip(1);
        assert(enc_qids(qs) + rest =~= enc_qid(qs[0]) + (enc_qids(tail) + rest));
        lemma_dec_enc_qid(qs[0], enc_qids(tail) + rest);
        lemma_dec_enc_qids(tail, rest);
        assert(seq![qs[0]] + tail =~= qs);
    }
}

#[verifier::rlimit(100)]
proof fn lemma_dec_enc_names(ns: Seq<Seq<u8>>, rest: Seq<u8>)
    requires
        forall|i: int| 0 <= i < ns.len() ==> str_wf(#[trigger] ns[i]),
    ensures
        dec_names(ns.len(), enc_names(ns) + rest) == Ok::<_, Error>((ns, rest)),
    decreases ns.len(),
{
    if ns.len() == 0 {
        assert(enc_names(ns) + rest =~= rest);
        assert(ns =~= Seq::<Seq<u8>>::empty());
    } else {
        let tail = ns.skip(1);
        let rest2 = enc_names(tail) + rest;
        assert(enc_names(ns) + rest =~= enc_str(ns[0]) + rest2);
        lemma_dec_enc_str(ns[0], rest2);
        assert(dec_str(enc_names(ns) + rest) == Ok::<_, Error>((ns[0], rest2)));
        assert(forall|i: int| 0 <= i < tail.len() ==> str_wf(#[trigger] tail[i]));
        lemma_dec_enc_names(tail, rest);
        assert(dec_names(ns.len(), enc_names(ns) + rest) == Ok::<_, Error>(
            (seq![ns[0]] + tail, rest),
        ));
        assert(seq![ns[0]] + tail =~= ns);
    }
}

/// Decoding a well-formed field's encoding succeeds, yields the field, and
/// leaves exactly the trailing bytes.
pub proof fn lemma_dec_enc_field(v: Fv, rest: Seq<u8>)
    requires
        fv_wf(v),
    ensures
        dec_field(fv_kind(v), enc_fv(v) + rest) == Ok::<_, Error>((v, rest)),
{
    let b = enc_fv(v) + rest;
    match v {
        Fv::U8(x) => {
            assert(b[0] == x);
            assert(b.skip(1) =~= rest);
        },
        Fv::U16(x) => {
            lemma_le16_round_trip(x);
            assert(b[0] == le16(x)[0] && b[1] == le16(x)[1]);
            assert(u16_of(b) == x);
            assert(b.skip(2) =~= rest);
        },
        Fv::U32(x) => {
            lemma_le32_round_trip(x);
            assert(b[0] == le32(x)[0] && b[1] == le32(x)[1] && b[2] == le32(x)[2] && b[3] == le32(
                x,
            )[3]);
            assert(u32_of(b) == x);
            assert(b.skip(4) =~= rest);
        },
        Fv::U64(x) => {
            lemma_le64_round_trip(x);
            assert(b[0] == le64(x)[0] && b[1] == le64(x)[1] && b[2] == le64(x)[2] && b[3] == le64(
                x,
            )[3] && b[4] == le64(x)[4] && b[5] == le64(x)[5] && b[6] == le64(x)[6] && b[7] == le64(
                x,
            )[7]);
            assert(u64_of(b) == x);
            assert(b.skip(8) =~= rest);
        },
        Fv::Str(s) => {
            lemma_dec_enc_str(s, rest);
        },
        Fv::Data(d) => {
            lemma_le32_round_trip(d.len() as u32);
            assert(b[0] == le32(d.len() as u32)[0] && b[1] == le32(d.len() as u32)[1] && b[2]
                == le32(d.len() as u32)[2] && b[3] == le32(d.len() as u32)[3]);
            assert(u32_of(b) == d.len() as u32);
            let l = d.len() as int;
            assert(b.subrange(4, 4 + l) =~= d);
            assert(b.skip(4 + l) =~= rest);
        },
        Fv::Qid(q) => {
            lemma_dec_enc_qid(q, rest);
        },
        Fv::QidList(qs) => {
            lemma_le16_round_trip(qs.len() as u16);
            assert(b[0] == le16(qs.len() as u16)[0] && b[1] == le16(qs.len() as u16)[1]);
            assert(u16_of(b) == qs.len() as u16);
            assert(b.skip(2) =~= enc_qids(qs) + rest);
            lemma_dec_enc_qids(qs, rest);
        },
        Fv::NameList(ns) => {
            lemma_le16_round_trip(ns.len() as u16);
            assert(b[0] == le16(ns.len() as u16)[0] && b[1] == le16(ns.len() as u16)[1]);
            assert(u16_of(b) == ns.len() as u16);
            assert(b.skip(2) =~= enc_names(ns) + rest);
            lemma_dec_enc_names(ns, rest);
        },
    }
}

/// Every kind of list of well-formed fields decodes back from its encoding,
/// whatever follows it.
pub proof fn lemma_dec_enc_fields(ks: Seq<Fk>, vs: Seq<Fv>, rest: Seq<u8>)
    requires
        ks.len() == vs.len(),
        forall|i: int| 0 <= i < vs.len() ==> fv_wf(#[trigger] vs[i]) && ks[i] == fv_kind(vs[i]),
    ensures
        dec_fields(ks, enc_fvs(vs) + rest) == Ok::<_, Error>((vs, rest)),
    decreases vs.len(),
{
    if vs.len() == 0 {
        assert(enc_fvs(vs) + rest =~= rest);
        assert(vs =~= Seq::<Fv>::empty());
    } else {
        let tail = vs.skip(1);
        assert(enc_fvs(vs) + rest =~= enc_fv(vs[0]) + (enc_fvs(tail) + rest));
        lemma_dec_enc_field(vs[0], enc_fvs(tail) + rest);
        assert(forall|i: int|
            0 <= i < tail.len() ==> fv_wf(#[trigger] tail[i]) && ks.skip(1)[i] == fv_kind(
                tail[i],
            ));
        lemma_dec_enc_fields(ks.skip(1), tail, rest);
        assert(seq![vs[0]] + tail =~= vs);
    }
}

/// A well-formed message body decodes to exactly its fields.
pub proof fn lemma_dec_enc_msg(ks: Seq<Fk>, vs: Seq<Fv>)
    requires
        ks.len() == vs.len(),
        forall|i: int| 0 <= i < vs.len() ==> fv_wf(#[trigger] vs[i]) && ks[i] == fv_kind(vs[i]),
    ensures
        dec_msg(ks, enc_fvs(vs)) == Ok::<_, Error>(vs),
{
    lemma_dec_enc_fields(ks, vs, Seq::empty());
    assert(enc_fvs(vs) + Seq::<u8>::empty() =~= enc_fvs(vs));
}

/// A message body one byte longer than an encoding is refused: the decoder
/// leaves the stray byte and the end-of-body check fails.
pub proof fn lemma_msg_extended(ks: Seq<Fk>, vs: Seq<Fv>, x: u8)
    requires
        ks.len() == vs.len(),
        forall|i: int| 0 <= i < vs.len() ==> fv_wf(#[trigger] vs[i]) && ks[i] == fv_kind(vs[i]),
    ensures
        dec_msg(ks, enc_fvs(vs).push(x)) == Err::<Seq<Fv>, _>(Error::MessageLength),
{
    assert(enc_fvs(vs).push(x) =~= enc_fvs(vs) + seq![x]);
    lemma_dec_enc_fields(ks, vs, seq![x]);
}

// ---------------------------------------------------------------------------
// Truncation: a body cut one byte short is refused with `MessageLength`.
// ---------------------------------------------------------------------------

pub proof fn lemma_enc_qids_len(qs: Seq<Qid>)
    ensures
        enc_qids(qs).len() == 13 * qs.len(),
    decreases qs.len(),
{
    if qs.len() > 0 {
        lemma_enc_qids_len(qs.skip(1));
    }
}

proof fn lemma_enc_names_pos(ns: Seq<Seq<u8>>)
    ensures
        ns.len() > 0 ==> enc_names(ns).len() > 0,
{
}

/// Every field's encoding takes at least one byte.
pub proof fn lemma_enc_fv_pos(v: Fv)
    ensures
        enc_fv(v).len() >= 1,
{
}

proof fn lemma_enc_fvs_pos(vs: Seq<Fv>)
    ensures
        vs.len() > 0 ==> enc_fvs(vs).len() > 0,
{
    if vs.len() > 0 {
        lemma_enc_fv_pos(vs[0]);
    }
}

pub proof fn lemma_str_trunc(s: Seq<u8>)
    requires
        str_wf(s),
    ensures
        dec_str(enc_str(s).drop_last()) == Err::<(Seq<u8>, Seq<u8>), _>(Error::MessageLength),
{
    let e = enc_str(s);
    let d = e.drop_last();
    if s.len() == 0 {
        assert(d.len() == 1);
    } else {
        assert(d =~= le16(s.len() as u16) + s.drop_last());
        assert(d[0] == le16(s.len() as u16)[0] && d[1] == le16(s.len() as u16)[1]);
        lemma_le16_round_trip(s.len() as u16);
        assert(u16_of(d) == s.len() as u16);
        assert(d.len() < 2 + s.len());
    }
}

proof fn lemma_qid_trunc(q: Qid)
    ensures
        dec_qidf(enc_qid(q).drop_last()) == Err::<(Qid, Seq<u8>), _>(Error::MessageLength),
{
    assert(enc_qid(q).drop_last().len() == 12);
}

proof fn lemma_qids_trunc(qs: Seq<Qid>)
    requires
        qs.len() > 0,
    ensures
        dec_qids(qs.len(), enc_qids(qs).drop_last()) == Err::<(Seq<Qid>, Seq<u8>), _>(
            Error::MessageLength,
        ),
    decreases qs.len(),
{
    let tail = qs.skip(1);
    if qs.len() == 1 {
        assert(enc_qids(qs) =~= enc_qid(qs[0]));
        lemma_qid_trunc(qs[0]);
        assert(enc_qids(qs).drop_last() =~= enc_qid(qs[0]).drop_last());
    } else {
        lemma_enc_qids_len(tail);
        assert(enc_qids(qs).drop_last() =~= enc_qid(qs[0]) + enc_qids(tail).drop_last());
        lemma_dec_enc_qid(qs[0], enc_qids(tail).drop_last());
        lemma_qids_trunc(tail);
    }
}

proof fn lemma_names_trunc(ns: Seq<Seq<u8>>)
    requires
        ns.len() > 0,
        forall|i: int| 0 <= i < ns.len() ==> str_wf(#[trigger] ns[i]),
    ensures
        dec_names(ns.len(), enc_names(ns).drop_last()) == Err::<(Seq<Seq<u8>>, Seq<u8>), _>(
            Error::MessageLength,
        ),
    decreases ns.len(),
{
    let tail = ns.skip(1);
    if ns.len() == 1 {
        assert(enc_names(ns) =~= enc_str(ns[0]));
        lemma_str_trunc(ns[0]);
        assert(enc_names(ns).drop_last() =~= enc_str(ns[0]).drop_last());
    } else {
        lemma_enc_names_pos(tail);
        assert(enc_names(ns).drop_last() =~= enc_str(ns[0]) + enc_names(tail).drop_last());
        lemma_dec_enc_str(ns[0], enc_names(tail).drop_last());
        lemma_names_trunc(tail);
    }
}

/// Cutting the last byte off a well-formed field's encoding leaves too few
/// bytes for the field, whatever its kind.
pub proof fn lemma_field_trunc(v: Fv)
    requires
        fv_wf(v),
    ensures
        dec_field(fv_kind(v), enc_fv(v).drop_last()) == Err::<(Fv, Seq<u8>), _>(
            Error::MessageLength,
        ),
{
    let e = enc_fv(v);
    let d = e.drop_last();
    match v {
        Fv::U8(x) => {
            assert(d.len() == 0);
        },
        Fv::U16(x) => {
            assert(d.len() == 1);
        },
        Fv::U32(x) => {
            assert(d.len() == 3);
        },
        Fv::U64(x) => {
            assert(d.len() == 7);
        },
        Fv::Str(s) => {
            lemma_str_trunc(s);
        },
        Fv::Data(b) => {
            if b.len() == 0 {
                assert(d.len() == 3);
            } else {
                assert(d =~= le32(b.len() as u32) + b.drop_last());
                assert(d[0] == le32(b.len() as u32)[0] && d[1] == le32(b.len() as u32)[1] && d[2]
                    == le32(b.len() as u32)[2] && d[3] == le32(b.len() as u32)[3]);
                lemma_le32_round_trip(b.len() as u32);
                assert(u32_of(d) == b.len() as u32);
                assert(d.len() < 4 + b.len());
            }
        },
        Fv::Qid(q) => {
            lemma_qid_trunc(q);
        },
        Fv::QidList(qs) => {
            if qs.len() == 0 {
                assert(e =~= le16(0));
                assert(d.len() == 1);
            } else {
                lemma_enc_qids_len(qs);
                assert(d =~= le16(qs.len() as u16) + enc_qids(qs).drop_last());
                assert(d[0] == le16(qs.len() as u16)[0] && d[1] == le16(qs.len() as u16)[1]);
                lemma_le16_round_trip(qs.len() as u16);
                assert(u16_of(d) == qs.len() as u16);
                assert(d.skip(2) =~= enc_qids(qs).drop_last());
                lemma_qids_trunc(qs);
            }
        },
        Fv::NameList(ns) => {
            if ns.len() == 0 {
                assert(e =~= le16(0));
                assert(d.len() == 1);
            } else {
                lemma_enc_names_pos(ns);
                assert(d =~= le16(ns.len() as u16) + enc_names(ns).drop_last());
                assert(d[0] == le16(ns.len() as u16)[0] && d[1] == le16(ns.len() as u16)[1]);
                lemma_le16_round_trip(ns.len() as u16);
                assert(u16_of(d) == ns.len() as u16);
                assert(d.skip(2) =~= enc_names(ns).drop_last());
                lemma_names_trunc(ns);
            }
        },
    }
}

proof fn lemma_fields_trunc(ks: Seq<Fk>, vs: Seq<Fv>)
    requires
        ks.len() == vs.len(),
        vs.len() > 0,
        forall|i: int| 0 <= i < vs.len() ==> fv_wf(#[trigger] vs[i]) && ks[i] == fv_kind(vs[i]),
    ensures
        dec_fields(ks, enc_fvs(vs).drop_last()) == Err::<(Seq<Fv>, Seq<u8>), _>(
            Error::MessageLength,
        ),
    decreases vs.len(),
{
    let tail = vs.skip(1);
    if vs.len() == 1 {
        assert(enc_fvs(vs) =~= enc_fv(vs[0]));
        lemma_field_trunc(vs[0]);
        assert(enc_fvs(vs).drop_last() =~= enc_fv(vs[0]).drop_last());
    } else {
        lemma_enc_fvs_pos(tail);
        assert(enc_fvs(vs).drop_last() =~= enc_fv(vs[0]) + enc_fvs(tail).drop_last());
        lemma_dec_enc_field(vs[0], enc_fvs(tail).drop_last());
        assert(forall|i: int|
            0 <= i < tail.len() ==> fv_wf(#[trigger] tail[i]) && ks.skip(1)[i] == fv_kind(
                tail[i],
            ));
        lemma_fields_trunc(ks.skip(1), tail);
    }
}

/// A message body one byte shorter than an encoding is refused with
/// `MessageLength`.
pub proof fn lemma_msg_truncated(ks: Seq<Fk>, vs: Seq<Fv>)
    requires
        ks.len() == vs.len(),
        vs.len() > 0,
        forall|i: int| 0 <= i < vs.len() ==> fv_wf(#[trigger] vs[i]) && ks[i] == fv_kind(vs[i]),
    ensures
        dec_msg(ks, enc_fvs(vs).drop_last()) == Err::<Seq<Fv>, _>(Error::MessageLength),
{
    lemma_fields_trunc(ks, vs);
}

// ---------------------------------------------------------------------------
// Appending to a list's encoding.
// ---------------------------------------------------------------------------

pub proof fn lemma_enc_qids_push(qs: Seq<Qid>, q: Qid)
    ensures
        enc_qids(qs.push(q)) == enc_qids(qs) + enc_qid(q),
    decreases qs.len(),
{
    let e = qs.push(q);
    if qs.len() == 0 {
        assert(e[0] == q);
        assert(e.skip(1) =~= Seq::<Qid>::empty());
        assert(enc_qids(e) == enc_qid(q) + enc_qids(Seq::<Qid>::empty()));
        assert(enc_qid(q) + Seq::<u8>::empty() =~= enc_qid(q));
        assert(enc_qids(qs) + enc_qid(q) =~= enc_qid(q));
    } else {
        assert(e[0] == qs[0]);
        assert(e.skip(1) =~= qs.skip(1).push(q));
        lemma_enc_qids_push(qs.skip(1), q);
        assert(enc_qids(e) == enc_qid(qs[0]) + (enc_qids(qs.skip(1)) + enc_qid(q)));
        assert(enc_qid(qs[0]) + (enc_qids(qs.skip(1)) + enc_qid(q)) =~= (enc_qid(qs[0]) + enc_qids(
            qs.skip(1),
        )) + enc_qid(q));
    }
}

pub proof fn lemma_enc_names_push(ns: Seq<Seq<u8>>, s: Seq<u8>)
    ensures
        enc_names(ns.push(s)) == enc_names(ns) + enc_str(s),
    decreases ns.len(),
{
    let e = ns.push(s);
    if ns.len() == 0 {
        assert(e[0] == s);
        assert(e.skip(1) =~= Seq::<Seq<u8>>::empty());
        assert(enc_names(e) == enc_str(s) + enc_names(Seq::<Seq<u8>>::empty()));
        assert(enc_str(s) + Seq::<u8>::empty() =~= enc_str(s));
        assert(enc_names(ns) + enc_str(s) =~= enc_str(s));
    } else {
        assert(e[0] == ns[0]);
        assert(e.skip(1) =~= ns.skip(1).push(s));
        lemma_enc_names_push(ns.skip(1), s);
        assert(enc_names(e) == enc_str(ns[0]) + (enc_names(ns.skip(1)) + enc_str(s)));
        assert(enc_str(ns[0]) + (enc_names(ns.skip(1)) + enc_str(s)) =~= (enc_str(ns[0])
            + enc_names(ns.skip(1))) + enc_str(s));
    }
}

/// Encoding a list of fields is concatenating the encodings of its parts.
pub proof fn lemma_enc_fvs_concat(s1: Seq<Fv>, s2: Seq<Fv>)
    ensures
        enc_fvs(s1 + s2) == enc_fvs(s1) + enc_fvs(s2),
    decreases s1.len(),
{
    if s1.len() == 0 {
        assert(s1 + s2 =~= s2);
        assert(enc_fvs(s1) + enc_fvs(s2) =~= enc_fvs(s2));
    } else {
        assert((s1 + s2)[0] == s1[0]);
        assert((s1 + s2).skip(1) =~= s1.skip(1) + s2);
        lemma_enc_fvs_concat(s1.skip(1), s2);
        assert(enc_fvs(s1 + s2) == enc_fv(s1[0]) + (enc_fvs(s1.skip(1)) + enc_fvs(s2)));
        assert(enc_fv(s1[0]) + (enc_fvs(s1.skip(1)) + enc_fvs(s2)) =~= (enc_fv(s1[0]) + enc_fvs(
            s1.skip(1),
        )) + enc_fvs(s2));
    }
}

/// One decoding step, the definition of `dec_fields` made explicit so that
/// parsers can chain it without relying on recursive unfolding.
pub proof fn lemma_dec_fields_step(ks: Seq<Fk>, b: Seq<u8>)
    requires
        ks.len() > 0,
    ensures
        dec_fields(ks, b) == (match dec_field(ks[0], b) {
            Ok((v, r)) => match dec_fields(ks.skip(1), r) {
                Ok((vs, r2)) => Ok::<_, Error>((seq![v] + vs, r2)),
                Err(e) => Err::<(Seq<Fv>, Seq<u8>), _>(e),
            },
            Err(e) => Err::<(Seq<Fv>, Seq<u8>), _>(e),
        }),
{
}

pub proof fn lemma_dec_fields_nil(b: Seq<u8>)
    ensures
        dec_fields(Seq::<Fk>::empty(), b) == Ok::<_, Error>((Seq::<Fv>::empty(), b)),
{
}

/// Decoding against a split schema is decoding against its first part, then
/// its second on what remains.
pub proof fn lemma_dec_fields_concat(ks1: Seq<Fk>, ks2: Seq<Fk>, b: Seq<u8>)
    ensures
        dec_fields(ks1 + ks2, b) == (match dec_fields(ks1, b) {
            Ok((vs1, r)) => match dec_fields(ks2, r) {
                Ok((vs2, r2)) => Ok::<_, Error>((vs1 + vs2, r2)),
                Err(e) => Err::<(Seq<Fv>, Seq<u8>), _>(e),
            },
            Err(e) => Err::<(Seq<Fv>, Seq<u8>), _>(e),
        }),
    decreases ks1.len(),
{
    if ks1.len() == 0 {
        assert(ks1 + ks2 =~= ks2);
        lemma_dec_fields_nil(b);
        match dec_fields(ks2, b) {
            Ok((vs2, r2)) => {
                assert(Seq::<Fv>::empty() + vs2 =~= vs2);
            },
            Err(_) => {},
        }
    } else {
        let ks = ks1 + ks2;
        assert(ks[0] == ks1[0]);
        assert(ks.skip(1) =~= ks1.skip(1) + ks2);
        lemma_dec_fields_step(ks, b);
        lemma_dec_fields_step(ks1, b);
        match dec_field(ks1[0], b) {
            Ok((v, r)) => {
                lemma_dec_fields_concat(ks1.skip(1), ks2, r);
                match dec_fields(ks1.skip(1), r) {
                    Ok((vs1t, r1)) => {
                        match dec_fields(ks2, r1) {
                            Ok((vs2, r2)) => {
                                assert(seq![v] + (vs1t + vs2) =~= (seq![v] + vs1t) + vs2);
                            },
                            Err(_) => {},
                        }
                    },
                    Err(_) => {},
                }
            },
            Err(_) => {},
        }
    }
}

/// The encoding of a single field, as a one-element list.
pub proof fn lemma_enc_fvs1(a: Fv)
    ensures
        enc_fvs(seq![a]) == enc_fv(a),
{
    assert(seq![a].skip(1) =~= Seq::<Fv>::empty());
    assert(enc_fvs(Seq::<Fv>::empty()) =~= Seq::<u8>::empty());
    assert(seq![a][0] == a);
    assert(enc_fv(a) + Seq::<u8>::empty() =~= enc_fv(a));
}


/// The encoding of two, three and four fields, spelled out.
pub proof fn lemma_enc_fvs2(a: Fv, b: Fv)
    ensures
        enc_fvs(seq![a, b]) == enc_fv(a) + enc_fv(b),
{
    assert(seq![a, b].skip(1) =~= seq![b]);
    lemma_enc_fvs1(b);
    assert(seq![a, b][0] == a);
}

pub proof fn lemma_enc_fvs3(a: Fv, b: Fv, c: Fv)
    ensures
        enc_fvs(seq![a, b, c]) == enc_fv(a) + enc_fv(b) + enc_fv(c),
{
    assert(seq![a, b, c].skip(1) =~= seq![b, c]);
    lemma_enc_fvs2(b, c);
    assert(seq![a, b, c][0] == a);
    assert(enc_fv(a) + (enc_fv(b) + enc_fv(c)) =~= enc_fv(a) + enc_fv(b) + enc_fv(c));
}

pub proof fn lemma_enc_fvs4(a: Fv, b: Fv, c: Fv, d: Fv)
    ensures
        enc_fvs(seq![a, b, c, d]) == enc_fv(a) + enc_fv(b) + enc_fv(c) + enc_fv(d),
{
    assert(seq![a, b, c, d].skip(1) =~= seq![b, c, d]);
    lemma_enc_fvs3(b, c, d);
    assert(seq![a, b, c, d][0] == a);
    assert(enc_fv(a) + (enc_fv(b) + enc_fv(c) + enc_fv(d)) =~= enc_fv(a) + enc_fv(b) + enc_fv(c)
        + enc_fv(d));
}

/// Encoding a concatenation of name lists is concatenating their encodings.
pub proof fn lemma_enc_names_concat(a: Seq<Seq<u8>>, b: Seq<Seq<u8>>)
    ensures
        enc_names(a + b) == enc_names(a) + enc_names(b),
    decreases a.len(),
{
    if a.len() == 0 {
        assert(a + b =~= b);
        assert(enc_names(a) + enc_names(b) =~= enc_names(b));
    } else {
        assert((a + b)[0] == a[0]);
        assert((a + b).skip(1) =~= a.skip(1) + b);
        lemma_enc_names_concat(a.skip(1), b);
        assert(enc_names(a + b) == enc_str(a[0]) + (enc_names(a.skip(1)) + enc_names(b)));
        assert(enc_str(a[0]) + (enc_names(a.skip(1)) + enc_names(b)) =~= (enc_str(a[0])
            + enc_names(a.skip(1))) + enc_names(b));
    }
}

// ---------------------------------------------------------------------------
// Executable field readers. Each decodes the field at `pos` exactly as the
// specification decoder does on the tail starting there.
// ---------------------------------------------------------------------------

/// The views of a vector of protocol strings.
pub open spec fn names_view(ns: Seq<PString>) -> Seq<Seq<u8>> {
    ns.map_values(|p: PString| p@)
}

pub fn take_u8(b: &[u8], pos: usize) -> (r: Result<(u8, usize), Error>)
    requires
        pos <= b@.len(),
    ensures
        match r {
            Ok((v, p)) => pos <= p <= b@.len() && p == pos + 1 && dec_field(
                Fk::U8,
                b@.skip(pos as int),
            ) == Ok::<_, Error>((Fv::U8(v), b@.skip(p as int))),
            Err(e) => dec_field(Fk::U8, b@.skip(pos as int)) == Err::<(Fv, Seq<u8>), _>(e),
        },
{
    let r = get_u8(b, pos);
    proof {
        let t = b@.skip(pos as int);
        if r is Ok {
            assert(t[0] == b@[pos as int]);
            assert(t.skip(1) =~= b@.skip(pos + 1));
        }
    }
    match r {
        Ok((v, p)) => Ok((v, p)),
        Err(e) => Err(e),
    }
}

pub fn take_u16(b: &[u8], pos: usize) -> (r: Result<(u16, usize), Error>)
    requires
        pos <= b@.len(),
    ensures
        match r {
            Ok((v, p)) => pos <= p <= b@.len() && p == pos + 2 && dec_field(
                Fk::U16,
                b@.skip(pos as int),
            ) == Ok::<_, Error>((Fv::U16(v), b@.skip(p as int))),
            Err(e) => dec_field(Fk::U16, b@.skip(pos as int)) == Err::<(Fv, Seq<u8>), _>(e),
        },
{
    let r = get_u16(b, pos);
    proof {
        let t = b@.skip(pos as int);
        if r is Ok {
            assert(t.skip(2) =~= b@.skip(pos + 2));
        }
    }
    match r {
        Ok((v, p)) => Ok((v, p)),
        Err(e) => Err(e),
    }
}

pub fn take_u32(b: &[u8], pos: usize) -> (r: Result<(u32, usize), Error>)
    requires
        pos <= b@.len(),
    ensures
        match r {
            Ok((v, p)) => pos <= p <= b@.len() && p == pos + 4 && dec_field(
                Fk::U32,
                b@.skip(pos as int),
            ) == Ok::<_, Error>((Fv::U32(v), b@.skip(p as int))),
            Err(e) => dec_field(Fk::U32, b@.skip(pos as int)) == Err::<(Fv, Seq<u8>), _>(e),
        },
{
    let r = get_u32(b, pos);
    proof {
        let t = b@.skip(pos as int);
        if r is Ok {
            assert(t.skip(4) =~= b@.skip(pos + 4));
        }
    }
    match r {
        Ok((v, p)) => Ok((v, p)),
        Err(e) => Err(e),
    }
}

pub fn take_u64(b: &[u8], pos: usize) -> (r: Result<(u64, usize), Error>)
    requires
        pos <= b@.len(),
    ensures
        match r {
            Ok((v, p)) => pos <= p <= b@.len() && p == pos + 8 && dec_field(
                Fk::U64,
                b@.skip(pos as int),
            ) == Ok::<_, Error>((Fv::U64(v), b@.skip(p as int))),
            Err(e) => dec_field(Fk::U64, b@.skip(pos as int)) == Err::<(Fv, Seq<u8>), _>(e),
        },
{
    let r = get_u64(b, pos);
    proof {
        let t = b@.skip(pos as int);
        if r is Ok {
            assert(t.skip(8) =~= b@.skip(pos + 8));
        }
    }
    match r {
        Ok((v, p)) => Ok((v, p)),
        Err(e) => Err(e),
    }
}

pub fn take_str(b: &[u8], pos: usize) -> (r: Result<(PString, usize), Error>)
    requires
        pos <= b@.len(),
    ensures
        match r {
            Ok((s, p)) => pos <= p <= b@.len() && p == pos + 2 + s@.len() && s.wf()
                && dec_field(Fk::Str, b@.skip(pos as int)) == Ok::<_, Error>(
                (Fv::Str(s@), b@.skip(p as int)),
            ),
            Err(e) => dec_field(Fk::Str, b@.skip(pos as int)) == Err::<(Fv, Seq<u8>), _>(e),
        },
{
    let ghost t = b@.skip(pos as int);
    let (l16, p1) = match get_u16(b, pos) {
        Ok(x) => x,
        Err(e) => {
            return Err(e);
        },
    };
    let l = l16 as usize;
    if b.len() - p1 < l {
        proof {
            assert(t.len() < 2 + l);
        }
        return Err(Error::MessageLength);
    }
    let sub = slice_subrange(b, p1, p1 + l);
    proof {
        assert(sub@ =~= t.subrange(2, 2 + l as int));
    }
    let v = slice_to_vec(sub);
    match PString::new(v) {
        Ok(s) => {
            proof {
                assert(t.skip(2 + l as int) =~= b@.skip(p1 + l));
            }
            Ok((s, p1 + l))
        },
        Err(e) => {
            proof {
                assert(!is_utf8(t.subrange(2, 2 + l as int)));
            }
            Err(e)
        },
    }
}

pub fn take_data(b: &[u8], pos: usize) -> (r: Result<(Vec<u8>, usize), Error>)
    requires
        pos <= b@.len(),
    ensures
        match r {
            Ok((d, p)) => pos <= p <= b@.len() && p == pos + 4 + d@.len() && d@.len()
                <= 0xffffffff && dec_field(Fk::Data, b@.skip(pos as int)) == Ok::<_, Error>(
                (Fv::Data(d@), b@.skip(p as int)),
            ),
            Err(e) => dec_field(Fk::Data, b@.skip(pos as int)) == Err::<(Fv, Seq<u8>), _>(e),
        },
{
    let ghost t = b@.skip(pos as int);
    let (l32, p1) = match get_u32(b, pos) {
        Ok(x) => x,
        Err(e) => {
            return Err(e);
        },
    };
    let l = l32 as usize;
    if b.len() - p1 < l {
        proof {
            assert(t.len() < 4 + l);
        }
        return Err(Error::MessageLength);
    }
    let sub = slice_subrange(b, p1, p1 + l);
    proof {
        assert(sub@ =~= t.subrange(4, 4 + l as int));
        assert(t.skip(4 + l as int) =~= b@.skip(p1 + l));
    }
    let v = slice_to_vec(sub);
    Ok((v, p1 + l))
}

pub fn take_qid(b: &[u8], pos: usize) -> (r: Result<(Qid, usize), Error>)
    requires
        pos <= b@.len(),
    ensures
        match r {
            Ok((q, p)) => pos <= p <= b@.len() && p == pos + 13 && dec_field(
                Fk::Qid,
                b@.skip(pos as int),
            ) == Ok::<_, Error>((Fv::Qid(q), b@.skip(p as int))),
            Err(e) => dec_field(Fk::Qid, b@.skip(pos as int)) == Err::<(Fv, Seq<u8>), _>(e),
        },
{
    let ghost t = b@.skip(pos as int);
    if b.len() - pos < 13 {
        return Err(Error::MessageLength);
    }
    let (type_, p1) = match get_u8(b, pos) {
        Ok(x) => x,
        Err(e) => {
            return Err(e);
        },
    };
    let (vers, p2) = match get_u32(b, p1) {
        Ok(x) => x,
        Err(e) => {
            return Err(e);
        },
    };
    let (path, p3) = match get_u64(b, p2) {
        Ok(x) => x,
        Err(e) => {
            return Err(e);
        },
    };
    proof {
        assert(t[0] == b@[pos as int]);
        assert(b@.skip(pos + 1) =~= t.skip(1));
        assert(b@.skip(pos + 5) =~= t.skip(5));
        assert(t.skip(13) =~= b@.skip(pos + 13));
    }
    Ok((Qid { type_, vers, path }, p3))
}

pub fn take_qids(b: &[u8], pos: usize) -> (r: Result<(Vec<Qid>, usize), Error>)
    requires
        pos <= b@.len(),
    ensures
        match r {
            Ok((qs, p)) => pos <= p <= b@.len() && qs@.len() <= 0xffff && dec_field(
                Fk::QidList,
                b@.skip(pos as int),
            ) == Ok::<_, Error>((Fv::QidList(qs@), b@.skip(p as int))),
            Err(e) => dec_field(Fk::QidList, b@.skip(pos as int)) == Err::<(Fv, Seq<u8>), _>(e)
                && e == Error::MessageLength,
        },
{
    let ghost t = b@.skip(pos as int);
    let (n16, start) = match get_u16(b, pos) {
        Ok(x) => x,
        Err(e) => {
            return Err(e);
        },
    };
    proof {
        assert(t.skip(2) =~= b@.skip(start as int));
    }
    let n = n16 as usize;
    let mut qs: Vec<Qid> = Vec::new();
    let mut p: usize = start;
    let mut i: usize = 0;
    while i < n
        invariant
            i <= n,
            n == n16 as int,
            start <= p <= b@.len(),
            pos + 2 == start <= b@.len(),
            u16_of(b@.skip(pos as int)) == n16,
            b@.skip(pos as int).skip(2) == b@.skip(start as int),
            qs@.len() == i,
            dec_qids(n as nat, b@.skip(start as int)) == (match dec_qids(
                (n - i) as nat,
                b@.skip(p as int),
            ) {
                Ok((more, r)) => Ok::<_, Error>((qs@ + more, r)),
                Err(e) => Err(e),
            }),
        decreases n - i,
    {
        let ghost old_qs = qs@;
        let ghost old_p = p as int;
        match take_qid(b, p) {
            Ok((q, p2)) => {
                proof {
                    assert(dec_qidf(b@.skip(old_p)) == Ok::<_, Error>((q, b@.skip(p2 as int))));
                }
                qs.push(q);
                p = p2;
                proof {
                    assert(forall|more: Seq<Qid>|
                        old_qs + (seq![q] + more) =~= #[trigger] (old_qs.push(q) + more));
                }
                i = i + 1;
            },
            Err(e) => {
                proof {
                    assert(dec_qidf(b@.skip(old_p)) == Err::<(Qid, Seq<u8>), _>(e));
                }
                return Err(e);
            },
        }
    }
    proof {
        assert(dec_qids(0nat, b@.skip(p as int)) == Ok::<_, Error>(
            (Seq::<Qid>::empty(), b@.skip(p as int)),
        ));
        assert(qs@ + Seq::<Qid>::empty() =~= qs@);
    }
    Ok((qs, p))
}

pub fn take_names(b: &[u8], pos: usize) -> (r: Result<(Vec<PString>, usize), Error>)
    requires
        pos <= b@.len(),
    ensures
        match r {
            Ok((ns, p)) => pos <= p <= b@.len() && ns@.len() <= 0xffff && (forall|j: int|
                0 <= j < ns@.len() ==> (#[trigger] ns@[j]).wf()) && dec_field(
                Fk::NameList,
                b@.skip(pos as int),
            ) == Ok::<_, Error>((Fv::NameList(names_view(ns@)), b@.skip(p as int))),
            Err(e) => dec_field(Fk::NameList, b@.skip(pos as int)) == Err::<(Fv, Seq<u8>), _>(e)
                && (e == Error::MessageLength || e == Error::Utf8),
        },
{
    let ghost t = b@.skip(pos as int);
    let (n16, start) = match get_u16(b, pos) {
        Ok(x) => x,
        Err(e) => {
            return Err(e);
        },
    };
    proof {
        assert(t.skip(2) =~= b@.skip(start as int));
    }
    let n = n16 as usize;
    let mut ns: Vec<PString> = Vec::new();
    let mut p: usize = start;
    let mut i: usize = 0;
    while i < n
        invariant
            i <= n,
            n == n16 as int,
            start <= p <= b@.len(),
            pos + 2 == start <= b@.len(),
            u16_of(b@.skip(pos as int)) == n16,
            b@.skip(pos as int).skip(2) == b@.skip(start as int),
            ns@.len() == i,
            forall|j: int| 0 <= j < ns@.len() ==> (#[trigger] ns@[j]).wf(),
            dec_names(n as nat, b@.skip(start as int)) == (match dec_names(
                (n - i) as nat,
                b@.skip(p as int),
            ) {
                Ok((more, r)) => Ok::<_, Error>((names_view(ns@) + more, r)),
                Err(e) => Err(e),
            }),
        decreases n - i,
    {
        let ghost old_ns = ns@;
        let ghost old_p = p as int;
        match take_str(b, p) {
            Ok((s, p2)) => {
                proof {
                    assert(dec_str(b@.skip(old_p)) == Ok::<_, Error>((s@, b@.skip(p2 as int))));
                }
                let ghost sv = s@;
                ns.push(s);
                p = p2;
                proof {
                    assert(names_view(old_ns.push(ns@[old_ns.len() as int])) =~= names_view(
                        old_ns,
                    ).push(sv));
                    assert(forall|more: Seq<Seq<u8>>|
                        names_view(old_ns) + (seq![sv] + more) =~= #[trigger] (names_view(
                            old_ns,
                        ).push(sv) + more));
                }
                i = i + 1;
            },
            Err(e) => {
                proof {
                    assert(dec_str(b@.skip(old_p)) == Err::<(Seq<u8>, Seq<u8>), _>(e));
                }
                return Err(e);
            },
        }
    }
    proof {
        assert(dec_names(0nat, b@.skip(p as int)) == Ok::<_, Error>(
            (Seq::<Seq<u8>>::empty(), b@.skip(p as int)),
        ));
        assert(names_view(ns@) + Seq::<Seq<u8>>::empty() =~= names_view(ns@));
    }
    Ok((ns, p))
}

// ---------------------------------------------------------------------------
// Executable field writers. Each appends exactly the field's encoding.
// ---------------------------------------------------------------------------

pub fn put_str(out: &mut Vec<u8>, s: &PString)
    requires
        s.wf(),
    ensures
        final(out)@ == old(out)@ + enc_str(s@),
{
    put_u16(out, s.len() as u16);
    put_bytes(out, s.as_bytes());
    proof {
        assert(out@ =~= old(out)@ + enc_str(s@));
    }
}

pub fn put_data(out: &mut Vec<u8>, d: &[u8])
    requires
        d@.len() <= 0xffffffff,
    ensures
        final(out)@ == old(out)@ + enc_fv(Fv::Data(d@)),
{
    put_u32(out, d.len() as u32);
    put_bytes(out, d);
    proof {
        assert(out@ =~= old(out)@ + enc_fv(Fv::Data(d@)));
    }
}

pub fn put_qid(out: &mut Vec<u8>, q: &Qid)
    ensures
        final(out)@ == old(out)@ + enc_qid(*q),
{
    out.push(q.type_);
    put_u32(out, q.vers);
    put_u64(out, q.path);
    proof {
        assert(out@ =~= old(out)@ + enc_qid(*q));
    }
}

pub fn put_qids(out: &mut Vec<u8>, qs: &Vec<Qid>)
    requires
        qs@.len() <= 0xffff,
    ensures
        final(out)@ == old(out)@ + enc_fv(Fv::QidList(qs@)),
{
    put_u16(out, qs.len() as u16);
    let n = qs.len();
    let mut i: usize = 0;
    proof {
        assert(enc_qids(qs@.take(0)) =~= Seq::<u8>::empty());
        assert(out@ =~= old(out)@ + le16(qs@.len() as u16) + enc_qids(qs@.take(0)));
    }
    while i < n
        invariant
            i <= n,
            n == qs@.len(),
            qs@.len() <= 0xffff,
            out@ == old(out)@ + le16(qs@.len() as u16) + enc_qids(qs@.take(i as int)),
        decreases n - i,
    {
        put_qid(out, &qs[i]);
        i = i + 1;
        proof {
            assert(qs@.take(i as int) =~= qs@.take(i - 1).push(qs@[i - 1]));
            lemma_enc_qids_push(qs@.take(i - 1), qs@[i - 1]);
            assert(out@ =~= old(out)@ + le16(qs@.len() as u16) + enc_qids(qs@.take(i as int)));
        }
    }
    proof {
        assert(qs@.take(n as int) =~= qs@);
        assert(old(out)@ + le16(qs@.len() as u16) + enc_qids(qs@) =~= old(out)@ + enc_fv(
            Fv::QidList(qs@),
        ));
    }
}

pub fn put_names(out: &mut Vec<u8>, ns: &Vec<PString>)
    requires
        ns@.len() <= 0xffff,
        forall|j: int| 0 <= j < ns@.len() ==> (#[trigger] ns@[j]).wf(),
    ensures
        final(out)@ == old(out)@ + enc_fv(Fv::NameList(names_view(ns@))),
{
    put_u16(out, ns.len() as u16);
    let n = ns.len();
    let mut i: usize = 0;
    proof {
        assert(enc_names(names_view(ns@).take(0)) =~= Seq::<u8>::empty());
        assert(out@ =~= old(out)@ + le16(ns@.len() as u16) + enc_names(names_view(ns@).take(0)));
    }
    while i < n
        invariant
            i <= n,
            n == ns@.len(),
            ns@.len() <= 0xffff,
            forall|j: int| 0 <= j < ns@.len() ==> (#[trigger] ns@[j]).wf(),
            out@ == old(out)@ + le16(ns@.len() as u16) + enc_names(names_view(ns@).take(i as int)),
        decreases n - i,
    {
        put_str(out, &ns[i]);
        i = i + 1;
        proof {
            assert(names_view(ns@).take(i as int) =~= names_view(ns@).take(i - 1).push(
                ns@[i - 1]@,
            ));
            lemma_enc_names_push(names_view(ns@).take(i - 1), ns@[i - 1]@);
            assert(out@ =~= old(out)@ + le16(ns@.len() as u16) + enc_names(
                names_view(ns@).take(i as int),
            ));
        }
    }
    proof {
        assert(names_view(ns@).take(n as int) =~= names_view(ns@));
        assert(names_view(ns@).len() == ns@.len());
        assert(old(out)@ + le16(ns@.len() as u16) + enc_names(names_view(ns@)) =~= old(out)@
            + enc_fv(Fv::NameList(names_view(ns@))));
    }
}

} // verus!
