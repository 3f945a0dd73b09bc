//! The payload of a directory read: a concatenation of `Stat` blocks. The
//! parser decodes them in order until the buffer is exhausted; a trailing
//! partial block is a `MessageLength` fault. Callers concatenate the data of
//! successive reads before parsing, since a server may split the sequence
//! between replies but never inside one block.

use vstd::prelude::*;

use crate::error::Error;
use crate::stat::{dec_stat, enc_stat, lemma_dec_enc_stat, stat_wf, Stat, StatV};

verus! {

/// Decode a whole buffer as consecutive `Stat` blocks.
pub open spec fn dec_dir(b: Seq<u8>) -> Result<Seq<StatV>, Error>
    decreases b.len(),
{
    if b.len() == 0 {
        Ok(Seq::empty())
    } else {
        match dec_stat(b) {
            Ok((v, rest)) => if rest.len() < b.len() {
                match dec_dir(rest) {
                    Ok(vs) => Ok(seq![v] + vs),
                    Err(e) => Err(e),
                }
            } else {
                // A block always consumes its two size bytes, so this guard
                // only discharges termination.
                Err(Error::MessageLength)
            },
            Err(e) => Err(e),
        }
    }
}

/// The concatenation of the blocks of `vs`.
pub open spec fn enc_dir(vs: Seq<StatV>) -> Seq<u8>
    decreases vs.len(),
{
    if vs.len() == 0 {
        Seq::empty()
    } else {
        enc_stat(vs[0]) + enc_dir(vs.skip(1))
    }
}

proof fn lemma_dec_dir_step(b: Seq<u8>)
    requires
        b.len() > 0,
    ensures
        dec_dir(b) == (match dec_stat(b) {
            Ok((v, rest)) => if rest.len() < b.len() {
                match dec_dir(rest) {
                    Ok(vs) => Ok::<_, Error>(seq![v] + vs),
                    Err(e) => Err::<Seq<StatV>, _>(e),
                }
            } else {
                Err::<Seq<StatV>, _>(Error::MessageLength)
            },
            Err(e) => Err::<Seq<StatV>, _>(e),
        }),
{
}

/// Parsing the concatenation of well-formed blocks yields exactly their
/// entries, in order.
pub proof fn lemma_dir_round_trip(vs: Seq<StatV>)
    requires
        forall|i: int| 0 <= i < vs.len() ==> stat_wf(#[trigger] vs[i]),
    ensures
        dec_dir(enc_dir(vs)) == Ok::<_, Error>(vs),
    decreases vs.len(),
{
    if vs.len() == 0 {
        assert(vs =~= Seq::<StatV>::empty());
    } else {
        let tail = vs.skip(1);
        let b = enc_dir(vs);
        lemma_dec_enc_stat(vs[0], enc_dir(tail));
        assert(b.len() > 0);
        lemma_dec_dir_step(b);
        assert(forall|i: int| 0 <= i < tail.len() ==> stat_wf(#[trigger] tail[i]));
        lemma_dir_round_trip(tail);
        assert(seq![vs[0]] + tail =~= vs);
    }
}

/// Appending a short block (one whose own decode fails on too few bytes)
/// spoils the whole payload: the parser reports `MessageLength`.
pub proof fn lemma_dir_truncated(vs: Seq<StatV>, t: Seq<u8>)
    requires
        forall|i: int| 0 <= i < vs.len() ==> stat_wf(#[trigger] vs[i]),
        t.len() > 0,
        dec_stat(t) == Err::<(StatV, Seq<u8>), _>(Error::MessageLength),
    ensures
        dec_dir(enc_dir(vs) + t) == Err::<Seq<StatV>, _>(Error::MessageLength),
    decreases vs.len(),
{
    if vs.len() == 0 {
        assert(enc_dir(vs) + t =~= t);
        lemma_dec_dir_step(t);
    } else {
        let tail = vs.skip(1);
        let b = enc_dir(vs) + t;
        assert(b =~= enc_stat(vs[0]) + (enc_dir(tail) + t));
        lemma_dec_enc_stat(vs[0], enc_dir(tail) + t);
        lemma_dec_dir_step(b);
        assert(forall|i: int| 0 <= i < tail.len() ==> stat_wf(#[trigger] tail[i]));
        lemma_dir_truncated(tail, t);
    }
}

/// Decode a directory read's payload: every block in order, or the fault
/// that stopped the scan.
pub fn parse_dir(bytes: &[u8]) -> (r: Result<Vec<Stat>, Error>)
    ensures
        match r {
            Ok(entries) => dec_dir(bytes@) == Ok::<_, Error>(
                entries@.map_values(|st: Stat| st@),
            ) && (forall|i: int| 0 <= i < entries@.len() ==> (#[trigger] entries@[i]).wf()),
            Err(e) => dec_dir(bytes@) == Err::<Seq<StatV>, _>(e),
        },
{
    let mut entries: Vec<Stat> = Vec::new();
    let mut pos: usize = 0;
    proof {
        assert(bytes@.skip(0) =~= bytes@);
        assert(entries@.map_values(|st: Stat| st@) =~= Seq::<StatV>::empty());
        match dec_dir(bytes@) {
            Ok(vs) => {
                assert(Seq::<StatV>::empty() + vs =~= vs);
            },
            Err(_) => {},
        }
    }
    while pos < bytes.len()
        invariant
            pos <= bytes@.len(),
            forall|i: int| 0 <= i < entries@.len() ==> (#[trigger] entries@[i]).wf(),
            dec_dir(bytes@) == (match dec_dir(bytes@.skip(pos as int)) {
                Ok(vs) => Ok::<_, Error>(entries@.map_values(|st: Stat| st@) + vs),
                Err(e) => Err::<Seq<StatV>, _>(e),
            }),
        decreases bytes@.len() - pos,
    {
        let ghost old_entries = entries@;
        let ghost old_pos = pos as int;
        match Stat::parse(bytes, pos) {
            Ok((st, p)) => {
                proof {
                    lemma_dec_dir_step(bytes@.skip(old_pos));
                }
                let ghost sv = st@;
                entries.push(st);
                pos = p;
                proof {
                    let m_old = old_entries.map_values(|st: Stat| st@);
                    let m_new = entries@.map_values(|st: Stat| st@);
                    assert(m_new =~= m_old.push(sv));
                    match dec_dir(bytes@.skip(pos as int)) {
                        Ok(vs) => {
                            assert(m_old + (seq![sv] + vs) =~= m_new + vs);
                        },
                        Err(_) => {},
                    }
                }
            },
            Err(e) => {
                proof {
                    lemma_dec_dir_step(bytes@.skip(old_pos));
                }
                return Err(e);
            },
        }
    }
    proof {
        assert(bytes@.skip(pos as int) =~= Seq::<u8>::empty());
        assert(entries@.map_values(|st: Stat| st@) + Seq::<StatV>::empty() =~= entries@.map_values(
            |st: Stat| st@,
        ));
    }
    Ok(entries)
}

} // verus!
