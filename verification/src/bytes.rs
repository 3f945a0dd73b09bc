//! Little-endian integer fields: specification-level encodings over byte
//! sequences, round-trip lemmas, and the executable readers and writers the
//! parsers and serializers are built from.

use vstd::prelude::*;

use crate::error::Error;

verus! {

pub open spec fn le16(v: u16) -> Seq<u8> {
    seq![(v & 0xff) as u8, ((v >> 8) & 0xff) as u8]
}

pub open spec fn le32(v: u32) -> Seq<u8> {
    seq![
        (v & 0xff) as u8,
        ((v >> 8) & 0xff) as u8,
        ((v >> 16) & 0xff) as u8,
        ((v >> 24) & 0xff) as u8,
    ]
}

pub open spec fn le64(v: u64) -> Seq<u8> {
    seq![
        (v & 0xff) as u8,
        ((v >> 8) & 0xff) as u8,
        ((v >> 16) & 0xff) as u8,
        ((v >> 24) & 0xff) as u8,
        ((v >> 32) & 0xff) as u8,
        ((v >> 40) & 0xff) as u8,
        ((v >> 48) & 0xff) as u8,
        ((v >> 56) & 0xff) as u8,
    ]
}

/// The value whose little-endian bytes are `b` (the first two bytes of it).
pub open spec fn u16_of(b: Seq<u8>) -> u16 {
    (b[0] as u16) | ((b[1] as u16) << 8)
}

pub open spec fn u32_of(b: Seq<u8>) -> u32 {
    (b[0] as u32) | ((b[1] as u32) << 8) | ((b[2] as u32) << 16) | ((b[3] as u32) << 24)
}

pub open spec fn u64_of(b: Seq<u8>) -> u64 {
    (b[0] as u64) | ((b[1] as u64) << 8) | ((b[2] as u64) << 16) | ((b[3] as u64) << 24)
        | ((b[4] as u64) << 32) | ((b[5] as u64) << 40) | ((b[6] as u64) << 48)
        | ((b[7] as u64) << 56)
}

pub proof fn lemma_le16_round_trip(v: u16)
    ensures
        u16_of(le16(v)) == v,
{
    assert((((v & 0xff) as u8) as u16) | (((((v >> 8) & 0xff) as u8) as u16) << 8) == v)
        by (bit_vector);
}

pub proof fn lemma_le16_of_bytes(b: Seq<u8>)
    requires
        b.len() == 2,
    ensures
        le16(u16_of(b)) == b,
{
    let b0 = b[0];
    let b1 = b[1];
    let v = u16_of(b);
    assert({
        &&& (((b0 as u16) | ((b1 as u16) << 8)) & 0xff) as u8 == b0
        &&& ((((b0 as u16) | ((b1 as u16) << 8)) >> 8) & 0xff) as u8 == b1
    }) by (bit_vector);
    assert(le16(v) =~= b);
}

pub proof fn lemma_le32_round_trip(v: u32)
    ensures
        u32_of(le32(v)) == v,
{
    assert((((v & 0xff) as u8) as u32) | (((((v >> 8) & 0xff) as u8) as u32) << 8)
        | (((((v >> 16) & 0xff) as u8) as u32) << 16) | (((((v >> 24) & 0xff) as u8) as u32) << 24)
        == v) by (bit_vector);
}

pub proof fn lemma_le32_of_bytes(b: Seq<u8>)
    requires
        b.len() == 4,
    ensures
        le32(u32_of(b)) == b,
{
    let b0 = b[0];
    let b1 = b[1];
    let b2 = b[2];
    let b3 = b[3];
    assert({
        let v = (b0 as u32) | ((b1 as u32) << 8) | ((b2 as u32) << 16) | ((b3 as u32) << 24);
        &&& (v & 0xff) as u8 == b0
        &&& ((v >> 8) & 0xff) as u8 == b1
        &&& ((v >> 16) & 0xff) as u8 == b2
        &&& ((v >> 24) & 0xff) as u8 == b3
    }) by (bit_vector);
    assert(le32(u32_of(b)) =~= b);
}

pub proof fn lemma_le64_round_trip(v: u64)
    ensures
        u64_of(le64(v)) == v,
{
    assert((((v & 0xff) as u8) as u64) | (((((v >> 8) & 0xff) as u8) as u64) << 8)
        | (((((v >> 16) & 0xff) as u8) as u64) << 16) | (((((v >> 24) & 0xff) as u8) as u64) << 24)
        | (((((v >> 32) & 0xff) as u8) as u64) << 32) | (((((v >> 40) & 0xff) as u8) as u64) << 40)
        | (((((v >> 48) & 0xff) as u8) as u64) << 48) | (((((v >> 56) & 0xff) as u8) as u64) << 56)
        == v) by (bit_vector);
}

proof fn lemma_mask16(v: u16)
    ensures
        v & 0xff < 256,
        (v >> 8) & 0xff < 256,
{
    assert(v & 0xff < 256 && (v >> 8) & 0xff < 256) by (bit_vector);
}

proof fn lemma_mask32(v: u32)
    ensures
        v & 0xff < 256,
        (v >> 8) & 0xff < 256,
        (v >> 16) & 0xff < 256,
        (v >> 24) & 0xff < 256,
{
    assert(v & 0xff < 256 && (v >> 8) & 0xff < 256 && (v >> 16) & 0xff < 256 && (v >> 24) & 0xff
        < 256) by (bit_vector);
}

proof fn lemma_mask64(v: u64)
    ensures
        v & 0xff < 256,
        (v >> 8) & 0xff < 256,
        (v >> 16) & 0xff < 256,
        (v >> 24) & 0xff < 256,
        (v >> 32) & 0xff < 256,
        (v >> 40) & 0xff < 256,
        (v >> 48) & 0xff < 256,
        (v >> 56) & 0xff < 256,
{
    assert(v & 0xff < 256 && (v >> 8) & 0xff < 256 && (v >> 16) & 0xff < 256 && (v >> 24) & 0xff
        < 256 && (v >> 32) & 0xff < 256 && (v >> 40) & 0xff < 256 && (v >> 48) & 0xff < 256 && (v
        >> 56) & 0xff < 256) by (bit_vector);
}

pub fn put_u16(out: &mut Vec<u8>, v: u16)
    ensures
        final(out)@ == old(out)@ + le16(v),
{
    proof {
        lemma_mask16(v);
    }
    out.push((v & 0xff) as u8);
    out.push(((v >> 8) & 0xff) as u8);
    proof {
        assert(out@ =~= old(out)@ + le16(v));
    }
}

pub fn put_u32(out: &mut Vec<u8>, v: u32)
    ensures
        final(out)@ == old(out)@ + le32(v),
{
    proof {
        lemma_mask32(v);
    }
    out.push((v & 0xff) as u8);
    out.push(((v >> 8) & 0xff) as u8);
    out.push(((v >> 16) & 0xff) as u8);
    out.push(((v >> 24) & 0xff) as u8);
    proof {
        assert(out@ =~= old(out)@ + le32(v));
    }
}

pub fn put_u64(out: &mut Vec<u8>, v: u64)
    ensures
        final(out)@ == old(out)@ + le64(v),
{
    proof {
        lemma_mask64(v);
    }
    out.push((v & 0xff) as u8);
    out.push(((v >> 8) & 0xff) as u8);
    out.push(((v >> 16) & 0xff) as u8);
    out.push(((v >> 24) & 0xff) as u8);
    out.push(((v >> 32) & 0xff) as u8);
    out.push(((v >> 40) & 0xff) as u8);
    out.push(((v >> 48) & 0xff) as u8);
    out.push(((v >> 56) & 0xff) as u8);
    proof {
        assert(out@ =~= old(out)@ + le64(v));
    }
}

/// Append every byte of `bytes` to `out`.
pub fn put_bytes(out: &mut Vec<u8>, bytes: &[u8])
    ensures
        final(out)@ == old(out)@ + bytes@,
{
    let n = bytes.len();
    let mut i: usize = 0;
    while i < n
        invariant
            i <= n,
            n == bytes@.len(),
            out@ == old(out)@ + bytes@.take(i as int),
        decreases n - i,
    {
        out.push(bytes[i]);
        i = i + 1;
        proof {
            assert(bytes@.take(i as int) =~= bytes@.take(i - 1).push(bytes@[i - 1]));
        }
    }
    proof {
        assert(bytes@.take(n as int) =~= bytes@);
    }
}

pub fn get_u8(b: &[u8], pos: usize) -> (r: Result<(u8, usize), Error>)
    requires
        pos <= b@.len(),
    ensures
        match r {
            Ok((v, p)) => p == pos + 1 && p <= b@.len() && v == b@[pos as int],
            Err(e) => e == Error::MessageLength && b@.len() < pos + 1,
        },
{
    if b.len() - pos >= 1 {
        Ok((b[pos], pos + 1))
    } else {
        Err(Error::MessageLength)
    }
}

pub fn get_u16(b: &[u8], pos: usize) -> (r: Result<(u16, usize), Error>)
    requires
        pos <= b@.len(),
    ensures
        match r {
            Ok((v, p)) => p == pos + 2 && p <= b@.len() && v == u16_of(b@.skip(pos as int)),
            Err(e) => e == Error::MessageLength && b@.len() < pos + 2,
        },
{
    if b.len() - pos >= 2 {
        let v = (b[pos] as u16) | ((b[pos + 1] as u16) << 8);
        proof {
            assert(b@.skip(pos as int)[0] == b@[pos as int]);
            assert(b@.skip(pos as int)[1] == b@[pos + 1]);
        }
        Ok((v, pos + 2))
    } else {
        Err(Error::MessageLength)
    }
}

pub fn get_u32(b: &[u8], pos: usize) -> (r: Result<(u32, usize), Error>)
    requires
        pos <= b@.len(),
    ensures
        match r {
            Ok((v, p)) => p == pos + 4 && p <= b@.len() && v == u32_of(b@.skip(pos as int)),
            Err(e) => e == Error::MessageLength && b@.len() < pos + 4,
        },
{
    if b.len() - pos >= 4 {
        let v = (b[pos] as u32) | ((b[pos + 1] as u32) << 8) | ((b[pos + 2] as u32) << 16)
            | ((b[pos + 3] as u32) << 24);
        proof {
            assert(forall|j: int|
                0 <= j < 4 ==> #[trigger] b@.skip(pos as int)[j] == b@[pos + j]);
        }
        Ok((v, pos + 4))
    } else {
        Err(Error::MessageLength)
    }
}

pub fn get_u64(b: &[u8], pos: usize) -> (r: Result<(u64, usize), Error>)
    requires
        pos <= b@.len(),
    ensures
        match r {
            Ok((v, p)) => p == pos + 8 && p <= b@.len() && v == u64_of(b@.skip(pos as int)),
            Err(e) => e == Error::MessageLength && b@.len() < pos + 8,
        },
{
    if b.len() - pos >= 8 {
        let v = (b[pos] as u64) | ((b[pos + 1] as u64) << 8) | ((b[pos + 2] as u64) << 16)
            | ((b[pos + 3] as u64) << 24) | ((b[pos + 4] as u64) << 32)
            | ((b[pos + 5] as u64) << 40) | ((b[pos + 6] as u64) << 48)
            | ((b[pos + 7] as u64) << 56);
        proof {
            assert(forall|j: int|
                0 <= j < 8 ==> #[trigger] b@.skip(pos as int)[j] == b@[pos + j]);
        }
        Ok((v, pos + 8))
    } else {
        Err(Error::MessageLength)
    }
}

} // verus!
