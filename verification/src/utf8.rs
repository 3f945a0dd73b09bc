//! UTF-8 validity: a specification of the encoding's shape and an executable
//! checker proved against it. Protocol strings must be valid UTF-8.

use vstd::prelude::*;

verus! {

/// A continuation byte: `10xxxxxx`.
pub open spec fn is_cont(b: u8) -> bool {
    0x80 <= b && b <= 0xbf
}

/// The byte sequence is well-formed UTF-8: every scalar value is encoded in
/// its shortest form and surrogate code points are refused, as Rust's `str`
/// demands.
pub open spec fn is_utf8(s: Seq<u8>) -> bool
    decreases s.len(),
{
    if s.len() == 0 {
        true
    } else {
        let b0 = s[0];
        if b0 < 0x80 {
            is_utf8(s.skip(1))
        } else if 0xc2 <= b0 && b0 <= 0xdf {
            s.len() >= 2 && is_cont(s[1]) && is_utf8(s.skip(2))
        } else if b0 == 0xe0 {
            s.len() >= 3 && 0xa0 <= s[1] && s[1] <= 0xbf && is_cont(s[2]) && is_utf8(s.skip(3))
        } else if 0xe1 <= b0 && b0 <= 0xec {
            s.len() >= 3 && is_cont(s[1]) && is_cont(s[2]) && is_utf8(s.skip(3))
        } else if b0 == 0xed {
            s.len() >= 3 && 0x80 <= s[1] && s[1] <= 0x9f && is_cont(s[2]) && is_utf8(s.skip(3))
        } else if 0xee <= b0 && b0 <= 0xef {
            s.len() >= 3 && is_cont(s[1]) && is_cont(s[2]) && is_utf8(s.skip(3))
        } else if b0 == 0xf0 {
            s.len() >= 4 && 0x90 <= s[1] && s[1] <= 0xbf && is_cont(s[2]) && is_cont(s[3])
                && is_utf8(s.skip(4))
        } else if 0xf1 <= b0 && b0 <= 0xf3 {
            s.len() >= 4 && is_cont(s[1]) && is_cont(s[2]) && is_cont(s[3]) && is_utf8(s.skip(4))
        } else if b0 == 0xf4 {
            s.len() >= 4 && 0x80 <= s[1] && s[1] <= 0x8f && is_cont(s[2]) && is_cont(s[3])
                && is_utf8(s.skip(4))
        } else {
            false
        }
    }
}

/// No byte of a well-formed UTF-8 sequence is `0xFF`.
proof fn lemma_utf8_byte_bound(s: Seq<u8>, i: int)
    requires
        is_utf8(s),
        0 <= i < s.len(),
    ensures
        s[i] != 0xff,
    decreases s.len(),
{
    let b0 = s[0];
    if b0 < 0x80 {
        if i >= 1 {
            lemma_utf8_byte_bound(s.skip(1), i - 1);
        }
    } else if 0xc2 <= b0 && b0 <= 0xdf {
        if i >= 2 {
            lemma_utf8_byte_bound(s.skip(2), i - 2);
        }
    } else if 0xe0 <= b0 && b0 <= 0xef {
        if i >= 3 {
            lemma_utf8_byte_bound(s.skip(3), i - 3);
        }
    } else {
        if i >= 4 {
            lemma_utf8_byte_bound(s.skip(4), i - 4);
        }
    }
}

/// A sequence that holds the byte `0xFF` anywhere is not valid UTF-8.
pub proof fn lemma_ff_not_utf8(s: Seq<u8>, i: int)
    requires
        0 <= i < s.len(),
        s[i] == 0xff,
    ensures
        !is_utf8(s),
{
    if is_utf8(s) {
        lemma_utf8_byte_bound(s, i);
    }
}

/// Decide `is_utf8` on a byte slice.
pub fn check_utf8(bytes: &[u8]) -> (r: bool)
    ensures
        r == is_utf8(bytes@),
{
    let n = bytes.len();
    let mut i: usize = 0;
    proof {
        assert(bytes@.skip(0) =~= bytes@);
    }
    loop
        invariant
            i <= n,
            n == bytes@.len(),
            is_utf8(bytes@) == is_utf8(bytes@.skip(i as int)),
        decreases n - i,
    {
        if i == n {
            proof {
                assert(bytes@.skip(i as int) =~= Seq::<u8>::empty());
            }
            return true;
        }
        let ghost tail = bytes@.skip(i as int);
        let b0 = bytes[i];
        assert(tail[0] == b0);
        let width: usize;
        let mut ok: bool;
        if b0 < 0x80 {
            width = 1;
            ok = true;
        } else if 0xc2 <= b0 && b0 <= 0xdf {
            width = 2;
            ok = n - i >= 2 && {
                let b1 = bytes[i + 1];
                0x80 <= b1 && b1 <= 0xbf
            };
        } else if 0xe0 <= b0 && b0 <= 0xef {
            width = 3;
            ok = n - i >= 3 && {
                let b1 = bytes[i + 1];
                let b2 = bytes[i + 2];
                let lo1: u8 = if b0 == 0xe0 {
                    0xa0
                } else {
                    0x80
                };
                let hi1: u8 = if b0 == 0xed {
                    0x9f
                } else {
                    0xbf
                };
                lo1 <= b1 && b1 <= hi1 && 0x80 <= b2 && b2 <= 0xbf
            };
        } else if 0xf0 <= b0 && b0 <= 0xf4 {
            width = 4;
            ok = n - i >= 4 && {
                let b1 = bytes[i + 1];
                let b2 = bytes[i + 2];
                let b3 = bytes[i + 3];
                let lo1: u8 = if b0 == 0xf0 {
                    0x90
                } else {
                    0x80
                };
                let hi1: u8 = if b0 == 0xf4 {
                    0x8f
                } else {
                    0xbf
                };
                lo1 <= b1 && b1 <= hi1 && 0x80 <= b2 && b2 <= 0xbf && 0x80 <= b3 && b3 <= 0xbf
            };
        } else {
            width = 1;
            ok = false;
        }
        if !ok {
            assert(!is_utf8(tail));
            return false;
        }
        proof {
            assert(forall|j: int| 0 <= j < tail.len() ==> tail[j] == bytes@[i + j]);
            assert(tail.skip(width as int) =~= bytes@.skip(i + width));
        }
        i = i + width;
    }
}

} // verus!
