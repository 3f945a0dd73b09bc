//! Protocol strings: owned byte strings that are valid UTF-8 and short
//! enough for the wire's 16-bit length prefix.

use vstd::prelude::*;

use crate::error::Error;
use crate::utf8::{check_utf8, is_utf8};

verus! {

/// A string as the protocol carries it: UTF-8 bytes, at most 65535 of them.
///
/// The constructors establish `wf`; the parsers only ever build well-formed
/// values, so every `PString` obtained from the library satisfies it.
#[derive(Clone, Debug, Default, PartialEq, Eq)]
pub struct PString {
    bytes: Vec<u8>,
}

impl View for PString {
    type V = Seq<u8>;

    closed spec fn view(&self) -> Seq<u8> {
        self.bytes@
    }
}

/// What every string field must satisfy to be writable on the wire.
pub open spec fn str_wf(s: Seq<u8>) -> bool {
    is_utf8(s) && s.len() <= 0xffff
}

impl PString {
    pub open spec fn wf(&self) -> bool {
        str_wf(self@)
    }

    /// Validate `bytes` and take ownership of them: too long is a
    /// `MessageLength` fault, invalid UTF-8 a `Utf8` fault.
    pub fn new(bytes: Vec<u8>) -> (r: Result<PString, Error>)
        ensures
            match r {
                Ok(p) => p@ == bytes@ && p.wf(),
                Err(e) => !str_wf(bytes@) && if bytes@.len() > 0xffff {
                    e == Error::MessageLength
                } else {
                    e == Error::Utf8 && !is_utf8(bytes@)
                },
            },
    {
        if bytes.len() > 0xffff {
            Err(Error::MessageLength)
        } else if check_utf8(bytes.as_slice()) {
            Ok(PString { bytes })
        } else {
            Err(Error::Utf8)
        }
    }

    pub fn as_bytes(&self) -> (r: &[u8])
        ensures
            r@ == self@,
    {
        self.bytes.as_slice()
    }

    pub fn len(&self) -> (n: usize)
        ensures
            n == self@.len(),
    {
        self.bytes.len()
    }

    pub fn is_empty(&self) -> (r: bool)
        ensures
            r == (self@.len() == 0),
    {
        self.bytes.len() == 0
    }
}

} // verus!
