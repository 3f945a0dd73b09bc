//! The write sink the codec serializes into: `write` must place all bytes or
//! fail, as a blocking `write_all` does. An in-memory buffer implements it
//! for framing; a transport binding may implement it over a socket.

use vstd::prelude::*;

use crate::bytes::put_bytes;
use crate::error::Error;

verus! {

/// A sink of bytes with all-or-nothing writes.
pub trait Writer {
    /// Every byte accepted so far, in order.
    spec fn sink(&self) -> Seq<u8>;

    /// Accept all of `bytes`, or fail without a promise about what was
    /// placed.
    fn write(&mut self, bytes: &[u8]) -> (r: Result<(), Error>)
        ensures
            r is Ok ==> final(self).sink() == old(self).sink() + bytes@,
    ;
}

impl Writer for Vec<u8> {
    open spec fn sink(&self) -> Seq<u8> {
        self@
    }

    fn write(&mut self, bytes: &[u8]) -> (r: Result<(), Error>) {
        put_bytes(self, bytes);
        Ok(())
    }
}

} // verus!
