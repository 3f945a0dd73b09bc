//! The failure taxonomy of the client: transport faults, framing faults, and
//! server-reported errors.

use vstd::prelude::*;

use crate::pstring::PString;

verus! {

/// Everything a codec operation or a request round-trip can fail with.
///
/// `Protocol` is the only non-fatal variant: the server answered with an
/// `RError` message and the connection remains framed. All other variants
/// mean the engine's view of the byte stream is lost and the connection
/// must be dropped.
#[derive(Debug)]
pub enum Error {
    /// The transport failed to deliver or accept bytes.
    Io,
    /// A string field's bytes are not valid UTF-8.
    Utf8,
    /// A message's bytes are shorter or longer than its schema allows.
    MessageLength,
    /// The reply's tag differs from the tag of the request just sent.
    UnrecognizedTag(u16),
    /// The reply's type code is neither the awaited reply nor `RError`.
    UnexpectedType(u8),
    /// The server answered with `RError`; the payload is its diagnostic.
    Protocol(PString),
}

impl Error {
    /// True for every variant that ends the engine's usefulness; only a
    /// server-side `Protocol` error leaves the connection usable.
    pub fn is_fatal(&self) -> (r: bool)
        ensures
            r == !(self is Protocol),
    {
        !matches!(self, Error::Protocol(_))
    }
}

} // verus!
