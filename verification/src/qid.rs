//! The server-assigned unique file identifier.

use vstd::prelude::*;

verus! {

/// The directory bit of a qid's type byte.
pub const QTDIR: u8 = 0x80;

/// The append-only bit of a qid's type byte.
pub const QTAPPEND: u8 = 0x40;

/// The exclusive-use bit of a qid's type byte.
pub const QTEXCL: u8 = 0x20;

/// The mount-point bit of a qid's type byte.
pub const QTMOUNT: u8 = 0x04;

/// The authentication-file bit of a qid's type byte.
pub const QTAUTH: u8 = 0x02;

/// A 13-byte file identity: one type byte, a version counter bumped on every
/// modification, and a path number unique on the server for the file's life.
#[derive(Clone, Copy, Debug, Default, PartialEq, Eq, Structural)]
pub struct Qid {
    pub type_: u8,
    pub vers: u32,
    pub path: u64,
}

impl Qid {
    /// Whether the type byte carries the directory bit.
    pub fn is_dir(&self) -> (r: bool)
        ensures
            r == (self.type_ & QTDIR != 0),
    {
        self.type_ & QTDIR != 0
    }
}

} // verus!
