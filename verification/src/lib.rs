//! A client-side library for the 9P2000 remote file-service protocol: the
//! bit-exact wire codec for its messages and substructures, and a synchronous
//! request/reply engine that frames messages, pairs replies with requests by
//! tag, and surfaces protocol failures as typed errors.

pub mod bytes;
pub mod client;
pub mod dir;
pub mod error;
pub mod fields;
pub mod header;
pub mod messages;
pub mod pstring;
pub mod qid;
pub mod stat;
pub mod utf8;
pub mod writer;

pub use client::{parse_reply, MemTransport, SyncClient, Transport};
pub use dir::parse_dir;
pub use error::Error;
pub use header::Header;
pub use pstring::PString;
pub use qid::{Qid, QTAPPEND, QTAUTH, QTDIR, QTEXCL, QTMOUNT};
pub use stat::Stat;
pub use messages::{
    Fid, Message, MessageType, RAttach, RAuth, RClunk, RCreate, RError, RFlush, ROpen, RRead,
    RRemove, RStat, RVersion, RWStat, RWalk, RWrite, TAttach, TAuth, TClunk, TCreate, TFlush,
    TMessage, TOpen, TRead, TRemove, TStat, TVersion, TWStat, TWalk, TWrite, DMAPPEND, DMAUTH,
    DMDIR, DMEXCL, DMTMP, NOFID, NOTAG, OEXEC, ORCLOSE, ORDWR, OREAD, OTRUNC, OWRITE,
};
pub use writer::Writer;
