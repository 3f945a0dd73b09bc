//! The request engine against recorded reply frames: the handshake, attach,
//! walk and stat, directory reads, server errors, and every framing fault.

use nine_p::{
    parse_dir, parse_reply, Error, Fid, Header, MemTransport, Message, PString, Qid, RWrite, Stat,
    SyncClient, TAttach, TClunk, TOpen, TRead, TStat, TVersion, TWalk, NOFID, NOTAG,
};

fn ps(s: &str) -> PString {
    PString::new(s.as_bytes().to_vec()).unwrap()
}

/// A whole reply frame: header, then `body`.
fn frame(type_: u8, tag: u16, body: &[u8]) -> Vec<u8> {
    let size = (7 + body.len()) as u32;
    let mut f = size.to_le_bytes().to_vec();
    f.push(type_);
    f.extend_from_slice(&tag.to_le_bytes());
    f.extend_from_slice(body);
    f
}

fn client_with(replies: Vec<u8>) -> SyncClient<MemTransport> {
    SyncClient::new(MemTransport::new(replies))
}

fn stat_bytes(name: &str, length: u64, qid: Qid) -> Vec<u8> {
    Stat {
        type_: 0,
        dev: 0,
        qid,
        mode: 0o644,
        atime: 0,
        mtime: 0,
        length,
        name: ps(name),
        uid: ps("none"),
        gid: ps("none"),
        muid: ps("none"),
    }
    .encode()
}

// Scenario: the version handshake, checked down to the bytes on the wire.
#[test]
fn version_handshake() {
    let mut reply_body = 8192u32.to_le_bytes().to_vec();
    reply_body.extend_from_slice(&[6, 0]);
    reply_body.extend_from_slice(b"9P2000");
    let mut client = client_with(frame(101, NOTAG, &reply_body));
    let reply = client
        .send(NOTAG, &TVersion { msize: 8192, version: ps("9P2000") })
        .unwrap();
    assert_eq!(reply.msize, 8192);
    assert_eq!(reply.version.as_bytes(), b"9P2000");
    let expected: Vec<u8> = vec![
        0x13, 0x00, 0x00, 0x00, 0x64, 0xff, 0xff, 0x00, 0x20, 0x00, 0x00, 0x06, 0x00, b'9', b'P',
        b'2', b'0', b'0', b'0',
    ];
    assert_eq!(client.transport.sent_bytes(), &expected);
}

// Scenario: attach with no authentication.
#[test]
fn attach_without_auth() {
    let qid = Qid { type_: 0x80, vers: 0, path: 1 };
    let mut body = vec![0x80u8];
    body.extend_from_slice(&0u32.to_le_bytes());
    body.extend_from_slice(&1u64.to_le_bytes());
    let mut client = client_with(frame(105, 1, &body));
    let reply = client
        .send(
            1,
            &TAttach { fid: Fid(0), afid: Fid(NOFID), uname: ps("glenda"), aname: ps("") },
        )
        .unwrap();
    assert_eq!(reply.qid, qid);
}

// Scenario: walk to usr/lib, then stat the reached fid.
#[test]
fn walk_then_stat() {
    let q1 = Qid { type_: 0x80, vers: 0, path: 11 };
    let q2 = Qid { type_: 0x80, vers: 0, path: 12 };
    let mut walk_body = vec![2u8, 0];
    for q in [q1, q2] {
        walk_body.push(q.type_);
        walk_body.extend_from_slice(&q.vers.to_le_bytes());
        walk_body.extend_from_slice(&q.path.to_le_bytes());
    }
    let block = stat_bytes("lib", 0, q2);
    let mut stat_body = ((block.len()) as u16).to_le_bytes().to_vec();
    stat_body.extend_from_slice(&block);
    let mut replies = frame(111, 2, &walk_body);
    replies.extend_from_slice(&frame(125, 3, &stat_body));
    let mut client = client_with(replies);

    let walk = client
        .send(2, &TWalk { fid: Fid(0), newfid: Fid(1), wnames: vec![ps("usr"), ps("lib")] })
        .unwrap();
    assert_eq!(walk.qids, vec![q1, q2]);

    let stat = client.send(3, &TStat { fid: Fid(1) }).unwrap();
    assert_eq!(stat.stat.name.as_bytes(), b"lib");
    assert_eq!(stat.stat.length, 0);
    assert_eq!(stat.stat.qid, q2);
}

// Scenario: a directory read loop ending on an empty body, then parsing
// the concatenation.
#[test]
fn directory_read() {
    let q = Qid { type_: 0x80, vers: 0, path: 9 };
    let s1 = stat_bytes("a.txt", 12, Qid { type_: 0, vers: 0, path: 21 });
    let s2 = stat_bytes("b.txt", 34, Qid { type_: 0, vers: 0, path: 22 });
    let _ = q;
    let mut first = s1.clone();
    first.extend_from_slice(&s2);
    let mut body1 = (first.len() as u32).to_le_bytes().to_vec();
    body1.extend_from_slice(&first);
    let body2 = 0u32.to_le_bytes().to_vec();
    let mut replies = frame(117, 4, &body1);
    replies.extend_from_slice(&frame(117, 5, &body2));
    let mut client = client_with(replies);

    let mut dir_contents: Vec<u8> = Vec::new();
    let mut offset = 0u64;
    let mut tag = 4u16;
    loop {
        let r = client
            .send(tag, &TRead { fid: Fid(1), offset, count: 4096 })
            .unwrap();
        if r.data.is_empty() {
            break;
        }
        offset += r.data.len() as u64;
        dir_contents.extend_from_slice(&r.data);
        tag += 1;
    }
    let entries = parse_dir(&dir_contents).unwrap();
    assert_eq!(entries.len(), 2);
    assert_eq!(entries[0].name.as_bytes(), b"a.txt");
    assert_eq!(entries[1].name.as_bytes(), b"b.txt");
    assert_eq!(entries[1].length, 34);
}

// Scenario: a server error is a Protocol failure and the connection stays
// usable for the next request.
#[test]
fn server_error_then_clunk() {
    let mut err_body = vec![11u8, 0];
    err_body.extend_from_slice(b"unknown fid");
    let mut replies = frame(107, 7, &err_body);
    replies.extend_from_slice(&frame(121, 8, &[]));
    let mut client = client_with(replies);

    let r = client.send(7, &TOpen { fid: Fid(5), mode: 0 });
    match r {
        Err(Error::Protocol(ename)) => assert_eq!(ename.as_bytes(), b"unknown fid"),
        other => panic!("expected a protocol failure, got {:?}", other.map(|_| ())),
    }
    assert!(client.send(8, &TClunk { fid: Fid(0) }).is_ok());
}

// Scenario: a short walk reply tells the caller where the walk stopped.
#[test]
fn short_walk() {
    let qa = Qid { type_: 0x80, vers: 0, path: 31 };
    let mut body = vec![1u8, 0];
    body.push(qa.type_);
    body.extend_from_slice(&qa.vers.to_le_bytes());
    body.extend_from_slice(&qa.path.to_le_bytes());
    let mut client = client_with(frame(111, 2, &body));
    let wnames = vec![ps("a"), ps("b"), ps("c")];
    let n = wnames.len();
    let reply = client
        .send(2, &TWalk { fid: Fid(0), newfid: Fid(1), wnames })
        .unwrap();
    assert_eq!(reply.qids, vec![qa]);
    assert!(reply.qids.len() < n);
}

// Tag matching: a reply whose tag is off by one is UnrecognizedTag, and the
// engine reads nothing past the header.
#[test]
fn mismatched_tag() {
    let body = [0u8, 0, 0, 0];
    let replies = frame(119, 6, &body);
    let total = replies.len();
    let mut client = client_with(replies);
    let r = client.send(5, &TClunk { fid: Fid(1) });
    assert!(matches!(r, Err(Error::UnrecognizedTag(6))));
    assert_eq!(client.transport.remaining(), total - 7);
}

// Error dispatch: type 107 yields Protocol whatever was asked.
#[test]
fn rerror_reply_for_any_request() {
    let mut err_body = vec![4u8, 0];
    err_body.extend_from_slice(b"gone");
    let mut client = client_with(frame(107, 9, &err_body));
    let r = client.send(9, &TRead { fid: Fid(2), offset: 0, count: 1 });
    match r {
        Err(Error::Protocol(ename)) => assert_eq!(ename.as_bytes(), b"gone"),
        other => panic!("expected a protocol failure, got {:?}", other.map(|_| ())),
    }
}

#[test]
fn unexpected_reply_type() {
    let mut client = client_with(frame(103, 4, &[0; 13]));
    let r = client.send(4, &TClunk { fid: Fid(1) });
    assert!(matches!(r, Err(Error::UnexpectedType(103))));
}

#[test]
fn undersized_header_is_message_length() {
    let mut f = 3u32.to_le_bytes().to_vec();
    f.push(121);
    f.extend_from_slice(&4u16.to_le_bytes());
    let mut client = client_with(f);
    let r = client.send(4, &TClunk { fid: Fid(1) });
    assert!(matches!(r, Err(Error::MessageLength)));
}

#[test]
fn oversized_frame_is_message_length_after_msize() {
    let body = [0u8; 20];
    let mut client = client_with(frame(121, 4, &body));
    client.set_msize(24);
    let r = client.send(4, &TClunk { fid: Fid(1) });
    assert!(matches!(r, Err(Error::MessageLength)));
}

#[test]
fn frame_within_msize_is_accepted() {
    let mut client = client_with(frame(121, 4, &[]));
    client.set_msize(8192);
    assert!(client.send(4, &TClunk { fid: Fid(1) }).is_ok());
}

#[test]
fn exhausted_transport_is_io() {
    let mut client = client_with(Vec::new());
    let r = client.send(1, &TClunk { fid: Fid(1) });
    assert!(matches!(r, Err(Error::Io)));
}

#[test]
fn bad_reply_body_is_message_length() {
    // an RClunk reply that carries a stray byte
    let mut client = client_with(frame(121, 4, &[0]));
    let r = client.send(4, &TClunk { fid: Fid(1) });
    assert!(matches!(r, Err(Error::MessageLength)));
}

#[test]
fn bad_reply_text_is_utf8() {
    // an RVersion whose version field holds FF FF
    let mut body = 8192u32.to_le_bytes().to_vec();
    body.extend_from_slice(&[2, 0, 0xff, 0xff]);
    let mut client = client_with(frame(101, NOTAG, &body));
    let r = client.send(NOTAG, &TVersion { msize: 8192, version: ps("9P2000") });
    assert!(matches!(r, Err(Error::Utf8)));
}

// The dispatch step alone, as an adapter driving its own connection uses it.
#[test]
fn parse_reply_dispatches_on_type() {
    let h = Header { size: 11, type_: 119, tag: 3 };
    let body = 7u32.to_le_bytes();
    let r: RWrite = parse_reply(&h, &body).unwrap();
    assert_eq!(r.count, 7);

    let h = Header { size: 13, type_: 107, tag: 3 };
    let mut err_body = vec![4u8, 0];
    err_body.extend_from_slice(b"oops");
    match parse_reply::<RWrite>(&h, &err_body) {
        Err(Error::Protocol(ename)) => assert_eq!(ename.as_bytes(), b"oops"),
        other => panic!("expected a protocol failure, got {:?}", other.map(|_| ())),
    }

    let h = Header { size: 11, type_: 117, tag: 3 };
    assert!(matches!(
        parse_reply::<RWrite>(&h, &body),
        Err(Error::UnexpectedType(117))
    ));
}
