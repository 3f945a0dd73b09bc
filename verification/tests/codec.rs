//! The wire codec: round trips for every message kind, the length and
//! UTF-8 discipline, the header, and the substructures.

use nine_p::{
    parse_dir, Error, Fid, Header, Message, MessageType, PString, Qid, RAttach, RAuth, RClunk,
    RCreate, RError, RFlush, ROpen, RRead, RRemove, RStat, RVersion, RWStat, RWalk, RWrite, Stat,
    TAttach, TAuth, TClunk, TCreate, TFlush, TOpen, TRead, TRemove, TStat, TVersion, TWStat,
    TWalk, TWrite, NOFID, NOTAG,
};

fn ps(s: &str) -> PString {
    PString::new(s.as_bytes().to_vec()).unwrap()
}

fn sample_qid() -> Qid {
    Qid { type_: 0x80, vers: 7, path: 0x0123456789abcdef }
}

fn sample_stat(name: &str, length: u64, qid: Qid) -> Stat {
    Stat {
        type_: 1,
        dev: 2,
        qid,
        mode: 0x80000000 | 0o755,
        atime: 1000,
        mtime: 2000,
        length,
        name: ps(name),
        uid: ps("glenda"),
        gid: ps("glenda"),
        muid: ps("glenda"),
    }
}

#[test]
fn roundtrip_tversion() {
    let m = TVersion { msize: 8192, version: ps("9P2000") };
    let b = m.encode();
    assert_eq!(b.len(), m.size());
    let p = TVersion::parse(&b).unwrap();
    assert_eq!(p.msize, 8192);
    assert_eq!(p.version.as_bytes(), b"9P2000");
}

#[test]
fn roundtrip_rversion() {
    let m = RVersion { msize: 8192, version: ps("9P2000") };
    let p = RVersion::parse(&m.encode()).unwrap();
    assert_eq!(p.msize, 8192);
    assert_eq!(p.version.as_bytes(), b"9P2000");
}

#[test]
fn roundtrip_tauth() {
    let m = TAuth { afid: Fid(5), uname: ps("glenda"), aname: ps("") };
    let p = TAuth::parse(&m.encode()).unwrap();
    assert_eq!(p.afid, Fid(5));
    assert_eq!(p.uname.as_bytes(), b"glenda");
    assert_eq!(p.aname.as_bytes(), b"");
}

#[test]
fn roundtrip_rauth() {
    let m = RAuth { aqid: sample_qid() };
    let p = RAuth::parse(&m.encode()).unwrap();
    assert_eq!(p.aqid, sample_qid());
}

#[test]
fn roundtrip_tattach() {
    let m = TAttach { fid: Fid(0), afid: Fid(NOFID), uname: ps("glenda"), aname: ps("/") };
    let b = m.encode();
    assert_eq!(b.len(), m.size());
    let p = TAttach::parse(&b).unwrap();
    assert_eq!(p.fid, Fid(0));
    assert_eq!(p.afid, Fid(NOFID));
    assert_eq!(p.uname.as_bytes(), b"glenda");
    assert_eq!(p.aname.as_bytes(), b"/");
}

#[test]
fn roundtrip_rattach() {
    let m = RAttach { qid: sample_qid() };
    let p = RAttach::parse(&m.encode()).unwrap();
    assert_eq!(p.qid, sample_qid());
}

#[test]
fn roundtrip_rerror() {
    let m = RError { ename: ps("file not found") };
    let b = m.encode();
    assert_eq!(b.len(), m.size());
    let p = RError::parse(&b).unwrap();
    assert_eq!(p.ename.as_bytes(), b"file not found");
}

#[test]
fn rerror_known_bytes() {
    // length prefix 2, then "no"
    let body = [2u8, 0, b'n', b'o'];
    let p = RError::parse(&body).unwrap();
    assert_eq!(p.ename.as_bytes(), b"no");
}

#[test]
fn rerror_tolerates_trailing_errno() {
    let mut body = RError { ename: ps("gone") }.encode();
    body.extend_from_slice(&[2, 0, 0, 0]);
    let p = RError::parse(&body).unwrap();
    assert_eq!(p.ename.as_bytes(), b"gone");
}

#[test]
fn rerror_rejects_other_trailing_lengths() {
    for extra in [1usize, 2, 3, 5] {
        let mut body = RError { ename: ps("gone") }.encode();
        body.extend_from_slice(&vec![0u8; extra]);
        assert!(matches!(RError::parse(&body), Err(Error::MessageLength)));
    }
}

#[test]
fn roundtrip_tflush() {
    let m = TFlush { oldtag: 42 };
    let p = TFlush::parse(&m.encode()).unwrap();
    assert_eq!(p.oldtag, 42);
}

#[test]
fn roundtrip_rflush() {
    let m = RFlush;
    let b = m.encode();
    assert!(b.is_empty());
    assert!(RFlush::parse(&b).is_ok());
}

#[test]
fn roundtrip_twalk() {
    let m = TWalk { fid: Fid(0), newfid: Fid(1), wnames: vec![ps("usr"), ps("lib")] };
    let b = m.encode();
    assert_eq!(b.len(), m.size());
    let p = TWalk::parse(&b).unwrap();
    assert_eq!(p.fid, Fid(0));
    assert_eq!(p.newfid, Fid(1));
    assert_eq!(p.wnames.len(), 2);
    assert_eq!(p.wnames[0].as_bytes(), b"usr");
    assert_eq!(p.wnames[1].as_bytes(), b"lib");
}

#[test]
fn roundtrip_rwalk() {
    let q1 = Qid { type_: 0x80, vers: 1, path: 10 };
    let q2 = Qid { type_: 0, vers: 2, path: 20 };
    let m = RWalk { qids: vec![q1, q2] };
    let b = m.encode();
    assert_eq!(b.len(), m.size());
    assert_eq!(b.len(), 2 + 13 * 2);
    let p = RWalk::parse(&b).unwrap();
    assert_eq!(p.qids, vec![q1, q2]);
}

#[test]
fn rwalk_rejects_count_mismatch() {
    // count says two entries but only one follows
    let q1 = Qid { type_: 0x80, vers: 1, path: 10 };
    let mut b = RWalk { qids: vec![q1] }.encode();
    b[0] = 2;
    assert!(matches!(RWalk::parse(&b), Err(Error::MessageLength)));
}

#[test]
fn roundtrip_topen() {
    let m = TOpen { fid: Fid(5), mode: 0x12 };
    let p = TOpen::parse(&m.encode()).unwrap();
    assert_eq!(p.fid, Fid(5));
    assert_eq!(p.mode, 0x12);
}

#[test]
fn roundtrip_ropen() {
    let m = ROpen { qid: sample_qid(), iounit: 8169 };
    let p = ROpen::parse(&m.encode()).unwrap();
    assert_eq!(p.qid, sample_qid());
    assert_eq!(p.iounit, 8169);
}

#[test]
fn roundtrip_tcreate() {
    let m = TCreate { fid: Fid(3), name: ps("notes.txt"), perm: 0o644, mode: 1 };
    let p = TCreate::parse(&m.encode()).unwrap();
    assert_eq!(p.fid, Fid(3));
    assert_eq!(p.name.as_bytes(), b"notes.txt");
    assert_eq!(p.perm, 0o644);
    assert_eq!(p.mode, 1);
}

#[test]
fn roundtrip_rcreate() {
    let m = RCreate { qid: sample_qid(), iounit: 0 };
    let p = RCreate::parse(&m.encode()).unwrap();
    assert_eq!(p.qid, sample_qid());
    assert_eq!(p.iounit, 0);
}

#[test]
fn roundtrip_tread() {
    let m = TRead { fid: Fid(1), offset: 0x1122334455667788, count: 4096 };
    let b = m.encode();
    assert_eq!(b.len(), 16);
    let p = TRead::parse(&b).unwrap();
    assert_eq!(p.fid, Fid(1));
    assert_eq!(p.offset, 0x1122334455667788);
    assert_eq!(p.count, 4096);
}

#[test]
fn roundtrip_rread() {
    let m = RRead { data: vec![1, 2, 3, 0xfe] };
    let b = m.encode();
    assert_eq!(b.len(), m.size());
    let p = RRead::parse(&b).unwrap();
    assert_eq!(p.data, vec![1, 2, 3, 0xfe]);
}

#[test]
fn roundtrip_twrite() {
    let m = TWrite { fid: Fid(1), offset: 512, data: vec![9, 8, 7] };
    let b = m.encode();
    // fid + offset + count prefix + payload
    assert_eq!(b.len(), 4 + 8 + 4 + 3);
    let p = TWrite::parse(&b).unwrap();
    assert_eq!(p.fid, Fid(1));
    assert_eq!(p.offset, 512);
    assert_eq!(p.data, vec![9, 8, 7]);
}

#[test]
fn roundtrip_rwrite() {
    let m = RWrite { count: 3 };
    let p = RWrite::parse(&m.encode()).unwrap();
    assert_eq!(p.count, 3);
}

#[test]
fn roundtrip_tclunk_tremove_tstat() {
    let b = TClunk { fid: Fid(9) }.encode();
    assert_eq!(TClunk::parse(&b).unwrap().fid, Fid(9));
    let b = TRemove { fid: Fid(9) }.encode();
    assert_eq!(TRemove::parse(&b).unwrap().fid, Fid(9));
    let b = TStat { fid: Fid(9) }.encode();
    assert_eq!(TStat::parse(&b).unwrap().fid, Fid(9));
}

#[test]
fn roundtrip_empty_replies() {
    assert!(RClunk::parse(&RClunk.encode()).is_ok());
    assert!(RRemove::parse(&RRemove.encode()).is_ok());
    assert!(RWStat::parse(&RWStat.encode()).is_ok());
    assert!(matches!(RClunk::parse(&[0]), Err(Error::MessageLength)));
}

#[test]
fn roundtrip_rstat() {
    let st = sample_stat("lib", 0, sample_qid());
    let m = RStat { stat: st };
    let b = m.encode();
    assert_eq!(b.len(), m.size());
    let p = RStat::parse(&b).unwrap();
    assert_eq!(p.stat.name.as_bytes(), b"lib");
    assert_eq!(p.stat.qid, sample_qid());
    assert_eq!(p.stat.length, 0);
    assert_eq!(p.stat.mode, 0x80000000 | 0o755);
}

#[test]
fn roundtrip_twstat() {
    let st = sample_stat("file", 10, Qid { type_: 0, vers: 0, path: 3 });
    let m = TWStat { fid: Fid(2), stat: st };
    let b = m.encode();
    assert_eq!(b.len(), m.size());
    let p = TWStat::parse(&b).unwrap();
    assert_eq!(p.fid, Fid(2));
    assert_eq!(p.stat.name.as_bytes(), b"file");
    assert_eq!(p.stat.length, 10);
}

// Length discipline: a body one byte shorter or longer than the message's
// own size is refused as `MessageLength`.
#[test]
fn length_discipline_shorter() {
    let b = TVersion { msize: 8192, version: ps("9P2000") }.encode();
    assert!(matches!(TVersion::parse(&b[..b.len() - 1]), Err(Error::MessageLength)));
    let b = TAttach { fid: Fid(0), afid: Fid(NOFID), uname: ps("u"), aname: ps("") }.encode();
    assert!(matches!(TAttach::parse(&b[..b.len() - 1]), Err(Error::MessageLength)));
    let b = TWalk { fid: Fid(0), newfid: Fid(1), wnames: vec![ps("a")] }.encode();
    assert!(matches!(TWalk::parse(&b[..b.len() - 1]), Err(Error::MessageLength)));
    let b = RWalk { qids: vec![sample_qid()] }.encode();
    assert!(matches!(RWalk::parse(&b[..b.len() - 1]), Err(Error::MessageLength)));
    let b = RRead { data: vec![1, 2, 3] }.encode();
    assert!(matches!(RRead::parse(&b[..b.len() - 1]), Err(Error::MessageLength)));
    let b = RStat { stat: sample_stat("x", 1, sample_qid()) }.encode();
    assert!(matches!(RStat::parse(&b[..b.len() - 1]), Err(Error::MessageLength)));
    let b = RError { ename: ps("e") }.encode();
    assert!(matches!(RError::parse(&b[..b.len() - 1]), Err(Error::MessageLength)));
}

#[test]
fn length_discipline_longer() {
    let mut b = TVersion { msize: 8192, version: ps("9P2000") }.encode();
    b.push(0);
    assert!(matches!(TVersion::parse(&b), Err(Error::MessageLength)));
    let mut b = RWalk { qids: vec![sample_qid()] }.encode();
    b.push(0);
    assert!(matches!(RWalk::parse(&b), Err(Error::MessageLength)));
    let mut b = RRead { data: vec![1] }.encode();
    b.push(0);
    assert!(matches!(RRead::parse(&b), Err(Error::MessageLength)));
    let mut b = RStat { stat: sample_stat("x", 1, sample_qid()) }.encode();
    b.push(0);
    assert!(matches!(RStat::parse(&b), Err(Error::MessageLength)));
}

#[test]
fn length_discipline_prefix_only() {
    // a string length prefix that promises five bytes, with none present
    let body = [0u8, 0x20, 0, 0, 5, 0];
    assert!(matches!(RVersion::parse(&body), Err(Error::MessageLength)));
    // a data length prefix with nothing after it
    let body = [3u8, 0, 0, 0];
    assert!(matches!(RRead::parse(&body), Err(Error::MessageLength)));
}

// UTF-8 discipline: `0xFF 0xFF` in a string field fails `Utf8`.
#[test]
fn utf8_discipline() {
    assert!(matches!(PString::new(vec![0xff, 0xff]), Err(Error::Utf8)));
    // msize, then a two-byte string holding FF FF
    let body = [0u8, 0x20, 0, 0, 2, 0, 0xff, 0xff];
    assert!(matches!(RVersion::parse(&body), Err(Error::Utf8)));
    // the same bytes inside an ename
    let body = [2u8, 0, 0xff, 0xff];
    assert!(matches!(RError::parse(&body), Err(Error::Utf8)));
}

#[test]
fn utf8_accepts_multibyte_text() {
    let text = "caf\u{e9} \u{65e5}\u{672c} \u{1f600}";
    let p = PString::new(text.as_bytes().to_vec()).unwrap();
    assert_eq!(p.as_bytes(), text.as_bytes());
    assert!(matches!(PString::new(vec![0xc0, 0xaf]), Err(Error::Utf8)));
    assert!(matches!(PString::new(vec![0xed, 0xa0, 0x80]), Err(Error::Utf8)));
    assert!(matches!(PString::new(vec![0xe2, 0x82]), Err(Error::Utf8)));
}

// Header round trip: the 7 bytes survive both directions bit-identically.
#[test]
fn header_round_trip() {
    let h = Header { size: 0x13, type_: 100, tag: NOTAG };
    let b = h.encode();
    assert_eq!(b, vec![0x13, 0, 0, 0, 100, 0xff, 0xff]);
    let h2 = Header::from_array([b[0], b[1], b[2], b[3], b[4], b[5], b[6]]);
    assert_eq!(h, h2);
    let raw = [0x19u8, 0x02, 0, 0, 125, 0x34, 0x12];
    let h3 = Header::from_array(raw);
    assert_eq!(h3.size, 0x219);
    assert_eq!(h3.type_, 125);
    assert_eq!(h3.tag, 0x1234);
    assert_eq!(h3.encode(), raw.to_vec());
}

#[test]
fn header_for_message() {
    let m = TVersion { msize: 8192, version: ps("9P2000") };
    let h = Header::for_message(&m, NOTAG);
    assert_eq!(h.size, 7 + 12);
    assert_eq!(h.type_, 100);
    assert_eq!(h.tag, NOTAG);
}

// Scenario: the version request's bytes on the wire.
#[test]
fn version_frame_bytes() {
    let m = TVersion { msize: 8192, version: ps("9P2000") };
    let h = Header::for_message(&m, NOTAG);
    let mut frame = h.encode();
    let mut rest = Vec::new();
    m.write(&mut rest).unwrap();
    frame.extend_from_slice(&rest);
    let expected: Vec<u8> = vec![
        0x13, 0x00, 0x00, 0x00, 0x64, 0xff, 0xff, 0x00, 0x20, 0x00, 0x00, 0x06, 0x00, b'9', b'P',
        b'2', b'0', b'0', b'0',
    ];
    assert_eq!(frame, expected);
}

#[test]
fn message_type_codes() {
    assert_eq!(MessageType::TVersion.code(), 100);
    assert_eq!(MessageType::RVersion.code(), 101);
    assert_eq!(MessageType::RError.code(), 107);
    assert_eq!(MessageType::TWalk.code(), 110);
    assert_eq!(MessageType::RWStat.code(), 127);
    assert_eq!(TVersion::code(), 100);
    assert_eq!(RStat::code(), 125);
    assert_eq!(NOTAG, 0xffff);
    assert_eq!(NOFID, 0xffff_ffff);
}

#[test]
fn qid_is_dir() {
    assert!(Qid { type_: 0x80, vers: 0, path: 0 }.is_dir());
    assert!(!Qid { type_: 0x40, vers: 0, path: 0 }.is_dir());
}

// Directory parser: three records concatenate and parse back; a trailing
// truncated record is a MessageLength fault.
#[test]
fn dir_parse_three_records() {
    let s1 = sample_stat("usr", 0, Qid { type_: 0x80, vers: 0, path: 1 });
    let s2 = sample_stat("lib", 0, Qid { type_: 0x80, vers: 0, path: 2 });
    let s3 = sample_stat("readme", 120, Qid { type_: 0, vers: 3, path: 3 });
    let mut buf = s1.encode();
    buf.extend_from_slice(&s2.encode());
    buf.extend_from_slice(&s3.encode());
    let entries = parse_dir(&buf).unwrap();
    assert_eq!(entries.len(), 3);
    assert_eq!(entries[0].name.as_bytes(), b"usr");
    assert_eq!(entries[1].name.as_bytes(), b"lib");
    assert_eq!(entries[2].name.as_bytes(), b"readme");
    assert_eq!(entries[2].length, 120);
    assert_eq!(entries[1].qid, Qid { type_: 0x80, vers: 0, path: 2 });
}

#[test]
fn dir_parse_empty() {
    assert_eq!(parse_dir(&[]).unwrap().len(), 0);
}

#[test]
fn dir_parse_trailing_partial_record() {
    let s1 = sample_stat("usr", 0, Qid { type_: 0x80, vers: 0, path: 1 });
    let s2 = sample_stat("lib", 0, Qid { type_: 0x80, vers: 0, path: 2 });
    let mut buf = s1.encode();
    let tail = s2.encode();
    buf.extend_from_slice(&tail[..tail.len() - 1]);
    assert!(matches!(parse_dir(&buf), Err(Error::MessageLength)));
}

#[test]
fn stat_window_is_forward_compatible() {
    // widen the declared window by one byte; the entry still parses and the
    // cursor lands after the declared window
    let st = sample_stat("x", 5, sample_qid());
    let mut b = st.encode();
    let inner = u16::from_le_bytes([b[0], b[1]]);
    let widened = inner + 1;
    b[0] = (widened & 0xff) as u8;
    b[1] = (widened >> 8) as u8;
    b.push(0xaa);
    let (parsed, consumed) = Stat::parse(&b, 0).unwrap();
    assert_eq!(parsed.name.as_bytes(), b"x");
    assert_eq!(consumed, b.len());
}

#[test]
fn error_is_fatal() {
    assert!(Error::Io.is_fatal());
    assert!(Error::MessageLength.is_fatal());
    assert!(Error::Utf8.is_fatal());
    assert!(Error::UnrecognizedTag(1).is_fatal());
    assert!(Error::UnexpectedType(99).is_fatal());
    assert!(!Error::Protocol(PString::new(b"x".to_vec()).unwrap()).is_fatal());
}

#[test]
fn empty_walk_lists() {
    let m = TWalk { fid: Fid(0), newfid: Fid(1), wnames: Vec::new() };
    let b = m.encode();
    assert_eq!(b.len(), 10);
    let p = TWalk::parse(&b).unwrap();
    assert!(p.wnames.is_empty());
    let m = RWalk { qids: Vec::new() };
    let p = RWalk::parse(&m.encode()).unwrap();
    assert!(p.qids.is_empty());
}

#[test]
fn string_length_limit() {
    assert!(PString::new(vec![b'a'; 65535]).is_ok());
    assert!(matches!(
        PString::new(vec![b'a'; 65536]),
        Err(Error::MessageLength)
    ));
}

#[test]
fn pstring_accessors() {
    let p = ps("abc");
    assert_eq!(p.len(), 3);
    assert!(!p.is_empty());
    assert!(ps("").is_empty());
}
