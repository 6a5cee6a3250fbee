use ratsio::nuid::{Nuid, MAX_SEQ};
use ratsio::ops::{Connect, Message, Op, Publish, Subscribe, UnSubscribe};
use ratsio::parser::{parse_op, ParseOutcome};

fn seed() -> [u8; 12] {
    [0, 1, 2, 3, 4, 5, 6, 7, 8, 9, 10, 11]
}

#[test]
fn nuid_ids_follow_prefix_and_counter() {
    let mut ids = Nuid::from_entropy(&seed(), 0, 0);
    let a = ids.next().unwrap();
    let b = ids.next().unwrap();
    assert_eq!(a, b"0123456789AB000000000X".to_vec());
    assert_eq!(b, b"0123456789AB0000000014".to_vec());
    assert_eq!(a.len(), 22);
    assert_ne!(a, b);
}

#[test]
fn nuid_prefix_reduces_seed_modulo_62() {
    let mut ids = Nuid::from_entropy(&[62, 63, 99, 123, 255, 0, 0, 0, 0, 0, 0, 0], 0, 300);
    let a = ids.next().unwrap();
    // 62 -> '0', 63 -> '1', 99 -> 37 -> 'b', 123 -> 61 -> 'z', 255 -> 7 -> '7'
    assert_eq!(&a[..12], b"01bz70000000");
    // increment is 33 + 300 % 300 = 33
    assert_eq!(&a[12..], b"000000000X");
}

#[test]
fn nuid_many_ids_are_distinct() {
    let mut ids = Nuid::from_entropy(&seed(), 12345, 77);
    let mut seen: Vec<Vec<u8>> = Vec::new();
    for _ in 0..500 {
        let id = ids.next().unwrap();
        assert!(!seen.contains(&id));
        seen.push(id);
    }
}

#[test]
fn nuid_exhausted_returns_none() {
    let mut ids = Nuid::from_entropy(&seed(), MAX_SEQ - 1, 0);
    assert!(ids.next().is_none());
    assert!(ids.next().is_none());
}

fn pub_op(subject: &[u8], reply: Option<&[u8]>, payload: &[u8]) -> Op {
    Op::PUB(Publish {
        subject: subject.to_vec(),
        reply_to: reply.map(|r| r.to_vec()),
        payload: payload.to_vec(),
    })
}

#[test]
fn encode_pub_frames() {
    assert_eq!(pub_op(b"foo", None, b"hello").to_bytes(), b"PUB foo 5\r\nhello\r\n".to_vec());
    assert_eq!(
        pub_op(b"foo", Some(b"bar"), b"hello").to_bytes(),
        b"PUB foo bar 5\r\nhello\r\n".to_vec()
    );
    assert_eq!(pub_op(b"e", None, b"").to_bytes(), b"PUB e 0\r\n\r\n".to_vec());
    let big = vec![7u8; 1234];
    let bytes = pub_op(b"b", None, &big).to_bytes();
    assert!(bytes.starts_with(b"PUB b 1234\r\n"));
    assert_eq!(bytes.len(), 12 + 1234 + 2);
}

#[test]
fn encode_sub_unsub_ping_pong() {
    let sub = Op::SUB(Subscribe { subject: b"foo".to_vec(), sid: b"1".to_vec(), queue_group: None });
    assert_eq!(sub.to_bytes(), b"SUB foo 1\r\n".to_vec());
    let subq = Op::SUB(Subscribe {
        subject: b"foo".to_vec(),
        sid: b"1".to_vec(),
        queue_group: Some(b"q".to_vec()),
    });
    assert_eq!(subq.to_bytes(), b"SUB foo q 1\r\n".to_vec());
    let un = Op::UNSUB(UnSubscribe { sid: b"1".to_vec(), max_msgs: None });
    assert_eq!(un.to_bytes(), b"UNSUB 1\r\n".to_vec());
    let un5 = Op::UNSUB(UnSubscribe { sid: b"1".to_vec(), max_msgs: Some(5) });
    assert_eq!(un5.to_bytes(), b"UNSUB 1 5\r\n".to_vec());
    assert_eq!(Op::PING.to_bytes(), b"PING\r\n".to_vec());
    assert_eq!(Op::PONG.to_bytes(), b"PONG\r\n".to_vec());
    assert_eq!(Op::OK.to_bytes(), b"+OK\r\n".to_vec());
    assert_eq!(Op::CLOSE.to_bytes(), Vec::<u8>::new());
}

fn connect(name: Option<&[u8]>) -> Connect {
    Connect {
        verbose: false,
        pedantic: true,
        tls_required: false,
        auth_token: None,
        user: Some(b"u".to_vec()),
        pass: None,
        name: name.map(|n| n.to_vec()),
        lang: b"rust".to_vec(),
        version: b"0.3.0".to_vec(),
        protocol: 1,
        echo: false,
        sig: None,
        jwt: None,
        nkey: None,
    }
}

#[test]
fn encode_connect_json() {
    let bytes = Op::CONNECT(connect(None)).to_bytes();
    let expected = b"CONNECT {\"verbose\":false,\"pedantic\":true,\"tls_required\":false,\"user\":\"u\",\"lang\":\"rust\",\"version\":\"0.3.0\",\"protocol\":1,\"echo\":false}\r\n";
    assert_eq!(bytes, expected.to_vec());
}

#[test]
fn encode_connect_escapes_strings() {
    let mut out = Vec::new();
    connect(Some(b"a\"b\\c\n")).push_json(&mut out);
    let text = String::from_utf8(out).unwrap();
    assert!(text.contains("\"name\":\"a\\\"b\\\\c\\u000a\""));
}

#[test]
fn parse_msg_scenario() {
    match parse_op(b"MSG foo 1 5\r\nhello\r\n") {
        ParseOutcome::Done(Op::MSG(m), n) => {
            assert_eq!(n, 20);
            assert_eq!(m.subject, b"foo".to_vec());
            assert_eq!(m.sid, b"1".to_vec());
            assert!(m.reply_to.is_none());
            assert_eq!(m.payload, vec![104, 101, 108, 108, 111]);
        }
        _ => panic!("expected a message"),
    }
}

#[test]
fn parse_msg_with_reply_and_rest() {
    match parse_op(b"MSG foo 9 _INBOX.x 2\r\nhi\r\nPING\r\n") {
        ParseOutcome::Done(Op::MSG(m), n) => {
            assert_eq!(n, 26);
            assert_eq!(m.reply_to, Some(b"_INBOX.x".to_vec()));
            assert_eq!(m.payload, b"hi".to_vec());
        }
        _ => panic!("expected a message"),
    }
}

#[test]
fn parse_control_frames() {
    assert!(matches!(parse_op(b"PING\r\n"), ParseOutcome::Done(Op::PING, 6)));
    assert!(matches!(parse_op(b"PONG\r\nxyz"), ParseOutcome::Done(Op::PONG, 6)));
    assert!(matches!(parse_op(b"+OK\r\n"), ParseOutcome::Done(Op::OK, 5)));
    match parse_op(b"INFO {}\r\n") {
        ParseOutcome::Done(Op::INFO(j), 9) => assert_eq!(j, b"{}".to_vec()),
        _ => panic!("expected INFO"),
    }
    match parse_op(b"-ERR 'bad'\r\n") {
        ParseOutcome::Done(Op::ERR(e), 12) => assert_eq!(e, b"'bad'".to_vec()),
        _ => panic!("expected ERR"),
    }
}

#[test]
fn parse_incomplete_frames() {
    assert!(matches!(parse_op(b""), ParseOutcome::Incomplete));
    assert!(matches!(parse_op(b"PIN"), ParseOutcome::Incomplete));
    assert!(matches!(parse_op(b"MSG foo 1 5\r\nhel"), ParseOutcome::Incomplete));
    assert!(matches!(parse_op(b"MSG foo 1 5\r\nhello"), ParseOutcome::Incomplete));
}

#[test]
fn parse_invalid_frames() {
    assert!(matches!(parse_op(b"FOO\r\n"), ParseOutcome::Invalid));
    assert!(matches!(parse_op(b"MSG foo\r\n"), ParseOutcome::Invalid));
    assert!(matches!(parse_op(b"MSG foo 1 05\r\nhello\r\n"), ParseOutcome::Invalid));
    assert!(matches!(parse_op(b"MSG foo 1 x\r\n"), ParseOutcome::Invalid));
    assert!(matches!(parse_op(b"MSG foo  1 5\r\nhello\r\n"), ParseOutcome::Invalid));
    assert!(matches!(parse_op(b"MSG foo 1 5\r\nhelloXX"), ParseOutcome::Invalid));
    assert!(matches!(parse_op(b"PINGX\r\n"), ParseOutcome::Invalid));
}

#[test]
fn parse_inverts_encoding_of_msg() {
    let m = Op::MSG(Message {
        subject: b"a.b".to_vec(),
        sid: b"42".to_vec(),
        reply_to: Some(b"r".to_vec()),
        payload: b"x y\r\nz".to_vec(),
    });
    let bytes = m.to_bytes();
    match parse_op(&bytes) {
        ParseOutcome::Done(Op::MSG(p), n) => {
            assert_eq!(n, bytes.len());
            assert_eq!(Op::MSG(p).to_bytes(), bytes);
        }
        _ => panic!("expected a message"),
    }
}

#[test]
fn parse_info_ok_err_lines() {
    match parse_op(b"INFO {\"server_id\":\"x\"}\r\nPING\r\n") {
        ParseOutcome::Done(Op::INFO(j), n) => {
            assert_eq!(j, b"{\"server_id\":\"x\"}".to_vec());
            assert_eq!(n, 24);
        }
        _ => panic!("expected INFO"),
    }
    assert!(matches!(parse_op(b"+OK\r\nMSG"), ParseOutcome::Done(Op::OK, 5)));
    match parse_op(b"-ERR x\r\n") {
        ParseOutcome::Done(Op::ERR(e), 8) => assert_eq!(e, b"x".to_vec()),
        _ => panic!("expected ERR"),
    }
}
