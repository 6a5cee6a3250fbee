use ratsio::error::RatsioError;
use ratsio::nats_client::NatsSid;
use ratsio::nuid::Nuid;
use ratsio::protocol::{ConnectResponse, MsgProto, SubscriptionResponse};
use ratsio::stan_client::{
    default_discover_prefix, discover_subject, start_position_value, StanClient, StanHandshake, StanSid, StartPosition,
    DEFAULT_ACK_WAIT, DEFAULT_MAX_INFLIGHT,
};
use sha2::Digest;

fn ld(tag: u8, v: &[u8]) -> Vec<u8> {
    let mut out = vec![(tag << 3) | 2, v.len() as u8];
    out.extend_from_slice(v);
    out
}

fn connect_response() -> Vec<u8> {
    let mut r = ld(1, b"_STAN.pub.X");
    r.extend(ld(2, b"_STAN.sub.X"));
    r.extend(ld(3, b"_STAN.unsub.X"));
    r.extend(ld(4, b"_STAN.close.X"));
    r
}

const CONN_ID: &[u8] = b"555555555555000000000X";
const HB_INBOX: &[u8] = b"_HB.5555555555550000000014";

fn session() -> StanClient {
    let ids = Nuid::from_entropy(&[5; 12], 0, 0);
    let h = StanHandshake::new(b"me".to_vec(), &default_discover_prefix(), b"test-cluster", ids).unwrap();
    h.finish(&connect_response()).unwrap()
}

#[test]
fn start_positions_on_the_wire() {
    assert_eq!(start_position_value(StartPosition::NewOnly), 0);
    assert_eq!(start_position_value(StartPosition::LastReceived), 1);
    assert_eq!(start_position_value(StartPosition::TimeDeltaStart), 2);
    assert_eq!(start_position_value(StartPosition::SequenceStart), 3);
    assert_eq!(start_position_value(StartPosition::First), 4);
    assert_eq!(DEFAULT_MAX_INFLIGHT, 1024);
    assert_eq!(DEFAULT_ACK_WAIT, 30);
}

#[test]
fn handshake_builds_hello() {
    let ids = Nuid::from_entropy(&[5; 12], 0, 0);
    let h = StanHandshake::new(b"me".to_vec(), &default_discover_prefix(), b"test-cluster", ids).unwrap();
    assert_eq!(h.discover_subject, b"_STAN.discover.test-cluster".to_vec());
    assert_eq!(discover_subject(&default_discover_prefix(), b"c"), b"_STAN.discover.c".to_vec());
    assert_eq!(discover_subject(b"_X.find", b"c"), b"_X.find.c".to_vec());
    assert_eq!(h.conn_id, CONN_ID.to_vec());
    assert_eq!(h.heartbeat_inbox, HB_INBOX.to_vec());
    let mut expected = ld(1, b"me");
    expected.extend(ld(2, HB_INBOX));
    expected.extend(ld(4, CONN_ID));
    assert_eq!(h.request, expected);
}

#[test]
fn handshake_rejects_bad_answers() {
    let ids = Nuid::from_entropy(&[5; 12], 0, 0);
    let h = StanHandshake::new(b"me".to_vec(), &default_discover_prefix(), b"c", ids).unwrap();
    assert!(matches!(h.finish(&[0x0a, 9, b'x']), Err(RatsioError::ProtocolDecodeError)));
    let ids = Nuid::from_entropy(&[5; 12], 0, 0);
    let h = StanHandshake::new(b"me".to_vec(), &default_discover_prefix(), b"c", ids).unwrap();
    assert!(matches!(h.finish(&ld(5, b"no")), Err(RatsioError::InternalServerError)));
}

#[test]
fn publish_wraps_payload_in_envelope() {
    let mut c = session();
    let out = c.publish(b"t", b"hi").unwrap();
    assert_eq!(out.subject, b"_STAN.pub.X.t".to_vec());
    let digest = sha2::Sha256::digest(b"hi").to_vec();
    assert_eq!(digest.len(), 32);
    let mut expected = ld(1, b"me");
    expected.extend(ld(2, b"555555555555000000001b"));
    expected.extend(ld(3, b"t"));
    expected.extend(ld(5, b"hi"));
    expected.extend(ld(6, CONN_ID));
    expected.extend(ld(10, &digest));
    assert_eq!(out.payload, expected);
}

#[test]
fn publish_envelope_for_foo_hello() {
    let mut c = session();
    let out = c.send_with_reply(b"foo", b"R".to_vec(), b"hello").unwrap();
    assert_eq!(out.subject, b"_STAN.pub.X.foo".to_vec());
    let digest = sha2::Sha256::digest(b"hello").to_vec();
    let mut expected = ld(1, b"me");
    expected.extend(ld(2, b"555555555555000000001b"));
    expected.extend(ld(3, b"foo"));
    expected.extend(ld(4, b"R"));
    expected.extend(ld(5, b"hello"));
    expected.extend(ld(6, CONN_ID));
    expected.extend(ld(10, &digest));
    assert_eq!(out.payload, expected);
    let second = c.publish(b"foo", b"hello").unwrap();
    assert_ne!(second.payload, out.payload);
}

#[test]
fn heartbeat_with_reply_is_answered_once() {
    let mut c = session();
    let out = c.process_heartbeat(Some(b"R".to_vec())).unwrap();
    assert_eq!(out.subject, b"R".to_vec());
    let mut expected = ld(1, b"me");
    expected.extend(ld(2, b"555555555555000000001b"));
    expected.extend(ld(3, HB_INBOX));
    expected.extend(ld(6, CONN_ID));
    assert_eq!(out.payload, expected);
    assert!(c.process_heartbeat(None).is_none());
    assert_eq!(c.heartbeat_inbox_subject(), HB_INBOX.to_vec());
}

#[test]
fn subscription_request_envelope() {
    let mut c = session();
    let (inbox, out) = c
        .subscription_request(b"foo", None, Some(b"dur".to_vec()), 1024, 30, StartPosition::LastReceived, 0, None)
        .unwrap();
    assert_eq!(inbox, b"_SUB.555555555555000000001b".to_vec());
    assert_eq!(out.subject, b"_STAN.sub.X".to_vec());
    let mut expected = ld(1, b"me");
    expected.extend(ld(2, b"foo"));
    expected.extend(ld(4, &inbox));
    expected.extend([0x28, 0x80, 0x08, 0x30, 30]);
    expected.extend(ld(7, b"dur"));
    expected.extend([0x50, 1]);
    assert_eq!(out.payload, expected);
}

#[test]
fn subscription_request_negative_and_delta() {
    let mut c = session();
    let (_, out) = c
        .subscription_request(b"f", Some(b"q".to_vec()), None, -1, 0, StartPosition::TimeDeltaStart, 9, Some(3))
        .unwrap();
    let mut expected = ld(1, b"me");
    expected.extend(ld(2, b"f"));
    expected.extend(ld(3, b"q"));
    expected.extend(ld(4, b"_SUB.555555555555000000001b"));
    expected.extend([0x28, 0xff, 0xff, 0xff, 0xff, 0xff, 0xff, 0xff, 0xff, 0xff, 0x01]);
    expected.extend([0x50, 2, 0x58, 9, 0x60, 3]);
    assert_eq!(out.payload, expected);
}

#[test]
fn subscribe_and_unsubscribe() {
    let mut c = session();
    let (inbox, _) = c
        .subscription_request(b"foo", None, Some(b"dur".to_vec()), 1024, 30, StartPosition::First, 0, None)
        .unwrap();
    let sid = StanSid(NatsSid(b"sub-a".to_vec()));
    assert!(matches!(
        c.subscription_accepted(&sid.0, b"foo", Some(b"dur".to_vec()), &inbox, &[0x1a, 1, b'x']),
        Err(RatsioError::InternalServerError)
    ));
    assert!(matches!(
        c.subscription_accepted(&sid.0, b"foo", Some(b"dur".to_vec()), &inbox, &[0x12, 5, b'a']),
        Err(RatsioError::ProtocolDecodeError)
    ));
    assert_eq!(c.subscription_count(), 0);
    let ack = c
        .subscription_accepted(&sid.0, b"foo", Some(b"dur".to_vec()), &inbox, &ld(2, b"ACK"))
        .unwrap();
    assert_eq!(ack, b"ACK".to_vec());
    assert_eq!(c.subscription_count(), 1);
    let out = c.un_subscribe(&sid).unwrap();
    assert_eq!(out.subject, b"_STAN.unsub.X".to_vec());
    let mut expected = ld(1, b"me");
    expected.extend(ld(2, b"foo"));
    expected.extend(ld(3, &inbox));
    expected.extend(ld(4, b"dur"));
    assert_eq!(out.payload, expected);
    assert!(c.un_subscribe(&sid).is_none());
    assert_eq!(c.subscription_count(), 0);
}

#[test]
fn delivered_message_is_acknowledged() {
    let m = StanClient::to_message(&[0x08, 7, 0x12, 1, b't'], b"ACK", false).unwrap();
    assert_eq!(m.sequence, 7);
    assert_eq!(m.subject, b"t".to_vec());
    assert!(m.auto_ack);
    assert!(m.reply_to.is_none());
    let out = StanClient::acknowledge(&m).unwrap();
    assert_eq!(out.subject, b"ACK".to_vec());
    assert_eq!(out.payload, vec![0x0a, 1, b't', 0x10, 7]);
}

#[test]
fn manual_ack_message_fields() {
    let mut bytes = vec![0x08, 0x96, 0x01];
    bytes.extend(ld(2, b"s"));
    bytes.extend(ld(3, b"r"));
    bytes.extend(ld(4, b"data"));
    bytes.extend([0x28, 5, 0x30, 1, 0x50, 9]);
    let m = StanClient::to_message(&bytes, b"A", true).unwrap();
    assert_eq!(m.sequence, 150);
    assert_eq!(m.reply_to, Some(b"r".to_vec()));
    assert_eq!(m.payload, b"data".to_vec());
    assert_eq!(m.timestamp, 5);
    assert!(m.redelivered);
    assert!(!m.auto_ack);
    assert!(StanClient::to_message(&[0x12, 9], b"A", true).is_err());
}

#[test]
fn acknowledging_without_inbox_fails() {
    let mut m = StanClient::to_message(&[], b"A", false).unwrap();
    m.ack_inbox = None;
    assert!(matches!(StanClient::acknowledge(&m), Err(RatsioError::AckInboxMissing)));
}

#[test]
fn close_request_envelope() {
    let mut c = session();
    let (out, _) = c.close();
    assert_eq!(out.subject, b"_STAN.close.X".to_vec());
    assert_eq!(out.payload, ld(1, b"me"));
}

#[test]
fn envelope_decoders() {
    let r = ConnectResponse::decode(&connect_response()).unwrap();
    assert_eq!(r.pub_prefix, b"_STAN.pub.X".to_vec());
    assert_eq!(r.close_requests, b"_STAN.close.X".to_vec());
    let s = SubscriptionResponse::decode(&ld(2, b"inbox")).unwrap();
    assert_eq!(s.ack_inbox, b"inbox".to_vec());
    assert!(MsgProto::decode(&[0x0b]).is_none());
    assert!(MsgProto::decode(&[0x12, 0x01]).is_none());
    let skipped = MsgProto::decode(&[0x49, 1, 2, 3, 4, 5, 6, 7, 8, 0x08, 3]).unwrap();
    assert_eq!(skipped.sequence, 3);
}

#[test]
fn envelope_translation_takes_fields_over() {
    let proto = MsgProto {
        sequence: 11,
        subject: b"orders".to_vec(),
        reply: Vec::new(),
        data: b"body".to_vec(),
        timestamp: -4,
        redelivered: false,
    };
    let m = StanClient::from_proto(proto, b"ACKS", true);
    assert_eq!(m.subject, b"orders".to_vec());
    assert_eq!(m.payload, b"body".to_vec());
    assert_eq!(m.sequence, 11);
    assert_eq!(m.timestamp, -4);
    assert!(m.reply_to.is_none());
    assert_eq!(m.ack_inbox, Some(b"ACKS".to_vec()));
    assert!(!m.auto_ack);
}

#[test]
fn close_ends_every_streaming_subscription() {
    let mut c = session();
    for name in [b"s-1".to_vec(), b"s-2".to_vec()] {
        let (inbox, _) = c
            .subscription_request(b"foo", None, None, 1024, 30, StartPosition::NewOnly, 0, None)
            .unwrap();
        c.subscription_accepted(&NatsSid(name), b"foo", None, &inbox, &ld(2, b"ACK")).unwrap();
    }
    let (out, sids) = c.close();
    assert_eq!(out.subject, b"_STAN.close.X".to_vec());
    assert_eq!(sids, vec![b"s-1".to_vec(), b"s-2".to_vec()]);
    assert_eq!(c.subscription_count(), 0);
}

#[test]
fn streaming_reseed_restores_publishing() {
    let ids = Nuid::from_entropy(&[5; 12], ratsio::nuid::MAX_SEQ - 80, 0);
    let h = StanHandshake::new(b"me".to_vec(), &default_discover_prefix(), b"c", ids).unwrap();
    let mut c = h.finish(&connect_response()).unwrap();
    assert!(matches!(c.publish(b"t", b"x"), Err(RatsioError::IdentifiersExhausted)));
    c.reseed(&[7; 12], 0, 0);
    assert!(c.publish(b"t", b"x").is_ok());
}
