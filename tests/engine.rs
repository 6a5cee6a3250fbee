use ratsio::error::RatsioError;
use ratsio::nats_client::{
    after_all_failed, candidate_uris, connect_step, strip_scheme, Action, ConnectStep, NatsClientInner, NatsClientOptions,
    NatsClientState, NatsSid,
};
use ratsio::nuid::Nuid;
use ratsio::ops::{Message, Op};

fn options(subscribe_on_reconnect: bool) -> NatsClientOptions {
    NatsClientOptions {
        cluster_uris: vec![b"nats://127.0.0.1:4222".to_vec()],
        username: Vec::new(),
        password: Vec::new(),
        auth_token: b"tok".to_vec(),
        name: Vec::new(),
        verbose: false,
        pedantic: false,
        tls_required: false,
        ping_interval: 1,
        ping_max_out: 2,
        reconnect_timeout: 1000,
        subscribe_on_reconnect,
    }
}

fn client(subscribe_on_reconnect: bool) -> NatsClientInner {
    let ids = Nuid::from_entropy(&[5; 12], 0, 0);
    let mut c = NatsClientInner::new(options(subscribe_on_reconnect), ids, 0).unwrap();
    let _ = c.start();
    c
}

fn sid_of(r: Result<(NatsSid, Op), RatsioError>) -> (NatsSid, Op) {
    r.unwrap()
}

fn message(sid: &[u8], payload: &[u8]) -> Message {
    Message { subject: b"foo".to_vec(), sid: sid.to_vec(), reply_to: None, payload: payload.to_vec() }
}

#[test]
fn empty_server_list_is_a_configuration_error() {
    let mut opts = options(true);
    opts.cluster_uris = Vec::new();
    let ids = Nuid::from_entropy(&[5; 12], 0, 0);
    assert!(matches!(NatsClientInner::new(opts, ids, 0), Err(RatsioError::ConfigurationError)));
}

#[test]
fn start_sends_connect_and_connects() {
    let ids = Nuid::from_entropy(&[5; 12], 0, 0);
    let mut c = NatsClientInner::new(options(true), ids, 0).unwrap();
    assert_eq!(c.current_state(), NatsClientState::Connecting);
    let op = c.start();
    assert_eq!(c.current_state(), NatsClientState::Connected);
    let text = String::from_utf8(op.to_bytes()).unwrap();
    assert_eq!(
        text,
        "CONNECT {\"verbose\":false,\"pedantic\":false,\"tls_required\":false,\"auth_token\":\"tok\",\"lang\":\"rust\",\"version\":\"0.3.0\",\"protocol\":1,\"echo\":false}\r\n"
    );
}

#[test]
fn subscribe_sids_are_distinct() {
    let mut c = client(true);
    let mut sids: Vec<Vec<u8>> = Vec::new();
    for _ in 0..50 {
        let (sid, _) = sid_of(c.subscribe(b"x".to_vec(), None));
        assert!(!sids.contains(&sid.0));
        sids.push(sid.0);
    }
    assert_eq!(c.subscription_count(), 50);
}

#[test]
fn subscribe_then_deliver_message() {
    let mut c = client(true);
    let (sid, sub) = sid_of(c.subscribe(b"foo".to_vec(), None));
    let mut expected = b"SUB foo ".to_vec();
    expected.extend_from_slice(&sid.0);
    expected.extend_from_slice(b"\r\n");
    assert_eq!(sub.to_bytes(), expected);
    let actions = c.process_nats_event(Op::MSG(message(&sid.0, b"hello")), 10);
    assert_eq!(actions.len(), 1);
    match &actions[0] {
        Action::Deliver(m) => assert_eq!(m.payload, vec![104, 101, 108, 108, 111]),
        _ => panic!("expected a delivery"),
    }
}

#[test]
fn message_for_unknown_sid_is_dropped() {
    let mut c = client(true);
    let actions = c.process_nats_event(Op::MSG(message(b"nope", b"x")), 10);
    assert!(actions.is_empty());
}

#[test]
fn messages_keep_their_order() {
    let mut c = client(true);
    let (sid, _) = sid_of(c.subscribe(b"foo".to_vec(), None));
    let mut delivered: Vec<Vec<u8>> = Vec::new();
    for p in [b"1", b"2", b"3"] {
        for a in c.process_nats_event(Op::MSG(message(&sid.0, p)), 1) {
            if let Action::Deliver(m) = a {
                delivered.push(m.payload);
            }
        }
    }
    assert_eq!(delivered, vec![b"1".to_vec(), b"2".to_vec(), b"3".to_vec()]);
}

#[test]
fn unsubscribe_closes_and_sends_unsub() {
    let mut c = client(true);
    let (sid, _) = sid_of(c.subscribe(b"x".to_vec(), None));
    let actions = c.un_subscribe(&sid);
    assert_eq!(actions.len(), 2);
    assert!(matches!(&actions[0], Action::CloseSink(s) if *s == sid.0));
    match &actions[1] {
        Action::Send(op) => {
            let mut expected = b"UNSUB ".to_vec();
            expected.extend_from_slice(&sid.0);
            expected.extend_from_slice(b"\r\n");
            assert_eq!(op.to_bytes(), expected);
        }
        _ => panic!("expected UNSUB"),
    }
    assert!(!c.is_subscribed(&sid));
    assert!(c.process_nats_event(Op::MSG(message(&sid.0, b"late")), 2).is_empty());
}

#[test]
fn unsubscribe_twice_is_a_no_op() {
    let mut c = client(true);
    let (sid, _) = sid_of(c.subscribe(b"x".to_vec(), None));
    let (other, _) = sid_of(c.subscribe(b"y".to_vec(), None));
    assert_eq!(c.un_subscribe(&sid).len(), 2);
    assert!(c.un_subscribe(&sid).is_empty());
    assert_eq!(c.subscription_count(), 1);
    assert!(c.is_subscribed(&other));
}

#[test]
fn request_round_trip_leaves_no_subscription() {
    let mut c = client(true);
    let (sid, sub, publ) = c.begin_request(b"q".to_vec(), b"?".to_vec()).unwrap();
    let inbox = match &publ {
        Op::PUB(p) => p.reply_to.clone().unwrap(),
        _ => panic!("expected PUB"),
    };
    match &sub {
        Op::SUB(s) => assert_eq!(s.subject, inbox),
        _ => panic!("expected SUB"),
    }
    let mut expected = b"PUB q ".to_vec();
    expected.extend_from_slice(&inbox);
    expected.extend_from_slice(b" 1\r\n?\r\n");
    assert_eq!(publ.to_bytes(), expected);
    let reply = Message { subject: inbox.clone(), sid: sid.0.clone(), reply_to: None, payload: b"?".to_vec() };
    let mut delivered = c.process_nats_event(Op::MSG(reply), 5);
    let first = match delivered.pop() {
        Some(Action::Deliver(m)) => Some(m),
        _ => None,
    };
    let (result, actions) = c.finish_request(&sid, first);
    assert_eq!(result.unwrap().payload, b"?".to_vec());
    assert_eq!(actions.len(), 2);
    assert_eq!(c.subscription_count(), 0);
    assert!(!c.is_subscribed(&sid));
}

#[test]
fn request_without_reply_fails() {
    let mut c = client(true);
    let (sid, _, _) = c.begin_request(b"q".to_vec(), b"?".to_vec()).unwrap();
    let (result, _) = c.finish_request(&sid, None);
    assert!(matches!(result, Err(RatsioError::RequestStreamClosed)));
    assert_eq!(c.subscription_count(), 0);
}

#[test]
fn ping_is_answered_and_info_kept() {
    let mut c = client(true);
    let actions = c.process_nats_event(Op::PING, 3);
    assert!(matches!(&actions[..], [Action::Send(Op::PONG)]));
    assert!(c.process_nats_event(Op::INFO(b"{\"a\":1}".to_vec()), 4).is_empty());
    assert_eq!(c.latest_server_info(), Some(b"{\"a\":1}".to_vec()));
}

#[test]
fn heartbeat_expiry() {
    let mut c = client(true);
    c.ping_pong_reset(1000);
    assert_eq!(c.ping_interval_ms(), 1000);
    assert!(!c.heartbeat_expired(3000));
    assert!(c.heartbeat_expired(3001));
    assert!(!c.heartbeat_expired(500));
    assert!(c.on_disconnect());
    assert_eq!(c.current_state(), NatsClientState::Disconnected);
}

#[test]
fn traffic_resets_the_heartbeat() {
    let mut c = client(true);
    let _ = c.process_nats_event(Op::PONG, 5000);
    assert!(!c.heartbeat_expired(7000));
    assert!(c.heartbeat_expired(7001));
}

#[test]
fn reconnect_resubscribes_every_subscription() {
    let mut c = client(true);
    let (a, _) = sid_of(c.subscribe(b"a".to_vec(), None));
    let (b, _) = sid_of(c.subscribe(b"b".to_vec(), Some(b"g".to_vec())));
    assert!(!c.reconnect());
    let version = c.reconnect_version();
    c.on_disconnect();
    assert!(c.reconnect());
    assert_eq!(c.current_state(), NatsClientState::Reconnecting);
    assert!(!c.reconnect());
    let ops = c.resume().unwrap();
    assert_eq!(c.current_state(), NatsClientState::Connected);
    assert_eq!(ops.len(), 3);
    assert!(matches!(ops[0], Op::CONNECT(_)));
    let mut sub_a = b"SUB a ".to_vec();
    sub_a.extend_from_slice(&a.0);
    sub_a.extend_from_slice(b"\r\n");
    let mut sub_b = b"SUB b g ".to_vec();
    sub_b.extend_from_slice(&b.0);
    sub_b.extend_from_slice(b"\r\n");
    assert_eq!(ops[1].to_bytes(), sub_a);
    assert_eq!(ops[2].to_bytes(), sub_b);
    assert!(!c.is_current(version));
    assert!(c.is_current(version + 1));
}

#[test]
fn reconnect_without_resubscribe() {
    let mut c = client(false);
    let _ = c.subscribe(b"a".to_vec(), None).unwrap();
    c.on_disconnect();
    assert!(c.reconnect());
    assert_eq!(c.resume().unwrap().len(), 1);
    assert_eq!(c.subscription_count(), 1);
}

#[test]
fn failed_reconnect_goes_back_to_disconnected() {
    let mut c = client(true);
    c.on_disconnect();
    assert!(c.reconnect());
    c.reconnect_failed();
    assert_eq!(c.current_state(), NatsClientState::Disconnected);
}

#[test]
fn stop_closes_every_consumer() {
    let mut c = client(true);
    let (a, _) = sid_of(c.subscribe(b"a".to_vec(), None));
    let (b, _) = sid_of(c.subscribe(b"b".to_vec(), None));
    let actions = c.stop();
    assert_eq!(actions.len(), 4);
    assert!(matches!(&actions[0], Action::CloseSink(s) if *s == a.0));
    assert!(matches!(&actions[2], Action::CloseSink(s) if *s == b.0));
    assert!(matches!(&actions[1], Action::Send(Op::UNSUB(u)) if u.sid == a.0));
    assert!(matches!(&actions[3], Action::Send(Op::UNSUB(u)) if u.sid == b.0));
    assert_eq!(c.current_state(), NatsClientState::Shutdown);
    assert_eq!(c.subscription_count(), 0);
    assert!(matches!(c.subscribe(b"c".to_vec(), None), Err(RatsioError::ClientClosed)));
    assert!(matches!(c.publish(b"c".to_vec(), None, Vec::new()), Err(RatsioError::ClientClosed)));
    assert!(!c.on_disconnect());
    assert_eq!(c.current_state(), NatsClientState::Shutdown);
    c.on_disconnect();
    assert!(!c.reconnect());
}

#[test]
fn close_frame_shuts_down() {
    let mut c = client(true);
    let _ = c.subscribe(b"a".to_vec(), None).unwrap();
    let actions = c.process_nats_event(Op::CLOSE, 1);
    assert_eq!(actions.len(), 2);
    assert_eq!(c.current_state(), NatsClientState::Shutdown);
}

#[test]
fn shut_down_client_cannot_resume() {
    let mut c = client(true);
    let _ = c.stop();
    assert!(!c.can_reconnect());
}

#[test]
fn publish_builds_pub_frame() {
    let c = client(true);
    let op = c.publish(b"foo".to_vec(), Some(b"r".to_vec()), b"hello".to_vec()).unwrap();
    assert_eq!(op.to_bytes(), b"PUB foo r 5\r\nhello\r\n".to_vec());
}

#[test]
fn clock_reads_after_epoch() {
    assert!(NatsClientInner::time_in_millis() > 1_600_000_000_000);
}

#[test]
fn server_addresses_lose_their_scheme() {
    assert_eq!(strip_scheme(b"nats://127.0.0.1:4222"), b"127.0.0.1:4222".to_vec());
    assert_eq!(strip_scheme(b"127.0.0.1:4222"), b"127.0.0.1:4222".to_vec());
    assert_eq!(strip_scheme(b"nats:/x"), b"nats:/x".to_vec());
    let uris = vec![b"nats://127.0.0.1:1".to_vec(), b"localhost:4222".to_vec()];
    assert_eq!(candidate_uris(&uris), vec![b"127.0.0.1:1".to_vec(), b"localhost:4222".to_vec()]);
}

#[test]
fn exhausted_address_list_decisions() {
    assert!(matches!(after_all_failed(0, true, 5), Err(RatsioError::ConfigurationError)));
    assert!(matches!(after_all_failed(2, true, 5), Ok(5)));
    assert!(matches!(after_all_failed(2, false, 5), Err(RatsioError::NoRouteToHostError)));
}

#[test]
fn batch_routing_keeps_order_per_subscription() {
    let mut c = client(true);
    let (a, _) = sid_of(c.subscribe(b"a".to_vec(), None));
    let (b, _) = sid_of(c.subscribe(b"b".to_vec(), None));
    let items = vec![
        Op::MSG(message(&a.0, b"a1")),
        Op::PING,
        Op::MSG(message(&b.0, b"b1")),
        Op::MSG(message(b"zz", b"lost")),
        Op::MSG(message(&a.0, b"a2")),
        Op::MSG(message(&a.0, b"a3")),
    ];
    let actions = c.process_events(items, 9);
    let mut for_a: Vec<Vec<u8>> = Vec::new();
    let mut all: Vec<Vec<u8>> = Vec::new();
    let mut pongs = 0;
    for act in actions {
        match act {
            Action::Deliver(m) => {
                if m.sid == a.0 {
                    for_a.push(m.payload.clone());
                }
                all.push(m.payload);
            }
            Action::Send(Op::PONG) => pongs += 1,
            _ => panic!("unexpected action"),
        }
    }
    assert_eq!(for_a, vec![b"a1".to_vec(), b"a2".to_vec(), b"a3".to_vec()]);
    assert_eq!(all, vec![b"a1".to_vec(), b"b1".to_vec(), b"a2".to_vec(), b"a3".to_vec()]);
    assert_eq!(pongs, 1);
    assert_eq!(c.subscription_count(), 2);
}

#[test]
fn request_uses_fresh_inbox_and_sid() {
    let mut c = client(true);
    let (earlier, _) = sid_of(c.subscribe(b"x".to_vec(), None));
    let _ = c.un_subscribe(&earlier);
    let (sid, sub, _) = c.begin_request(b"q".to_vec(), b"?".to_vec()).unwrap();
    assert_ne!(sid.0, earlier.0);
    match sub {
        Op::SUB(s) => {
            assert_ne!(s.subject, earlier.0);
            assert_ne!(s.subject, sid.0);
        }
        _ => panic!("expected SUB"),
    }
    let (later, _) = sid_of(c.subscribe(b"y".to_vec(), None));
    assert_ne!(later.0, sid.0);
    assert_ne!(later.0, earlier.0);
}

#[test]
fn finish_request_sends_unsub_for_reply_subscription() {
    let mut c = client(true);
    let (sid, _, _) = c.begin_request(b"q".to_vec(), b"?".to_vec()).unwrap();
    let (_, actions) = c.finish_request(&sid, None);
    assert!(matches!(&actions[0], Action::CloseSink(s) if *s == sid.0));
    assert!(matches!(&actions[1], Action::Send(Op::UNSUB(u)) if u.sid == sid.0));
    let (_, again) = c.finish_request(&sid, None);
    assert!(again.is_empty());
}

#[test]
fn exhausted_generator_fails_then_reseeds() {
    let ids = Nuid::from_entropy(&[5; 12], ratsio::nuid::MAX_SEQ - 40, 0);
    let mut c = NatsClientInner::new(options(true), ids, 0).unwrap();
    let _ = c.start();
    let (first, _) = sid_of(c.subscribe(b"a".to_vec(), None));
    assert!(matches!(c.begin_request(b"q".to_vec(), Vec::new()), Err(RatsioError::IdentifiersExhausted)));
    assert!(matches!(c.subscribe(b"b".to_vec(), None), Err(RatsioError::IdentifiersExhausted)));
    assert_eq!(c.subscription_count(), 1);
    assert!(!c.reseed(&[5; 12], 0, 0));
    assert!(c.reseed(&[6; 12], 0, 0));
    assert!(!c.reseed(&[5; 12], 0, 0));
    let (next, _) = sid_of(c.subscribe(b"b".to_vec(), None));
    assert_eq!(next.0, b"666666666666000000000X".to_vec());
    assert_ne!(next.0, first.0);
    assert!(c.is_subscribed(&first));
}

#[test]
fn batch_answers_each_ping() {
    let mut c = client(true);
    let actions = c.process_events(vec![Op::PING, Op::OK, Op::PING], 42);
    assert_eq!(actions.len(), 2);
    assert!(actions.iter().all(|a| matches!(a, Action::Send(Op::PONG))));
    assert!(!c.heartbeat_expired(2042));
    assert!(c.heartbeat_expired(2043));
}

#[test]
fn addresses_are_tried_in_order() {
    use_step(connect_step(0, 2, false, 7), Some(0), None, None);
    use_step(connect_step(1, 2, false, 7), Some(1), None, None);
    use_step(connect_step(2, 2, false, 7), None, None, Some(RatsioError::NoRouteToHostError));
    use_step(connect_step(2, 2, true, 7), None, Some(7), None);
    use_step(connect_step(0, 0, true, 7), None, None, Some(RatsioError::ConfigurationError));
}

fn use_step(step: ConnectStep, tries: Option<usize>, waits: Option<u64>, fails: Option<RatsioError>) {
    match step {
        ConnectStep::Try(i) => assert_eq!(Some(i), tries),
        ConnectStep::Wait(ms) => assert_eq!(Some(ms), waits),
        ConnectStep::Fail(e) => assert_eq!(Some(e), fails),
    }
}

#[test]
fn one_loss_notifies_once() {
    let mut c = client(true);
    assert!(c.on_disconnect());
    assert!(!c.on_disconnect());
    assert!(c.reconnect());
    let _ = c.resume().unwrap();
    assert!(c.on_disconnect());
}
