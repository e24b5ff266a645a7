use rust_feeds::authstore::{generate_sha, AuthDbObject, AuthStore};
use rust_feeds::errors::{AuthError, DataError, PublishError, SubscribeError};
use rust_feeds::frame::{decode_frame, encode_frame};
use rust_feeds::handshake::{auth_length_reply, AuthReply, Handshake, HandshakeState};
use rust_feeds::registry::SubRegistry;
use rust_feeds::session::{
    dispatch_frame, frame_length_ok, process_subscribe_message, publish_message, SessionReply,
};

fn row(owner: &[u8], secret: &[u8], allow_sub: &[u8], allow_pub: &[u8]) -> AuthDbObject {
    AuthDbObject {
        owner: owner.to_vec(),
        secret: secret.to_vec(),
        allow_sub: allow_sub.to_vec(),
        allow_pub: allow_pub.to_vec(),
    }
}

fn broker_store() -> AuthStore {
    let mut store = AuthStore::new();
    store.feed_cache(&vec![
        row(b"alice", b"s3cr3t", b"weather, news", b""),
        row(b"bob", b"hunter2", b"", b"weather"),
    ]);
    store
}

/// Length-prefix a name: one length byte, then the bytes.
fn lp(name: &[u8]) -> Vec<u8> {
    let mut v = vec![name.len() as u8];
    v.extend_from_slice(name);
    v
}

fn publish_frame(owner: &[u8], chan: &[u8], body: &[u8]) -> Vec<u8> {
    let mut payload = lp(owner);
    payload.push(b':');
    payload.extend_from_slice(&lp(chan));
    payload.push(b':');
    payload.extend_from_slice(body);
    encode_frame(3, &payload)
}

fn subscribe_frame(owner: &[u8], chan: &[u8]) -> Vec<u8> {
    let mut payload = lp(owner);
    payload.extend_from_slice(chan);
    encode_frame(4, &payload)
}

fn auth_frame(owner: &[u8], response: &[u8]) -> Vec<u8> {
    let mut payload = lp(owner);
    payload.extend_from_slice(response);
    encode_frame(2, &payload)
}

fn error_text(reply: &SessionReply) -> Vec<u8> {
    match reply {
        SessionReply::ErrorFrame(f) => {
            let frame = decode_frame(f.as_slice()).unwrap();
            assert_eq!(frame.opcode, 0);
            frame.payload
        },
        other => panic!("expected an Error frame, got {:?}", kind_of(other)),
    }
}

fn kind_of(reply: &SessionReply) -> &'static str {
    match reply {
        SessionReply::NoReply => "NoReply",
        SessionReply::ErrorFrame(_) => "ErrorFrame",
        SessionReply::Fanout(_) => "Fanout",
    }
}

/// Run a full handshake for one connection and return its handshake.
fn authenticate(store: &AuthStore, owner: &[u8], secret: &[u8]) -> Handshake {
    let mut h = Handshake::new();
    assert_eq!(h.state, HandshakeState::Connected);
    let info = h.issue_challenge();
    assert_eq!(h.state, HandshakeState::ChallengeSent);
    let info_frame = decode_frame(info.as_slice()).unwrap();
    assert_eq!(info_frame.opcode, 1);
    // broker name, length-prefixed, then the 32-byte nonce
    assert_eq!(info_frame.payload[0] as usize, b"rust-feeds".len());
    assert_eq!(&info_frame.payload[1..11], b"rust-feeds");
    let nonce = info_frame.payload[11..].to_vec();
    assert_eq!(nonce.len(), 32);
    let response = generate_sha(secret, nonce.as_slice());
    let frame = auth_frame(owner, response.as_slice());
    assert!(auth_length_reply(frame.len() as u32).is_none());
    let reply = h.process_auth(&frame, store);
    assert!(matches!(reply, AuthReply::Accepted));
    assert_eq!(h.state, HandshakeState::Authenticated);
    assert_eq!(h.owner, owner.to_vec());
    h
}

#[test]
fn end_to_end_two_connections() {
    let store = broker_store();
    let mut registry = SubRegistry::new();

    // first connection: alice subscribes to "weather"
    let alice = authenticate(&store, b"alice", b"s3cr3t");
    let alice_handle: u64 = 1;
    let sub = subscribe_frame(b"alice", b"weather");
    assert!(frame_length_ok(sub.len() as u32));
    let reply = dispatch_frame(&sub, alice_handle, &store, &mut registry);
    assert!(matches!(reply, SessionReply::NoReply));

    // second, independent connection: bob publishes to "weather"
    let _bob = authenticate(&store, b"bob", b"hunter2");
    let bob_handle: u64 = 2;
    let publ = publish_frame(b"bob", b"weather", b"sunny");
    let reply = dispatch_frame(&publ, bob_handle, &store, &mut registry);
    match reply {
        SessionReply::Fanout(targets) => {
            assert_eq!(targets, vec![alice_handle]);
        },
        other => panic!("expected fanout, got {:?}", kind_of(&other)),
    }
    // the frame is forwarded verbatim; its payload ends in "sunny"
    assert!(publ.ends_with(b"sunny"));
    assert_eq!(alice.owner, b"alice".to_vec());
}

#[test]
fn auth_frame_below_minimum_is_refused_with_the_count() {
    let store = broker_store();
    let mut h = Handshake::new();
    let _info = h.issue_challenge();
    // total length 15: well below the 39-byte minimum
    let frame = auth_frame(b"alice", b"short");
    assert!(frame.len() < 39);
    let early = auth_length_reply(frame.len() as u32).unwrap();
    let early_frame = decode_frame(early.as_slice()).unwrap();
    assert_eq!(early_frame.opcode, 0);
    let text = String::from_utf8(early_frame.payload).unwrap();
    assert!(text.contains("39"), "message must name the minimum: {}", text);
    assert_eq!(text, format!("Expected at least 39 bytes. Got: {}.", frame.len()));

    let reply = h.process_auth(&frame, &store);
    match reply {
        AuthReply::RejectedWithError(f) => assert_eq!(f, early),
        _ => panic!("expected a rejection with an Error frame"),
    }
    assert_eq!(h.state, HandshakeState::Failed);
}

#[test]
fn auth_with_wrong_opcode_is_refused() {
    let store = broker_store();
    let mut h = Handshake::new();
    let _info = h.issue_challenge();
    let mut payload = vec![5u8];
    payload.extend_from_slice(b"alice");
    payload.extend_from_slice(&[0u8; 32]);
    let frame = encode_frame(3, &payload);
    let reply = h.process_auth(&frame, &store);
    match reply {
        AuthReply::RejectedWithError(f) => {
            let err = decode_frame(f.as_slice()).unwrap();
            let text = String::from_utf8(err.payload).unwrap();
            assert!(text.contains("Expected 2"), "{}", text);
            assert!(text.contains('3'), "{}", text);
        },
        _ => panic!("expected a rejection with an Error frame"),
    }
    assert_eq!(h.state, HandshakeState::Failed);
}

#[test]
fn auth_wrong_response_gets_generic_failure() {
    let store = broker_store();
    let mut h = Handshake::new();
    let _info = h.issue_challenge();
    let frame = auth_frame(b"alice", &[0u8; 32]);
    let reply = h.process_auth(&frame, &store);
    let text_wrong = match reply {
        AuthReply::RejectedWithError(f) => decode_frame(f.as_slice()).unwrap().payload,
        _ => panic!("expected a rejection with an Error frame"),
    };
    assert_eq!(h.state, HandshakeState::Failed);

    // unknown owner earns the very same reply: no account enumeration
    let mut h2 = Handshake::new();
    let _info = h2.issue_challenge();
    let frame2 = auth_frame(b"mallory", &[0u8; 32]);
    let text_unknown = match h2.process_auth(&frame2, &store) {
        AuthReply::RejectedWithError(f) => decode_frame(f.as_slice()).unwrap().payload,
        _ => panic!("expected a rejection with an Error frame"),
    };
    assert_eq!(text_wrong, text_unknown);
}

#[test]
fn auth_invalid_utf8_owner_closes_silently() {
    let store = broker_store();
    let mut h = Handshake::new();
    let _info = h.issue_challenge();
    let owner = vec![0xffu8, 0xfe, 0xfd, 0xfc, 0xfb];
    let frame = auth_frame(owner.as_slice(), &[0u8; 32]);
    let reply = h.process_auth(&frame, &store);
    assert!(matches!(reply, AuthReply::Rejected));
    assert_eq!(h.state, HandshakeState::Failed);
}

#[test]
fn subscribe_twice_delivers_once() {
    let store = broker_store();
    let mut registry = SubRegistry::new();
    let sub = subscribe_frame(b"alice", b"weather");
    assert!(matches!(dispatch_frame(&sub, 1, &store, &mut registry), SessionReply::NoReply));
    assert!(matches!(dispatch_frame(&sub, 1, &store, &mut registry), SessionReply::NoReply));
    let publ = publish_frame(b"bob", b"weather", b"x");
    match dispatch_frame(&publ, 2, &store, &mut registry) {
        SessionReply::Fanout(targets) => assert_eq!(targets, vec![1]),
        other => panic!("expected fanout, got {:?}", kind_of(&other)),
    }
}

#[test]
fn fanout_survives_a_lost_subscriber() {
    let store = broker_store();
    let mut registry = SubRegistry::new();
    let sub = subscribe_frame(b"alice", b"weather");
    dispatch_frame(&sub, 1, &store, &mut registry);
    dispatch_frame(&sub, 2, &store, &mut registry);
    let publ = publish_frame(b"bob", b"weather", b"x");
    match dispatch_frame(&publ, 3, &store, &mut registry) {
        SessionReply::Fanout(targets) => assert_eq!(targets, vec![1, 2]),
        other => panic!("expected fanout, got {:?}", kind_of(&other)),
    }
    // connection 1's write failed and it was torn down; 2 still gets frames
    registry.remove_everywhere(1);
    match dispatch_frame(&publ, 3, &store, &mut registry) {
        SessionReply::Fanout(targets) => assert_eq!(targets, vec![2]),
        other => panic!("expected fanout, got {:?}", kind_of(&other)),
    }
}

#[test]
fn per_source_order_is_kept() {
    let store = broker_store();
    let mut registry = SubRegistry::new();
    dispatch_frame(&subscribe_frame(b"alice", b"weather"), 1, &store, &mut registry);
    let first = publish_frame(b"bob", b"weather", b"first");
    let second = publish_frame(b"bob", b"weather", b"second");
    let mut delivered: Vec<Vec<u8>> = Vec::new();
    for frame in [&first, &second] {
        if let SessionReply::Fanout(targets) = dispatch_frame(frame, 2, &store, &mut registry) {
            for _t in targets {
                delivered.push(frame.clone());
            }
        }
    }
    assert_eq!(delivered, vec![first, second]);
}

#[test]
fn unauthorized_subscribe_names_channel_and_connection_stays_usable() {
    let store = broker_store();
    let mut registry = SubRegistry::new();
    let bad = subscribe_frame(b"alice", b"sports");
    let reply = dispatch_frame(&bad, 1, &store, &mut registry);
    let text = error_text(&reply);
    assert_eq!(text, b"User is not allowed to listen to channel: sports".to_vec());
    // the connection is still open and a lawful subscribe succeeds
    let good = subscribe_frame(b"alice", b"weather");
    assert!(matches!(dispatch_frame(&good, 1, &store, &mut registry), SessionReply::NoReply));
    let publ = publish_frame(b"bob", b"weather", b"x");
    match dispatch_frame(&publ, 2, &store, &mut registry) {
        SessionReply::Fanout(targets) => assert_eq!(targets, vec![1]),
        other => panic!("expected fanout, got {:?}", kind_of(&other)),
    }
}

#[test]
fn unauthorized_publish_names_channel() {
    let store = broker_store();
    let mut registry = SubRegistry::new();
    let publ = publish_frame(b"alice", b"weather", b"x");
    let reply = dispatch_frame(&publ, 1, &store, &mut registry);
    let text = error_text(&reply);
    assert_eq!(text, b"User is not allowed to send to channel: weather".to_vec());
}

#[test]
fn publish_without_subscribers_reaches_nobody() {
    let store = broker_store();
    let mut registry = SubRegistry::new();
    let publ = publish_frame(b"bob", b"weather", b"x");
    match dispatch_frame(&publ, 1, &store, &mut registry) {
        SessionReply::Fanout(targets) => assert!(targets.is_empty()),
        other => panic!("expected fanout, got {:?}", kind_of(&other)),
    }
}

#[test]
fn unsubscribe_stops_delivery() {
    let store = broker_store();
    let mut registry = SubRegistry::new();
    dispatch_frame(&subscribe_frame(b"alice", b"weather"), 1, &store, &mut registry);
    let unsub = encode_frame(5, &b"weather".to_vec());
    assert!(matches!(dispatch_frame(&unsub, 1, &store, &mut registry), SessionReply::NoReply));
    let publ = publish_frame(b"bob", b"weather", b"x");
    match dispatch_frame(&publ, 2, &store, &mut registry) {
        SessionReply::Fanout(targets) => assert!(targets.is_empty()),
        other => panic!("expected fanout, got {:?}", kind_of(&other)),
    }
}

#[test]
fn handshake_opcodes_are_refused_after_authentication() {
    let store = broker_store();
    let mut registry = SubRegistry::new();
    for op in [0u8, 1, 2] {
        let frame = encode_frame(op, &b"junk".to_vec());
        let reply = dispatch_frame(&frame, 1, &store, &mut registry);
        let text = String::from_utf8(error_text(&reply)).unwrap();
        assert_eq!(text, format!("Client cannot send {} code to server at this point", op));
    }
}

#[test]
fn unknown_opcode_is_quoted_back() {
    let store = broker_store();
    let mut registry = SubRegistry::new();
    let frame = encode_frame(9, &b"junk".to_vec());
    let reply = dispatch_frame(&frame, 1, &store, &mut registry);
    let text = String::from_utf8(error_text(&reply)).unwrap();
    assert_eq!(text, "Unknown OpCode provided. Got: 9");
}

#[test]
fn publish_with_missing_separator_is_an_error() {
    let store = broker_store();
    let mut registry = SubRegistry::new();
    let mut payload = vec![3u8];
    payload.extend_from_slice(b"bob");
    payload.extend_from_slice(&[7u8]);
    payload.extend_from_slice(b"weather");
    payload.push(b':');
    payload.extend_from_slice(b"x");
    let frame = encode_frame(3, &payload);
    let reply = dispatch_frame(&frame, 1, &store, &mut registry);
    let text = error_text(&reply);
    assert_eq!(text, b"Missing ':' separator".to_vec());
}

#[test]
fn publish_with_short_payload_is_an_error() {
    let store = broker_store();
    let mut registry = SubRegistry::new();
    let frame = encode_frame(3, &Vec::new());
    let reply = dispatch_frame(&frame, 1, &store, &mut registry);
    let text = error_text(&reply);
    assert_eq!(text, b"Data too short".to_vec());
}

#[test]
fn subscribe_with_bad_utf8_owner_is_an_error() {
    let store = broker_store();
    let mut registry = SubRegistry::new();
    let mut payload = vec![2u8, 0xff, 0xfe];
    payload.extend_from_slice(b"weather");
    let frame = encode_frame(4, &payload);
    let reply = dispatch_frame(&frame, 1, &store, &mut registry);
    let text = error_text(&reply);
    assert_eq!(text, b"Str not UTF-8".to_vec());
}

#[test]
fn publish_message_reports_targets() {
    let store = broker_store();
    let mut registry = SubRegistry::new();
    registry.subscribe(b"weather", 5);
    let publ = publish_frame(b"bob", b"weather", b"x");
    let targets = publish_message(&publ, &store, &registry).unwrap();
    assert_eq!(targets, vec![5]);
    match publish_message(&publish_frame(b"bob", b"news", b"x"), &store, &registry) {
        Err(PublishError::AuthError(AuthError::UnauthPub(chan))) => {
            assert_eq!(chan, b"news".to_vec())
        },
        _ => panic!("expected an authorization error"),
    }
}

#[test]
fn process_subscribe_message_returns_channel() {
    let store = broker_store();
    let sub = subscribe_frame(b"alice", b"news");
    assert_eq!(process_subscribe_message(&sub, &store).unwrap(), b"news".to_vec());
    match process_subscribe_message(&subscribe_frame(b"bob", b"news"), &store) {
        Err(SubscribeError::AuthError(AuthError::UnauthSub(chan))) => {
            assert_eq!(chan, b"news".to_vec())
        },
        _ => panic!("expected an authorization error"),
    }
    match process_subscribe_message(&encode_frame(4, &Vec::new()), &store) {
        Err(SubscribeError::DataError(DataError::TooShort)) => {},
        _ => panic!("expected a data error"),
    }
}

#[test]
fn frame_length_gate() {
    assert!(!frame_length_ok(0));
    assert!(!frame_length_ok(4));
    assert!(frame_length_ok(5));
    assert!(frame_length_ok(48));
    assert!(!frame_length_ok(u32::MAX));
}
