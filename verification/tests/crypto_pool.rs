use origilink::crypto::{decrypt_at_rest, encrypt_at_rest, generate_local_storage_key, hex32, random_hex};
use origilink::keyed::KeyedList;
use origilink::pool::{
    close_frame, event_frame, frame_action, req_frame, route_message, route_text, sub_id_for, FrameAction,
    FrameKind, Route,
};
use origilink::session::{save_account, DeviceAccount, DeviceBundle, SessionStore, StoredSession, MAX_SESSIONS_PER_PEER};

fn s(x: &str) -> String {
    x.to_string()
}

#[test]
fn random_hex_has_the_requested_length() {
    let a = random_hex(16);
    assert_eq!(a.len(), 32);
    assert!(a.chars().all(|c| c.is_ascii_hexdigit() && !c.is_ascii_uppercase()));
    assert_ne!(random_hex(16), a);
    let key = generate_local_storage_key();
    assert_eq!(key.len(), 64);
    assert!(hex32(&key).is_ok());
}

#[test]
fn hex32_parses_exactly_32_bytes() {
    let key = hex32(&"ab".repeat(32)).unwrap();
    assert_eq!(key, [0xab; 32]);
    assert_eq!(hex32(&"AB".repeat(32)).unwrap(), [0xab; 32]);
    assert_eq!(hex32(&"ab".repeat(31)), Err(s("expected 32 bytes")));
    assert!(hex32("zz").is_err());
    assert!(hex32("abc").is_err());
}

#[test]
fn at_rest_encryption_round_trips_only_with_the_right_key() {
    let key = [7u8; 32];
    let data = encrypt_at_rest(&key, b"secret state");
    assert_eq!(data.len(), 24 + 12 + 16);
    assert_eq!(decrypt_at_rest(&key, &data), Ok(b"secret state".to_vec()));
    assert_ne!(encrypt_at_rest(&key, b"secret state"), data);
    assert_eq!(decrypt_at_rest(&[8u8; 32], &data), Err(s("aead::Error")));
    assert_eq!(decrypt_at_rest(&key, &data[..10]), Err(s("corrupt local ratchet storage")));
    let mut tampered = data.clone();
    tampered[30] ^= 1;
    assert_eq!(decrypt_at_rest(&key, &tampered), Err(s("aead::Error")));
}

#[test]
fn device_bundles_refuse_malformed_text() {
    let bundle = DeviceBundle { identity: [1u8; 32], fallback: [2u8; 32] };
    let text = bundle.encode();
    assert_eq!(text.matches('.').count(), 1);
    let back = DeviceBundle::decode(&text).unwrap();
    assert_eq!(back.identity, [1u8; 32]);
    assert_eq!(back.fallback, [2u8; 32]);
    assert!(DeviceBundle::decode("no-dot-here").is_err());
    assert_eq!(DeviceBundle::decode("a").err(), Some(s("malformed device key bundle")));
    assert!(DeviceBundle::decode(&format!("{}.", text.split('.').next().unwrap())).is_err());
}

#[test]
fn device_bundle_text_is_unpadded_standard_base64() {
    let mut counting = [0u8; 32];
    for (i, b) in counting.iter_mut().enumerate() {
        *b = i as u8;
    }
    let bundle = DeviceBundle { identity: [0u8; 32], fallback: [255u8; 32] };
    assert_eq!(
        bundle.encode(),
        "AAAAAAAAAAAAAAAAAAAAAAAAAAAAAAAAAAAAAAAAAAA.//////////////////////////////////////////8"
    );
    let bundle = DeviceBundle { identity: counting, fallback: [0u8; 32] };
    assert_eq!(
        bundle.encode(),
        "AAECAwQFBgcICQoLDA0ODxAREhMUFRYXGBkaGxwdHh8.AAAAAAAAAAAAAAAAAAAAAAAAAAAAAAAAAAAAAAAAAAA"
    );
}

#[test]
fn session_store_value_types() {
    let store = SessionStore {
        sessions: vec![StoredSession { session_id: s("id"), pickle: s("{}"), created_at: 1, received: false }],
    };
    assert_eq!(store.sessions.len(), 1);
    assert_eq!(MAX_SESSIONS_PER_PEER, 5);
}

#[test]
fn subscription_ids_are_numbered() {
    assert_eq!(sub_id_for(0), "origilink-0");
    assert_eq!(sub_id_for(42), "origilink-42");
    assert_eq!(sub_id_for(u64::MAX), format!("origilink-{}", u64::MAX));
}

#[test]
fn frames_match_the_nip01_wire_format() {
    assert_eq!(req_frame("origilink-3", "{\"kinds\":[1]}"), "[\"REQ\",\"origilink-3\",{\"kinds\":[1]}]");
    assert_eq!(close_frame("origilink-3"), "[\"CLOSE\",\"origilink-3\"]");
    assert_eq!(event_frame("{\"id\":\"x\"}"), "[\"EVENT\",{\"id\":\"x\"}]");
    // Subscription ids are escaped as JSON strings.
    assert_eq!(close_frame("a\"b\\c\nd\u{1}"), "[\"CLOSE\",\"a\\\"b\\\\c\\nd\\u0001\"]");
    assert_eq!(
        close_frame("a\"b\\c\nd\u{1}"),
        serde_json::Value::Array(vec![
            serde_json::Value::String(s("CLOSE")),
            serde_json::Value::String(s("a\"b\\c\nd\u{1}")),
        ])
        .to_string()
    );
}

#[test]
fn only_closes_errors_and_stream_ends_stop_a_connection() {
    assert!(frame_action(FrameKind::Text) == FrameAction::Read);
    assert!(frame_action(FrameKind::Ping) == FrameAction::Pong);
    assert!(frame_action(FrameKind::Closed) == FrameAction::Stop);
    assert!(frame_action(FrameKind::Other) == FrameAction::Skip);
}

#[test]
fn relay_messages_reach_open_subscriptions_only() {
    let mut subs: KeyedList<()> = KeyedList::new();
    subs.insert(s("origilink-1"), ());
    let event = r#"["EVENT","origilink-1",{"id":"x"}]"#;
    assert!(matches!(route_text(&subs, event, true), Route::Deliver(id) if id == "origilink-1"));
    assert!(matches!(route_text(&subs, event, false), Route::Drop));
    assert!(matches!(route_text(&subs, r#"["EOSE","origilink-1"]"#, false), Route::EndOfStored(id) if id == "origilink-1"));
    assert!(matches!(route_text(&subs, r#"["EVENT","origilink-2",{}]"#, true), Route::Drop));
    assert!(matches!(route_text(&subs, r#"["NOTICE","hello"]"#, false), Route::Drop));
    assert!(matches!(route_text(&subs, "not json", true), Route::Drop));
    assert!(matches!(route_message(&subs, &Some(s("EVENT")), &None, true), Route::Drop));

    subs.remove(&s("origilink-1"));
    assert!(matches!(route_text(&subs, event, true), Route::Drop));
}

#[test]
fn account_pickles_are_sealed_at_rest() {
    let key = [7u8; 32];
    let json = br#"{"signing_key":"x"}"#;
    let sealed = save_account(&key, &DeviceAccount { pickle: json.to_vec() }).unwrap();
    assert_eq!(sealed.len(), 24 + json.len() + 16);
    assert_eq!(decrypt_at_rest(&key, &sealed), Ok(json.to_vec()));
    assert_eq!(decrypt_at_rest(&[8u8; 32], &sealed), Err(s("aead::Error")));
}
