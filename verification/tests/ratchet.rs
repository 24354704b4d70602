use base64::Engine;
use origilink::crypto::{hex32, random_hex};
use origilink::keyed::KeyedList;
use origilink::session::{
    forget_sessions_if_reinstalled, load_or_create_account, ratchet_decrypt, ratchet_encrypt, save_friend_device, take_store,
    DeviceAccount, DeviceBundle, RatchetMessagePayload, SessionStore, MAX_SESSIONS_PER_PEER,
};
use vodozemac::olm::Account;

fn now() -> i64 {
    std::time::SystemTime::now()
        .duration_since(std::time::UNIX_EPOCH)
        .map(|d| d.as_secs() as i64)
        .unwrap_or(0)
}

/// One side of a conversation: an Olm account plus its sessions.
struct Device {
    account: DeviceAccount,
    identity_key: [u8; 32],
    store: SessionStore,
}

impl Device {
    fn new() -> Self {
        let mut account = Account::new();
        account.generate_fallback_key();
        let identity_key = account.curve25519_key().to_bytes();
        let account = DeviceAccount { pickle: serde_json::to_vec(&account.pickle()).expect("pickles") };
        Device { account, identity_key, store: SessionStore { sessions: Vec::new() } }
    }

    fn bundle(&self) -> DeviceBundle {
        DeviceBundle::of(&self.account).expect("a fallback key exists")
    }

    fn send(&mut self, peer: &DeviceBundle, text: &str) -> RatchetMessagePayload {
        ratchet_encrypt(&self.account, &mut self.store, peer, text.as_bytes(), now()).expect("encrypts")
    }

    fn receive(&mut self, payload: &RatchetMessagePayload) -> Result<String, String> {
        let plaintext = ratchet_decrypt(&mut self.account, &mut self.store, payload, now())?;
        String::from_utf8(plaintext).map_err(|e| e.to_string())
    }
}

/// The payload has to survive the JSON round-trip it makes as a rumor's
/// `content` on the way through a relay.
fn over_the_wire(payload: &RatchetMessagePayload) -> RatchetMessagePayload {
    let mut object = serde_json::Map::new();
    object.insert("id".to_string(), serde_json::Value::String(payload.id.clone()));
    object.insert("created_at".to_string(), serde_json::Value::from(payload.created_at));
    object.insert("message_type".to_string(), serde_json::Value::from(payload.message_type as u64));
    object.insert("ciphertext".to_string(), serde_json::Value::String(payload.ciphertext.clone()));
    let json = serde_json::Value::Object(object).to_string();
    let value: serde_json::Value = serde_json::from_str(&json).expect("deserializes");
    RatchetMessagePayload {
        id: value["id"].as_str().expect("id").to_string(),
        created_at: value["created_at"].as_i64().expect("created_at"),
        message_type: value["message_type"].as_u64().expect("message_type") as usize,
        ciphertext: value["ciphertext"].as_str().expect("ciphertext").to_string(),
    }
}

fn stored_len(sessions: &mut KeyedList<SessionStore>, peer: &str) -> Option<usize> {
    let key = peer.to_string();
    if !sessions.contains_key(&key) {
        return None;
    }
    let store = take_store(sessions, &key);
    let n = store.sessions.len();
    sessions.insert(key, store);
    Some(n)
}

#[test]
fn device_bundle_round_trip() {
    let device = Device::new();
    let encoded = device.bundle().encode();
    let decoded = DeviceBundle::decode(&encoded).expect("decodes");
    assert_eq!(decoded.identity, device.identity_key);
    assert_eq!(decoded.fallback, device.bundle().fallback);
}

#[test]
fn device_bundle_rejects_garbage() {
    assert!(DeviceBundle::decode("no-separator").is_err());
    assert!(DeviceBundle::decode("not.base64!!").is_err());
    // An old-format announce (a bare hex X25519 key) must be rejected
    // rather than silently misread as a bundle.
    assert!(DeviceBundle::decode(&random_hex(32)).is_err());
}

#[test]
fn message_round_trip_between_two_devices() {
    let mut alice = Device::new();
    let mut bob = Device::new();
    let bob_bundle = bob.bundle();
    let alice_bundle = alice.bundle();

    let first = alice.send(&bob_bundle, "hello bob");
    assert_eq!(bob.receive(&over_the_wire(&first)).unwrap(), "hello bob");

    let reply = bob.send(&alice_bundle, "hello alice");
    assert_eq!(alice.receive(&over_the_wire(&reply)).unwrap(), "hello alice");

    // And keeps working once both chains are established.
    let third = alice.send(&bob_bundle, "still here");
    assert_eq!(bob.receive(&over_the_wire(&third)).unwrap(), "still here");
}

#[test]
fn each_message_gets_a_distinct_id() {
    let mut alice = Device::new();
    let bob_bundle = Device::new().bundle();
    let a = alice.send(&bob_bundle, "one");
    let b = alice.send(&bob_bundle, "two");
    assert_ne!(a.id, b.id);
}

#[test]
fn out_of_order_delivery() {
    let mut alice = Device::new();
    let mut bob = Device::new();
    let bob_bundle = bob.bundle();

    let one = alice.send(&bob_bundle, "one");
    let two = alice.send(&bob_bundle, "two");
    let three = alice.send(&bob_bundle, "three");

    assert_eq!(bob.receive(&two).unwrap(), "two");
    assert_eq!(bob.receive(&three).unwrap(), "three");
    assert_eq!(bob.receive(&one).unwrap(), "one", "a late earlier message must still decrypt");
}

#[test]
fn duplicate_delivery_leaves_the_session_usable() {
    let mut alice = Device::new();
    let mut bob = Device::new();
    let bob_bundle = bob.bundle();

    let first = alice.send(&bob_bundle, "one");
    assert_eq!(bob.receive(&first).unwrap(), "one");
    assert!(bob.receive(&first).is_err(), "a replay must not decrypt twice");

    let second = alice.send(&bob_bundle, "two");
    assert_eq!(bob.receive(&second).unwrap(), "two", "the session survives the replay");
}

#[test]
fn crossed_first_messages_keep_both_directions_working() {
    let mut alice = Device::new();
    let mut bob = Device::new();
    let alice_bundle = alice.bundle();
    let bob_bundle = bob.bundle();

    let from_alice = alice.send(&bob_bundle, "from alice");
    let from_bob = bob.send(&alice_bundle, "from bob");

    assert_eq!(bob.receive(&from_alice).unwrap(), "from alice");
    assert_eq!(alice.receive(&from_bob).unwrap(), "from bob");

    for i in 0..4 {
        let a = alice.send(&bob_bundle, &format!("a{i}"));
        assert_eq!(bob.receive(&a).unwrap(), format!("a{i}"));
        let b = bob.send(&alice_bundle, &format!("b{i}"));
        assert_eq!(alice.receive(&b).unwrap(), format!("b{i}"));
    }
}

#[test]
fn session_count_is_capped() {
    let mut bob = Device::new();
    let bob_bundle = bob.bundle();
    for i in 0..(MAX_SESSIONS_PER_PEER + 3) {
        let mut peer = Device::new();
        let payload = peer.send(&bob_bundle, &format!("peer {i}"));
        let text = ratchet_decrypt(&mut bob.account, &mut bob.store, &payload, now()).unwrap();
        assert_eq!(String::from_utf8(text).unwrap(), format!("peer {i}"));
    }
    assert_eq!(bob.store.sessions.len(), MAX_SESSIONS_PER_PEER);
}

#[test]
fn account_persists_with_a_stable_bundle() {
    let local_key = hex32(&random_hex(32)).unwrap();

    let (first, written) = load_or_create_account(None, &local_key).unwrap();
    let announced = DeviceBundle::of(&first).unwrap().encode();

    let (second, _) = load_or_create_account(written, &local_key).unwrap();
    assert_eq!(DeviceBundle::of(&second).unwrap().encode(), announced);
}

#[test]
fn a_stored_account_with_a_fallback_key_is_not_rewritten() {
    let local_key = hex32(&random_hex(32)).unwrap();
    let (_, written) = load_or_create_account(None, &local_key).unwrap();
    assert!(written.is_some());
    let (_, rewritten) = load_or_create_account(written, &local_key).unwrap();
    assert!(rewritten.is_none());
    let (_, minted) = load_or_create_account(Some(vec![1, 2, 3]), &local_key).unwrap();
    assert!(minted.is_some());
}

#[test]
fn account_is_unreadable_with_the_wrong_local_key() {
    let right = hex32(&random_hex(32)).unwrap();
    let wrong = hex32(&random_hex(32)).unwrap();

    let (account, written) = load_or_create_account(None, &right).unwrap();
    let announced = DeviceBundle::of(&account).unwrap().encode();
    // A wrong key can't decrypt it, so a *different* account is minted
    // rather than the caller getting the first one back.
    let (other, _) = load_or_create_account(written, &wrong).unwrap();
    assert_ne!(DeviceBundle::of(&other).unwrap().encode(), announced);
}

#[test]
fn sessions_persist_across_a_reload() {
    let local_key = hex32(&random_hex(32)).unwrap();
    let peer_key = "friend-pubkey";

    let alice = Device::new();
    let mut bob = Device::new();
    let bob_bundle = bob.bundle();

    let (_, account_data) = load_or_create_account(None, &local_key).unwrap();

    // Alice sends, keeps what she would persist, and "restarts".
    let mut persisted: KeyedList<SessionStore> = KeyedList::new();
    let first = {
        let (account, _) = load_or_create_account(account_data.clone(), &local_key).unwrap();
        let mut store = take_store(&mut persisted, &peer_key.to_string());
        let payload = ratchet_encrypt(&account, &mut store, &bob_bundle, b"before restart", now()).unwrap();
        persisted.insert(peer_key.to_string(), store);
        payload
    };
    assert_eq!(bob.receive(&first).unwrap(), "before restart");

    let mut reloaded = persisted;
    assert_eq!(stored_len(&mut reloaded, peer_key), Some(1));

    // The restored session keeps the same chain rather than starting over.
    let second = {
        let (account, _) = load_or_create_account(account_data.clone(), &local_key).unwrap();
        let mut store = take_store(&mut reloaded, &peer_key.to_string());
        ratchet_encrypt(&account, &mut store, &bob_bundle, b"after restart", now()).unwrap()
    };
    assert_eq!(bob.receive(&second).unwrap(), "after restart");

    // Sanity: `alice` (the in-memory device) was never used here, so the
    // persisted path really is what carried the conversation.
    assert!(alice.store.sessions.is_empty());
}

#[test]
fn reinstalled_friend_clears_stale_sessions() {
    let local_key = hex32(&random_hex(32)).unwrap();
    let friend = "friend-pubkey";

    // Establish a session against their first device, and store it.
    let first_device = Device::new();
    let mut sessions: KeyedList<SessionStore> = KeyedList::new();
    let mut devices: KeyedList<String> = KeyedList::new();
    let (account, _) = load_or_create_account(None, &local_key).unwrap();
    let mut store = take_store(&mut sessions, &friend.to_string());
    ratchet_encrypt(&account, &mut store, &first_device.bundle(), b"hi", now()).unwrap();
    sessions.insert(friend.to_string(), store);
    save_friend_device(&mut devices, friend.to_string(), first_device.bundle().encode());
    assert_eq!(stored_len(&mut sessions, friend), Some(1));

    // Re-announcing the *same* device must not disturb anything, even
    // though its fallback key could have rotated.
    forget_sessions_if_reinstalled(
        &mut sessions,
        &devices,
        &friend.to_string(),
        &first_device.bundle().encode(),
    );
    assert_eq!(stored_len(&mut sessions, friend), Some(1));

    // A different account (reinstall) drops them.
    let reinstalled = Device::new();
    forget_sessions_if_reinstalled(&mut sessions, &devices, &friend.to_string(), &reinstalled.bundle().encode());
    assert!(stored_len(&mut sessions, friend).is_none());
}

#[test]
fn undecryptable_payload_is_rejected() {
    let mut alice = Device::new();
    let mut bob = Device::new();
    let mut eve = Device::new();
    let bob_bundle = bob.bundle();

    let good = alice.send(&bob_bundle, "legit");
    assert_eq!(bob.receive(&good).unwrap(), "legit");
    let sessions_before = bob.store.sessions.len();

    // A message from a third party's session with Bob decrypts (it's a
    // valid prekey message), but a *tampered* one must not.
    let mut tampered = eve.send(&bob_bundle, "spoofed");
    tampered.ciphertext = base64::engine::general_purpose::STANDARD.encode(b"garbage that is not an olm message");
    assert!(bob.receive(&tampered).is_err());

    let next = alice.send(&bob_bundle, "still fine");
    assert_eq!(bob.receive(&next).unwrap(), "still fine");
    assert_eq!(bob.store.sessions.len(), sessions_before);
}

#[test]
fn payload_that_is_not_base64_is_refused_without_touching_state() {
    let mut alice = Device::new();
    let mut bob = Device::new();
    let good = alice.send(&bob.bundle(), "first");
    assert_eq!(bob.receive(&good).unwrap(), "first");
    let sessions_before = bob.store.sessions.len();
    let account_before = bob.account.pickle.clone();

    let mut bad = alice.send(&bob.bundle(), "second");
    bad.ciphertext = "not base64!!".to_string();
    assert!(bob.receive(&bad).is_err());
    assert_eq!(bob.store.sessions.len(), sessions_before);
    assert_eq!(bob.account.pickle, account_before);
}

fn contact(pubkey: &str) -> origilink::friends::Friend {
    origilink::friends::Friend {
        pubkey: pubkey.to_string(),
        uid: format!("uid-{pubkey}"),
        my_account_index: 1,
        display_name: String::new(),
        status_message: String::new(),
        relays: Vec::new(),
        avatar_path: None,
        added_at: 0,
        profile_updated_at: 0,
    }
}

#[test]
fn ratchet_sends_are_refused_until_friend_unblocked_and_announced() {
    let friends = vec![contact("f1"), contact("f2")];
    let device = Device::new();
    let mut devices: KeyedList<String> = KeyedList::new();
    devices.insert("f1".to_string(), device.bundle().encode());

    assert_eq!(origilink::session::check_ratchet_send(&friends, &vec![], &devices, &"stranger".to_string()).err(), Some("not a friend".to_string()));
    assert_eq!(
        origilink::session::check_ratchet_send(&friends, &vec!["f1".to_string()], &devices, &"f1".to_string()).err(),
        Some("friend is blocked".to_string())
    );
    assert_eq!(
        origilink::session::check_ratchet_send(&friends, &vec![], &devices, &"f2".to_string()).err(),
        Some("friend hasn't announced a forward-secrecy device yet".to_string())
    );
    let bundle = origilink::session::check_ratchet_send(&friends, &vec![], &devices, &"f1".to_string()).unwrap();
    assert_eq!(bundle.identity, device.identity_key);
}

#[test]
fn a_stored_account_without_fallback_key_keeps_its_identity() {
    let local_key = hex32(&random_hex(32)).unwrap();
    let bare = Account::new();
    let identity = bare.curve25519_key().to_bytes();
    let stored = DeviceAccount { pickle: serde_json::to_vec(&bare.pickle()).unwrap() };
    assert!(DeviceBundle::of(&stored).is_err());
    let data = origilink::session::save_account(&local_key, &stored).unwrap();

    let (account, rewritten) = load_or_create_account(Some(data), &local_key).unwrap();
    assert!(rewritten.is_some());
    assert_eq!(DeviceBundle::of(&account).unwrap().identity, identity);
}

#[test]
fn payload_ciphertext_is_canonical_standard_base64() {
    let mut alice = Device::new();
    let bob = Device::new();
    for text in ["", "a", "ab", "abc", "a longer message of some length"] {
        let payload = alice.send(&bob.bundle(), text);
        let bytes = base64::engine::general_purpose::STANDARD.decode(&payload.ciphertext).expect("decodes");
        assert_eq!(base64::engine::general_purpose::STANDARD.encode(&bytes), payload.ciphertext);
    }
}
