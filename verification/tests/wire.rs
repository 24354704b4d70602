use nostr::event::{Event, EventBuilder, UnsignedEvent};
use nostr::nips::nip44;
use nostr::{Keys, Kind, Tag};
use origilink::wire::{
    decrypt_payload, open_backup, read_chat_seal, receive_chat_wrap, receive_direct_wrap, receive_group_wrap, WireEvent,
    SEAL_KIND,
};
use origilink::sync::BackupSlot;

fn wire(e: &Event) -> WireEvent {
    WireEvent {
        id: e.id.to_hex(),
        pubkey: e.pubkey.to_hex(),
        created_at: e.created_at.as_secs(),
        kind: e.kind.as_u16(),
        tags: e.tags.iter().map(|t| t.as_slice().to_vec()).collect(),
        content: e.content.clone(),
        sig: e.sig.to_string(),
    }
}

fn secret(keys: &Keys) -> [u8; 32] {
    keys.secret_key().to_secret_bytes()
}

/// A seal by `author` of a rumor (kind `kind`, by `rumor_author`) for
/// `recipient`, gift-wrapped to `recipient`.
fn wrap(author: &Keys, rumor_author: &Keys, recipient: &Keys, kind: u16, text: &str) -> (Event, Event) {
    let rt = tokio::runtime::Runtime::new().unwrap();
    rt.block_on(async {
        let rumor: UnsignedEvent = EventBuilder::new(Kind::from(kind), text).build(rumor_author.public_key());
        let seal: Event =
            EventBuilder::seal(author, &recipient.public_key(), rumor).await.unwrap().sign(author).await.unwrap();
        let wrap = EventBuilder::gift_wrap_from_seal(&recipient.public_key(), &seal, []).unwrap();
        (seal, wrap)
    })
}

#[test]
fn chat_gift_wraps_unwrap_to_the_message() {
    let alice = Keys::generate();
    let bob = Keys::generate();
    let (seal, wrapped) = wrap(&alice, &alice, &bob, 14, "hello bob");
    assert_eq!(seal.kind.as_u16(), SEAL_KIND);

    let (seal_json, message) = receive_chat_wrap(
        &secret(&bob),
        &alice.public_key().to_hex(),
        &bob.public_key().to_hex(),
        &wire(&wrapped),
    )
    .expect("unwraps");
    assert_eq!(message.content, "hello bob");
    assert_eq!(message.id, seal.id.to_hex());
    assert_eq!(message.sender_pubkey, alice.public_key().to_hex());
    assert!(!message.is_mine);
    assert!(seal_json.contains(&seal.id.to_hex()));

    // The stored seal reads back to the same message.
    let again = read_chat_seal(&secret(&bob), &alice.public_key().to_hex(), &bob.public_key().to_hex(), &wire(&seal))
        .expect("reads");
    assert_eq!(again.content, "hello bob");
}

#[test]
fn chat_gift_wraps_from_strangers_or_forged_rumors_are_refused() {
    let alice = Keys::generate();
    let bob = Keys::generate();
    let mallory = Keys::generate();
    let (_, from_mallory) = wrap(&mallory, &mallory, &bob, 14, "hi");
    assert!(receive_chat_wrap(&secret(&bob), &alice.public_key().to_hex(), &bob.public_key().to_hex(), &wire(&from_mallory))
        .is_none());

    // A rumor claiming another author than the seal's signer.
    let (_, forged) = wrap(&alice, &mallory, &bob, 14, "spoof");
    assert!(receive_chat_wrap(&secret(&bob), &alice.public_key().to_hex(), &bob.public_key().to_hex(), &wire(&forged))
        .is_none());

    // The wrong recipient cannot open it.
    let (_, to_bob) = wrap(&alice, &alice, &bob, 14, "hi");
    assert!(receive_chat_wrap(&secret(&mallory), &alice.public_key().to_hex(), &mallory.public_key().to_hex(), &wire(&to_bob))
        .is_none());
}

#[test]
fn tampered_seal_signature_is_refused() {
    let alice = Keys::generate();
    let bob = Keys::generate();
    let rt = tokio::runtime::Runtime::new().unwrap();
    let wrapped = rt.block_on(async {
        let rumor: UnsignedEvent = EventBuilder::new(Kind::from(14), "x").build(alice.public_key());
        let seal: Event =
            EventBuilder::seal(&alice, &bob.public_key(), rumor).await.unwrap().sign(&alice).await.unwrap();
        // Re-sign a seal with altered content but the old signature.
        let altered = Event::new(seal.id, seal.pubkey, seal.created_at, seal.kind, [Tag::parse(["t", "x"]).unwrap()], seal.content.clone(), seal.sig);
        EventBuilder::gift_wrap_from_seal(&bob.public_key(), &altered, []).unwrap()
    });
    assert!(receive_direct_wrap(&secret(&bob), &alice.public_key().to_hex(), &wire(&wrapped)).is_none());
}

#[test]
fn direct_and_group_wraps_hand_back_seal_and_rumor() {
    let alice = Keys::generate();
    let bob = Keys::generate();
    let (seal, wrapped) = wrap(&alice, &alice, &bob, 30114, "{\"x\":1}");
    let (s, rumor) = receive_direct_wrap(&secret(&bob), &alice.public_key().to_hex(), &wire(&wrapped)).expect("opens");
    assert_eq!(s.id, seal.id.to_hex());
    assert_eq!(rumor.kind, 30114);
    assert_eq!(rumor.content, "{\"x\":1}");
    assert!(receive_direct_wrap(&secret(&bob), &bob.public_key().to_hex(), &wire(&wrapped)).is_none());

    let (s, rumor) = receive_group_wrap(&secret(&bob), &wire(&wrapped)).expect("opens");
    assert_eq!(s.pubkey, alice.public_key().to_hex());
    assert_eq!(rumor.content, "{\"x\":1}");
}

#[test]
fn backups_open_under_our_own_key_pair() {
    let me = Keys::generate();
    let content = nip44::encrypt(me.secret_key(), &me.public_key(), "{\"updated_at\":5}", nip44::Version::V2).unwrap();
    let opened = open_backup(&secret(&me), &me.public_key().to_hex(), &"keychat-account-relays".to_string(), &content);
    assert!(matches!(opened, Some((BackupSlot::Relays, ref text)) if text == "{\"updated_at\":5}"));
    assert!(open_backup(&secret(&me), &me.public_key().to_hex(), &"unknown-slot".to_string(), &content).is_none());
    let other = Keys::generate();
    assert!(open_backup(&secret(&other), &other.public_key().to_hex(), &"keychat-account-relays".to_string(), &content)
        .is_none());

    assert_eq!(decrypt_payload(&secret(&me), &me.public_key().to_hex(), &content), Ok("{\"updated_at\":5}".to_string()));
    assert!(decrypt_payload(&secret(&me), &me.public_key().to_hex(), &"not a payload".to_string()).is_err());
}

#[test]
fn payloads_encrypted_to_ourselves_decrypt_back() {
    let me = Keys::generate();
    let text = "{\"friends\":[],\"updated_at\":9}".to_string();
    let sealed = origilink::wire::encrypt_payload(&secret(&me), &me.public_key().to_hex(), &text).unwrap();
    assert_ne!(sealed, text);
    assert_eq!(decrypt_payload(&secret(&me), &me.public_key().to_hex(), &sealed), Ok(text.clone()));
    // A friend payload decrypts on the friend's side with our public key.
    let friend = Keys::generate();
    let to_friend = origilink::wire::encrypt_payload(&secret(&me), &friend.public_key().to_hex(), &text).unwrap();
    assert_eq!(decrypt_payload(&secret(&friend), &me.public_key().to_hex(), &to_friend), Ok(text));
}
