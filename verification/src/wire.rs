//! The Nostr wire layer of direct messages and backups: NIP-44 payload
//! decryption and NIP-59 gift-wrap unwrapping (gift wrap → signed seal →
//! unsigned rumor). Decryption, event parsing and signature checks are
//! nostr's; which events are accepted, and what is handed on, is decided
//! (and verified) here.

use vstd::prelude::*;
use std::str::FromStr;
use nostr::nips::nip44;
use nostr::{Event, EventId, JsonUtil, Kind, PublicKey, SecretKey, Tag, Timestamp, UnsignedEvent};
use nostr::secp256k1::schnorr::Signature;
use crate::chat::{message_from_seal, ChatMessage};
use crate::sync::{accept_chat_seal, accept_direct_seal, slot_of_tag, spec_all_slots, spec_d_tag, BackupSlot};

verus! {

/// The kind of a NIP-59 seal.
pub const SEAL_KIND: u16 = 13;

/// A signed Nostr event, as plain values (keys, id and signature in hex).
pub struct WireEvent {
    pub id: String,
    pub pubkey: String,
    pub created_at: u64,
    pub kind: u16,
    pub tags: Vec<Vec<String>>,
    pub content: String,
    pub sig: String,
}

/// An unsigned event (a NIP-59 rumor), as plain values.
pub struct WireRumor {
    pub pubkey: String,
    pub created_at: u64,
    pub kind: u16,
    pub content: String,
}

/// What a [WireEvent] holds.
pub struct EventView {
    pub id: Seq<char>,
    pub pubkey: Seq<char>,
    pub created_at: u64,
    pub kind: u16,
    pub tags: Seq<Seq<Seq<char>>>,
    pub content: Seq<char>,
    pub sig: Seq<char>,
}

/// What a [WireRumor] holds.
pub struct RumorView {
    pub pubkey: Seq<char>,
    pub created_at: u64,
    pub kind: u16,
    pub content: Seq<char>,
}

/// The text of each cell of each tag.
pub open spec fn tags_view(tags: Seq<Vec<String>>) -> Seq<Seq<Seq<char>>> {
    tags.map_values(|t: Vec<String>| t@.map_values(|c: String| c@))
}

impl View for WireEvent {
    type V = EventView;

    open spec fn view(&self) -> EventView {
        EventView {
            id: self.id@,
            pubkey: self.pubkey@,
            created_at: self.created_at,
            kind: self.kind,
            tags: tags_view(self.tags@),
            content: self.content@,
            sig: self.sig@,
        }
    }
}

impl View for WireRumor {
    type V = RumorView;

    open spec fn view(&self) -> RumorView {
        RumorView { pubkey: self.pubkey@, created_at: self.created_at, kind: self.kind, content: self.content@ }
    }
}

// ---------------------------------------------------------------------
// Names for what nostr computes.
// ---------------------------------------------------------------------

/// What NIP-44 (v2) decryption of `payload` between the secret key `secret`
/// and the public key with hex text `peer` gives; `None` when a key is
/// malformed, the payload does not authenticate or is not UTF-8.
pub uninterp spec fn spec_nip44_decrypt(secret: Seq<u8>, peer: Seq<char>, payload: Seq<char>) -> Option<Seq<char>>;

/// The signed event that JSON text `json` describes, if it describes one.
pub uninterp spec fn spec_parse_event(json: Seq<char>) -> Option<EventView>;

/// The unsigned event that JSON text `json` describes, if it describes one.
pub uninterp spec fn spec_parse_rumor(json: Seq<char>) -> Option<RumorView>;

/// Whether `e`'s id is the hash of its contents and its signature is its
/// author's over that id.
pub uninterp spec fn spec_event_valid(e: EventView) -> bool;

// ---------------------------------------------------------------------
// Trusted calls into nostr.
// ---------------------------------------------------------------------

/// `nip44::decrypt` with the secret key `secret` and the public key whose
/// hex text is `peer`.
#[verifier::external_body]
fn nip44_decrypt(secret: &[u8; 32], peer: &str, payload: &str) -> (r: Result<String, String>)
    ensures
        r is Ok <==> spec_nip44_decrypt(secret@, peer@, payload@) is Some,
        r is Ok ==> r->Ok_0@ == spec_nip44_decrypt(secret@, peer@, payload@)->Some_0,
{
    let secret = SecretKey::from_slice(secret).map_err(|e| e.to_string())?;
    let peer = PublicKey::from_hex(peer).map_err(|e| e.to_string())?;
    nip44::decrypt(&secret, &peer, payload).map_err(|e| e.to_string())
}

/// `nip44::encrypt` (v2) of `plaintext` with the secret key `secret` and
/// the public key whose hex text is `peer`. Both ends derive one
/// conversation key from the two keys, so decrypting with the same pair
/// gives `plaintext` back; the nonce is random, so nothing more is claimed
/// of the text.
#[verifier::external_body]
fn nip44_encrypt(secret: &[u8; 32], peer: &str, plaintext: &str) -> (r: Result<String, String>)
    ensures
        r is Ok ==> spec_nip44_decrypt(secret@, peer@, r->Ok_0@) == Some(plaintext@),
{
    let secret = SecretKey::from_slice(secret).map_err(|e| e.to_string())?;
    let peer = PublicKey::from_hex(peer).map_err(|e| e.to_string())?;
    nip44::encrypt(&secret, &peer, plaintext, nip44::Version::V2).map_err(|e| e.to_string())
}

/// `Event::from_json` (which does not check the signature), as plain values.
#[verifier::external_body]
fn parse_event(json: &str) -> (r: Option<WireEvent>)
    ensures
        r is Some <==> spec_parse_event(json@) is Some,
        r matches Some(e) ==> spec_parse_event(json@) == Some(e@),
{
    let e = Event::from_json(json).ok()?;
    let tags = e.tags.iter().map(|t| t.as_slice().to_vec()).collect();
    Some(WireEvent {
        id: e.id.to_hex(),
        pubkey: e.pubkey.to_hex(),
        created_at: e.created_at.as_secs(),
        kind: e.kind.as_u16(),
        tags,
        content: e.content,
        sig: e.sig.to_string(),
    })
}

/// `UnsignedEvent::from_json`, as plain values.
#[verifier::external_body]
fn parse_rumor(json: &str) -> (r: Option<WireRumor>)
    ensures
        r is Some <==> spec_parse_rumor(json@) is Some,
        r matches Some(u) ==> spec_parse_rumor(json@) == Some(u@),
{
    let u = UnsignedEvent::from_json(json).ok()?;
    Some(WireRumor { pubkey: u.pubkey.to_hex(), created_at: u.created_at.as_secs(), kind: u.kind.as_u16(), content: u.content })
}

/// `Event::verify` of the event `e` describes; `false` when a field does not
/// parse as what nostr expects there.
#[verifier::external_body]
fn event_verify(e: &WireEvent) -> (b: bool)
    ensures
        b == spec_event_valid(e@),
{
    let (Ok(id), Ok(pubkey), Ok(sig)) = (EventId::from_hex(&e.id), PublicKey::from_hex(&e.pubkey), Signature::from_str(&e.sig)) else {
        return false;
    };
    let Ok(tags) = e.tags.iter().map(|t| Tag::parse(t.clone())).collect::<Result<Vec<Tag>, _>>() else { return false };
    let kind = Kind::from(e.kind);
    Event::new(id, pubkey, Timestamp::from(e.created_at), kind, tags, e.content.clone(), sig).verify().is_ok()
}

// ---------------------------------------------------------------------
// Unwrapping.
// ---------------------------------------------------------------------

/// The seal inside the NIP-59 gift wrap `wrap` addressed to the secret key
/// `secret` (its JSON text and contents): `None` unless the wrap decrypts to
/// a seal (kind 13) with a valid signature.
pub open spec fn spec_unseal(secret: Seq<u8>, wrap: EventView) -> Option<(Seq<char>, EventView)> {
    match spec_nip44_decrypt(secret, wrap.pubkey, wrap.content) {
        None => None,
        Some(seal_json) => match spec_parse_event(seal_json) {
            None => None,
            Some(seal) => if seal.kind == SEAL_KIND && spec_event_valid(seal) {
                Some((seal_json, seal))
            } else {
                None
            },
        },
    }
}

/// The rumor a seal carries, its content encrypted between `secret` and the
/// key with hex text `peer`.
pub open spec fn spec_seal_rumor(secret: Seq<u8>, peer: Seq<char>, seal: EventView) -> Option<RumorView> {
    match spec_nip44_decrypt(secret, peer, seal.content) {
        None => None,
        Some(rumor_json) => spec_parse_rumor(rumor_json),
    }
}

/// What a NIP-59 gift wrap `wrap`, addressed to the secret key `secret`
/// from the peer with hex key `peer`, holds: the seal (its JSON text and
/// contents) and the rumor. `None` unless the wrap decrypts to a seal
/// (kind 13) with a valid signature whose content decrypts to a rumor.
pub open spec fn spec_open_gift_wrap(secret: Seq<u8>, peer: Seq<char>, wrap: EventView) -> Option<
    (Seq<char>, EventView, RumorView),
> {
    match spec_unseal(secret, wrap) {
        None => None,
        Some((seal_json, seal)) => match spec_seal_rumor(secret, peer, seal) {
            None => None,
            Some(rumor) => Some((seal_json, seal, rumor)),
        },
    }
}

/// The seal inside `wrap` (see [spec_unseal]).
fn unseal(my_secret: &[u8; 32], wrap: &WireEvent) -> (r: Option<(String, WireEvent)>)
    ensures
        match spec_unseal(my_secret@, wrap@) {
            None => r is None,
            Some((seal_json, seal)) => r matches Some((j, e)) && j@ == seal_json && e@ == seal,
        },
{
    let seal_json = match nip44_decrypt(my_secret, wrap.pubkey.as_str(), wrap.content.as_str()) {
        Ok(j) => j,
        Err(_) => return None,
    };
    let seal = parse_event(seal_json.as_str())?;
    if seal.kind != SEAL_KIND || !event_verify(&seal) {
        return None;
    }
    Some((seal_json, seal))
}

/// The rumor `seal` carries (see [spec_seal_rumor]).
fn seal_rumor(my_secret: &[u8; 32], peer: &str, seal: &WireEvent) -> (r: Option<WireRumor>)
    ensures
        match spec_seal_rumor(my_secret@, peer@, seal@) {
            None => r is None,
            Some(rumor) => r matches Some(u) && u@ == rumor,
        },
{
    let rumor_json = match nip44_decrypt(my_secret, peer, seal.content.as_str()) {
        Ok(j) => j,
        Err(_) => return None,
    };
    parse_rumor(rumor_json.as_str())
}

/// A NIP-59 gift wrap taken apart: the seal's JSON text (for storing it),
/// the seal, and the rumor it carries.
pub struct GiftWrapContents {
    pub seal_json: String,
    pub seal: WireEvent,
    pub rumor: WireRumor,
}

/// Opens the gift wrap `wrap` addressed to `my_secret`, whose seal's content
/// is encrypted between us and the peer with hex key `peer` (see
/// [spec_open_gift_wrap]).
pub fn open_gift_wrap(my_secret: &[u8; 32], peer: &String, wrap: &WireEvent) -> (r: Option<GiftWrapContents>)
    ensures
        match spec_open_gift_wrap(my_secret@, peer@, wrap@) {
            None => r is None,
            Some((seal_json, seal, rumor)) => r matches Some(c) && c.seal_json@ == seal_json && c.seal@ == seal
                && c.rumor@ == rumor,
        },
{
    let (seal_json, seal) = unseal(my_secret, wrap)?;
    let rumor = seal_rumor(my_secret, peer.as_str(), &seal)?;
    Some(GiftWrapContents { seal_json, seal, rumor })
}

/// Whether a 1:1 chat seal is accepted: signed by the expected sender or by
/// us (our own self-addressed copy), and carrying a rumor by the same author.
pub open spec fn chat_seal_accepted(seal: EventView, rumor: RumorView, expected: Seq<char>, me: Seq<char>) -> bool {
    (seal.pubkey == expected || seal.pubkey == me) && rumor.pubkey == seal.pubkey
}

/// Unwraps a 1:1 chat gift wrap addressed to `my_secret` from
/// `expected_sender` (or our own copy, signed by `my_pubkey`): the seal's
/// JSON text (to store) and the message it carries.
pub fn receive_chat_wrap(my_secret: &[u8; 32], expected_sender: &String, my_pubkey: &String, wrap: &WireEvent) -> (r:
    Option<(String, ChatMessage)>)
    ensures
        match spec_open_gift_wrap(my_secret@, expected_sender@, wrap@) {
            None => r is None,
            Some((seal_json, seal, rumor)) => if chat_seal_accepted(seal, rumor, expected_sender@, my_pubkey@) {
                r matches Some((j, m)) && j@ == seal_json && m.id@ == seal.id && m.sender_pubkey@ == seal.pubkey
                    && m.content@ == rumor.content && m.created_at == rumor.created_at as i64 && m.is_mine == (
                seal.pubkey == my_pubkey@)
            } else {
                r is None
            },
        },
{
    let c = open_gift_wrap(my_secret, expected_sender, wrap)?;
    if !accept_chat_seal(true, &c.seal.pubkey, &c.seal.pubkey, expected_sender, my_pubkey) {
        return None;
    }
    let created_at = c.rumor.created_at as i64;
    let message = message_from_seal(c.seal.id, c.seal.pubkey, &c.rumor.pubkey, c.rumor.content, created_at, my_pubkey)?;
    Some((c.seal_json, message))
}

/// The message a stored 1:1 seal carries: its content decrypts (between us
/// and `friend_pubkey`) to a rumor, which must claim the seal's signer as
/// author (see [message_from_seal]).
pub fn read_chat_seal(my_secret: &[u8; 32], friend_pubkey: &String, my_pubkey: &String, seal: &WireEvent) -> (r:
    Option<ChatMessage>)
    ensures
        match spec_nip44_decrypt(my_secret@, friend_pubkey@, seal.content@) {
            None => r is None,
            Some(rumor_json) => match spec_parse_rumor(rumor_json) {
                None => r is None,
                Some(rumor) => if rumor.pubkey == seal.pubkey@ {
                    r matches Some(m) && m.id == seal.id && m.sender_pubkey == seal.pubkey && m.content@
                        == rumor.content && m.created_at == rumor.created_at as i64 && m.is_mine == (seal.pubkey@
                        == my_pubkey@)
                } else {
                    r is None
                },
            },
        },
{
    let rumor_json = match nip44_decrypt(my_secret, friend_pubkey.as_str(), seal.content.as_str()) {
        Ok(j) => j,
        Err(_) => return None,
    };
    let rumor = parse_rumor(rumor_json.as_str())?;
    let created_at = rumor.created_at as i64;
    message_from_seal(seal.id.clone(), seal.pubkey.clone(), &rumor.pubkey, rumor.content, created_at, my_pubkey)
}

/// Unwraps a gift wrap addressed to `my_secret` that only `expected_sender`
/// may have sent (device announces, forward-secret and group messages): the
/// seal and its rumor, when the seal is theirs and the rumor claims the same
/// author.
pub fn receive_direct_wrap(my_secret: &[u8; 32], expected_sender: &String, wrap: &WireEvent) -> (r: Option<
    (WireEvent, WireRumor),
>)
    ensures
        match spec_open_gift_wrap(my_secret@, expected_sender@, wrap@) {
            None => r is None,
            Some((_, seal, rumor)) => if seal.pubkey == expected_sender@ && rumor.pubkey == seal.pubkey {
                r matches Some((s, u)) && s@ == seal && u@ == rumor
            } else {
                r is None
            },
        },
{
    let c = open_gift_wrap(my_secret, expected_sender, wrap)?;
    if !accept_direct_seal(true, &c.seal.pubkey, &c.rumor.pubkey, expected_sender) {
        return None;
    }
    Some((c.seal, c.rumor))
}

/// Unwraps a gift wrap addressed to our identity in a group (`my_secret`)
/// from whichever member signed the seal: the seal and its rumor, whose
/// content is encrypted between us and the seal's signer and which must
/// claim the same author.
pub fn receive_group_wrap(my_secret: &[u8; 32], wrap: &WireEvent) -> (r: Option<(WireEvent, WireRumor)>)
    ensures
        match spec_unseal(my_secret@, wrap@) {
            None => r is None,
            Some((_, seal)) => match spec_seal_rumor(my_secret@, seal.pubkey, seal) {
                None => r is None,
                Some(rumor) => if rumor.pubkey == seal.pubkey {
                    r matches Some((s, u)) && s@ == seal && u@ == rumor
                } else {
                    r is None
                },
            },
        },
{
    let (_, seal) = unseal(my_secret, wrap)?;
    let rumor = seal_rumor(my_secret, seal.pubkey.as_str(), &seal)?;
    if !accept_direct_seal(true, &seal.pubkey, &rumor.pubkey, &seal.pubkey) {
        return None;
    }
    Some((seal, rumor))
}

/// Decrypts a NIP-44 payload sent to `my_secret` by the key with hex text
/// `sender` (friend requests and profile updates; with our own key, our
/// backups).
pub fn decrypt_payload(my_secret: &[u8; 32], sender: &String, content: &String) -> (r: Result<String, String>)
    ensures
        r is Ok <==> spec_nip44_decrypt(my_secret@, sender@, content@) is Some,
        r is Ok ==> r->Ok_0@ == spec_nip44_decrypt(my_secret@, sender@, content@)->Some_0,
{
    nip44_decrypt(my_secret, sender.as_str(), content.as_str())
}

/// Encrypts `plaintext` (NIP-44) from `my_secret` to the key with hex text
/// `recipient` (friend payloads; with our own key, our backups and the
/// encrypted group store): [decrypt_payload] with the same two keys gives
/// it back.
pub fn encrypt_payload(my_secret: &[u8; 32], recipient: &String, plaintext: &String) -> (r: Result<String, String>)
    ensures
        r is Ok ==> spec_nip44_decrypt(my_secret@, recipient@, r->Ok_0@) == Some(plaintext@),
{
    nip44_encrypt(my_secret, recipient.as_str(), plaintext.as_str())
}

/// Opens one of this account's own backup events: the slot its `d` tag
/// names and the decrypted payload. `None` when the tag names no slot or the
/// content does not decrypt under our own key pair.
pub fn open_backup(my_secret: &[u8; 32], my_pubkey: &String, d_tag: &String, content: &String) -> (r: Option<
    (BackupSlot, String),
>)
    ensures
        (exists|s: BackupSlot| #[trigger] spec_d_tag(s) == d_tag@) && spec_nip44_decrypt(
            my_secret@,
            my_pubkey@,
            content@,
        ) is Some <==> r is Some,
        r matches Some((slot, text)) ==> spec_d_tag(slot) == d_tag@ && text@ == spec_nip44_decrypt(
            my_secret@,
            my_pubkey@,
            content@,
        )->Some_0,
{
    let found = slot_of_tag(d_tag);
    proof {
        if found is None {
            assert forall|s: BackupSlot| #[trigger] spec_d_tag(s) != d_tag@ by {
                let k: int = match s {
                    BackupSlot::Text => 0,
                    BackupSlot::Avatar => 1,
                    BackupSlot::Relays => 2,
                    BackupSlot::Friends => 3,
                    BackupSlot::Blocked => 4,
                    BackupSlot::Invites => 5,
                    BackupSlot::Outgoing => 6,
                    BackupSlot::Incoming => 7,
                    BackupSlot::ReadState => 8,
                    BackupSlot::Config => 9,
                    BackupSlot::ChatStarted => 10,
                };
                assert(spec_all_slots()[k] == s);
            }
        }
    }
    let slot = found?;
    match nip44_decrypt(my_secret, my_pubkey.as_str(), content.as_str()) {
        Ok(text) => Some((slot, text)),
        Err(_) => None,
    }
}

} // verus!
