//! Olm sessions with a friend's device: the per-peer session store, which
//! session a message is sent on, how an incoming message finds the session
//! that decrypts it, the announced device key bundle, and this device's own
//! Olm account. Every cryptographic step is vodozemac's; which session is
//! used and how the store changes is decided (and verified) here.

use vstd::prelude::*;
use vodozemac::olm::{AccountPickle, OlmMessage, Session, SessionConfig, SessionPickle};
use vodozemac::olm::Account as OlmAccount;
use vodozemac::Curve25519PublicKey;
use crate::crypto::{
    base64_decode, base64_encode, decrypt_at_rest, encrypt_at_rest, is_b64_digit, is_hex_of_len,
    lemma_base64_round_trip, lemma_unpadded_digits, lemma_unpadded_len, lemma_unpadded_injective, random_hex, spec_base64_decode, spec_base64_encode, spec_base64_unpadded,
    spec_decrypt_at_rest, XCHACHA_MAX_PLAINTEXT,
};
use crate::friends::{contains_str, find_first, find_friend, lemma_find_first_of, Friend};
use crate::keyed::KeyedList;
use crate::seqs::{find_index, first_index, first_where, lemma_first_index};

verus! {

broadcast use vstd::seq_lib::group_seq_properties;

/// Cap on how many sessions are retained per peer.
pub const MAX_SESSIONS_PER_PEER: usize = 5;

/// One Olm session with a peer: its id, its pickle (JSON text), when it was
/// first stored, and whether anything has ever been decrypted on it.
pub struct StoredSession {
    pub session_id: String,
    pub pickle: String,
    pub created_at: i64,
    pub received: bool,
}

/// Every session with one peer, newest last. More than one is normal (both
/// sides may start a session before either hears from the other).
pub struct SessionStore {
    pub sessions: Vec<StoredSession>,
}

/// The transport form of an encrypted message.
pub struct RatchetMessagePayload {
    /// Locally generated id, echoed by the receiver so both sides store the
    /// plaintext under the same id.
    pub id: String,
    pub created_at: i64,
    /// Whether `ciphertext` is a pre-key message (0) or a normal one (1).
    pub message_type: usize,
    /// The Olm message, base64.
    pub ciphertext: String,
}

/// The public key material a peer needs to start a session with a device:
/// its Olm identity key and its reusable fallback key.
pub struct DeviceBundle {
    pub identity: [u8; 32],
    pub fallback: [u8; 32],
}

/// An Olm session as carried between the steps here: its id and its pickle.
pub struct OlmSession {
    pub session_id: String,
    pub pickle: String,
}

/// This device's Olm account, held as its pickle: the JSON of vodozemac's
/// `AccountPickle`. Everything the protocol reads of the account (its keys,
/// what an incoming pre-key message decrypts to) is a function of it.
pub struct DeviceAccount {
    pub pickle: Vec<u8>,
}

// ---------------------------------------------------------------------
// Names for what vodozemac computes.
// ---------------------------------------------------------------------

/// The session id recorded in a session pickle.
pub uninterp spec fn spec_pickle_session_id(pickle: Seq<char>) -> Seq<char>;

/// How an Olm message of `message_type` with these bytes parses: `None`
/// when malformed, `Some(Some(id))` for a pre-key message of session `id`,
/// `Some(None)` for a normal message.
pub uninterp spec fn spec_olm_message(message_type: usize, ciphertext: Seq<u8>) -> Option<
    Option<Seq<char>>,
>;

/// Whether `json` is an Olm account pickle.
pub uninterp spec fn spec_account_pickle_parses(json: Seq<u8>) -> bool;

/// The identity key and the unpublished fallback key of the account pickled
/// in `json`; `None` when it is no account pickle or holds no such key.
pub uninterp spec fn spec_account_bundle(json: Seq<u8>) -> Option<(Seq<u8>, Seq<u8>)>;

/// The Curve25519 identity key of the account pickled in `json`.
pub uninterp spec fn spec_account_identity(json: Seq<u8>) -> Seq<u8>;

/// What a new inbound session, started by the account pickled in `account`
/// from the pre-key message (`message_type`, `ciphertext`), decrypts that
/// message to; `None` when the call fails.
pub uninterp spec fn spec_olm_inbound(account: Seq<u8>, message_type: usize, ciphertext: Seq<u8>) -> Option<
    Seq<u8>,
>;

/// What the session pickled in `pickle` makes of the message (`message_type`,
/// `ciphertext`): `None` when the call fails (the pickle or the message does
/// not parse), `Some(None)` when the session cannot decrypt it, and
/// `Some(Some(p))` when it decrypts to `p`.
pub uninterp spec fn spec_olm_decrypt(pickle: Seq<char>, message_type: usize, ciphertext: Seq<u8>) -> Option<
    Option<Seq<u8>>,
>;

/// Whether (`message_type`, `ciphertext`) is an Olm message encrypting
/// `plaintext` on the session pickled in `pickle` (the encryption itself is
/// randomised, so this is a relation, not a function).
pub uninterp spec fn spec_olm_encrypts(
    pickle: Seq<char>,
    plaintext: Seq<u8>,
    message_type: usize,
    ciphertext: Seq<u8>,
) -> bool;

/// Whether `session` is the pickle of an outbound Olm session that the
/// account pickled in `account` started toward a device with these identity
/// and fallback keys (the session's own keys are random).
pub uninterp spec fn spec_outbound_session(
    account: Seq<u8>,
    identity: Seq<u8>,
    fallback: Seq<u8>,
    session: Seq<char>,
) -> bool;

/// The text form of a Curve25519 key: its unpadded standard base64.
pub open spec fn spec_curve_b64(key: Seq<u8>) -> Seq<char> {
    spec_base64_unpadded(key)
}

/// The Curve25519 key that base64 text `s` holds, if it holds one: the 32
/// bytes whose standard base64 it is, unpadded (43 digits) or padded (44).
pub open spec fn spec_curve_from_b64(s: Seq<char>) -> Option<Seq<u8>> {
    if exists|k: Seq<u8>| k.len() == 32 && (spec_base64_unpadded(k) == s || spec_base64_encode(k) == s) {
        Some(choose|k: Seq<u8>| k.len() == 32 && (spec_base64_unpadded(k) == s || spec_base64_encode(k) == s))
    } else {
        None
    }
}

/// The text form of a key reads back as that key.
pub proof fn lemma_curve_round_trip(key: Seq<u8>)
    requires
        key.len() == 32,
    ensures
        spec_curve_from_b64(spec_curve_b64(key)) == Some(key),
{
    let s = spec_curve_b64(key);
    assert(key.len() == 32 && (spec_base64_unpadded(key) == s || spec_base64_encode(key) == s));
    let c = choose|k: Seq<u8>| k.len() == 32 && (spec_base64_unpadded(k) == s || spec_base64_encode(k) == s);
    lemma_unpadded_len(key);
    lemma_unpadded_len(c);
    if spec_base64_unpadded(c) == s {
        lemma_unpadded_injective(c, key);
    } else {
        assert(spec_base64_encode(c).len() == 44);
        assert(s.len() == 43);
    }
}

/// A session whose id field is the id its pickle records.
pub open spec fn session_consistent(id: Seq<char>, pickle: Seq<char>) -> bool {
    spec_pickle_session_id(pickle) == id
}

// ---------------------------------------------------------------------
// Trusted calls into vodozemac. Each unpickles what it is handed, makes
// the call, and pickles what changed.
// ---------------------------------------------------------------------

/// `Account::new`, pickled: a fresh account with random keys. Neither step
/// can fail: `Account::new` returns the account, and its pickle is plain
/// data (keys as 32-number arrays, integer-keyed maps, all empty here) that
/// `serde_json` writes in well under 4096 bytes.
#[verifier::external_body]
fn olm_account_new() -> (r: Result<Vec<u8>, String>)
    ensures
        r is Ok,
        r is Ok ==> spec_account_pickle_parses(r->Ok_0@),
        r is Ok ==> r->Ok_0@.len() <= 4096,
{
    serde_json::to_vec(&OlmAccount::new().pickle()).map_err(|e| e.to_string())
}

/// `Account::generate_fallback_key` on the account pickled in `account`:
/// the account afterwards holds a new, unpublished fallback key (random);
/// nothing but its fallback keys changes, so its identity key stays. It
/// fails only when `account` is no account pickle. The new fallback key
/// takes the place of the previous one, so the pickle grows by at most one
/// pickled fallback key (an id, a 32-number key array and a flag, a few
/// hundred bytes).
#[verifier::external_body]
fn olm_generate_fallback_key(account: &[u8]) -> (r: Result<Vec<u8>, String>)
    ensures
        spec_account_pickle_parses(account@) ==> r is Ok,
        r is Ok ==> spec_account_pickle_parses(r->Ok_0@) && spec_account_bundle(r->Ok_0@) is Some,
        r is Ok ==> spec_account_identity(r->Ok_0@) == spec_account_identity(account@),
        r is Ok ==> r->Ok_0@.len() <= account@.len() + 1024,
{
    let pickle: AccountPickle = serde_json::from_slice(account).map_err(|e| e.to_string())?;
    let mut a = OlmAccount::from_pickle(pickle);
    a.generate_fallback_key();
    serde_json::to_vec(&a.pickle()).map_err(|e| e.to_string())
}

/// `Account::curve25519_key` and the (single) key of `Account::fallback_key`
/// of the account pickled in `account`, as bytes.
#[verifier::external_body]
fn olm_device_keys(account: &[u8]) -> (r: Option<DeviceBundle>)
    ensures
        r is Some <==> spec_account_bundle(account@) is Some,
        r matches Some(b) ==> spec_account_bundle(account@) == Some((b.identity@, b.fallback@)),
        r matches Some(b) ==> b.identity@ == spec_account_identity(account@),
{
    let a = OlmAccount::from_pickle(serde_json::from_slice::<AccountPickle>(account).ok()?);
    let fallback = a.fallback_key().values().next().copied()?;
    Some(DeviceBundle { identity: a.curve25519_key().to_bytes(), fallback: fallback.to_bytes() })
}

/// Whether `json` deserializes as an `AccountPickle`.
#[verifier::external_body]
fn olm_account_pickle_parses(json: &[u8]) -> (b: bool)
    ensures
        b == spec_account_pickle_parses(json@),
{
    serde_json::from_slice::<AccountPickle>(json).is_ok()
}

/// `Account::create_outbound_session` (Olm v1) by the account pickled in
/// `account` against the peer's identity and fallback keys; the result's id
/// is the one its pickle records.
#[verifier::external_body]
fn olm_outbound_session(account: &[u8], peer: &DeviceBundle) -> (r: Result<OlmSession, String>)
    ensures
        r is Ok ==> session_consistent(r->Ok_0.session_id@, r->Ok_0.pickle@),
        r is Ok ==> spec_outbound_session(account@, peer.identity@, peer.fallback@, r->Ok_0.pickle@),
{
    let a = OlmAccount::from_pickle(serde_json::from_slice::<AccountPickle>(account).map_err(|e| e.to_string())?);
    let identity = Curve25519PublicKey::from_bytes(peer.identity);
    let fallback = Curve25519PublicKey::from_bytes(peer.fallback);
    let s = a.create_outbound_session(SessionConfig::version_1(), identity, fallback).map_err(|e| e.to_string())?;
    let pickle = serde_json::to_string(&s.pickle()).map_err(|e| e.to_string())?;
    Ok(OlmSession { session_id: s.session_id(), pickle })
}

/// `Session::encrypt` on the session pickled in `pickle`: the updated
/// session (same id) and `OlmMessage::to_parts` of a message that encrypts
/// `plaintext` on it.
#[verifier::external_body]
fn olm_encrypt(pickle: &String, plaintext: &[u8]) -> (r: Result<(OlmSession, usize, Vec<u8>), String>)
    ensures
        r is Ok ==> r->Ok_0.0.session_id@ == spec_pickle_session_id(pickle@),
        r is Ok ==> session_consistent(r->Ok_0.0.session_id@, r->Ok_0.0.pickle@),
        r is Ok ==> spec_olm_encrypts(pickle@, plaintext@, r->Ok_0.1, r->Ok_0.2@),
{
    let p: SessionPickle = serde_json::from_str(pickle).map_err(|e| e.to_string())?;
    let mut s = Session::from_pickle(p);
    let (message_type, bytes) = s.encrypt(plaintext).map_err(|e| e.to_string())?.to_parts();
    let pickle = serde_json::to_string(&s.pickle()).map_err(|e| e.to_string())?;
    Ok((OlmSession { session_id: s.session_id(), pickle }, message_type, bytes))
}

/// `OlmMessage::from_parts`, reporting the session id of a pre-key message.
#[verifier::external_body]
fn olm_message_session(message_type: usize, ciphertext: &[u8]) -> (r: Result<Option<String>, String>)
    ensures
        r is Ok <==> spec_olm_message(message_type, ciphertext@) is Some,
        r is Ok ==> match r->Ok_0 {
            Some(id) => spec_olm_message(message_type, ciphertext@) == Some(Some(id@)),
            None => spec_olm_message(message_type, ciphertext@) == Some(None::<Seq<char>>),
        },
{
    match OlmMessage::from_parts(message_type, ciphertext).map_err(|e| e.to_string())? {
        OlmMessage::PreKey(m) => Ok(Some(m.session_id())),
        OlmMessage::Normal(_) => Ok(None),
    }
}

/// `Account::create_inbound_session` (Olm v1) by the account pickled in
/// `account`, from a pre-key message: the account afterwards (it gives up
/// the one-time key used, if any), the new session (whose id is the
/// message's) and the message's plaintext.
#[verifier::external_body]
fn olm_inbound_session(account: &[u8], message_type: usize, ciphertext: &[u8]) -> (r: Result<
    (Vec<u8>, OlmSession, Vec<u8>),
    String,
>)
    ensures
        r is Ok <==> spec_olm_inbound(account@, message_type, ciphertext@) is Some,
        r is Ok ==> r->Ok_0.2@ == spec_olm_inbound(account@, message_type, ciphertext@)->Some_0,
        r is Ok ==> spec_olm_message(message_type, ciphertext@) == Some(Some(r->Ok_0.1.session_id@)),
        r is Ok ==> session_consistent(r->Ok_0.1.session_id@, r->Ok_0.1.pickle@),
        r is Ok ==> spec_account_pickle_parses(r->Ok_0.0@),
{
    let mut a = OlmAccount::from_pickle(serde_json::from_slice::<AccountPickle>(account).map_err(|e| e.to_string())?);
    let OlmMessage::PreKey(m) = OlmMessage::from_parts(message_type, ciphertext).map_err(|e| e.to_string())? else {
        return Err("not a pre-key message".to_string());
    };
    let result = a.create_inbound_session(SessionConfig::version_1(), m.identity_key(), &m).map_err(|e| e.to_string())?;
    let pickle = serde_json::to_string(&result.session.pickle()).map_err(|e| e.to_string())?;
    let account = serde_json::to_vec(&a.pickle()).map_err(|e| e.to_string())?;
    Ok((account, OlmSession { session_id: result.session.session_id(), pickle }, result.plaintext))
}

/// `Session::decrypt` on the session pickled in `pickle`: fails when the
/// pickle or the message does not parse; `None` when this session cannot
/// decrypt the message; otherwise the advanced session (same id) and the
/// plaintext.
#[verifier::external_body]
fn olm_decrypt(pickle: &String, message_type: usize, ciphertext: &[u8]) -> (r: Result<
    Option<(OlmSession, Vec<u8>)>,
    String,
>)
    ensures
        r is Err <==> spec_olm_decrypt(pickle@, message_type, ciphertext@) is None,
        r matches Ok(None) <==> spec_olm_decrypt(pickle@, message_type, ciphertext@) == Some(None::<Seq<u8>>),
        r matches Ok(Some(x)) ==> spec_olm_decrypt(pickle@, message_type, ciphertext@) == Some(Some(x.1@))
            && x.0.session_id@ == spec_pickle_session_id(pickle@) && session_consistent(x.0.session_id@, x.0.pickle@),
{
    let p: SessionPickle = serde_json::from_str(pickle).map_err(|e| e.to_string())?;
    let message = OlmMessage::from_parts(message_type, ciphertext).map_err(|e| e.to_string())?;
    let mut s = Session::from_pickle(p);
    let Ok(plaintext) = s.decrypt(&message) else { return Ok(None) };
    let pickle = serde_json::to_string(&s.pickle()).map_err(|e| e.to_string())?;
    Ok(Some((OlmSession { session_id: s.session_id(), pickle }, plaintext)))
}

/// `Curve25519PublicKey::to_base64` of `key`: its unpadded standard base64,
/// which `from_base64` reads back as the same key.
#[verifier::external_body]
fn curve25519_to_base64(key: &[u8; 32]) -> (s: String)
    ensures
        s@ == spec_curve_b64(key@),
{
    Curve25519PublicKey::from_bytes(*key).to_base64()
}

/// `Curve25519PublicKey::from_base64`, as bytes.
#[verifier::external_body]
fn curve25519_from_base64(s: &str) -> (r: Result<[u8; 32], String>)
    ensures
        r is Ok <==> spec_curve_from_b64(s@) is Some,
        r is Ok ==> r->Ok_0@ == spec_curve_from_b64(s@)->Some_0,
{
    Curve25519PublicKey::from_base64(s).map(|k| k.to_bytes()).map_err(|e| e.to_string())
}

// ---------------------------------------------------------------------
// The device key bundle's text form: "<identity>.<fallback>".
// ---------------------------------------------------------------------

/// The text form of a bundle.
pub open spec fn spec_encode_bundle(identity: Seq<u8>, fallback: Seq<u8>) -> Seq<char> {
    spec_curve_b64(identity) + seq!['.'] + spec_curve_b64(fallback)
}

/// The index of the first `.` in `s`, if any.
pub open spec fn first_dot(s: Seq<char>) -> Option<int> {
    first_index(s, |c: char| c == '.')
}

/// The identity and fallback keys text `s` carries, if it is a bundle.
pub open spec fn spec_decode_bundle(s: Seq<char>) -> Option<(Seq<u8>, Seq<u8>)> {
    match first_dot(s) {
        Some(i) => match (spec_curve_from_b64(s.take(i)), spec_curve_from_b64(s.skip(i + 1))) {
            (Some(a), Some(b)) => Some((a, b)),
            _ => None,
        },
        None => None,
    }
}

impl DeviceBundle {
    /// The bundle as one `"<identity>.<fallback>"` string.
    pub fn encode(&self) -> (s: String)
        ensures
            s@ == spec_encode_bundle(self.identity@, self.fallback@),
            spec_decode_bundle(s@) == Some((self.identity@, self.fallback@)),
    {
        let mut s = curve25519_to_base64(&self.identity);
        proof {
            reveal_strlit(".");
            lemma_curve_round_trip(self.identity@);
            lemma_curve_round_trip(self.fallback@);
        }
        s.append(".");
        let ghost a = s@.drop_last();
        let f = curve25519_to_base64(&self.fallback);
        s.append(f.as_str());
        proof {
            let t = s@;
            let p = |c: char| c == '.';
            let k = a.len() as int;
            assert(a == spec_curve_b64(self.identity@));
            lemma_unpadded_digits(self.identity@);
            assert forall|j: int| 0 <= j < k implies !p(#[trigger] t[j]) by {
                assert(t[j] == a[j]);
                assert(is_b64_digit(a[j]));
            }
            assert(t[k] == '.');
            assert(first_where(t, p, k));
            lemma_first_index(t, p);
            assert(t.take(k) == a);
            assert(t.skip(k + 1) == f@);
        }
        s
    }

    /// Reads a bundle back from its text form; anything else is refused.
    pub fn decode(encoded: &str) -> (r: Result<DeviceBundle, String>)
        ensures
            r is Ok <==> spec_decode_bundle(encoded@) is Some,
            r is Ok ==> (r->Ok_0.identity@, r->Ok_0.fallback@) == spec_decode_bundle(encoded@)->Some_0,
            first_dot(encoded@) is None ==> r is Err && r->Err_0@ == "malformed device key bundle"@,
    {
        let n = encoded.unicode_len();
        let mut i: usize = 0;
        while i < n && encoded.get_char(i) != '.'
            invariant
                n == encoded@.len(),
                i <= n,
                forall|j: int| 0 <= j < i ==> #[trigger] encoded@[j] != '.',
            decreases n - i,
        {
            i = i + 1;
        }
        proof {
            let p = |c: char| c == '.';
            lemma_first_index(encoded@, p);
            if i < n {
                assert(first_where(encoded@, p, i as int));
            } else {
                assert forall|j: int| 0 <= j < encoded@.len() implies !p(#[trigger] encoded@[j]) by {}
                if first_index(encoded@, p) is Some {
                    let k = first_index(encoded@, p)->Some_0;
                    assert(p(encoded@[k]));
                }
            }
        }
        if i == n {
            return Err(String::from_str("malformed device key bundle"));
        }
        let identity = curve25519_from_base64(encoded.substring_char(0, i))?;
        let fallback = curve25519_from_base64(encoded.substring_char(i + 1, n))?;
        Ok(DeviceBundle { identity, fallback })
    }
}

// ---------------------------------------------------------------------
// The per-peer session store.
// ---------------------------------------------------------------------

/// Whether stored session `s` has id `id`.
pub open spec fn has_session_id(id: Seq<char>) -> spec_fn(StoredSession) -> bool {
    |s: StoredSession| s.session_id@ == id
}

/// The newest `MAX_SESSIONS_PER_PEER` of `s`.
pub open spec fn trimmed(s: Seq<StoredSession>) -> Seq<StoredSession> {
    if s.len() > MAX_SESSIONS_PER_PEER {
        s.skip(s.len() - MAX_SESSIONS_PER_PEER)
    } else {
        s
    }
}

/// The sessions after storing session `id` with `pickle`: an entry with the
/// same id gets the new pickle (and is marked received if this use was a
/// receive); otherwise a new entry goes last and only the newest
/// `MAX_SESSIONS_PER_PEER` are kept.
pub open spec fn stored_after(
    s: Seq<StoredSession>,
    id: String,
    pickle: String,
    created_at: i64,
    received: bool,
) -> Seq<StoredSession> {
    match first_index(s, has_session_id(id@)) {
        Some(i) => s.update(
            i,
            StoredSession { pickle, received: s[i].received || received, ..s[i] },
        ),
        None => trimmed(s.push(StoredSession { session_id: id, pickle, created_at, received })),
    }
}

/// Adds a session to the store (see [stored_after]).
pub fn store_session(
    store: &mut SessionStore,
    session_id: String,
    pickle: String,
    created_at: i64,
    received: bool,
)
    ensures
        final(store).sessions@ == stored_after(
            old(store).sessions@,
            session_id,
            pickle,
            created_at,
            received,
        ),
{
    let found = find_index(
        &store.sessions,
        (|s: &StoredSession| -> (b: bool)
            ensures
                b == (s.session_id@ == session_id@),
            { s.session_id == session_id }),
        Ghost(has_session_id(session_id@)),
    );
    match found {
        Some(i) => {
            let ghost before = store.sessions@;
            let mut e = store.sessions.remove(i);
            e.pickle = pickle;
            e.received = e.received || received;
            store.sessions.insert(i, e);
            proof {
                assert(store.sessions@ =~= before.update(i as int, e));
            }
        },
        None => {
            store.sessions.push(StoredSession { session_id, pickle, created_at, received });
            if store.sessions.len() > MAX_SESSIONS_PER_PEER {
                let excess = store.sessions.len() - MAX_SESSIONS_PER_PEER;
                let ghost before = store.sessions@;
                let mut all: Vec<StoredSession> = Vec::new();
                std::mem::swap(&mut all, &mut store.sessions);
                let tail = all.split_off(excess);
                store.sessions = tail;
                proof {
                    assert(store.sessions@ =~= before.skip(excess as int));
                }
            }
        },
    }
}

/// Whether any session in `store` has id `session_id`.
pub fn has_session(store: &SessionStore, session_id: &String) -> (b: bool)
    ensures
        b == (first_index(store.sessions@, has_session_id(session_id@)) is Some),
{
    let r = find_index(
        &store.sessions,
        (|s: &StoredSession| -> (b: bool)
            ensures
                b == (s.session_id@ == session_id@),
            { s.session_id == *session_id }),
        Ghost(has_session_id(session_id@)),
    );
    r.is_some()
}

/// No two stored sessions share an id.
pub open spec fn ids_unique(s: Seq<StoredSession>) -> bool {
    forall|i: int, j: int| 0 <= i < j < s.len() ==> #[trigger] s[i].session_id@ != #[trigger] s[j].session_id@
}

/// Every stored session's id is the one its pickle records.
pub open spec fn store_consistent(s: Seq<StoredSession>) -> bool {
    forall|i: int| 0 <= i < s.len() ==> session_consistent(#[trigger] s[i].session_id@, s[i].pickle@)
}

/// Storing a session never grows the store past `MAX_SESSIONS_PER_PEER`,
/// never duplicates a session id, and keeps ids and pickles in agreement;
/// the stored session is in the store afterwards.
#[verifier::spinoff_prover]
pub proof fn lemma_stored_after(
    s: Seq<StoredSession>,
    id: String,
    pickle: String,
    created_at: i64,
    received: bool,
)
    requires
        s.len() <= MAX_SESSIONS_PER_PEER,
        ids_unique(s),
        store_consistent(s),
        session_consistent(id@, pickle@),
    ensures
        stored_after(s, id, pickle, created_at, received).len() <= MAX_SESSIONS_PER_PEER,
        ids_unique(stored_after(s, id, pickle, created_at, received)),
        store_consistent(stored_after(s, id, pickle, created_at, received)),
        first_index(stored_after(s, id, pickle, created_at, received), has_session_id(id@)) is Some,
{
    let t = stored_after(s, id, pickle, created_at, received);
    crate::seqs::lemma_first_index(s, has_session_id(id@));
    match first_index(s, has_session_id(id@)) {
        Some(i) => {
            assert(ids_unique(t)) by {
                assert forall|a: int, b: int| 0 <= a < b < t.len() implies #[trigger] t[a].session_id@
                    != #[trigger] t[b].session_id@ by {
                    assert(t[a].session_id@ == s[a].session_id@ && t[b].session_id@ == s[b].session_id@);
                }
            }
            assert(has_session_id(id@)(t[i]));
            crate::seqs::lemma_first_exists_pub(t, has_session_id(id@), i);
            crate::seqs::lemma_first_index(t, has_session_id(id@));
        },
        None => {
            let u = s.push(StoredSession { session_id: id, pickle, created_at, received });
            assert(ids_unique(u)) by {
                assert forall|a: int, b: int| 0 <= a < b < u.len() implies #[trigger] u[a].session_id@
                    != #[trigger] u[b].session_id@ by {
                    if b == u.len() - 1 {
                        assert(!has_session_id(id@)(s[a]));
                    }
                }
            }
            let k = u.len() - t.len();
            assert(t == u.skip(k));
            assert(ids_unique(t)) by {
                assert forall|a: int, b: int| 0 <= a < b < t.len() implies #[trigger] t[a].session_id@
                    != #[trigger] t[b].session_id@ by {
                    assert(t[a] == u[a + k] && t[b] == u[b + k]);
                }
            }
            assert(store_consistent(t)) by {
                assert forall|a: int| 0 <= a < t.len() implies session_consistent(
                    #[trigger] t[a].session_id@,
                    t[a].pickle@,
                ) by {
                    assert(t[a] == u[a + k]);
                }
            }
            assert(t[t.len() - 1].session_id@ == id@);
            crate::seqs::lemma_first_exists_pub(t, has_session_id(id@), t.len() - 1);
            crate::seqs::lemma_first_index(t, has_session_id(id@));
        },
    }
}

/// Whether `(a.received, a.created_at, i)` is not after
/// `(b.received, b.created_at, j)`, comparing lexicographically.
pub open spec fn key_le(a: StoredSession, i: int, b: StoredSession, j: int) -> bool {
    ||| !a.received && b.received
    ||| a.received == b.received && a.created_at < b.created_at
    ||| a.received == b.received && a.created_at == b.created_at && i <= j
}

/// Session `i` is the one to send on: it maximizes (used by the peer,
/// created time, position) — a session the peer demonstrably uses beats
/// one opened optimistically, then the newest, then the later stored.
pub open spec fn is_best(s: Seq<StoredSession>, i: int) -> bool {
    &&& 0 <= i < s.len()
    &&& forall|j: int| 0 <= j < s.len() ==> key_le(#[trigger] s[j], j, s[i], i)
}

/// The index of the session to send on, if there is any session.
pub fn best_session_index(store: &SessionStore) -> (r: Option<usize>)
    ensures
        match r {
            Some(i) => is_best(store.sessions@, i as int),
            None => store.sessions@.len() == 0,
        },
{
    let n = store.sessions.len();
    if n == 0 {
        return None;
    }
    let mut best: usize = 0;
    let mut j: usize = 1;
    while j < n
        invariant
            n == store.sessions@.len(),
            best < j <= n,
            forall|k: int| 0 <= k < j ==> key_le(#[trigger] store.sessions@[k], k, store.sessions@[best as int], best as int),
        decreases n - j,
    {
        let b = &store.sessions[best];
        let c = &store.sessions[j];
        if (!b.received && c.received) || (b.received == c.received && b.created_at <= c.created_at) {
            best = j;
        }
        j = j + 1;
    }
    Some(best)
}

/// Encrypts `plaintext` for the peer described by `peer`, over the best
/// existing session with them (see [is_best]) or, when there is none, a
/// fresh outbound session that `account` starts against their identity and
/// fallback keys; the session used is stored back (at time `now`, not as
/// received) and the payload gets a fresh random 16-byte hex id.
pub fn ratchet_encrypt(
    account: &DeviceAccount,
    store: &mut SessionStore,
    peer: &DeviceBundle,
    plaintext: &[u8],
    now: i64,
) -> (r: Result<RatchetMessagePayload, String>)
    ensures
        r is Err ==> final(store).sessions@ == old(store).sessions@,
        r is Ok ==> {
            let p = r->Ok_0;
            let bytes = spec_base64_decode(p.ciphertext@)->Some_0;
            &&& p.created_at == now
            &&& is_hex_of_len(p.id@, 16)
            &&& spec_base64_decode(p.ciphertext@) is Some
            &&& exists|id: String, pickle: String, used: Seq<char>|
                #![trigger stored_after(old(store).sessions@, id, pickle, now, false), spec_olm_encrypts(used, plaintext@, p.message_type, bytes)]
                {
                    &&& final(store).sessions@ == stored_after(old(store).sessions@, id, pickle, now, false)
                    &&& session_consistent(id@, pickle@)
                    &&& id@ == spec_pickle_session_id(used)
                    &&& spec_olm_encrypts(used, plaintext@, p.message_type, bytes)
                    &&& old(store).sessions@.len() > 0 ==> exists|i: int|
                        is_best(old(store).sessions@, i) && used == #[trigger] old(store).sessions@[i].pickle@
                    &&& old(store).sessions@.len() == 0 ==> spec_outbound_session(
                        account.pickle@,
                        peer.identity@,
                        peer.fallback@,
                        used,
                    )
                }
        },
{
    let best = best_session_index(store);
    let ghost mut used: Seq<char> = Seq::empty();
    let (session, message_type, bytes) = match best {
        Some(i) => {
            proof {
                used = store.sessions@[i as int].pickle@;
            }
            olm_encrypt(&store.sessions[i].pickle, plaintext)?
        },
        None => {
            let fresh = olm_outbound_session(account.pickle.as_slice(), peer)?;
            proof {
                used = fresh.pickle@;
            }
            olm_encrypt(&fresh.pickle, plaintext)?
        },
    };
    let ghost sid = session.session_id;
    let ghost pk = session.pickle;
    proof {
        match best {
            Some(i) => {
                assert(is_best(old(store).sessions@, i as int) && used == old(store).sessions@[i as int].pickle@);
            },
            None => {
                assert(old(store).sessions@.len() == 0);
            },
        }
    }
    store_session(store, session.session_id, session.pickle, now, false);
    let id = random_hex(16);
    let ciphertext = base64_encode(bytes.as_slice());
    assert(store.sessions@ == stored_after(old(store).sessions@, sid, pk, now, false));
    assert(spec_olm_encrypts(used, plaintext@, message_type, bytes@));
    proof {
        lemma_base64_round_trip(bytes@);
    }
    assert(spec_base64_decode(ciphertext@) == Some(bytes@));
    let out = RatchetMessagePayload { id, created_at: now, message_type, ciphertext };
    assert(spec_base64_decode(out.ciphertext@)->Some_0 == bytes@);
    assert(spec_olm_encrypts(used, plaintext@, out.message_type, spec_base64_decode(out.ciphertext@)->Some_0));
    Ok(out)
}

/// Whether the message (`message_type`, `bytes`) starts a new inbound
/// session, given the stored `sessions`: a pre-key message whose session is
/// not stored yet.
pub open spec fn starts_inbound(sessions: Seq<StoredSession>, message_type: usize, bytes: Seq<u8>) -> bool {
    spec_olm_message(message_type, bytes) matches Some(Some(sid)) && first_index(sessions, has_session_id(sid))
        is None
}

/// Trying the message (`message_type`, `bytes`) on the stored sessions below
/// index `n`, newest first: `None` when an attempt fails outright,
/// `Some(None)` when none of them decrypts it, `Some(Some((i, p)))` when
/// session `i` is the first that does, to `p`.
pub open spec fn scan_decrypt(sessions: Seq<StoredSession>, n: int, message_type: usize, bytes: Seq<u8>) -> Option<
    Option<(int, Seq<u8>)>,
>
    decreases n,
{
    if n <= 0 {
        Some(None)
    } else {
        match spec_olm_decrypt(sessions[n - 1].pickle@, message_type, bytes) {
            None => None,
            Some(Some(p)) => Some(Some((n - 1, p))),
            Some(None) => scan_decrypt(sessions, n - 1, message_type, bytes),
        }
    }
}

/// Decrypts `payload`. A pre-key message for a session not in the store
/// starts a new inbound session (spending account key material, so the
/// caller must persist `account` as well as `store`); anything else is
/// tried on every stored session, newest first, and the first that decrypts
/// it wins. The session used is stored back as received (new ones at time
/// `now`); when nothing decrypts the message, the store is left untouched.
pub fn ratchet_decrypt(
    account: &mut DeviceAccount,
    store: &mut SessionStore,
    payload: &RatchetMessagePayload,
    now: i64,
) -> (r: Result<Vec<u8>, String>)
    ensures
        r is Err ==> final(store).sessions@ == old(store).sessions@,
        r is Err ==> final(account).pickle@ == old(account).pickle@,
        match spec_base64_decode(payload.ciphertext@) {
            None => r is Err,
            Some(bytes) => match spec_olm_message(payload.message_type, bytes) {
                None => r is Err,
                Some(_) => if starts_inbound(old(store).sessions@, payload.message_type, bytes) {
                    let started = spec_olm_inbound(old(account).pickle@, payload.message_type, bytes);
                    &&& r is Ok <==> started is Some
                    &&& r is Ok ==> {
                        &&& r->Ok_0@ == started->Some_0
                        &&& spec_account_pickle_parses(final(account).pickle@)
                        &&& exists|id: String, pickle: String|
                            #![trigger stored_after(old(store).sessions@, id, pickle, now, true)]
                            {
                                &&& final(store).sessions@ == stored_after(old(store).sessions@, id, pickle, now, true)
                                &&& session_consistent(id@, pickle@)
                                &&& spec_olm_message(payload.message_type, bytes) == Some(Some(id@))
                            }
                    }
                } else {
                    &&& final(account).pickle@ == old(account).pickle@
                    &&& match scan_decrypt(old(store).sessions@, old(store).sessions@.len() as int, payload.message_type, bytes) {
                        None => r is Err,
                        Some(None) => r is Err && r->Err_0@ == "no session could decrypt this ratchet message"@,
                        Some(Some((i, p))) => r is Ok && r->Ok_0@ == p && exists|id: String, pickle: String|
                            #![trigger stored_after(old(store).sessions@, id, pickle, now, true)]
                            {
                                &&& final(store).sessions@ == stored_after(old(store).sessions@, id, pickle, now, true)
                                &&& session_consistent(id@, pickle@)
                                &&& id@ == spec_pickle_session_id(old(store).sessions@[i].pickle@)
                            },
                    }
                },
            },
        },
{
    let bytes = base64_decode(payload.ciphertext.as_str())?;
    let shape = olm_message_session(payload.message_type, bytes.as_slice())?;
    match shape {
        Some(sid) => {
            if !has_session(store, &sid) {
                let (new_account, session, plaintext) = olm_inbound_session(
                    account.pickle.as_slice(),
                    payload.message_type,
                    bytes.as_slice(),
                )?;
                let ghost id = session.session_id;
                let ghost pk = session.pickle;
                account.pickle = new_account;
                store_session(store, session.session_id, session.pickle, now, true);
                assert(store.sessions@ == stored_after(old(store).sessions@, id, pk, now, true));
                return Ok(plaintext);
            }
        },
        None => {},
    }
    let n = store.sessions.len();
    let mut i = n;
    while i > 0
        invariant
            i <= n,
            n == old(store).sessions@.len(),
            store.sessions@ == old(store).sessions@,
            account.pickle@ == old(account).pickle@,
            spec_base64_decode(payload.ciphertext@) == Some(bytes@),
            spec_olm_message(payload.message_type, bytes@) is Some,
            !starts_inbound(old(store).sessions@, payload.message_type, bytes@),
            scan_decrypt(old(store).sessions@, n as int, payload.message_type, bytes@) == scan_decrypt(
                old(store).sessions@,
                i as int,
                payload.message_type,
                bytes@,
            ),
        decreases i,
    {
        i = i - 1;
        let attempt = olm_decrypt(&store.sessions[i].pickle, payload.message_type, bytes.as_slice())?;
        match attempt {
            Some((session, plaintext)) => {
                let ghost id = session.session_id;
                let ghost pk = session.pickle;
                store_session(store, session.session_id, session.pickle, now, true);
                assert(store.sessions@ == stored_after(old(store).sessions@, id, pk, now, true));
                return Ok(plaintext);
            },
            None => {},
        }
    }
    Err(String::from_str("no session could decrypt this ratchet message"))
}

/// The sessions kept with peer `peer`, taken out of the map (an empty
/// store when there are none yet).
pub fn take_store(sessions: &mut KeyedList<SessionStore>, peer: &String) -> (s: SessionStore)
    ensures
        final(sessions)@ == old(sessions)@.remove(peer@),
        old(sessions)@.dom().contains(peer@) ==> s == old(sessions)@[peer@],
        !old(sessions)@.dom().contains(peer@) ==> s.sessions@.len() == 0,
{
    match sessions.remove(peer) {
        Some(s) => s,
        None => SessionStore { sessions: Vec::new() },
    }
}

// ---------------------------------------------------------------------
// Announced devices.
// ---------------------------------------------------------------------

/// Records the bundle `friend_pubkey` announced.
pub fn save_friend_device(devices: &mut KeyedList<String>, friend_pubkey: String, bundle: String)
    ensures
        final(devices)@ == old(devices)@.insert(friend_pubkey@, bundle),
{
    devices.insert(friend_pubkey, bundle);
}

/// The bundle `friend_pubkey` last announced, if any and if it parses as a
/// bundle (an old-format or garbled announce counts as none).
pub fn friend_device_pubkey(devices: &KeyedList<String>, friend_pubkey: &String) -> (r: Option<String>)
    ensures
        r is Some <==> devices@.dom().contains(friend_pubkey@) && spec_decode_bundle(
            devices@[friend_pubkey@]@,
        ) is Some,
        r is Some ==> r->Some_0 == devices@[friend_pubkey@],
{
    match devices.get(friend_pubkey) {
        Some(announced) => {
            match DeviceBundle::decode(announced.as_str()) {
                Ok(_) => Some(announced.clone()),
                Err(_) => None,
            }
        },
        None => None,
    }
}

/// Whether a forward-secret message may go to `friend_pubkey`, and to which
/// device: they must be a friend, not blocked, and have announced a device
/// bundle; the result is that bundle's identity and fallback keys.
pub open spec fn spec_ratchet_send(
    friends: Seq<Friend>,
    blocked: Seq<String>,
    devices: Map<Seq<char>, String>,
    friend_pubkey: Seq<char>,
) -> Result<(Seq<u8>, Seq<u8>), Seq<char>> {
    match find_first(friends, friend_pubkey) {
        None => Err("not a friend"@),
        Some(_) => if exists|j: int| 0 <= j < blocked.len() && #[trigger] blocked[j]@ == friend_pubkey {
            Err("friend is blocked"@)
        } else if devices.dom().contains(friend_pubkey) && spec_decode_bundle(devices[friend_pubkey]@) is Some {
            Ok(spec_decode_bundle(devices[friend_pubkey]@)->Some_0)
        } else {
            Err("friend hasn't announced a forward-secrecy device yet"@)
        },
    }
}

/// Checks a forward-secret message about to be sent to `friend_pubkey` (see
/// [spec_ratchet_send]), giving the device bundle to encrypt for. Nothing is
/// changed either way.
pub fn check_ratchet_send(
    friends: &Vec<Friend>,
    blocked: &Vec<String>,
    devices: &KeyedList<String>,
    friend_pubkey: &String,
) -> (r: Result<DeviceBundle, String>)
    ensures
        match (r, spec_ratchet_send(friends@, blocked@, devices@, friend_pubkey@)) {
            (Ok(b), Ok(keys)) => (b.identity@, b.fallback@) == keys,
            (Err(e), Err(f)) => e@ == f,
            _ => false,
        },
{
    proof {
        reveal_strlit("not a friend");
        reveal_strlit("friend is blocked");
        reveal_strlit("friend hasn't announced a forward-secrecy device yet");
    }
    let found = find_friend(friends, friend_pubkey);
    proof {
        lemma_find_first_of(friends@, friend_pubkey@, found);
    }
    if found.is_none() {
        return Err(String::from_str("not a friend"));
    }
    if contains_str(blocked, friend_pubkey) {
        return Err(String::from_str("friend is blocked"));
    }
    match friend_device_pubkey(devices, friend_pubkey) {
        Some(announced) => match DeviceBundle::decode(announced.as_str()) {
            Ok(bundle) => Ok(bundle),
            Err(_) => Err(String::from_str("friend hasn't announced a forward-secrecy device yet")),
        },
        None => Err(String::from_str("friend hasn't announced a forward-secrecy device yet")),
    }
}

/// Whether announcing `announced` means `friend_pubkey` reinstalled: it is a
/// bundle, and so is their previous announce, and the identity keys differ.
pub open spec fn is_reinstall(devices: Map<Seq<char>, String>, friend: Seq<char>, announced: Seq<char>) -> bool {
    &&& spec_decode_bundle(announced) is Some
    &&& devices.dom().contains(friend)
    &&& spec_decode_bundle(devices[friend]@) is Some
    &&& spec_decode_bundle(devices[friend]@)->Some_0.0 != spec_decode_bundle(announced)->Some_0.0
}

/// Drops every session with `friend_pubkey` when `announced` carries a
/// different identity key than they announced before (a reinstall or a new
/// device, which holds none of the old sessions). A changed fallback key
/// alone is key rotation on the same account, and changes nothing.
pub fn forget_sessions_if_reinstalled(
    sessions: &mut KeyedList<SessionStore>,
    devices: &KeyedList<String>,
    friend_pubkey: &String,
    announced: &str,
)
    ensures
        final(sessions)@ == if is_reinstall(devices@, friend_pubkey@, announced@) {
            old(sessions)@.remove(friend_pubkey@)
        } else {
            old(sessions)@
        },
        (devices@.dom().contains(friend_pubkey@) && spec_decode_bundle(devices@[friend_pubkey@]@) is Some
            && spec_decode_bundle(announced@) is Some && spec_decode_bundle(devices@[friend_pubkey@]@)->Some_0.0 ==
            spec_decode_bundle(announced@)->Some_0.0) ==> final(sessions)@
            == old(sessions)@,
        (devices@.dom().contains(friend_pubkey@) && spec_decode_bundle(devices@[friend_pubkey@]@) is Some
            && spec_decode_bundle(announced@) is Some && spec_decode_bundle(devices@[friend_pubkey@]@)->Some_0.0 !=
            spec_decode_bundle(announced@)->Some_0.0) ==> final(sessions)@
            == old(sessions)@.remove(friend_pubkey@),
        spec_decode_bundle(announced@) is None ==> final(sessions)@ == old(sessions)@,
{
    let new_bundle = match DeviceBundle::decode(announced) {
        Ok(b) => b,
        Err(_) => {
            return;
        },
    };
    let previous = match devices.get(friend_pubkey) {
        Some(p) => p,
        None => {
            return;
        },
    };
    let old_bundle = match DeviceBundle::decode(previous.as_str()) {
        Ok(b) => b,
        Err(_) => {
            return;
        },
    };
    let mut same = true;
    let mut i: usize = 0;
    while i < 32
        invariant
            i <= 32,
            old_bundle.identity@.len() == 32,
            new_bundle.identity@.len() == 32,
            same == forall|j: int| 0 <= j < i ==> #[trigger] old_bundle.identity@[j] == new_bundle.identity@[j],
        decreases 32 - i,
    {
        if old_bundle.identity[i] != new_bundle.identity[i] {
            same = false;
        }
        i = i + 1;
    }
    proof {
        if same {
            assert(old_bundle.identity@ =~= new_bundle.identity@);
        }
    }
    if same {
        return;
    }
    let _ = sessions.remove(friend_pubkey);
}

/// Handles a friend's device announcement: sessions bound to a previous
/// installation are dropped (see [forget_sessions_if_reinstalled]) and the
/// announced bundle is recorded.
pub fn apply_device_announce(
    sessions: &mut KeyedList<SessionStore>,
    devices: &mut KeyedList<String>,
    friend_pubkey: String,
    announced: String,
)
    ensures
        final(sessions)@ == if is_reinstall(old(devices)@, friend_pubkey@, announced@) {
            old(sessions)@.remove(friend_pubkey@)
        } else {
            old(sessions)@
        },
        final(devices)@ == old(devices)@.insert(friend_pubkey@, announced),
        (old(devices)@.dom().contains(friend_pubkey@) && spec_decode_bundle(old(devices)@[friend_pubkey@]@) is Some
            && spec_decode_bundle(announced@) is Some && spec_decode_bundle(old(devices)@[friend_pubkey@]@)->Some_0.0 ==
            spec_decode_bundle(announced@)->Some_0.0) ==> final(sessions)@
            == old(sessions)@,
        (old(devices)@.dom().contains(friend_pubkey@) && spec_decode_bundle(old(devices)@[friend_pubkey@]@) is Some
            && spec_decode_bundle(announced@) is Some && spec_decode_bundle(old(devices)@[friend_pubkey@]@)->Some_0.0 !=
            spec_decode_bundle(announced@)->Some_0.0) ==> final(sessions)@
            == old(sessions)@.remove(friend_pubkey@),
        spec_decode_bundle(announced@) is None ==> final(sessions)@ == old(sessions)@,
{
    forget_sessions_if_reinstalled(sessions, devices, &friend_pubkey, announced.as_str());
    save_friend_device(devices, friend_pubkey, announced);
}

// ---------------------------------------------------------------------
// This device's Olm account.
// ---------------------------------------------------------------------

impl DeviceBundle {
    /// The bundle this device announces: its account's identity key and
    /// unpublished fallback key. Fails when the account has no such key.
    pub fn of(account: &DeviceAccount) -> (r: Result<DeviceBundle, String>)
        ensures
            r is Ok <==> spec_account_bundle(account.pickle@) is Some,
            r is Ok ==> spec_account_bundle(account.pickle@) == Some((r->Ok_0.identity@, r->Ok_0.fallback@)),
            r is Ok ==> r->Ok_0.identity@ == spec_account_identity(account.pickle@),
            r is Err ==> r->Err_0@ == "this device's Olm account has no fallback key"@,
    {
        match olm_device_keys(account.pickle.as_slice()) {
            Some(bundle) => Ok(bundle),
            None => Err(String::from_str("this device's Olm account has no fallback key")),
        }
    }
}

/// This device's announceable public key material, as text (see
/// [DeviceBundle::of] and [DeviceBundle::encode]).
pub fn device_identity_pubkey(account: &DeviceAccount) -> (r: Result<String, String>)
    ensures
        r is Ok <==> spec_account_bundle(account.pickle@) is Some,
        r is Ok ==> r->Ok_0@ == spec_encode_bundle(
            spec_account_bundle(account.pickle@)->Some_0.0,
            spec_account_bundle(account.pickle@)->Some_0.1,
        ),
        r is Ok ==> spec_decode_bundle(r->Ok_0@) == spec_account_bundle(account.pickle@),
        r is Err ==> r->Err_0@ == "this device's Olm account has no fallback key"@,
{
    let bundle = DeviceBundle::of(account)?;
    Ok(bundle.encode())
}

/// The account encrypted at rest under `local_key`: refused when its pickle
/// is too long to seal.
pub fn save_account(local_key: &[u8; 32], account: &DeviceAccount) -> (r: Result<Vec<u8>, String>)
    ensures
        r is Ok <==> account.pickle@.len() <= XCHACHA_MAX_PLAINTEXT,
        r is Err ==> r->Err_0@ == "account pickle too large"@,
        r is Ok ==> r->Ok_0@.len() == 24 + account.pickle@.len() + 16 && spec_decrypt_at_rest(
            local_key@,
            r->Ok_0@,
        ) == Some(account.pickle@),
{
    if account.pickle.len() as u64 > XCHACHA_MAX_PLAINTEXT {
        return Err(String::from_str("account pickle too large"));
    }
    let data = encrypt_at_rest(local_key, account.pickle.as_slice());
    Ok(data)
}

/// The account pickle that stored data `stored` holds under `local_key`, if
/// it decrypts to one.
pub open spec fn stored_account(stored: Option<Vec<u8>>, local_key: Seq<u8>) -> Option<Seq<u8>> {
    match stored {
        Some(d) => match spec_decrypt_at_rest(local_key, d@) {
            Some(json) => if spec_account_pickle_parses(json) {
                Some(json)
            } else {
                None
            },
            None => None,
        },
        None => None,
    }
}

/// A fresh account with a fallback key, pickled.
fn mint_account() -> (r: Result<DeviceAccount, String>)
    ensures
        r is Ok,
        r is Ok ==> spec_account_pickle_parses(r->Ok_0.pickle@) && spec_account_bundle(r->Ok_0.pickle@) is Some,
        r is Ok ==> r->Ok_0.pickle@.len() <= 4096 + 1024,
{
    let fresh = olm_account_new()?;
    let pickle = olm_generate_fallback_key(fresh.as_slice())?;
    Ok(DeviceAccount { pickle })
}

/// This device's Olm account, given what is stored for it (`stored`, as
/// written by [save_account]): the stored account when it decrypts and
/// parses (with a fallback key generated if it has none), otherwise a newly
/// minted one with a fallback key. Also hands back the data to store, when
/// it changed.
pub fn load_or_create_account(stored: Option<Vec<u8>>, local_key: &[u8; 32]) -> (r: Result<
    (DeviceAccount, Option<Vec<u8>>),
    String,
>)
    ensures
        match stored_account(stored, local_key@) {
            Some(json) => if spec_account_bundle(json) is Some {
                r is Ok && r->Ok_0.1 is None && r->Ok_0.0.pickle@ == json
            } else {
                r is Ok ==> r->Ok_0.1 is Some && spec_decrypt_at_rest(local_key@, r->Ok_0.1->Some_0@) == Some(
                    r->Ok_0.0.pickle@,
                )
            },
            None => r is Ok ==> r->Ok_0.1 is Some && spec_decrypt_at_rest(local_key@, r->Ok_0.1->Some_0@)
                == Some(r->Ok_0.0.pickle@),
        },
        r is Ok ==> spec_account_pickle_parses(r->Ok_0.0.pickle@) && spec_account_bundle(r->Ok_0.0.pickle@) is Some,
        stored_account(stored, local_key@) matches Some(json) ==> (r is Ok ==> spec_account_identity(
            r->Ok_0.0.pickle@,
        ) == spec_account_identity(json)),
        stored_account(stored, local_key@) is None ==> r is Ok,
        stored_account(stored, local_key@) matches Some(json) && json.len() + 1024 <= XCHACHA_MAX_PLAINTEXT
            ==> r is Ok,
{
    match stored {
        Some(data) => {
            match decrypt_at_rest(local_key, data.as_slice()) {
                Ok(json) => {
                    if olm_account_pickle_parses(json.as_slice()) {
                        if olm_device_keys(json.as_slice()).is_some() {
                            return Ok((DeviceAccount { pickle: json }, None));
                        }
                        let pickle = olm_generate_fallback_key(json.as_slice())?;
                        let account = DeviceAccount { pickle };
                        let saved = save_account(local_key, &account)?;
                        return Ok((account, Some(saved)));
                    }
                },
                Err(_) => {},
            }
        },
        None => {},
    }
    let account = mint_account()?;
    let saved = save_account(local_key, &account)?;
    Ok((account, Some(saved)))
}

/// An account that [save_account] wrote (and that has a fallback key) is,
/// when [load_or_create_account] reads it back under the same key, that same
/// account: the bundle it announces does not go stale across restarts.
pub proof fn lemma_reload_keeps_account(local_key: Seq<u8>, account: DeviceAccount, data: Vec<u8>)
    requires
        spec_decrypt_at_rest(local_key, data@) == Some(account.pickle@),
        spec_account_pickle_parses(account.pickle@),
        spec_account_bundle(account.pickle@) is Some,
    ensures
        stored_account(Some(data), local_key) == Some(account.pickle@),
        spec_account_bundle(stored_account(Some(data), local_key)->Some_0) == spec_account_bundle(account.pickle@),
{
}

/// A friend who re-announces the same identity key keeps their sessions,
/// however the fallback key changed; a different identity key (a new
/// installation) is a reinstall.
pub proof fn lemma_reinstall_is_identity_change(
    devices: Map<Seq<char>, String>,
    friend: Seq<char>,
    announced: Seq<char>,
    identity: Seq<u8>,
    old_fallback: Seq<u8>,
    new_identity: Seq<u8>,
    new_fallback: Seq<u8>,
)
    requires
        devices.dom().contains(friend),
        spec_decode_bundle(devices[friend]@) == Some((identity, old_fallback)),
        spec_decode_bundle(announced) == Some((new_identity, new_fallback)),
    ensures
        identity == new_identity ==> !is_reinstall(devices, friend, announced),
        identity != new_identity ==> is_reinstall(devices, friend, announced),
{
}

} // verus!
