//! Key derivation from the account's seed phrase: per-relationship contact
//! keys (NIP-06 multi-account derivation) and the stable account UID.

use vstd::prelude::*;
use vstd::utf8::encode_utf8;
use nostr::nips::nip06::FromMnemonic;
use crate::crypto::{hex_encode, is_lower_hex, lemma_hex_len, lemma_hex_lower, sha256, spec_hex, spec_sha256};

verus! {

/// Reserved NIP-06 account index for deriving the stable UID — never used
/// for any relationship, which use small sequential indices.
pub const UID_ACCOUNT_INDEX: u32 = 0x7FFF_FFFE;

/// Whether `c` has the Unicode `White_Space` property (`char::is_whitespace`).
pub open spec fn is_whitespace(c: char) -> bool {
    ('\u{9}' <= c <= '\u{d}') || c == ' ' || c == '\u{85}' || c == '\u{a0}' || c == '\u{1680}' || (
    '\u{2000}' <= c <= '\u{200a}') || c == '\u{2028}' || c == '\u{2029}' || c == '\u{202f}' || c
        == '\u{205f}' || c == '\u{3000}'
}

/// `s` without its leading whitespace.
pub open spec fn trim_start(s: Seq<char>) -> Seq<char>
    decreases s.len(),
{
    if s.len() > 0 && is_whitespace(s[0]) {
        trim_start(s.drop_first())
    } else {
        s
    }
}

/// `s` without its trailing whitespace.
pub open spec fn trim_end(s: Seq<char>) -> Seq<char>
    decreases s.len(),
{
    if s.len() > 0 && is_whitespace(s.last()) {
        trim_end(s.drop_last())
    } else {
        s
    }
}

/// `s` without leading and trailing whitespace.
pub open spec fn spec_trim(s: Seq<char>) -> Seq<char> {
    trim_end(trim_start(s))
}

/// The hex public key NIP-06 derives from `mnemonic` for `account`, if the
/// phrase derives keys at all.
pub uninterp spec fn spec_contact_pubkey(mnemonic: Seq<char>, account: u32) -> Option<Seq<char>>;

/// Whether `phrase` is a valid BIP-39 phrase.
pub uninterp spec fn spec_bip39_valid(phrase: Seq<char>) -> bool;

/// Whether NIP-06 derives keys (for the default account) from `phrase`.
pub uninterp spec fn spec_nip06_derivable(phrase: Seq<char>) -> bool;

/// Whether `c` is whitespace (see [is_whitespace]).
fn char_is_whitespace(c: char) -> (b: bool)
    ensures
        b == is_whitespace(c),
{
    let v = c as u32;
    (0x9 <= v && v <= 0xd) || v == 0x20 || v == 0x85 || v == 0xa0 || v == 0x1680 || (0x2000 <= v && v <= 0x200a)
        || v == 0x2028 || v == 0x2029 || v == 0x202f || v == 0x205f || v == 0x3000
}

/// `s` without leading and trailing whitespace (see [spec_trim]), as
/// `str::trim` gives it.
fn trim_str(s: &str) -> (t: &str)
    ensures
        t@ == spec_trim(s@),
{
    let n = s.unicode_len();
    let mut i: usize = 0;
    assert(s@.skip(0) == s@);
    while i < n && char_is_whitespace(s.get_char(i))
        invariant
            i <= n,
            n == s@.len(),
            trim_start(s@) == trim_start(s@.skip(i as int)),
        decreases n - i,
    {
        assert(s@.skip(i as int).drop_first() == s@.skip(i + 1));
        i = i + 1;
    }
    assert(trim_start(s@) == s@.skip(i as int));
    let mut j: usize = n;
    while j > i && char_is_whitespace(s.get_char(j - 1))
        invariant
            i <= j <= n,
            n == s@.len(),
            trim_end(s@.skip(i as int)) == trim_end(s@.subrange(i as int, j as int)),
        decreases j,
    {
        assert(s@.subrange(i as int, j as int).drop_last() == s@.subrange(i as int, j - 1));
        j = j - 1;
    }
    assert(s@.skip(i as int) == s@.subrange(i as int, n as int));
    assert(trim_end(s@.subrange(i as int, j as int)) == s@.subrange(i as int, j as int));
    s.substring_char(i, j)
}

/// `Keys::from_mnemonic_with_account(mnemonic, None, Some(account))`, as the
/// public key's hex text.
#[verifier::external_body]
fn contact_pubkey_hex(mnemonic: &str, account: u32) -> (r: Result<String, String>)
    ensures
        r is Ok <==> spec_contact_pubkey(mnemonic@, account) is Some,
        r is Ok ==> r->Ok_0@ == spec_contact_pubkey(mnemonic@, account)->Some_0,
{
    nostr::key::Keys::from_mnemonic_with_account(mnemonic, None, Some(account))
        .map(|k| k.public_key().to_hex())
        .map_err(|e| e.to_string())
}

/// `phrase.parse::<bip39::Mnemonic>()`.
#[verifier::external_body]
fn bip39_parse(phrase: &str) -> (r: Result<(), String>)
    ensures
        r is Ok <==> spec_bip39_valid(phrase@),
{
    phrase.parse::<bip39::Mnemonic>().map(|_| ()).map_err(|e| e.to_string())
}

/// `Keys::from_mnemonic(phrase, None)`.
#[verifier::external_body]
fn nip06_keys(phrase: &str) -> (r: Result<(), String>)
    ensures
        r is Ok <==> spec_nip06_derivable(phrase@),
{
    nostr::key::Keys::from_mnemonic(phrase, None).map(|_| ()).map_err(|e| e.to_string())
}

/// Whether `s` is `n` words of lowercase ASCII letters, each separated from
/// the next by a single space (how a BIP-39 English phrase is written out).
pub open spec fn is_word_phrase(s: Seq<char>, n: nat) -> bool {
    &&& n > 0
    &&& s.len() > 0
    &&& s[0] != ' '
    &&& s.last() != ' '
    &&& forall|i: int| 0 <= i < s.len() ==> ('a' <= #[trigger] s[i] <= 'z' || s[i] == ' ')
    &&& forall|i: int| 0 <= i < s.len() - 1 && #[trigger] s[i] == ' ' ==> s[i + 1] != ' '
    &&& s.filter(|c: char| c == ' ').len() == n - 1
}

/// `bip39::Mnemonic::generate(12)`, as text. Twelve is a supported word
/// count, so the call succeeds. The words are random; what is claimed is
/// their shape (the `Display` form: English-list words, which are lowercase
/// ASCII, joined by single spaces) and that the phrase parses back as a valid
/// mnemonic (its checksum was computed from the entropy it spells).
#[verifier::external_body]
fn bip39_generate() -> (r: Result<String, String>)
    ensures
        r is Ok,
        r is Ok ==> is_word_phrase(r->Ok_0@, 12) && spec_bip39_valid(r->Ok_0@),
{
    bip39::Mnemonic::generate(12).map(|m| m.to_string()).map_err(|e| e.to_string())
}

/// Generates a new 12-word BIP-39 seed phrase (pure generation, no I/O).
pub fn generate_mnemonic() -> (r: Result<String, String>)
    ensures
        r is Ok,
        r is Ok ==> is_word_phrase(r->Ok_0@, 12) && spec_bip39_valid(r->Ok_0@),
{
    bip39_generate()
}

/// Validates that `mnemonic` (ignoring surrounding whitespace) is both a
/// proper BIP-39 phrase and one that can derive Nostr keys (NIP-06).
pub fn validate_mnemonic(mnemonic: String) -> (r: Result<(), String>)
    ensures
        r is Ok <==> spec_bip39_valid(spec_trim(mnemonic@)) && spec_nip06_derivable(spec_trim(mnemonic@)),
{
    let phrase = trim_str(mnemonic.as_str());
    bip39_parse(phrase)?;
    nip06_keys(phrase)?;
    Ok(())
}

/// The public key (hex) of the per-contact key pair derived from the seed
/// phrase for NIP-06 `account`.
pub fn derive_contact_pubkey(mnemonic: &str, account: u32) -> (r: Result<String, String>)
    ensures
        r is Ok <==> spec_contact_pubkey(spec_trim(mnemonic@), account) is Some,
        r is Ok ==> r->Ok_0@ == spec_contact_pubkey(spec_trim(mnemonic@), account)->Some_0,
{
    contact_pubkey_hex(trim_str(mnemonic), account)
}

/// The account UID for a seed phrase: the lowercase hex SHA-256 of the hex
/// public key derived at the reserved [UID_ACCOUNT_INDEX].
pub open spec fn spec_uid(mnemonic: Seq<char>) -> Option<Seq<char>> {
    match spec_contact_pubkey(spec_trim(mnemonic), UID_ACCOUNT_INDEX) {
        Some(pk) => Some(spec_hex(spec_sha256(encode_utf8(pk)))),
        None => None,
    }
}

/// Derives this account's stable UID (see [spec_uid]): the same for every
/// relationship, and carrying no usable key material.
pub fn derive_uid(mnemonic: &str) -> (r: Result<String, String>)
    ensures
        r is Ok <==> spec_uid(mnemonic@) is Some,
        r is Ok ==> r->Ok_0@ == spec_uid(mnemonic@)->Some_0,
        r is Ok ==> r->Ok_0@.len() == 64 && forall|i: int|
            0 <= i < 64 ==> is_lower_hex(#[trigger] r->Ok_0@[i]),
{
    let pk = derive_contact_pubkey(mnemonic, UID_ACCOUNT_INDEX)?;
    let digest = sha256(pk.as_str().as_bytes());
    proof {
        lemma_hex_len(digest@);
        lemma_hex_lower(digest@);
    }
    Ok(hex_encode(digest.as_slice()))
}

/// The account's UID (see [derive_uid]), for the profile screen.
pub fn get_account_uid(mnemonic: String) -> (r: Result<String, String>)
    ensures
        r is Ok <==> spec_uid(mnemonic@) is Some,
        r is Ok ==> r->Ok_0@ == spec_uid(mnemonic@)->Some_0,
        r is Ok ==> r->Ok_0@.len() == 64 && forall|i: int|
            0 <= i < 64 ==> is_lower_hex(#[trigger] r->Ok_0@[i]),
{
    derive_uid(mnemonic.as_str())
}

/// The UID is always 64 lowercase hex digits.
pub proof fn lemma_uid_shape(mnemonic: Seq<char>, digest: Seq<u8>)
    requires
        spec_uid(mnemonic) is Some,
        digest.len() == 32,
        spec_uid(mnemonic)->Some_0 == spec_hex(digest),
    ensures
        spec_uid(mnemonic)->Some_0.len() == 64,
{
    crate::crypto::lemma_hex_len(digest);
}

/// Whether every character of `s` is whitespace.
pub open spec fn all_whitespace(s: Seq<char>) -> bool {
    forall|i: int| 0 <= i < s.len() ==> is_whitespace(#[trigger] s[i])
}

proof fn lemma_trim_start_prefix(a: Seq<char>, x: Seq<char>)
    requires
        all_whitespace(a),
    ensures
        trim_start(a + x) == trim_start(x),
    decreases a.len(),
{
    if a.len() > 0 {
        assert((a + x)[0] == a[0]);
        assert((a + x).drop_first() == a.drop_first() + x);
        assert(all_whitespace(a.drop_first())) by {
            assert forall|i: int| 0 <= i < a.drop_first().len() implies is_whitespace(#[trigger] a.drop_first()[i]) by {
                assert(a.drop_first()[i] == a[i + 1]);
            }
        }
        lemma_trim_start_prefix(a.drop_first(), x);
    } else {
        assert(a + x == x);
    }
}

proof fn lemma_trim_end_suffix(x: Seq<char>, b: Seq<char>)
    requires
        all_whitespace(b),
    ensures
        trim_end(x + b) == trim_end(x),
    decreases b.len(),
{
    if b.len() > 0 {
        assert((x + b).last() == b.last());
        assert((x + b).drop_last() == x + b.drop_last());
        assert(all_whitespace(b.drop_last())) by {
            assert forall|i: int| 0 <= i < b.drop_last().len() implies is_whitespace(#[trigger] b.drop_last()[i]) by {
                assert(b.drop_last()[i] == b[i]);
            }
        }
        lemma_trim_end_suffix(x, b.drop_last());
    } else {
        assert(x + b == x);
    }
}

proof fn lemma_trim_start_all_whitespace(m: Seq<char>)
    requires
        all_whitespace(m),
    ensures
        trim_start(m) == Seq::<char>::empty(),
    decreases m.len(),
{
    if m.len() > 0 {
        assert(is_whitespace(m[0]));
        assert(all_whitespace(m.drop_first())) by {
            assert forall|i: int| 0 <= i < m.drop_first().len() implies is_whitespace(#[trigger] m.drop_first()[i]) by {
                assert(m.drop_first()[i] == m[i + 1]);
            }
        }
        lemma_trim_start_all_whitespace(m.drop_first());
    }
}

proof fn lemma_trim_start_append(m: Seq<char>, b: Seq<char>)
    requires
        !all_whitespace(m),
    ensures
        trim_start(m + b) == trim_start(m) + b,
    decreases m.len(),
{
    let k = choose|i: int| 0 <= i < m.len() && !is_whitespace(#[trigger] m[i]);
    assert(m.len() > 0);
    assert((m + b)[0] == m[0]);
    if is_whitespace(m[0]) {
        assert(k > 0);
        assert(m.drop_first()[k - 1] == m[k]);
        assert(!all_whitespace(m.drop_first()));
        assert((m + b).drop_first() == m.drop_first() + b);
        lemma_trim_start_append(m.drop_first(), b);
    }
}

/// Trimming ignores whitespace added around the text.
pub proof fn lemma_trim_ignores_padding(a: Seq<char>, m: Seq<char>, b: Seq<char>)
    requires
        all_whitespace(a),
        all_whitespace(b),
    ensures
        spec_trim(a + m + b) == spec_trim(m),
{
    assert(a + m + b == a + (m + b));
    lemma_trim_start_prefix(a, m + b);
    if all_whitespace(m) {
        assert(all_whitespace(m + b)) by {
            assert forall|i: int| 0 <= i < (m + b).len() implies is_whitespace(#[trigger] (m + b)[i]) by {
                if i < m.len() {
                    assert((m + b)[i] == m[i]);
                } else {
                    assert((m + b)[i] == b[i - m.len()]);
                }
            }
        }
        lemma_trim_start_all_whitespace(m + b);
        lemma_trim_start_all_whitespace(m);
    } else {
        lemma_trim_start_append(m, b);
        lemma_trim_end_suffix(trim_start(m), b);
    }
}

/// The UID of a seed phrase does not change when whitespace is added
/// around it: every device derives the same UID from the same phrase.
pub proof fn lemma_uid_ignores_padding(a: Seq<char>, mnemonic: Seq<char>, b: Seq<char>)
    requires
        all_whitespace(a),
        all_whitespace(b),
    ensures
        spec_uid(a + mnemonic + b) == spec_uid(mnemonic),
{
    lemma_trim_ignores_padding(a, mnemonic, b);
}

proof fn lemma_trim_start_split(m: Seq<char>) -> (k: int)
    ensures
        0 <= k <= m.len(),
        all_whitespace(m.take(k)),
        trim_start(m) == m.skip(k),
    decreases m.len(),
{
    if m.len() > 0 && is_whitespace(m[0]) {
        let k1 = lemma_trim_start_split(m.drop_first());
        let k = k1 + 1;
        assert forall|i: int| 0 <= i < m.take(k).len() implies is_whitespace(#[trigger] m.take(k)[i]) by {
            if i > 0 {
                assert(m.take(k)[i] == m.drop_first().take(k1)[i - 1]);
            }
        }
        assert(m.skip(k) == m.drop_first().skip(k1));
        k
    } else {
        assert(m.skip(0) == m);
        0
    }
}

proof fn lemma_trim_end_split(x: Seq<char>) -> (l: int)
    ensures
        0 <= l <= x.len(),
        all_whitespace(x.skip(l)),
        trim_end(x) == x.take(l),
    decreases x.len(),
{
    if x.len() > 0 && is_whitespace(x.last()) {
        let l = lemma_trim_end_split(x.drop_last());
        assert forall|i: int| 0 <= i < x.skip(l).len() implies is_whitespace(#[trigger] x.skip(l)[i]) by {
            if l + i < x.len() - 1 {
                assert(x.skip(l)[i] == x.drop_last().skip(l)[i]);
            } else {
                assert(x.skip(l)[i] == x.last());
            }
        }
        assert(x.take(l) == x.drop_last().take(l));
        l
    } else {
        assert(x.take(x.len() as int) == x);
        x.len() as int
    }
}

/// Trimming twice is trimming once.
pub proof fn lemma_trim_idempotent(m: Seq<char>)
    ensures
        spec_trim(spec_trim(m)) == spec_trim(m),
{
    let k = lemma_trim_start_split(m);
    let x = m.skip(k);
    let l = lemma_trim_end_split(x);
    let a = m.take(k);
    let t = x.take(l);
    let b = x.skip(l);
    assert(m == a + t + b);
    lemma_trim_ignores_padding(a, t, b);
}

/// Whether [validate_mnemonic] accepts `mnemonic` does not change when
/// whitespace is added around it.
pub proof fn lemma_validate_ignores_padding(a: Seq<char>, mnemonic: Seq<char>, b: Seq<char>)
    requires
        all_whitespace(a),
        all_whitespace(b),
    ensures
        (spec_bip39_valid(spec_trim(a + mnemonic + b)) && spec_nip06_derivable(spec_trim(a + mnemonic + b)))
            == (spec_bip39_valid(spec_trim(mnemonic)) && spec_nip06_derivable(spec_trim(mnemonic))),
{
    lemma_trim_ignores_padding(a, mnemonic, b);
}

} // verus!
