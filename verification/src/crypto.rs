//! Byte-level plumbing: hex and base64 text forms, SHA-256, randomness, and
//! the XChaCha20-Poly1305 sealing that keeps device-local secrets encrypted
//! at rest. The primitives come from their crates; what is built on them
//! here (key parsing, the nonce-prefixed at-rest format) is verified.

use vstd::prelude::*;
use chacha20poly1305::aead::rand_core::RngCore;
use chacha20poly1305::aead::Aead;
use chacha20poly1305::KeyInit;
use base64::Engine;
use sha2::Digest;
use crate::text::push_char;

verus! {

broadcast use vstd::seq_lib::group_seq_properties;

/// The lowercase hex digit for `n` (below 16).
pub open spec fn hex_digit(n: int) -> char {
    if n < 10 {
        (48 + n) as char
    } else {
        (87 + n) as char
    }
}

/// Lowercase hex text of `bytes`, two digits per byte, high nibble first.
pub open spec fn spec_hex(bytes: Seq<u8>) -> Seq<char>
    decreases bytes.len(),
{
    if bytes.len() == 0 {
        Seq::empty()
    } else {
        seq![hex_digit(bytes[0] as int / 16), hex_digit(bytes[0] as int % 16)] + spec_hex(bytes.drop_first())
    }
}

/// The value of a hex digit, either case.
pub open spec fn hex_value(c: char) -> Option<int> {
    if '0' <= c <= '9' {
        Some(c as int - 48)
    } else if 'a' <= c <= 'f' {
        Some(c as int - 87)
    } else if 'A' <= c <= 'F' {
        Some(c as int - 55)
    } else {
        None
    }
}

/// The bytes that hex text `s` spells, if it is an even number of hex digits.
pub open spec fn spec_unhex(s: Seq<char>) -> Option<Seq<u8>>
    decreases s.len(),
{
    if s.len() % 2 == 1 {
        None
    } else if s.len() == 0 {
        Some(Seq::empty())
    } else {
        match (hex_value(s[0]), hex_value(s[1]), spec_unhex(s.skip(2))) {
            (Some(h), Some(l), Some(rest)) => Some(seq![(h * 16 + l) as u8] + rest),
            _ => None,
        }
    }
}

/// Hex text of a concatenation is the concatenation of the hex texts.
proof fn lemma_hex_append(a: Seq<u8>, b: Seq<u8>)
    ensures
        spec_hex(a + b) == spec_hex(a) + spec_hex(b),
    decreases a.len(),
{
    if a.len() == 0 {
        assert(a + b == b);
        assert(spec_hex(a) == Seq::<char>::empty());
    } else {
        assert((a + b).drop_first() == a.drop_first() + b);
        assert((a + b)[0] == a[0]);
        lemma_hex_append(a.drop_first(), b);
    }
}

/// The lowercase hex digit for `n`.
fn hex_digit_char(n: u8) -> (c: char)
    requires
        n < 16,
    ensures
        c == hex_digit(n as int),
{
    if n < 10 {
        (48 + n) as char
    } else {
        (87 + n) as char
    }
}

/// Lowercase hex text of `data`, two digits per byte (as `hex::encode`
/// writes it).
pub(crate) fn hex_encode(data: &[u8]) -> (s: String)
    ensures
        s@ == spec_hex(data@),
{
    let mut s = String::new();
    let mut i: usize = 0;
    while i < data.len()
        invariant
            i <= data@.len(),
            s@ == spec_hex(data@.take(i as int)),
        decreases data@.len() - i,
    {
        let b = data[i];
        proof {
            let one = seq![b];
            assert(data@.take(i + 1) == data@.take(i as int) + one);
            lemma_hex_append(data@.take(i as int), one);
            assert(one.drop_first() == Seq::<u8>::empty());
            assert(spec_hex(one) == seq![hex_digit(b as int / 16), hex_digit(b as int % 16)] + spec_hex(
                Seq::<u8>::empty(),
            ));
        }
        push_char(&mut s, hex_digit_char(b / 16));
        push_char(&mut s, hex_digit_char(b % 16));
        i = i + 1;
    }
    assert(data@.take(data@.len() as int) == data@);
    s
}

/// `hex::decode`: the bytes `s` spells; fails unless `s` is an even number of
/// hex digits (either case).
#[verifier::external_body]
pub(crate) fn hex_decode(s: &str) -> (r: Result<Vec<u8>, String>)
    ensures
        r is Ok <==> spec_unhex(s@) is Some,
        r is Ok ==> r->Ok_0@ == spec_unhex(s@)->Some_0,
{
    hex::decode(s).map_err(|e| e.to_string())
}

/// The standard base64 digit for `n` (below 64): `A`–`Z`, `a`–`z`, `0`–`9`,
/// `+`, `/`.
pub open spec fn b64_digit(n: int) -> char {
    if n < 26 {
        (65 + n) as char
    } else if n < 52 {
        (71 + n) as char
    } else if n < 62 {
        (n - 4) as char
    } else if n == 62 {
        '+'
    } else {
        '/'
    }
}

/// The base64 digits of up to three bytes, without padding: six bits per
/// digit, high bits first, the last digit filled out with zero bits.
pub open spec fn b64_group(b: Seq<u8>) -> Seq<char> {
    if b.len() == 0 {
        Seq::empty()
    } else if b.len() == 1 {
        seq![b64_digit(b[0] as int / 4), b64_digit((b[0] as int % 4) * 16)]
    } else if b.len() == 2 {
        seq![
            b64_digit(b[0] as int / 4),
            b64_digit((b[0] as int % 4) * 16 + b[1] as int / 16),
            b64_digit((b[1] as int % 16) * 4),
        ]
    } else {
        seq![
            b64_digit(b[0] as int / 4),
            b64_digit((b[0] as int % 4) * 16 + b[1] as int / 16),
            b64_digit((b[1] as int % 16) * 4 + b[2] as int / 64),
            b64_digit(b[2] as int % 64),
        ]
    }
}

/// Standard base64 text of `data` without the `=` padding: the digits of
/// each group of three bytes in turn.
pub open spec fn spec_base64_unpadded(data: Seq<u8>) -> Seq<char>
    decreases data.len(),
{
    if data.len() <= 3 {
        b64_group(data)
    } else {
        b64_group(data.take(3)) + spec_base64_unpadded(data.skip(3))
    }
}

/// Standard base64 text of `data`, as RFC 4648 defines it: the unpadded digits,
/// then `=` until the length is a multiple of four.
pub open spec fn spec_base64_encode(data: Seq<u8>) -> Seq<char> {
    let digits = spec_base64_unpadded(data);
    if data.len() % 3 == 1 {
        digits + seq!['=', '=']
    } else if data.len() % 3 == 2 {
        digits + seq!['=']
    } else {
        digits
    }
}

/// Whether `c` is one of the 64 standard base64 digits.
pub open spec fn is_b64_digit(c: char) -> bool {
    ||| 'A' <= c <= 'Z'
    ||| 'a' <= c <= 'z'
    ||| '0' <= c <= '9'
    ||| c == '+'
    ||| c == '/'
}

/// Unpadded base64 text is made of base64 digits only.
pub proof fn lemma_unpadded_digits(data: Seq<u8>)
    ensures
        forall|i: int|
            0 <= i < spec_base64_unpadded(data).len() ==> is_b64_digit(
                #[trigger] spec_base64_unpadded(data)[i],
            ),
    decreases data.len(),
{
    assert forall|n: int| 0 <= n < 64 implies is_b64_digit(#[trigger] b64_digit(n)) by {}
    assert forall|b: Seq<u8>, i: int| 0 <= i < b64_group(b).len() implies is_b64_digit(
        #[trigger] b64_group(b)[i],
    ) by {
        if b.len() >= 1 {
            assert(0 <= b[0] as int / 4 < 64);
            assert(0 <= (b[0] as int % 4) * 16 < 64);
        }
        if b.len() >= 2 {
            assert(0 <= (b[0] as int % 4) * 16 + b[1] as int / 16 < 64);
            assert(0 <= (b[1] as int % 16) * 4 < 64);
        }
        if b.len() >= 3 {
            assert(0 <= (b[1] as int % 16) * 4 + b[2] as int / 64 < 64);
            assert(0 <= b[2] as int % 64 < 64);
        }
    }
    if data.len() > 3 {
        lemma_unpadded_digits(data.skip(3));
        let g = b64_group(data.take(3));
        let r = spec_base64_unpadded(data.skip(3));
        assert forall|i: int| 0 <= i < (g + r).len() implies is_b64_digit(#[trigger] (g + r)[i]) by {
            if i < g.len() {
                assert((g + r)[i] == g[i]);
            } else {
                assert((g + r)[i] == r[i - g.len()]);
            }
        }
    }
}

/// What standard base64 text `s` decodes to: the bytes whose canonical
/// padded encoding it is, if it is one (the standard engine refuses
/// non-canonical padding and trailing bits).
pub open spec fn spec_base64_decode(s: Seq<char>) -> Option<Seq<u8>> {
    if exists|b: Seq<u8>| spec_base64_encode(b) == s {
        Some(choose|b: Seq<u8>| spec_base64_encode(b) == s)
    } else {
        None
    }
}

/// Different digit values give different base64 digits, none of them `=`.
proof fn lemma_b64_digit_injective()
    ensures
        forall|n: int, m: int|
            0 <= n < 64 && 0 <= m < 64 && #[trigger] b64_digit(n) == #[trigger] b64_digit(m) ==> n == m,
        forall|n: int| 0 <= n < 64 ==> #[trigger] b64_digit(n) != '=',
{
}

/// Equally long groups of at most three bytes with the same digits are equal.
proof fn lemma_group_injective(a: Seq<u8>, b: Seq<u8>)
    requires
        a.len() == b.len(),
        a.len() <= 3,
        b64_group(a) == b64_group(b),
    ensures
        a == b,
{
    lemma_b64_digit_injective();
    if a.len() >= 1 {
        assert(b64_group(a)[0] == b64_group(b)[0]);
        assert(b64_group(a)[1] == b64_group(b)[1]);
    }
    if a.len() == 1 {
        let (x0, y0) = (a[0], b[0]);
        assert(x0 == y0) by (bit_vector)
            requires
                x0 / 4 == y0 / 4,
                (x0 % 4) * 16 == (y0 % 4) * 16,
        ;
    } else if a.len() == 2 {
        assert(b64_group(a)[2] == b64_group(b)[2]);
        let (x0, x1, y0, y1) = (a[0], a[1], b[0], b[1]);
        assert(x0 == y0 && x1 == y1) by (bit_vector)
            requires
                x0 / 4 == y0 / 4,
                (x0 % 4) * 16 + x1 / 16 == (y0 % 4) * 16 + y1 / 16,
                (x1 % 16) * 4 == (y1 % 16) * 4,
        ;
    } else if a.len() == 3 {
        assert(b64_group(a)[2] == b64_group(b)[2]);
        assert(b64_group(a)[3] == b64_group(b)[3]);
        let (x0, x1, x2, y0, y1, y2) = (a[0], a[1], a[2], b[0], b[1], b[2]);
        assert(x0 == y0 && x1 == y1 && x2 == y2) by (bit_vector)
            requires
                x0 / 4 == y0 / 4,
                (x0 % 4) * 16 + x1 / 16 == (y0 % 4) * 16 + y1 / 16,
                (x1 % 16) * 4 + x2 / 64 == (y1 % 16) * 4 + y2 / 64,
                x2 % 64 == y2 % 64,
        ;
    }
    assert(a =~= b);
}

/// How long unpadded base64 text of `n` bytes is.
pub open spec fn unpadded_len(n: nat) -> nat {
    4 * (n / 3) + if n % 3 == 0 {
        0
    } else {
        n % 3 + 1
    }
}

pub proof fn lemma_unpadded_len(a: Seq<u8>)
    ensures
        spec_base64_unpadded(a).len() == unpadded_len(a.len()),
    decreases a.len(),
{
    if a.len() > 3 {
        lemma_unpadded_len(a.skip(3));
    }
}

/// Different bytes have different unpadded base64 text.
pub proof fn lemma_unpadded_injective(a: Seq<u8>, b: Seq<u8>)
    requires
        spec_base64_unpadded(a) == spec_base64_unpadded(b),
    ensures
        a == b,
    decreases a.len(),
{
    lemma_unpadded_len(a);
    lemma_unpadded_len(b);
    if a.len() > 3 && b.len() > 3 {
        let ga = b64_group(a.take(3));
        let gb = b64_group(b.take(3));
        let ra = spec_base64_unpadded(a.skip(3));
        let rb = spec_base64_unpadded(b.skip(3));
        assert(ga.len() == 4 && gb.len() == 4);
        assert((ga + ra).take(4) == ga);
        assert((gb + rb).take(4) == gb);
        assert((ga + ra).skip(4) == ra);
        assert((gb + rb).skip(4) == rb);
        lemma_group_injective(a.take(3), b.take(3));
        lemma_unpadded_injective(a.skip(3), b.skip(3));
        assert(a =~= a.take(3) + a.skip(3));
        assert(b =~= b.take(3) + b.skip(3));
    } else if a.len() <= 3 && b.len() <= 3 {
        lemma_group_injective(a, b);
    }
}

/// Different bytes have different (padded) base64 text.
pub proof fn lemma_base64_injective(a: Seq<u8>, b: Seq<u8>)
    requires
        spec_base64_encode(a) == spec_base64_encode(b),
    ensures
        a == b,
{
    let ua = spec_base64_unpadded(a);
    let ub = spec_base64_unpadded(b);
    let ea = spec_base64_encode(a);
    lemma_unpadded_digits(a);
    lemma_unpadded_digits(b);
    let pa = ea.len() - ua.len();
    let pb = ea.len() - ub.len();
    assert(ea.subrange(0, ua.len() as int) == ua);
    assert(spec_base64_encode(b).subrange(0, ub.len() as int) == ub);
    assert forall|i: int| ua.len() <= i < ea.len() implies ea[i] == '=' by {}
    assert forall|i: int| ub.len() <= i < ea.len() implies ea[i] == '=' by {
        assert(spec_base64_encode(b)[i] == '=');
    }
    if ua.len() < ub.len() {
        let i = ua.len() as int;
        assert(ea[i] == ub[i]);
        assert(is_b64_digit(ub[i]));
    } else if ub.len() < ua.len() {
        let i = ub.len() as int;
        assert(ea[i] == ua[i]);
        assert(is_b64_digit(ua[i]));
    } else {
        assert(ua == ub);
        lemma_unpadded_injective(a, b);
    }
}

/// Base64 text decodes back to the bytes it was made from.
pub proof fn lemma_base64_round_trip(data: Seq<u8>)
    ensures
        spec_base64_decode(spec_base64_encode(data)) == Some(data),
{
    let s = spec_base64_encode(data);
    assert(spec_base64_encode(data) == s);
    let c = choose|b: Seq<u8>| spec_base64_encode(b) == s;
    lemma_base64_injective(c, data);
}

/// Unpadded text of whole groups followed by a last group of one to three
/// bytes is the two texts one after the other.
proof fn lemma_unpadded_append(a: Seq<u8>, g: Seq<u8>)
    requires
        a.len() % 3 == 0,
        1 <= g.len() <= 3,
    ensures
        spec_base64_unpadded(a + g) == spec_base64_unpadded(a) + b64_group(g),
    decreases a.len(),
{
    if a.len() == 0 {
        assert(a + g == g);
        assert(spec_base64_unpadded(a) == Seq::<char>::empty());
    } else {
        assert((a + g).take(3) == a.take(3));
        assert((a + g).skip(3) == a.skip(3) + g);
        lemma_unpadded_append(a.skip(3), g);
        if a.len() == 3 {
            assert(a.take(3) == a);
            assert(a.skip(3).len() == 0);
            assert(spec_base64_unpadded(a.skip(3)) == Seq::<char>::empty());
            assert(a.skip(3) + g == g);
        }
    }
}

/// The standard base64 digit for `n`.
fn b64_digit_char(n: u8) -> (c: char)
    requires
        n < 64,
    ensures
        c == b64_digit(n as int),
{
    if n < 26 {
        (65 + n) as char
    } else if n < 52 {
        (71 + n) as char
    } else if n < 62 {
        (n - 4) as char
    } else if n == 62 {
        '+'
    } else {
        '/'
    }
}

/// The canonical padded standard base64 text of `data` (as
/// `base64::engine::general_purpose::STANDARD.encode` writes it).
pub(crate) fn base64_encode(data: &[u8]) -> (s: String)
    ensures
        s@ == spec_base64_encode(data@),
{
    let n = data.len();
    let mut s = String::new();
    let mut i: usize = 0;
    assert(data@.take(0) == Seq::<u8>::empty());
    while n - i >= 3
        invariant
            n == data@.len(),
            i % 3 == 0,
            i <= n,
            s@ == spec_base64_unpadded(data@.take(i as int)),
        decreases n - i,
    {
        let (b0, b1, b2) = (data[i], data[i + 1], data[i + 2]);
        proof {
            let g = data@.subrange(i as int, i + 3);
            assert(data@.take(i as int) + g == data@.take(i + 3));
            lemma_unpadded_append(data@.take(i as int), g);
            assert(g[0] == b0 && g[1] == b1 && g[2] == b2);
        }
        push_char(&mut s, b64_digit_char(b0 / 4));
        push_char(&mut s, b64_digit_char((b0 % 4) * 16 + b1 / 16));
        push_char(&mut s, b64_digit_char((b1 % 16) * 4 + b2 / 64));
        push_char(&mut s, b64_digit_char(b2 % 64));
        i = i + 3;
    }
    let ghost head = data@.take(i as int);
    if n - i == 1 {
        let b0 = data[i];
        proof {
            let g = data@.subrange(i as int, n as int);
            assert(head + g == data@);
            lemma_unpadded_append(head, g);
            assert(g[0] == b0);
        }
        push_char(&mut s, b64_digit_char(b0 / 4));
        push_char(&mut s, b64_digit_char((b0 % 4) * 16));
        push_char(&mut s, '=');
        push_char(&mut s, '=');
    } else if n - i == 2 {
        let (b0, b1) = (data[i], data[i + 1]);
        proof {
            let g = data@.subrange(i as int, n as int);
            assert(head + g == data@);
            lemma_unpadded_append(head, g);
            assert(g[0] == b0 && g[1] == b1);
        }
        push_char(&mut s, b64_digit_char(b0 / 4));
        push_char(&mut s, b64_digit_char((b0 % 4) * 16 + b1 / 16));
        push_char(&mut s, b64_digit_char((b1 % 16) * 4));
        push_char(&mut s, '=');
    } else {
        assert(head == data@);
    }
    s
}

/// `base64::engine::general_purpose::STANDARD.decode`.
#[verifier::external_body]
pub(crate) fn base64_decode(s: &str) -> (r: Result<Vec<u8>, String>)
    ensures
        r is Ok <==> spec_base64_decode(s@) is Some,
        r is Ok ==> r->Ok_0@ == spec_base64_decode(s@)->Some_0,
{
    base64::engine::general_purpose::STANDARD.decode(s).map_err(|e| e.to_string())
}

/// What SHA-256 of `data` is.
pub uninterp spec fn spec_sha256(data: Seq<u8>) -> Seq<u8>;

/// `sha2::Sha256::digest`: the 32-byte SHA-256 digest of `data`.
#[verifier::external_body]
pub(crate) fn sha256(data: &[u8]) -> (d: Vec<u8>)
    ensures
        d@ == spec_sha256(data@),
        d@.len() == 32,
{
    sha2::Sha256::digest(data).to_vec()
}

/// `n` bytes from the operating system's random source (`OsRng`); nothing
/// is claimed of their values.
#[verifier::external_body]
pub(crate) fn random_bytes(n: usize) -> (b: Vec<u8>)
    ensures
        b@.len() == n,
{
    let mut bytes = vec![0u8; n];
    chacha20poly1305::aead::rand_core::OsRng.fill_bytes(&mut bytes);
    bytes
}

/// Whether `s` is lowercase hex text of `n` bytes.
pub open spec fn is_hex_of_len(s: Seq<char>, n: nat) -> bool {
    exists|b: Seq<u8>| b.len() == n && s == #[trigger] spec_hex(b)
}

/// `len` fresh random bytes, as lowercase hex text.
pub fn random_hex(len: usize) -> (s: String)
    ensures
        is_hex_of_len(s@, len as nat),
{
    let bytes = random_bytes(len);
    let s = hex_encode(bytes.as_slice());
    assert(bytes@.len() == len && s@ == spec_hex(bytes@));
    s
}

/// A fresh random key for encrypting this device's local ratchet state at
/// rest: 32 random bytes, as hex. Deliberately not derived from the
/// mnemonic — it must differ per device.
pub fn generate_local_storage_key() -> (key: String)
    ensures
        is_hex_of_len(key@, 32),
{
    random_hex(32)
}

/// The hex text of any bytes is twice as long.
pub proof fn lemma_hex_len(b: Seq<u8>)
    ensures
        spec_hex(b).len() == 2 * b.len(),
    decreases b.len(),
{
    if b.len() > 0 {
        lemma_hex_len(b.drop_first());
    }
}

/// Whether `c` is a lowercase hex digit.
pub open spec fn is_lower_hex(c: char) -> bool {
    ('0' <= c <= '9') || ('a' <= c <= 'f')
}

/// Hex text is made of lowercase hex digits only.
pub proof fn lemma_hex_lower(b: Seq<u8>)
    ensures
        forall|i: int| 0 <= i < spec_hex(b).len() ==> is_lower_hex(#[trigger] spec_hex(b)[i]),
    decreases b.len(),
{
    if b.len() > 0 {
        lemma_hex_lower(b.drop_first());
        let h = seq![hex_digit(b[0] as int / 16), hex_digit(b[0] as int % 16)];
        let r = spec_hex(b.drop_first());
        assert(is_lower_hex(h[0]) && is_lower_hex(h[1]));
        assert forall|i: int| 0 <= i < (h + r).len() implies is_lower_hex(#[trigger] (h + r)[i]) by {
            if i < 2 {
                assert((h + r)[i] == h[i]);
            } else {
                assert((h + r)[i] == r[i - 2]);
            }
        }
    }
}

/// Hex text spells back the bytes it was made from.
pub proof fn lemma_unhex_hex(b: Seq<u8>)
    ensures
        spec_unhex(spec_hex(b)) == Some(b),
    decreases b.len(),
{
    if b.len() > 0 {
        let s = spec_hex(b);
        let t = b.drop_first();
        lemma_unhex_hex(t);
        lemma_hex_len(b);
        lemma_hex_len(t);
        assert(s.skip(2) == spec_hex(t));
        let h = b[0] as int / 16;
        let l = b[0] as int % 16;
        assert(hex_value(hex_digit(h)) == Some(h));
        assert(hex_value(hex_digit(l)) == Some(l));
        assert((h * 16 + l) as u8 == b[0]);
        assert(seq![b[0]] + t == b);
    } else {
        assert(spec_hex(b) == Seq::<char>::empty());
    }
}

/// The 32 bytes a 64-digit hex key spells; any other input is refused.
pub open spec fn spec_hex32(s: Seq<char>) -> Option<Seq<u8>> {
    match spec_unhex(s) {
        Some(b) => if b.len() == 32 {
            Some(b)
        } else {
            None
        },
        None => None,
    }
}

/// Parses a hex-encoded 32-byte key.
pub fn hex32(s: &str) -> (r: Result<[u8; 32], String>)
    ensures
        r is Ok <==> spec_hex32(s@) is Some,
        r is Ok ==> r->Ok_0@ == spec_hex32(s@)->Some_0,
        spec_unhex(s@) is Some && spec_hex32(s@) is None ==> r->Err_0@ == "expected 32 bytes"@,
{
    let bytes = hex_decode(s)?;
    if bytes.len() != 32 {
        return Err(String::from_str("expected 32 bytes"));
    }
    let mut out = [0u8; 32];
    let mut i: usize = 0;
    while i < 32
        invariant
            bytes@.len() == 32,
            i <= 32,
            out@.len() == 32,
            forall|j: int| 0 <= j < i ==> #[trigger] out@[j] == bytes@[j],
        decreases 32 - i,
    {
        out[i] = bytes[i];
        i = i + 1;
    }
    assert(out@ =~= bytes@);
    Ok(out)
}

/// What XChaCha20-Poly1305 under `key` with `nonce` makes of `plaintext`
/// (ciphertext followed by the tag).
pub uninterp spec fn spec_xchacha_seal(key: Seq<u8>, nonce: Seq<u8>, plaintext: Seq<u8>) -> Seq<u8>;

/// What XChaCha20-Poly1305 decryption under `key` with `nonce` makes of
/// `ciphertext`: the plaintext, or nothing when authentication fails.
pub uninterp spec fn spec_xchacha_open(key: Seq<u8>, nonce: Seq<u8>, ciphertext: Seq<u8>) -> Option<
    Seq<u8>,
>;

/// Largest plaintext XChaCha20-Poly1305 accepts.
pub const XCHACHA_MAX_PLAINTEXT: u64 = 274877906879;

/// `XChaCha20Poly1305::encrypt` (no associated data): the ciphertext is the
/// plaintext's length plus a 16-byte tag, and decrypting it with the same
/// key and nonce gives the plaintext back.
#[verifier::external_body]
pub(crate) fn xchacha_seal(key: &[u8; 32], nonce: &[u8; 24], plaintext: &[u8]) -> (c: Vec<u8>)
    requires
        plaintext@.len() <= XCHACHA_MAX_PLAINTEXT,
    ensures
        c@ == spec_xchacha_seal(key@, nonce@, plaintext@),
        c@.len() == plaintext@.len() + 16,
        spec_xchacha_open(key@, nonce@, c@) == Some(plaintext@),
{
    let cipher = chacha20poly1305::XChaCha20Poly1305::new(key.into());
    cipher.encrypt(nonce.into(), plaintext).expect("plaintext within the cipher's length limit")
}

/// `XChaCha20Poly1305::decrypt` (no associated data).
#[verifier::external_body]
pub(crate) fn xchacha_open(key: &[u8; 32], nonce: &[u8; 24], ciphertext: &[u8]) -> (r: Option<Vec<u8>>)
    ensures
        r is Some <==> spec_xchacha_open(key@, nonce@, ciphertext@) is Some,
        r is Some ==> r->Some_0@ == spec_xchacha_open(key@, nonce@, ciphertext@)->Some_0,
{
    let cipher = chacha20poly1305::XChaCha20Poly1305::new(key.into());
    cipher.decrypt(nonce.into(), ciphertext).ok()
}

/// Encrypts `plaintext` for storage on this device: a fresh random 24-byte
/// nonce followed by the sealed data.
pub fn encrypt_at_rest(local_key: &[u8; 32], plaintext: &[u8]) -> (data: Vec<u8>)
    requires
        plaintext@.len() <= XCHACHA_MAX_PLAINTEXT,
    ensures
        data@.len() == 24 + plaintext@.len() + 16,
        spec_xchacha_seal(local_key@, data@.take(24), plaintext@) == data@.skip(24),
        spec_xchacha_open(local_key@, data@.take(24), data@.skip(24)) == Some(plaintext@),
{
    let random = random_bytes(24);
    let mut nonce = [0u8; 24];
    let mut i: usize = 0;
    while i < 24
        invariant
            random@.len() == 24,
            i <= 24,
            nonce@.len() == 24,
            forall|j: int| 0 <= j < i ==> #[trigger] nonce@[j] == random@[j],
        decreases 24 - i,
    {
        nonce[i] = random[i];
        i = i + 1;
    }
    let sealed = xchacha_seal(local_key, &nonce, plaintext);
    let mut out: Vec<u8> = Vec::new();
    let mut i: usize = 0;
    while i < 24
        invariant
            i <= 24,
            nonce@.len() == 24,
            out@ == nonce@.take(i as int),
        decreases 24 - i,
    {
        out.push(nonce[i]);
        i = i + 1;
    }
    let mut j: usize = 0;
    while j < sealed.len()
        invariant
            j <= sealed@.len(),
            nonce@.len() == 24,
            out@ == nonce@ + sealed@.take(j as int),
        decreases sealed@.len() - j,
    {
        out.push(sealed[j]);
        j = j + 1;
    }
    proof {
        assert(nonce@.take(24) == nonce@);
        assert(sealed@.take(sealed@.len() as int) == sealed@);
        assert(out@.take(24) == nonce@);
        assert(out@.skip(24) == sealed@);
    }
    out
}

/// What stored at-rest `data` decrypts to under `local_key`: too-short data
/// is refused as corrupt; otherwise its first 24 bytes are the nonce and the
/// rest must authenticate.
pub open spec fn spec_decrypt_at_rest(local_key: Seq<u8>, data: Seq<u8>) -> Option<Seq<u8>> {
    if data.len() < 24 {
        None
    } else {
        spec_xchacha_open(local_key, data.take(24), data.skip(24))
    }
}

/// Decrypts data written by [encrypt_at_rest].
pub fn decrypt_at_rest(local_key: &[u8; 32], data: &[u8]) -> (r: Result<Vec<u8>, String>)
    ensures
        r is Ok <==> spec_decrypt_at_rest(local_key@, data@) is Some,
        r is Ok ==> r->Ok_0@ == spec_decrypt_at_rest(local_key@, data@)->Some_0,
        data@.len() < 24 ==> r->Err_0@ == "corrupt local ratchet storage"@,
        data@.len() >= 24 && r is Err ==> r->Err_0@ == "aead::Error"@,
{
    if data.len() < 24 {
        return Err(String::from_str("corrupt local ratchet storage"));
    }
    let mut nonce = [0u8; 24];
    let mut i: usize = 0;
    while i < 24
        invariant
            data@.len() >= 24,
            i <= 24,
            nonce@.len() == 24,
            forall|j: int| 0 <= j < i ==> #[trigger] nonce@[j] == data@[j],
        decreases 24 - i,
    {
        nonce[i] = data[i];
        i = i + 1;
    }
    let mut rest: Vec<u8> = Vec::new();
    let mut j: usize = 24;
    while j < data.len()
        invariant
            24 <= j <= data@.len(),
            rest@ == data@.subrange(24, j as int),
        decreases data@.len() - j,
    {
        rest.push(data[j]);
        j = j + 1;
    }
    proof {
        assert(nonce@ =~= data@.take(24));
        assert(rest@ =~= data@.skip(24));
    }
    match xchacha_open(local_key, &nonce, rest.as_slice()) {
        Some(p) => Ok(p),
        None => Err(String::from_str("aead::Error")),
    }
}

/// Whatever [encrypt_at_rest] wrote decrypts back to the same plaintext
/// under the same key.
pub proof fn lemma_at_rest_round_trip(local_key: Seq<u8>, plaintext: Seq<u8>, data: Seq<u8>)
    requires
        data.len() == 24 + plaintext.len() + 16,
        spec_xchacha_open(local_key, data.take(24), data.skip(24)) == Some(plaintext),
    ensures
        spec_decrypt_at_rest(local_key, data) == Some(plaintext),
{
}

} // verus!
