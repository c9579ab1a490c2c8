//! WireGuard (Curve25519) keys and their base64 text, the form `wg` uses.

use vstd::prelude::*;
use base64::Engine;

verus! {

/// The character of a 6-bit value in the standard base64 alphabet
/// (`A`-`Z`, `a`-`z`, `0`-`9`, `+`, `/`).
pub open spec fn base64_digit(v: int) -> char {
    if v < 26 {
        ('A' as int + v) as char
    } else if v < 52 {
        ('a' as int + (v - 26)) as char
    } else if v < 62 {
        ('0' as int + (v - 52)) as char
    } else if v == 62 {
        '+'
    } else {
        '/'
    }
}

/// The standard base64 text (RFC 4648, with `=` padding) of some bytes: each
/// group of three bytes becomes four characters, six bits each, a final
/// group of one or two bytes being padded to four characters.
pub open spec fn base64_text(bytes: Seq<u8>) -> Seq<char>
    decreases bytes.len(),
{
    if bytes.len() == 0 {
        seq![]
    } else if bytes.len() == 1 {
        let a = bytes[0] as int;
        seq![base64_digit(a / 4), base64_digit((a % 4) * 16), '=', '=']
    } else if bytes.len() == 2 {
        let (a, b) = (bytes[0] as int, bytes[1] as int);
        seq![base64_digit(a / 4), base64_digit((a % 4) * 16 + b / 16), base64_digit((b % 16) * 4), '=']
    } else {
        let (a, b, c) = (bytes[0] as int, bytes[1] as int, bytes[2] as int);
        seq![
            base64_digit(a / 4),
            base64_digit((a % 4) * 16 + b / 16),
            base64_digit((b % 16) * 4 + c / 64),
            base64_digit(c % 64),
        ] + base64_text(bytes.subrange(3, bytes.len() as int))
    }
}

/// The bytes standard base64 text decodes to; `None` when it is not valid
/// base64.
pub uninterp spec fn base64_bytes(text: Seq<char>) -> Option<Seq<u8>>;

/// The X25519 public key of a secret key (the base point multiplied by the
/// clamped secret).
pub uninterp spec fn x25519_public(secret: Seq<u8>) -> Seq<u8>;

/// Encode bytes with `base64`'s standard engine. What the engine encodes, it
/// decodes back.
#[verifier::external_body]
fn b64_encode(bytes: &[u8]) -> (r: String)
    ensures
        r@ == base64_text(bytes@),
        base64_bytes(r@) == Some(bytes@),
{
    base64::engine::general_purpose::STANDARD.encode(bytes)
}

/// Decode text with `base64`'s standard engine.
#[verifier::external_body]
fn b64_decode(text: &str) -> (r: Option<Vec<u8>>)
    ensures
        r matches Some(v) ==> base64_bytes(text@) == Some(v@),
        r is None ==> base64_bytes(text@) is None,
{
    base64::engine::general_purpose::STANDARD.decode(text).ok()
}

/// 32 bytes from the operating system's CSPRNG (`rand::random`).
#[verifier::external_body]
fn random_key_bytes() -> (r: [u8; 32]) {
    rand::random()
}

/// The public key of a secret key: `boringtun`'s `x25519::PublicKey::from` a
/// `StaticSecret` holding the bytes.
#[verifier::external_body]
fn public_key_bytes(secret: &[u8; 32]) -> (r: [u8; 32])
    ensures
        r@ == x25519_public(secret@),
{
    let s = boringtun::x25519::StaticSecret::from(*secret);
    boringtun::x25519::PublicKey::from(&s).to_bytes()
}

/// The 32 bytes of a key, when `bytes` has exactly that many.
pub fn key_from_bytes(bytes: &[u8]) -> (r: Option<[u8; 32]>)
    ensures
        r is Some <==> bytes@.len() == 32,
        r matches Some(k) ==> k@ == bytes@,
{
    if bytes.len() != 32 {
        return None;
    }
    let mut k: [u8; 32] = [0u8; 32];
    let mut i: usize = 0;
    while i < 32
        invariant
            i <= 32,
            bytes@.len() == 32,
            forall|j: int| 0 <= j < i ==> k@[j] == bytes@[j],
        decreases 32 - i,
    {
        k[i] = bytes[i];
        i = i + 1;
    }
    assert(k@ =~= bytes@);
    Some(k)
}

/// Decode a base64 key into exactly 32 bytes (the WireGuard key size).
pub fn decode_key(b64: &str) -> (r: Option<[u8; 32]>)
    ensures
        r is Some <==> (base64_bytes(b64@) matches Some(b) && b.len() == 32),
        r matches Some(k) ==> base64_bytes(b64@) == Some(k@),
{
    match b64_decode(b64) {
        Some(bytes) => key_from_bytes(bytes.as_slice()),
        None => None,
    }
}

/// A WireGuard keypair, base64-encoded the way `wg` expects.
#[derive(Debug, Clone)]
pub struct WgKeypair {
    pub private_key: String,
    pub public_key: String,
}

/// `kp` holds the base64 text of the 32-byte secret `secret` and of its
/// public key.
pub open spec fn keypair_of(kp: WgKeypair, secret: Seq<u8>) -> bool {
    &&& secret.len() == 32
    &&& kp.private_key@ == base64_text(secret)
    &&& kp.public_key@ == base64_text(x25519_public(secret))
}

impl WgKeypair {
    /// The keypair of a 32-byte secret.
    pub fn from_secret(secret: [u8; 32]) -> (r: WgKeypair)
        ensures
            keypair_of(r, secret@),
            base64_bytes(r.private_key@) == Some(secret@),
            base64_bytes(r.public_key@) == Some(x25519_public(secret@)),
            x25519_public(secret@).len() == 32,
    {
        let public = public_key_bytes(&secret);
        WgKeypair { private_key: b64_encode(&secret), public_key: b64_encode(&public) }
    }

    /// Generate a fresh keypair from the OS CSPRNG.
    pub fn generate() -> (r: WgKeypair)
        ensures
            exists|s: Seq<u8>| #[trigger] keypair_of(r, s),
            base64_bytes(r.private_key@) matches Some(b) && b.len() == 32,
            base64_bytes(r.public_key@) matches Some(b) && b.len() == 32,
    {
        let secret = random_key_bytes();
        let r = WgKeypair::from_secret(secret);
        assert(keypair_of(r, secret@));
        r
    }
}

} // verus!
