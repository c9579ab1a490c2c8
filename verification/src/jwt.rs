//! Signed session tokens (JWT, HS256): where a token's signature lies, and
//! the check of that signature against a shared secret.

use vstd::prelude::*;
use crate::text::{chars_of, slice_chars, string_from_chars};

verus! {

/// How many times `c` occurs in `s`.
pub open spec fn count_char(s: Seq<char>, c: char) -> nat
    decreases s.len(),
{
    if s.len() == 0 {
        0
    } else {
        count_char(s.drop_last(), c) + if s.last() == c { 1nat } else { 0nat }
    }
}

/// The index of the last occurrence of `c` in `s`.
pub open spec fn last_index_of(s: Seq<char>, c: char) -> Option<int>
    decreases s.len(),
{
    if s.len() == 0 {
        None
    } else if s.last() == c {
        Some(s.len() - 1)
    } else {
        last_index_of(s.drop_last(), c)
    }
}

/// Whether `signature` is the HS256 signature, under the secret `secret`
/// (its UTF-8 bytes), of the text `message`.
pub uninterp spec fn hs256_signature_ok(secret: Seq<char>, message: Seq<char>, signature: Seq<char>) -> bool;

/// Whether the signature of `token` (the text after its last dot) signs the
/// rest of it (`header.payload`) under `secret`, as `jsonwebtoken::decode`
/// checks before it looks at the claims; false for a token without a dot.
pub open spec fn jwt_signature_ok(secret: Seq<char>, token: Seq<char>) -> bool {
    match last_index_of(token, '.') {
        Some(i) => hs256_signature_ok(secret, token.subrange(0, i), token.subrange(i + 1, token.len() as int)),
        None => false,
    }
}

/// `jsonwebtoken::crypto::verify` of `signature` over the bytes of
/// `message`, with the HMAC key of `secret` and HS256: it signs the message
/// again and compares. Its error (which HMAC signing never returns) counts
/// as a mismatch.
#[verifier::external_body]
fn hs256_verify(secret: &str, message: &str, signature: &str) -> (r: bool)
    ensures
        r == hs256_signature_ok(secret@, message@, signature@),
{
    let key = jsonwebtoken::DecodingKey::from_secret(secret.as_bytes());
    jsonwebtoken::crypto::verify(signature, message.as_bytes(), &key, jsonwebtoken::Algorithm::HS256).unwrap_or(false)
}

/// Whether the signature of `token` is valid under `secret`.
pub fn signature_valid(secret: &str, token: &str) -> (r: bool)
    ensures
        r == jwt_signature_ok(secret@, token@),
{
    let cs = chars_of(token);
    let mut i = cs.len();
    assert(cs@.take(i as int) =~= cs@);
    while i > 0
        invariant
            i <= cs@.len(),
            cs@ == token@,
            last_index_of(token@, '.') == last_index_of(cs@.take(i as int), '.'),
        decreases i,
    {
        assert(cs@.take(i as int).drop_last() =~= cs@.take(i - 1));
        if cs[i - 1] == '.' {
            let message = string_from_chars(&slice_chars(&cs, 0, i - 1));
            let signature = string_from_chars(&slice_chars(&cs, i, cs.len()));
            return hs256_verify(secret, message.as_str(), signature.as_str());
        }
        i = i - 1;
    }
    false
}

} // verus!
