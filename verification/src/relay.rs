//! DERP-style relay: the frame format used between relay and clients, and the
//! relay's registry of connected clients.
//!
//! The first message a client sends is a hello carrying its WireGuard public
//! key and a session token; every later message is a binary frame
//! `[u8 key_len][key bytes (UTF-8)][payload...]`. Client to relay, the key is
//! the destination peer; relay to client, it is the source peer.

use vstd::prelude::*;
use vstd::utf8::{decode_utf8, encode_utf8, valid_utf8};
use crate::text::utf8_to_string;

verus! {

/// First message a client sends to register on the relay.
#[derive(Debug, Clone, PartialEq, Eq)]
pub struct RelayHello {
    /// This client's WireGuard public key (base64).
    pub public_key: String,
    /// Session token (coordinator-issued JWT) for authorization.
    pub token: String,
}

/// The bytes of a frame addressed to / originating from `key`. The key's
/// byte length is stored in one byte (so only its low 8 bits survive).
pub open spec fn frame_bytes(key: Seq<char>, payload: Seq<u8>) -> Seq<u8> {
    seq![(encode_utf8(key).len() % 256) as u8] + encode_utf8(key) + payload
}

/// The `(key, payload)` a frame carries: `None` when it is empty, shorter
/// than its declared key, or the key is not UTF-8.
pub open spec fn frame_contents(buf: Seq<u8>) -> Option<(Seq<char>, Seq<u8>)> {
    if buf.len() == 0 {
        None
    } else {
        let key_end = 1 + buf[0] as int;
        if buf.len() < key_end {
            None
        } else if !valid_utf8(buf.subrange(1, key_end)) {
            None
        } else {
            Some((decode_utf8(buf.subrange(1, key_end)), buf.subrange(key_end, buf.len() as int)))
        }
    }
}

/// Encode a relay frame addressed to / originating from `key`.
pub fn encode_frame(key: &str, payload: &[u8]) -> (r: Vec<u8>)
    ensures
        r@ == frame_bytes(key@, payload@),
{
    let key_bytes = key.as_bytes();
    let mut buf: Vec<u8> = Vec::new();
    buf.push((key_bytes.len() % 256) as u8);
    let mut i: usize = 0;
    while i < key_bytes.len()
        invariant
            i <= key_bytes@.len(),
            buf@ == seq![(key_bytes@.len() % 256) as u8] + key_bytes@.subrange(0, i as int),
        decreases key_bytes.len() - i,
    {
        buf.push(key_bytes[i]);
        i = i + 1;
        assert(buf@ =~= seq![(key_bytes@.len() % 256) as u8] + key_bytes@.subrange(0, i as int));
    }
    let ghost head = buf@;
    let mut k: usize = 0;
    while k < payload.len()
        invariant
            k <= payload@.len(),
            buf@ == head + payload@.subrange(0, k as int),
        decreases payload.len() - k,
    {
        buf.push(payload[k]);
        k = k + 1;
        assert(buf@ =~= head + payload@.subrange(0, k as int));
    }
    assert(key_bytes@.subrange(0, key_bytes@.len() as int) =~= key_bytes@);
    assert(payload@.subrange(0, payload@.len() as int) =~= payload@);
    assert(buf@ =~= frame_bytes(key@, payload@));
    buf
}

fn copy_range(buf: &[u8], start: usize, end: usize) -> (r: Vec<u8>)
    requires
        start <= end <= buf@.len(),
    ensures
        r@ == buf@.subrange(start as int, end as int),
{
    let mut out: Vec<u8> = Vec::new();
    let mut i: usize = start;
    while i < end
        invariant
            start <= i <= end <= buf@.len(),
            out@ == buf@.subrange(start as int, i as int),
        decreases end - i,
    {
        out.push(buf[i]);
        i = i + 1;
        assert(out@ =~= buf@.subrange(start as int, i as int));
    }
    out
}

/// Decode a relay frame into `(key, payload)`.
pub fn decode_frame(buf: &[u8]) -> (r: Option<(String, Vec<u8>)>)
    ensures
        match frame_contents(buf@) {
            None => r is None,
            Some((k, p)) => r matches Some((key, payload)) && key@ == k && payload@ == p,
        },
{
    if buf.len() == 0 {
        return None;
    }
    let key_len = buf[0] as usize;
    let key_end = 1 + key_len;
    if buf.len() < key_end {
        return None;
    }
    let key_bytes = copy_range(buf, 1, key_end);
    let key = match utf8_to_string(key_bytes.as_slice()) {
        Some(k) => k,
        None => return None,
    };
    let payload = copy_range(buf, key_end, buf.len());
    Some((key, payload))
}

/// A frame built for a key of fewer than 256 bytes decodes to that key and
/// payload.
pub proof fn lemma_frame_roundtrip(key: Seq<char>, payload: Seq<u8>)
    requires
        encode_utf8(key).len() < 256,
    ensures
        frame_contents(frame_bytes(key, payload)) == Some((key, payload)),
{
    let kb = encode_utf8(key);
    let b = frame_bytes(key, payload);
    assert(b[0] as int == kb.len());
    assert(b.subrange(1, 1 + kb.len() as int) =~= kb);
    assert(b.subrange(1 + kb.len() as int, b.len() as int) =~= payload);
    vstd::utf8::encode_utf8_valid_utf8(key);
    vstd::utf8::encode_utf8_decode_utf8(key);
}

} // verus!
