use base64::Engine;
use whalescale::keys::{decode_key, key_from_bytes, WgKeypair};

#[test]
fn generates_distinct_32_byte_base64_keys() {
    let b64 = base64::engine::general_purpose::STANDARD;
    let kp = WgKeypair::generate();
    assert_eq!(b64.decode(&kp.private_key).unwrap().len(), 32);
    assert_eq!(b64.decode(&kp.public_key).unwrap().len(), 32);
    assert_ne!(kp.private_key, kp.public_key);
    assert_ne!(WgKeypair::generate().private_key, kp.private_key);
}

#[test]
fn decode_key_accepts_exactly_32_bytes() {
    let b64 = base64::engine::general_purpose::STANDARD;
    assert_eq!(decode_key(&b64.encode([7u8; 32])), Some([7u8; 32]));
    assert_eq!(decode_key(&b64.encode([7u8; 31])), None);
    assert_eq!(decode_key("not base64!"), None);
    assert_eq!(key_from_bytes(&[1u8; 33]), None);
}

#[test]
fn keypair_from_secret_is_deterministic() {
    let a = WgKeypair::from_secret([9u8; 32]);
    let b = WgKeypair::from_secret([9u8; 32]);
    assert_eq!(a.public_key, b.public_key);
    assert_eq!(decode_key(&a.private_key), Some([9u8; 32]));
    assert_ne!(a.public_key, a.private_key);
}

#[test]
fn private_key_text_is_standard_padded_base64() {
    let kp = WgKeypair::from_secret([0u8; 32]);
    assert_eq!(kp.private_key, format!("{}=", "A".repeat(43)));
    let kp = WgKeypair::from_secret([0xffu8; 32]);
    assert_eq!(kp.private_key, format!("{}8=", "/".repeat(42)));
}
