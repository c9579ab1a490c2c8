use std::time::{SystemTime, UNIX_EPOCH};

use jsonwebtoken::{encode, EncodingKey, Header};
use whalescale::auth::{
    bearer_token, check_login, generate_key, hash_auth_key, hash_password, issue_admin_token,
    issue_session_token, verify_admin_token, verify_password, verify_session_token, AppError,
};
use whalescale::roles::Role;

fn signed(secret: &str, fields: Vec<(&str, serde_json::Value)>) -> String {
    let mut claims = serde_json::Map::new();
    for (k, v) in fields {
        claims.insert(k.to_string(), v);
    }
    encode(&Header::default(), &serde_json::Value::Object(claims), &EncodingKey::from_secret(secret.as_bytes())).unwrap()
}

fn in_an_hour() -> i64 {
    SystemTime::now().duration_since(UNIX_EPOCH).unwrap().as_secs() as i64 + 3600
}

#[test]
fn password_hash_roundtrip() {
    let hash = hash_password("correct horse battery staple").unwrap();
    assert!(verify_password("correct horse battery staple", &hash));
    assert!(!verify_password("wrong password", &hash));
}

#[test]
fn generated_key_is_consistent() {
    let k = generate_key([0xab; 24]);
    assert!(k.raw.starts_with("ws-"));
    assert!(k.raw.starts_with(&k.prefix));
    assert_eq!(k.prefix.len(), 11); // "ws-" + 8 hex chars
    assert_eq!(k.hash, hash_auth_key(&k.raw));
    // The stored hash is never the raw secret.
    assert_ne!(k.hash, k.raw);
}

#[test]
fn distinct_inputs_produce_distinct_keys() {
    let a = generate_key([1u8; 24]);
    let b = generate_key([2u8; 24]);
    assert_ne!(a.raw, b.raw);
    assert_ne!(a.hash, b.hash);
    assert_ne!(a.prefix, b.prefix);
}

#[test]
fn auth_key_hash_is_sha256_hex() {
    assert_eq!(hash_auth_key("abc"), "ba7816bf8f01cfea414140de5dae2223b00361a396177a9cb410ff61f20015ad");
    assert_eq!(generate_key([0u8; 24]).raw, format!("ws-{}", "00".repeat(24)));
    assert_eq!(generate_key([0xab; 24]).prefix, "ws-abababab");
}

#[test]
fn login_requires_a_verifying_hash() {
    let hash = hash_password("pw").unwrap();
    assert_eq!(check_login("pw", Some(&hash)), Ok(()));
    assert_eq!(check_login("other", Some(&hash)), Err(AppError::Unauthorized));
    assert_eq!(check_login("pw", None), Err(AppError::Unauthorized));
    assert_eq!(check_login("pw", Some("not-a-phc-string")), Err(AppError::Unauthorized));
}

#[test]
fn bearer_header_parsing() {
    assert_eq!(bearer_token("Bearer abc.def"), Some("abc.def".to_string()));
    assert_eq!(bearer_token("Basic abc"), None);
    assert_eq!(bearer_token("Bearer "), Some(String::new()));
}

#[test]
fn hand_signed_admin_token_verifies() {
    let uid = uuid::Uuid::new_v4();
    let tid = uuid::Uuid::new_v4();
    let token = signed("secret", vec![
        ("sub", serde_json::Value::String(uid.to_string())),
        ("tenant", serde_json::Value::String(tid.to_string())),
        ("role", serde_json::Value::String("admin".to_string())),
        ("kind", serde_json::Value::String("admin".to_string())),
        ("exp", serde_json::Value::from(in_an_hour())),
    ]);
    let session = verify_admin_token("secret", &token).unwrap();
    assert_eq!(session.user_id, uid.as_u128());
    assert_eq!(session.tenant_id, tid.as_u128());
    assert_eq!(session.role, Role::Admin);
    assert_eq!(verify_admin_token("other", &token), Err(AppError::Unauthorized));
}

#[test]
fn admin_token_of_another_kind_or_role_is_refused() {
    let uid = uuid::Uuid::new_v4().to_string();
    let agent_kind = signed("s", vec![
        ("sub", serde_json::Value::String(uid.clone())),
        ("tenant", serde_json::Value::String(uid.clone())),
        ("role", serde_json::Value::String("owner".to_string())),
        ("kind", serde_json::Value::String("agent".to_string())),
        ("exp", serde_json::Value::from(in_an_hour())),
    ]);
    assert_eq!(verify_admin_token("s", &agent_kind), Err(AppError::Unauthorized));
    let bad_role = signed("s", vec![
        ("sub", serde_json::Value::String(uid.clone())),
        ("tenant", serde_json::Value::String(uid)),
        ("role", serde_json::Value::String("root".to_string())),
        ("kind", serde_json::Value::String("admin".to_string())),
        ("exp", serde_json::Value::from(in_an_hour())),
    ]);
    assert_eq!(verify_admin_token("s", &bad_role), Err(AppError::Unauthorized));
}

#[test]
fn session_token_roundtrip_and_refusals() {
    let dev = uuid::Uuid::new_v4();
    let ten = uuid::Uuid::new_v4();
    let exp = in_an_hour();
    let token = signed("k", vec![
        ("sub", serde_json::Value::String(dev.to_string())),
        ("tenant", serde_json::Value::String(ten.to_string())),
        ("exp", serde_json::Value::from(exp)),
    ]);
    let c = verify_session_token("k", &token).unwrap();
    assert_eq!((c.sub, c.tenant, c.exp), (dev.as_u128(), ten.as_u128(), exp));
    assert_eq!(verify_session_token("wrong", &token), Err(AppError::Unauthorized));
    assert_eq!(verify_session_token("k", "a.b"), Err(AppError::Unauthorized));
    let expired = signed("k", vec![
        ("sub", serde_json::Value::String(dev.to_string())),
        ("tenant", serde_json::Value::String(ten.to_string())),
        ("exp", serde_json::Value::from(exp - 7200)),
    ]);
    assert_eq!(verify_session_token("k", &expired), Err(AppError::Unauthorized));
}

#[test]
fn signature_is_checked_against_the_given_secret() {
    let token = signed("right", vec![
        ("sub", serde_json::Value::String(uuid::Uuid::new_v4().to_string())),
        ("tenant", serde_json::Value::String(uuid::Uuid::new_v4().to_string())),
        ("exp", serde_json::Value::from(in_an_hour())),
    ]);
    assert!(whalescale::jwt::signature_valid("right", &token));
    assert!(!whalescale::jwt::signature_valid("wrong", &token));
    let (head, sig) = token.rsplit_once('.').unwrap();
    let mut tampered = sig.to_string();
    tampered.push('A');
    assert!(!whalescale::jwt::signature_valid("right", &format!("{head}.{tampered}")));
    assert!(!whalescale::jwt::signature_valid("right", "nodot"));
}

fn now_secs() -> i64 {
    SystemTime::now().duration_since(UNIX_EPOCH).unwrap().as_secs() as i64
}

#[test]
fn admin_token_roundtrip() {
    let uid = uuid::Uuid::new_v4();
    let tid = uuid::Uuid::new_v4();
    let token = issue_admin_token("secret", uid.as_u128(), tid.as_u128(), Role::Admin, now_secs()).unwrap();
    let session = verify_admin_token("secret", &token).unwrap();
    assert_eq!(session.user_id, uid.as_u128());
    assert_eq!(session.role, Role::Admin);
    assert_eq!(session.tenant_id, tid.as_u128());
}

#[test]
fn issued_session_token_verifies_with_its_claims() {
    let dev = uuid::Uuid::new_v4();
    let ten = uuid::Uuid::new_v4();
    let now = now_secs();
    let token = issue_session_token("k", dev.as_u128(), ten.as_u128(), now).unwrap();
    let c = verify_session_token("k", &token).unwrap();
    assert_eq!((c.sub, c.tenant, c.exp), (dev.as_u128(), ten.as_u128(), now + 31_536_000));
    assert_eq!(verify_session_token("other", &token), Err(AppError::Unauthorized));
    assert_eq!(verify_admin_token("k", &token), Err(AppError::Unauthorized));
    let expired = issue_session_token("k", dev.as_u128(), ten.as_u128(), now - 2 * 31_536_000).unwrap();
    assert_eq!(verify_session_token("k", &expired), Err(AppError::Unauthorized));
}
