use std::cell::RefCell;
use std::time::{SystemTime, UNIX_EPOCH};

use jsonwebtoken::{encode, EncodingKey, Header};
use whalescale::registry::{verify_token, Outbox, RelayState};
use whalescale::relay::decode_frame;

fn token(secret: &str, exp_offset: i64) -> String {
    let now = SystemTime::now().duration_since(UNIX_EPOCH).unwrap().as_secs() as i64;
    let mut claims = serde_json::Map::new();
    claims.insert("sub".to_string(), serde_json::Value::String("device".to_string()));
    claims.insert("exp".to_string(), serde_json::Value::from((now + exp_offset) as u64));
    encode(&Header::default(), &serde_json::Value::Object(claims), &EncodingKey::from_secret(secret.as_bytes())).unwrap()
}

#[test]
fn accepts_valid_rejects_invalid() {
    let secret = "coordinator-secret";
    assert!(verify_token(secret, &token(secret, 3600)), "valid token");
    assert!(!verify_token(secret, &token(secret, -120)), "expired token");
    assert!(!verify_token(secret, &token("other-secret", 3600)), "wrong secret");
    assert!(!verify_token(secret, "not-a-jwt"), "garbage");
}

#[test]
fn dev_mode_accepts_any_token() {
    let state: RelayState<()> = RelayState::default();
    assert!(state.authorize("anything"));
}

#[test]
fn configured_state_requires_valid_token() {
    let secret = "s";
    let state: RelayState<()> = RelayState::new(Some(secret.to_string()));
    assert!(state.authorize(&token(secret, 3600)));
    assert!(!state.authorize("garbage"));
}

struct Queue {
    frames: RefCell<Vec<Vec<u8>>>,
}

impl Outbox<Vec<u8>> for Queue {
    fn deliver(&self, msg: Vec<u8>) -> bool {
        self.frames.borrow_mut().push(msg);
        true
    }
}

#[test]
fn forwards_frames_to_connected_keys_only() {
    let mut state: RelayState<Queue> = RelayState::new(None);
    state.register("BOB".to_string(), Queue { frames: RefCell::new(vec![]) });
    assert!(state.forward("ALICE", "BOB", &[1, 2, 3]));
    assert!(!state.forward("ALICE", "CAROL", &[1]));
    let frames = state.get("BOB").unwrap().frames.borrow().clone();
    assert_eq!(frames.len(), 1);
    assert_eq!(decode_frame(&frames[0]), Some(("ALICE".to_string(), vec![1, 2, 3])));
    state.unregister("BOB");
    assert!(!state.forward("ALICE", "BOB", &[1]));
}

#[test]
fn later_registration_replaces_earlier() {
    let mut state: RelayState<u8> = RelayState::new(None);
    state.register("K".to_string(), 1);
    state.register("K".to_string(), 2);
    assert_eq!(state.get("K"), Some(&2));
    state.unregister("K");
    assert_eq!(state.get("K"), None);
}

#[test]
fn token_without_three_parts_is_refused() {
    let state: RelayState<()> = RelayState::new(Some("s".to_string()));
    assert!(!state.authorize(""));
    assert!(!state.authorize("a.b"));
    assert!(!verify_token("s", "onlyonepart"));
}
