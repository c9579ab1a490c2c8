//! Coordinator authentication: hashing of pre-auth keys, generation of new
//! keys, password hashes, and the checks an authenticated dashboard session
//! must pass (tenant isolation, minimum role).

use vstd::prelude::*;
use vstd::utf8::*;
use sha2::Digest;
use argon2::password_hash::{rand_core::OsRng, PasswordHash, PasswordHasher, PasswordVerifier, SaltString};
use crate::jwt::{count_char, jwt_signature_ok, signature_valid};
use crate::roles::{role_str, role_text, Role};
use crate::text::{chars_of, has_prefix, push_all, slice_chars, starts_with, str_eq, string_from_chars};

verus! {

/// Why a request was refused.
#[derive(Debug, Clone, PartialEq, Eq)]
pub enum AppError {
    /// Missing or invalid credentials, or not allowed.
    Unauthorized,
    /// The addressed resource does not exist (in the caller's tenant).
    NotFound,
    /// The request itself is invalid.
    BadRequest(String),
}

/// The SHA-256 digest of some bytes.
pub uninterp spec fn sha256_of(bytes: Seq<u8>) -> Seq<u8>;

/// The digest of `bytes` (`sha2::Sha256`); it is 32 bytes long.
#[verifier::external_body]
fn sha256_digest(bytes: &[u8]) -> (r: Vec<u8>)
    ensures
        r@ == sha256_of(bytes@),
        r@.len() == 32,
{
    sha2::Sha256::digest(bytes).to_vec()
}

/// A lowercase hexadecimal digit.
pub open spec fn hex_digit(d: nat) -> char {
    if d < 10 {
        (('0' as nat) + d) as char
    } else {
        (('a' as nat) + d - 10) as char
    }
}

/// Lowercase hexadecimal text of some bytes, two digits per byte, most
/// significant digit first.
pub open spec fn hex_text(bytes: Seq<u8>) -> Seq<char>
    decreases bytes.len(),
{
    if bytes.len() == 0 {
        seq![]
    } else {
        hex_text(bytes.drop_last()) + seq![hex_digit(bytes.last() as nat / 16), hex_digit(bytes.last() as nat % 16)]
    }
}

/// `hex::encode`.
#[verifier::external_body]
fn hex_string(bytes: &[u8]) -> (r: String)
    ensures
        r@ == hex_text(bytes@),
{
    hex::encode(bytes)
}

pub proof fn lemma_hex_text_len(bytes: Seq<u8>)
    ensures
        hex_text(bytes).len() == 2 * bytes.len(),
    decreases bytes.len(),
{
    if bytes.len() > 0 {
        lemma_hex_text_len(bytes.drop_last());
    }
}

proof fn lemma_hex_digit_injective(a: nat, b: nat)
    requires
        a < 16,
        b < 16,
        hex_digit(a) == hex_digit(b),
    ensures
        a == b,
{
}

/// Different bytes have different hexadecimal text.
pub proof fn lemma_hex_text_injective(a: Seq<u8>, b: Seq<u8>)
    requires
        hex_text(a) == hex_text(b),
    ensures
        a == b,
    decreases a.len(),
{
    lemma_hex_text_len(a);
    lemma_hex_text_len(b);
    if a.len() > 0 {
        let ta = hex_text(a.drop_last());
        let tb = hex_text(b.drop_last());
        lemma_hex_text_len(a.drop_last());
        lemma_hex_text_len(b.drop_last());
        assert(hex_text(a)[ta.len() as int] == hex_digit(a.last() as nat / 16));
        assert(hex_text(b)[tb.len() as int] == hex_digit(b.last() as nat / 16));
        assert(hex_text(a)[ta.len() as int + 1] == hex_digit(a.last() as nat % 16));
        assert(hex_text(b)[tb.len() as int + 1] == hex_digit(b.last() as nat % 16));
        lemma_hex_digit_injective(a.last() as nat / 16, b.last() as nat / 16);
        lemma_hex_digit_injective(a.last() as nat % 16, b.last() as nat % 16);
        assert(ta =~= hex_text(a).subrange(0, ta.len() as int));
        assert(tb =~= hex_text(b).subrange(0, tb.len() as int));
        lemma_hex_text_injective(a.drop_last(), b.drop_last());
        assert(a =~= a.drop_last().push(a.last()));
        assert(b =~= b.drop_last().push(b.last()));
    } else {
        assert(a =~= b);
    }
}

/// The stored form of a raw auth key: hex of the SHA-256 of its UTF-8 bytes.
pub open spec fn auth_key_hash(raw: &str) -> Seq<char> {
    hex_text(sha256_of(encode_utf8(raw@)))
}

/// Hash a raw auth key for storage and comparison (the raw key is never
/// stored).
pub fn hash_auth_key(raw: &str) -> (r: String)
    ensures
        r@ == auth_key_hash(raw),
        r@.len() == 64,
{
    let digest = sha256_digest(raw.as_bytes());
    proof {
        lemma_hex_text_len(digest@);
    }
    hex_string(digest.as_slice())
}

/// A freshly generated key: the raw secret (shown once), its storage hash,
/// and a short non-secret prefix that identifies it in listings.
pub struct GeneratedKey {
    pub raw: String,
    pub hash: String,
    pub prefix: String,
}

/// The raw text of the key made from some random bytes.
pub open spec fn key_text(bytes: Seq<u8>) -> Seq<char> {
    "ws-"@ + hex_text(bytes)
}

/// Build a `ws-`-prefixed auth key from 24 random bytes: the prefix is its
/// first 11 characters (`ws-` and 8 hex digits).
pub fn generate_key(bytes: [u8; 24]) -> (r: GeneratedKey)
    ensures
        r.raw@ == key_text(bytes@),
        r.raw@.len() == 51,
        r.hash@ == hex_text(sha256_of(encode_utf8(r.raw@))),
        r.hash@.len() == 64,
        r.prefix@ == r.raw@.subrange(0, 11),
{
    let mut out = chars_of("ws-");
    push_all(&mut out, &chars_of(hex_string(&bytes).as_str()));
    let raw = string_from_chars(&out);
    proof {
        reveal_strlit("ws-");
        lemma_hex_text_len(bytes@);
    }
    let hash = hash_auth_key(raw.as_str());
    let prefix = string_from_chars(&slice_chars(&out, 0, 11));
    GeneratedKey { raw, hash, prefix }
}

/// Keys made from different bytes differ.
pub proof fn lemma_distinct_bytes_distinct_keys(a: Seq<u8>, b: Seq<u8>)
    requires
        a != b,
    ensures
        key_text(a) != key_text(b),
{
    if key_text(a) == key_text(b) {
        reveal_strlit("ws-");
        assert(hex_text(a) =~= key_text(a).subrange(3, key_text(a).len() as int));
        assert(hex_text(b) =~= key_text(b).subrange(3, key_text(b).len() as int));
        lemma_hex_text_injective(a, b);
    }
}

/// Whether `password` matches a stored Argon2 hash (`PasswordHash::new` then
/// `Argon2::verify_password`).
pub uninterp spec fn argon2_verifies(password: Seq<u8>, hash: Seq<char>) -> bool;

/// Hash a password with Argon2id under a random salt (the salt is embedded in
/// the returned PHC string); what it returns, [`verify_password`] accepts for
/// the same password.
#[verifier::external_body]
pub fn hash_password(password: &str) -> (r: Result<String, anyhow::Error>)
    ensures
        r matches Ok(h) ==> argon2_verifies(encode_utf8(password@), h@),
{
    let salt = SaltString::generate(&mut OsRng);
    argon2::Argon2::default()
        .hash_password(password.as_bytes(), &salt)
        .map(|h| h.to_string())
        .map_err(|e| anyhow::Error::msg(format!("password hash failed: {e}")))
}

/// Verify a password against a stored Argon2 hash; a hash that does not
/// parse matches nothing.
#[verifier::external_body]
pub fn verify_password(password: &str, hash: &str) -> (r: bool)
    ensures
        r == argon2_verifies(encode_utf8(password@), hash@),
{
    match PasswordHash::new(hash) {
        Ok(parsed) => argon2::Argon2::default().verify_password(password.as_bytes(), &parsed).is_ok(),
        Err(_) => false,
    }
}

/// The token of an `Authorization: Bearer <token>` header value.
pub fn bearer_token(header: &str) -> (r: Option<String>)
    ensures
        r is Some <==> has_prefix(header@, "Bearer "@),
        r matches Some(t) ==> header@ == "Bearer "@ + t@,
{
    let h = chars_of(header);
    let p = chars_of("Bearer ");
    if starts_with(&h, &p) {
        let t = slice_chars(&h, p.len(), h.len());
        assert(h@ =~= p@ + t@);
        Some(string_from_chars(&t))
    } else {
        None
    }
}

/// The claims of an agent's session token.
#[derive(Debug, Clone, Copy, PartialEq, Eq, Structural)]
pub struct SessionClaims {
    /// The device (subject).
    pub sub: u128,
    /// The device's tenant.
    pub tenant: u128,
    /// Expiry, in seconds since the Unix epoch.
    pub exp: i64,
}

/// The claims of a dashboard user's session token, the role as written in
/// the token.
#[derive(Debug, Clone, PartialEq, Eq)]
pub struct AdminTokenClaims {
    pub sub: u128,
    pub tenant: u128,
    pub role: String,
    pub kind: String,
    pub exp: i64,
}

/// The claims an agent token carries: the JSON object its payload (the
/// base64url text between its last two dots) decodes to, read with `sub` and
/// `tenant` as UUID text and `exp` as an integer; `None` when the payload does
/// not carry them so. It depends on the token alone.
pub uninterp spec fn session_claims_of(token: Seq<char>) -> Option<(u128, u128, i64)>;

/// The claims a dashboard token carries, read as for
/// [`session_claims_of`], with its `role` and `kind` as text.
pub uninterp spec fn admin_claims_of(token: Seq<char>) -> Option<(u128, u128, Seq<char>, Seq<char>, i64)>;

/// `jsonwebtoken::decode` of an agent token with the HS256 secret and the
/// default validation (signature, expiry with its leeway), its `sub` and
/// `tenant` read as UUIDs (`Uuid::parse_str`, as their serde form does) and
/// `exp` as an `i64`; `None` when any of that fails. Whether a token passes
/// depends on the clock; what is stated is that `decode` refuses, before
/// anything else, a token with fewer than two dots, and that what it returns
/// is what the token's payload carries.
#[verifier::external_body]
fn decode_session_token(secret: &str, token: &str) -> (r: Option<SessionClaims>)
    ensures
        count_char(token@, '.') < 2 ==> r is None,
        r matches Some(c) ==> session_claims_of(token@) == Some((c.sub, c.tenant, c.exp)),
{
    let key = jsonwebtoken::DecodingKey::from_secret(secret.as_bytes());
    let c = jsonwebtoken::decode::<serde_json::Value>(token, &key, &jsonwebtoken::Validation::default()).ok()?.claims;
    Some(SessionClaims {
        sub: uuid::Uuid::parse_str(c.get("sub")?.as_str()?).ok()?.as_u128(),
        tenant: uuid::Uuid::parse_str(c.get("tenant")?.as_str()?).ok()?.as_u128(),
        exp: c.get("exp")?.as_i64()?,
    })
}

/// `jsonwebtoken::decode` of a dashboard token as [`decode_session_token`]
/// does, with its `role` and `kind` read as strings; `None` when any of that
/// fails, and always for a token with fewer than two dots; what it returns
/// is what the token's payload carries.
#[verifier::external_body]
fn decode_admin_token(secret: &str, token: &str) -> (r: Option<AdminTokenClaims>)
    ensures
        count_char(token@, '.') < 2 ==> r is None,
        r matches Some(c) ==> admin_claims_of(token@) == Some((c.sub, c.tenant, c.role@, c.kind@, c.exp)),
{
    let key = jsonwebtoken::DecodingKey::from_secret(secret.as_bytes());
    let c = jsonwebtoken::decode::<serde_json::Value>(token, &key, &jsonwebtoken::Validation::default()).ok()?.claims;
    Some(AdminTokenClaims {
        sub: uuid::Uuid::parse_str(c.get("sub")?.as_str()?).ok()?.as_u128(),
        tenant: uuid::Uuid::parse_str(c.get("tenant")?.as_str()?).ok()?.as_u128(),
        role: c.get("role")?.as_str()?.to_string(),
        kind: c.get("kind")?.as_str()?.to_string(),
        exp: c.get("exp")?.as_i64()?,
    })
}

/// `jsonwebtoken::encode` with the default header (HS256) and the HMAC key of
/// `secret`, of the claims `sub` and `tenant` (as hyphenated UUID text) and
/// `exp`. It never fails for these claims; its result is signed under
/// `secret` (`crypto::verify` of its last part over the rest re-signs the same
/// text) and its payload carries exactly these claims.
#[verifier::external_body]
fn encode_session_claims(secret: &str, sub: u128, tenant: u128, exp: i64) -> (r: Option<String>)
    ensures
        r is Some,
        r matches Some(t) ==> jwt_signature_ok(secret@, t@) && session_claims_of(t@) == Some((sub, tenant, exp)),
{
    let mut c = serde_json::Map::new();
    c.insert("sub".to_string(), serde_json::Value::from(uuid::Uuid::from_u128(sub).to_string()));
    c.insert("tenant".to_string(), serde_json::Value::from(uuid::Uuid::from_u128(tenant).to_string()));
    c.insert("exp".to_string(), serde_json::Value::from(exp));
    let key = jsonwebtoken::EncodingKey::from_secret(secret.as_bytes());
    jsonwebtoken::encode(&jsonwebtoken::Header::default(), &c, &key).ok()
}

/// `jsonwebtoken::encode` as [`encode_session_claims`] does, of the claims
/// `sub`, `tenant`, `role`, `kind` (as text) and `exp`.
#[verifier::external_body]
fn encode_admin_claims(secret: &str, sub: u128, tenant: u128, role: &str, kind: &str, exp: i64) -> (r: Option<String>)
    ensures
        r is Some,
        r matches Some(t) ==> jwt_signature_ok(secret@, t@) && admin_claims_of(t@) == Some((sub, tenant, role@, kind@, exp)),
{
    let mut c = serde_json::Map::new();
    c.insert("sub".to_string(), serde_json::Value::from(uuid::Uuid::from_u128(sub).to_string()));
    c.insert("tenant".to_string(), serde_json::Value::from(uuid::Uuid::from_u128(tenant).to_string()));
    c.insert("role".to_string(), serde_json::Value::from(role));
    c.insert("kind".to_string(), serde_json::Value::from(kind));
    c.insert("exp".to_string(), serde_json::Value::from(exp));
    let key = jsonwebtoken::EncodingKey::from_secret(secret.as_bytes());
    jsonwebtoken::encode(&jsonwebtoken::Header::default(), &c, &key).ok()
}

/// Lifetime of an agent session token: 365 days, in seconds.
pub const SESSION_TOKEN_SECS: i64 = 31_536_000;

/// Lifetime of a dashboard session token: 12 hours, in seconds.
pub const ADMIN_TOKEN_SECS: i64 = 43_200;

/// Issue the session token of a freshly enrolled device, at `now_secs`
/// (seconds since the Unix epoch): signed under `secret`, naming the device
/// and its tenant, expiring a year later.
pub fn issue_session_token(secret: &str, device: u128, tenant: u128, now_secs: i64) -> (r: Result<String, AppError>)
    requires
        now_secs <= i64::MAX - SESSION_TOKEN_SECS,
    ensures
        r is Ok,
        r matches Ok(t) ==> jwt_signature_ok(secret@, t@)
            && session_claims_of(t@) == Some((device, tenant, (now_secs + SESSION_TOKEN_SECS) as i64)),
{
    match encode_session_claims(secret, device, tenant, now_secs + SESSION_TOKEN_SECS) {
        Some(t) => Ok(t),
        None => Err(AppError::Unauthorized),
    }
}

/// Issue a dashboard session token for `user` of `tenant` with `role`, at
/// `now_secs`: signed under `secret`, of kind `admin`, expiring 12 hours
/// later.
pub fn issue_admin_token(secret: &str, user: u128, tenant: u128, role: Role, now_secs: i64) -> (r: Result<String, AppError>)
    requires
        now_secs <= i64::MAX - ADMIN_TOKEN_SECS,
    ensures
        r is Ok,
        r matches Ok(t) ==> jwt_signature_ok(secret@, t@)
            && admin_claims_of(t@) == Some((user, tenant, role_text(role), "admin"@, (now_secs + ADMIN_TOKEN_SECS) as i64)),
{
    let role_name = role_str(role);
    match encode_admin_claims(secret, user, tenant, role_name.as_str(), "admin", now_secs + ADMIN_TOKEN_SECS) {
        Some(t) => {
            proof { reveal_strlit("admin"); }
            Ok(t)
        },
        None => Err(AppError::Unauthorized),
    }
}

/// Verify an agent's session token (a bearer header or the WebSocket query
/// parameter): its claims, or `Unauthorized` whenever it does not verify, in
/// particular when its signature does not sign it under `secret` or it lacks
/// the three parts `header.payload.signature`.
pub fn verify_session_token(secret: &str, token: &str) -> (r: Result<SessionClaims, AppError>)
    ensures
        r is Err ==> r == Err::<SessionClaims, AppError>(AppError::Unauthorized),
        count_char(token@, '.') < 2 ==> r is Err,
        r is Ok ==> jwt_signature_ok(secret@, token@),
        r matches Ok(c) ==> session_claims_of(token@) == Some((c.sub, c.tenant, c.exp)),
{
    if !signature_valid(secret, token) {
        return Err(AppError::Unauthorized);
    }
    match decode_session_token(secret, token) {
        Some(c) => Ok(c),
        None => Err(AppError::Unauthorized),
    }
}

/// The role a token names: its serialized form is the lowercase role name.
pub open spec fn role_claim(s: Seq<char>) -> Option<Role> {
    if s == "owner"@ {
        Some(Role::Owner)
    } else if s == "admin"@ {
        Some(Role::Admin)
    } else if s == "member"@ {
        Some(Role::Member)
    } else {
        None
    }
}

/// The role a token names, if it names one.
pub fn parse_role_claim(s: &str) -> (r: Option<Role>)
    ensures
        r == role_claim(s@),
{
    if str_eq(s, "owner") {
        Some(Role::Owner)
    } else if str_eq(s, "admin") {
        Some(Role::Admin)
    } else if str_eq(s, "member") {
        Some(Role::Member)
    } else {
        None
    }
}

/// Verify a dashboard user's session token: the session it grants, or
/// `Unauthorized` whenever it does not verify (its signature under `secret`
/// first), names no role, or is not an admin token.
pub fn verify_admin_token(secret: &str, token: &str) -> (r: Result<AdminSession, AppError>)
    ensures
        r is Err ==> r == Err::<AdminSession, AppError>(AppError::Unauthorized),
        count_char(token@, '.') < 2 ==> r is Err,
        r is Ok ==> jwt_signature_ok(secret@, token@),
        r matches Ok(s) ==> (admin_claims_of(token@) matches Some((user, tenant, role, kind, _exp))
            && s.user_id == user && s.tenant_id == tenant && role_claim(role) == Some(s.role) && kind == "admin"@),
{
    if !signature_valid(secret, token) {
        return Err(AppError::Unauthorized);
    }
    match decode_admin_token(secret, token) {
        Some(c) => AdminSession::from_token_claims(&c),
        None => Err(AppError::Unauthorized),
    }
}

/// An authenticated dashboard user.
#[derive(Debug, Clone, Copy, PartialEq, Eq, Structural)]
pub struct AdminSession {
    pub user_id: u128,
    pub tenant_id: u128,
    pub role: Role,
}

impl AdminSession {
    /// The session of verified admin-token claims; tokens of another kind
    /// (agent tokens) are refused.
    pub fn from_claims(user_id: u128, tenant_id: u128, role: Role, kind: &str) -> (r: Result<AdminSession, AppError>)
        ensures
            kind@ == "admin"@ ==> r == Ok::<AdminSession, AppError>(AdminSession { user_id, tenant_id, role }),
            kind@ != "admin"@ ==> r == Err::<AdminSession, AppError>(AppError::Unauthorized),
    {
        if !str_eq(kind, "admin") {
            return Err(AppError::Unauthorized);
        }
        Ok(AdminSession { user_id, tenant_id, role })
    }

    /// The session decoded admin-token claims grant: `Unauthorized` when they
    /// name no role or are of another kind.
    pub fn from_token_claims(c: &AdminTokenClaims) -> (r: Result<AdminSession, AppError>)
        ensures
            r == match role_claim(c.role@) {
                Some(role) => if c.kind@ == "admin"@ {
                    Ok::<AdminSession, AppError>(AdminSession { user_id: c.sub, tenant_id: c.tenant, role })
                } else {
                    Err::<AdminSession, AppError>(AppError::Unauthorized)
                },
                None => Err::<AdminSession, AppError>(AppError::Unauthorized),
            },
    {
        match parse_role_claim(c.role.as_str()) {
            Some(role) => AdminSession::from_claims(c.sub, c.tenant, role, c.kind.as_str()),
            None => Err(AppError::Unauthorized),
        }
    }

    /// Ensure the session is scoped to `tenant_id` (tenant isolation).
    pub fn require_tenant(&self, tenant_id: u128) -> (r: Result<(), AppError>)
        ensures
            r is Ok <==> self.tenant_id == tenant_id,
            r is Err ==> r == Err::<(), AppError>(AppError::Unauthorized),
    {
        if self.tenant_id == tenant_id {
            Ok(())
        } else {
            Err(AppError::Unauthorized)
        }
    }

    /// Ensure the user holds at least `role`.
    pub fn require_role(&self, role: Role) -> (r: Result<(), AppError>)
        ensures
            r is Ok <==> self.role.spec_rank() >= role.spec_rank(),
            r is Err ==> r == Err::<(), AppError>(AppError::Unauthorized),
    {
        if self.role.at_least(role) {
            Ok(())
        } else {
            Err(AppError::Unauthorized)
        }
    }
}

/// A login attempt with `password` against the stored hash of the account
/// (none when there is no such account or it has no password): refused as
/// unauthorized unless the hash verifies.
pub fn check_login(password: &str, password_hash: Option<&str>) -> (r: Result<(), AppError>)
    ensures
        r is Ok <==> (password_hash matches Some(h) && argon2_verifies(encode_utf8(password@), h@)),
        r is Err ==> r == Err::<(), AppError>(AppError::Unauthorized),
{
    match password_hash {
        None => Err(AppError::Unauthorized),
        Some(h) => if verify_password(password, h) {
            Ok(())
        } else {
            Err(AppError::Unauthorized)
        },
    }
}

/// Credentials presented at login.
pub struct LoginRequest {
    pub email: String,
    pub password: String,
}

/// A request to create a dashboard user; the role defaults to member.
pub struct CreateUserRequest {
    pub email: String,
    pub password: String,
    pub role: Option<Role>,
}

/// A request to create a pre-auth key.
pub struct CreateAuthKey {
    pub reusable: bool,
    pub ephemeral: bool,
    pub require_approval: bool,
    /// Lifetime in days; omitted or non-positive: the key never expires.
    pub expires_in_days: Option<i64>,
}

impl CreateAuthKey {
    /// The key's lifetime in days, when it has one.
    pub fn lifetime_days(&self) -> (r: Option<i64>)
        ensures
            r == match self.expires_in_days {
                Some(d) => if d > 0 { Some(d) } else { None::<i64> },
                None => None::<i64>,
            },
    {
        match self.expires_in_days {
            Some(d) => if d > 0 { Some(d) } else { None },
            None => None,
        }
    }
}

/// Query parameters of the agents' control WebSocket.
pub struct WsParams {
    pub token: String,
}

} // verus!
