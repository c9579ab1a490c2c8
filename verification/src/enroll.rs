//! Enrollment checks: an agent presents a pre-auth key and its advertised
//! routes; the key must be usable and every route a CIDR. An agent may only
//! report its own endpoints.

use vstd::prelude::*;
use crate::auth::AppError;
use crate::net::{cidr_from_text, parse_cidr};
use crate::text::{chars_of, push_all, string_from_chars};

verus! {

/// The stored state of a pre-auth key.
#[derive(Debug, Clone, Copy, PartialEq, Eq, Structural)]
pub struct AuthKeyState {
    pub revoked: bool,
    /// Milliseconds since the Unix epoch.
    pub expires_at: Option<i64>,
    pub reusable: bool,
    pub used_count: i32,
}

/// A key admits an enrollment at `now`: not revoked, not expired, and either
/// reusable or not used before.
pub open spec fn key_usable(k: AuthKeyState, now: i64) -> bool {
    &&& !k.revoked
    &&& (k.expires_at matches Some(t) ==> t >= now)
    &&& (k.reusable || k.used_count <= 0)
}

/// Check a pre-auth key; an unusable key is refused as unauthorized.
pub fn check_auth_key(k: AuthKeyState, now: i64) -> (r: Result<(), AppError>)
    ensures
        r is Ok <==> key_usable(k, now),
        r is Err ==> r == Err::<(), AppError>(AppError::Unauthorized),
{
    if k.revoked {
        return Err(AppError::Unauthorized);
    }
    if let Some(exp) = k.expires_at {
        if exp < now {
            return Err(AppError::Unauthorized);
        }
    }
    if !k.reusable && k.used_count > 0 {
        return Err(AppError::Unauthorized);
    }
    Ok(())
}

/// The refusal of a route that is not a CIDR.
pub open spec fn invalid_route_text(route: Seq<char>) -> Seq<char> {
    "invalid route: "@ + route
}

/// Check that every advertised route parses as a CIDR; the first that does
/// not is named in the refusal.
pub fn validate_routes(routes: &[String]) -> (r: Result<(), AppError>)
    ensures
        r is Ok <==> forall|i: int| 0 <= i < routes@.len() ==> (#[trigger] cidr_from_text(routes@[i]@)) is Some,
        r matches Err(e) ==> exists|i: int| 0 <= i < routes@.len() && (#[trigger] cidr_from_text(routes@[i]@)) is None
            && (forall|j: int| 0 <= j < i ==> (#[trigger] cidr_from_text(routes@[j]@)) is Some)
            && (e matches AppError::BadRequest(m) && m@ == invalid_route_text(routes@[i]@)),
{
    let mut i: usize = 0;
    while i < routes.len()
        invariant
            i <= routes@.len(),
            forall|j: int| 0 <= j < i ==> (#[trigger] cidr_from_text(routes@[j]@)) is Some,
        decreases routes.len() - i,
    {
        if parse_cidr(routes[i].as_str()).is_none() {
            let mut msg = chars_of("invalid route: ");
            push_all(&mut msg, &chars_of(routes[i].as_str()));
            let e = AppError::BadRequest(string_from_chars(&msg));
            assert(cidr_from_text(routes@[i as int]@) is None);
            return Err(e);
        }
        i = i + 1;
    }
    Ok(())
}

/// A device may only report its own endpoints.
pub fn check_endpoint_owner(reported_device: u128, session_device: u128) -> (r: Result<(), AppError>)
    ensures
        r is Ok <==> reported_device == session_device,
        r matches Err(e) ==> (e matches AppError::BadRequest(m) && m@ == "device_id mismatch"@),
{
    if reported_device != session_device {
        return Err(AppError::BadRequest(String::from_str("device_id mismatch")));
    }
    Ok(())
}

/// How a new device enrolls under a key: approved at once unless the key
/// requires approval, and the audit action that records it
/// (`device.enroll`, or `device.enroll.pending` while it awaits an admin).
pub fn enrollment(require_approval: bool) -> (r: (bool, String))
    ensures
        r.0 == !require_approval,
        r.1@ == if r.0 { "device.enroll"@ } else { "device.enroll.pending"@ },
{
    if require_approval {
        (false, string_from_chars(&chars_of("device.enroll.pending")))
    } else {
        (true, string_from_chars(&chars_of("device.enroll")))
    }
}

} // verus!
