//! Node-key expiry: a device's key may carry an expiry instant, after which
//! the device is quarantined until it rotates its key. Instants and durations
//! are milliseconds.

use vstd::prelude::*;

verus! {

/// A device is active unless its key has an expiry that is not in the future.
pub open spec fn active_at(expires_at: Option<i64>, now: i64) -> bool {
    match expires_at {
        Some(t) => t > now,
        None => true,
    }
}

/// Whether a device with key expiry `expires_at` is active at `now`.
pub fn is_active(expires_at: Option<i64>, now: i64) -> (r: bool)
    ensures
        r == active_at(expires_at, now),
{
    match expires_at {
        Some(t) => t > now,
        None => true,
    }
}

/// The key is still valid but expires within `window` of `now`.
pub fn expires_within(expires_at: Option<i64>, now: i64, window: i64) -> (r: bool)
    ensures
        r == (expires_at matches Some(t) && t > now && t - now <= window),
{
    match expires_at {
        Some(t) => t > now && (t as i128) - (now as i128) <= window as i128,
        None => false,
    }
}

/// A key that expires within some window is still active.
pub proof fn lemma_expiring_soon_is_active(expires_at: Option<i64>, now: i64, window: i64)
    requires
        expires_at matches Some(t) && t > now && t - now <= window,
    ensures
        active_at(expires_at, now),
{
}

} // verus!
