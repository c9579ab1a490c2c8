//! Direct versus relay path selection for a peer connection.
//!
//! A direct (hole-punched) WireGuard path has the lowest latency; the relay
//! is the fallback while the direct path is not working. The data loop
//! records when a direct handshake last succeeded and asks [`select_path`]
//! where to send a peer's packets. Instants and durations are milliseconds.

use vstd::prelude::*;
use crate::net::SocketAddr;

verus! {

/// Where to send a peer's traffic.
#[derive(Debug, Clone, PartialEq, Eq)]
pub enum Path {
    /// Send directly to this endpoint (hole-punched).
    Direct(SocketAddr),
    /// Relay through this region.
    Relay(String),
}

/// A direct handshake succeeded within `timeout` of `now`.
pub open spec fn direct_healthy(last_direct_ok: Option<i64>, now: i64, timeout: i64) -> bool {
    match last_direct_ok {
        Some(t) => now - t <= timeout,
        None => false,
    }
}

/// Choose a path for a peer: a healthy direct endpoint first; otherwise the
/// relay, if there is one; otherwise the direct endpoint optimistically;
/// `None` when there is neither a direct endpoint nor a relay.
pub fn select_path(
    best_direct: Option<SocketAddr>,
    last_direct_ok: Option<i64>,
    relay_region: Option<&str>,
    now: i64,
    direct_timeout: i64,
) -> (r: Option<Path>)
    ensures
        match (best_direct, relay_region) {
            (Some(a), _) if direct_healthy(last_direct_ok, now, direct_timeout) => r == Some(Path::Direct(a)),
            (_, Some(region)) => r matches Some(Path::Relay(s)) && s@ == region@,
            (Some(a), None) => r == Some(Path::Direct(a)),
            (None, None) => r is None,
        },
{
    let healthy = match last_direct_ok {
        Some(t) => (now as i128) - (t as i128) <= direct_timeout as i128,
        None => false,
    };
    if let Some(addr) = best_direct {
        if healthy {
            return Some(Path::Direct(addr));
        }
    }
    if let Some(region) = relay_region {
        return Some(Path::Relay(region.to_string()));
    }
    match best_direct {
        Some(addr) => Some(Path::Direct(addr)),
        None => None,
    }
}

} // verus!
