//! Coordinator settings, as loaded from the environment.

use vstd::prelude::*;
use crate::net::SocketAddr;
use crate::proto::RelayRegion;

verus! {

/// Coordinator runtime configuration.
pub struct Settings {
    /// Address the HTTP/WebSocket server binds to, e.g. `0.0.0.0:8080`.
    pub bind_addr: String,
    /// Postgres connection string.
    pub database_url: String,
    /// Redis connection string (reserved for cross-instance fanout).
    pub redis_url: String,
    /// Secret used to sign agent and dashboard session tokens.
    pub jwt_secret: String,
    /// Relay endpoint advertised to agents; `None` when unset or when the
    /// configured text is not a socket address.
    pub relay_addr: Option<SocketAddr>,
    pub relay_region_id: String,
    pub relay_region_name: String,
    /// Device WireGuard key lifetime in days; `None`: keys never expire.
    pub device_key_ttl_days: Option<i64>,
}

/// Default bind address.
pub fn default_bind() -> (r: String)
    ensures
        r@ == "0.0.0.0:8080"@,
{
    String::from_str("0.0.0.0:8080")
}

/// Default Redis URL.
pub fn default_redis() -> (r: String)
    ensures
        r@ == "redis://127.0.0.1:6379"@,
{
    String::from_str("redis://127.0.0.1:6379")
}

/// Default relay region id.
pub fn default_relay_id() -> (r: String)
    ensures
        r@ == "default"@,
{
    String::from_str("default")
}

/// Default relay region name.
pub fn default_relay_name() -> (r: String)
    ensures
        r@ == "Default Relay"@,
{
    String::from_str("Default Relay")
}

/// Milliseconds in a day.
pub const DAY_MS: i64 = 86_400_000;

impl Settings {
    /// When a key issued at `now` (milliseconds since the Unix epoch)
    /// expires under the configured lifetime; `None`: it never does.
    pub fn key_expiry(&self, now: i64) -> (r: Option<i64>)
        requires
            self.device_key_ttl_days matches Some(d) ==> i64::MIN <= d * DAY_MS <= i64::MAX
                && i64::MIN <= now + d * DAY_MS <= i64::MAX,
        ensures
            r == match self.device_key_ttl_days {
                Some(d) => Some((now + d * DAY_MS) as i64),
                None => None::<i64>,
            },
    {
        match self.device_key_ttl_days {
            Some(d) => Some(now + d * DAY_MS),
            None => None,
        }
    }

    /// Relay regions advertised in network maps: one when a relay address is
    /// configured, none otherwise.
    pub fn relay_regions(&self) -> (r: Vec<RelayRegion>)
        ensures
            self.relay_addr is None ==> r@.len() == 0,
            self.relay_addr matches Some(a) ==> r@.len() == 1 && r@[0].id@ == self.relay_region_id@
                && r@[0].name@ == self.relay_region_name@ && r@[0].addr == a,
    {
        let mut out: Vec<RelayRegion> = Vec::new();
        if let Some(a) = self.relay_addr {
            out.push(RelayRegion { id: self.relay_region_id.clone(), name: self.relay_region_name.clone(), addr: a });
        }
        out
    }
}

} // verus!
