//! The node agent's state: its enrolled identity, the network map it last
//! applied, and the inbound packet filter compiled from that map. The
//! platform loop fetches maps and calls [`Agent::apply_map`]; a map is
//! applied only when it is newer than the one held.

use vstd::prelude::*;
use crate::backend::TunnelBackend;
use crate::expiry::expires_within;
use crate::filter::{filter_allows, ipv4_meta, parse_ipv4, CompiledFilter, PacketMeta};
use crate::keys::WgKeypair;
use crate::proto::{copy_map, same_map, FilterRule, NetworkMap};
use crate::wgconfig::{quick_text, render_quick, render_setconf, setconf_text};
use crate::text::{chars_of, pieces_view, slice_chars, split_char, split_on, string_from_chars, trim_bounds, trim_ws};

verus! {

/// The WireGuard port the agent listens on.
pub const DEFAULT_LISTEN_PORT: u16 = 51820;

/// Local persistent identity of an enrolled agent.
#[derive(Debug, Clone)]
pub struct AgentIdentity {
    pub device_id: u128,
    pub session_token: String,
    pub keypair: WgKeypair,
    /// Milliseconds since the Unix epoch.
    pub key_expires_at: Option<i64>,
}

/// Why the agent could not do what was asked.
#[derive(Debug)]
pub enum AgentError {
    /// The agent has no identity yet.
    NotEnrolled,
    /// The tunnel backend failed to apply a configuration.
    Backend(anyhow::Error),
}

/// The agent runtime state, over a platform's tunnel backend.
pub struct Agent<B: TunnelBackend> {
    backend: B,
    identity: Option<AgentIdentity>,
    listen_port: u16,
    current_map_version: u64,
    last_map: Option<NetworkMap>,
    advertised_routes: Vec<String>,
    inbound_filter: CompiledFilter,
}

impl<B: TunnelBackend> Agent<B> {
    /// Version of the map last applied (0 before any, and after a key
    /// rotation).
    pub closed spec fn version(self) -> u64 {
        self.current_map_version
    }

    pub closed spec fn identity_spec(self) -> Option<AgentIdentity> {
        self.identity
    }

    pub closed spec fn last_map_spec(self) -> Option<NetworkMap> {
        self.last_map
    }

    /// The rules the inbound filter enforces.
    pub closed spec fn filter_rules(self) -> Seq<FilterRule> {
        self.inbound_filter.rules()
    }

    /// The tunnel backend the agent drives.
    pub closed spec fn backend_spec(self) -> B {
        self.backend
    }

    pub closed spec fn listen_port_spec(self) -> u16 {
        self.listen_port
    }

    pub closed spec fn routes_spec(self) -> Seq<Seq<char>> {
        self.advertised_routes@.map_values(|s: String| s@)
    }

    /// A fresh, unenrolled agent over `backend`.
    pub fn new(backend: B) -> (r: Agent<B>)
        ensures
            r.version() == 0,
            r.identity_spec() is None,
            r.last_map_spec() is None,
            r.filter_rules() == Seq::<FilterRule>::empty(),
            r.listen_port_spec() == DEFAULT_LISTEN_PORT,
            r.routes_spec() == Seq::<Seq<char>>::empty(),
    {
        let r = Agent {
            backend,
            identity: None,
            listen_port: DEFAULT_LISTEN_PORT,
            current_map_version: 0,
            last_map: None,
            advertised_routes: Vec::new(),
            inbound_filter: CompiledFilter::default(),
        };
        assert(r.routes_spec() =~= Seq::<Seq<char>>::empty());
        r
    }

    /// Advertise subnet routes (or `0.0.0.0/0` for an exit node); call before
    /// enrolling.
    pub fn advertise_routes(&mut self, routes: Vec<String>)
        ensures
            final(self).routes_spec() == routes@.map_values(|s: String| s@),
            final(self).version() == old(self).version(),
            final(self).identity_spec() == old(self).identity_spec(),
            final(self).last_map_spec() == old(self).last_map_spec(),
            final(self).filter_rules() == old(self).filter_rules(),
    {
        self.advertised_routes = routes;
    }

    /// The routes to advertise at enrollment.
    pub fn advertised_routes(&self) -> (r: &Vec<String>)
        ensures
            r@.map_values(|s: String| s@) == self.routes_spec(),
    {
        &self.advertised_routes
    }

    /// The WireGuard listen port.
    pub fn listen_port(&self) -> (r: u16)
        ensures
            r == self.listen_port_spec(),
    {
        self.listen_port
    }

    /// The most recently applied network map.
    pub fn current_map(&self) -> (r: Option<&NetworkMap>)
        ensures
            r == match self.last_map_spec() {
                Some(m) => Some(&m),
                None => None::<&NetworkMap>,
            },
    {
        match &self.last_map {
            Some(m) => Some(m),
            None => None,
        }
    }

    /// The enrolled identity, if any.
    pub fn identity(&self) -> (r: Option<&AgentIdentity>)
        ensures
            r == match self.identity_spec() {
                Some(i) => Some(&i),
                None => None::<&AgentIdentity>,
            },
    {
        match &self.identity {
            Some(i) => Some(i),
            None => None,
        }
    }

    /// Record the identity the coordinator granted at enrollment.
    pub fn set_identity(&mut self, identity: AgentIdentity)
        ensures
            final(self).identity_spec() == Some(identity),
            final(self).version() == old(self).version(),
            final(self).last_map_spec() == old(self).last_map_spec(),
            final(self).filter_rules() == old(self).filter_rules(),
    {
        self.identity = Some(identity);
    }

    /// Whether the key should be rotated now: it is still valid but expires
    /// within `window` of `now`.
    pub fn needs_rotation(&self, now: i64, window: i64) -> (r: Result<bool, AgentError>)
        ensures
            match self.identity_spec() {
                None => r matches Err(AgentError::NotEnrolled),
                Some(id) => r matches Ok(b) && b == (id.key_expires_at matches Some(t) && t > now && t - now <= window),
            },
    {
        match &self.identity {
            None => Err(AgentError::NotEnrolled),
            Some(id) => Ok(expires_within(id.key_expires_at, now, window)),
        }
    }

    /// Install a rotated keypair and its expiry, and force the next map to be
    /// applied again (so the configuration carries the new key).
    pub fn complete_rotation(&mut self, keypair: WgKeypair, key_expires_at: Option<i64>)
        ensures
            final(self).version() == 0,
            match old(self).identity_spec() {
                None => final(self).identity_spec() is None,
                Some(id) => final(self).identity_spec() == Some(AgentIdentity { keypair, key_expires_at, ..id }),
            },
            final(self).last_map_spec() == old(self).last_map_spec(),
            final(self).filter_rules() == old(self).filter_rules(),
    {
        match self.identity.take() {
            Some(id) => {
                self.identity = Some(AgentIdentity { keypair, key_expires_at, ..id });
            },
            None => {},
        }
        self.current_map_version = 0;
    }

    /// Whether an inbound (decrypted) packet is permitted by the current
    /// filter. Packets that are not IPv4, and every packet under an empty
    /// filter, are allowed.
    pub fn inbound_allowed(&self, packet: &[u8]) -> (r: bool)
        ensures
            r == match ipv4_meta(packet@) {
                Some(meta) => filter_allows(self.filter_rules(), meta),
                None => true,
            },
    {
        match parse_ipv4(packet) {
            Some(meta) => self.inbound_filter.allows(&meta),
            None => true,
        }
    }

    /// The backend's transfer counters: what the backend's own `transfer`
    /// reports.
    pub fn transfer(&mut self) -> (r: Option<(u64, u64)>)
        ensures
            old(self).backend_spec().transfer_reported(&final(self).backend_spec(), r),
            final(self).version() == old(self).version(),
            final(self).identity_spec() == old(self).identity_spec(),
            final(self).last_map_spec() == old(self).last_map_spec(),
            final(self).filter_rules() == old(self).filter_rules(),
    {
        self.backend.transfer()
    }

    /// Apply a network map if it is newer than the one held: render both
    /// configurations with the agent's key, hand them to the backend, then
    /// adopt the map's version and packet filter.
    pub fn apply_map(&mut self, map: &NetworkMap) -> (r: Result<bool, AgentError>)
        ensures
            final(self).version() >= old(self).version(),
            final(self).identity_spec() == old(self).identity_spec(),
            map.version <= old(self).version() ==> (r matches Ok(false) && final(self).version() == old(self).version()
                && final(self).last_map_spec() == old(self).last_map_spec()
                && final(self).filter_rules() == old(self).filter_rules()),
            map.version > old(self).version() && old(self).identity_spec() is None ==> (r matches Err(AgentError::NotEnrolled)
                && final(self).version() == old(self).version()
                && final(self).last_map_spec() == old(self).last_map_spec()
                && final(self).filter_rules() == old(self).filter_rules()),
            r matches Err(AgentError::Backend(_)) ==> map.version > old(self).version()
                && final(self).version() == old(self).version()
                && final(self).last_map_spec() == old(self).last_map_spec()
                && final(self).filter_rules() == old(self).filter_rules(),
            r matches Ok(true) ==> (map.version > old(self).version() && old(self).identity_spec() is Some
                && final(self).version() == map.version
                && final(self).filter_rules() == map.packet_filter@
                && (final(self).last_map_spec() matches Some(m) && same_map(m, *map))),
            map.version > old(self).version() && old(self).identity_spec() is Some ==> (r matches Ok(true) || r matches Err(AgentError::Backend(_))),
            map.version > old(self).version() && old(self).identity_spec() is Some ==> old(self).backend_spec().applied(
                &final(self).backend_spec(),
                quick_text(*map, old(self).identity_spec()->Some_0.keypair.private_key@, old(self).listen_port_spec()),
                setconf_text(*map, old(self).identity_spec()->Some_0.keypair.private_key@, old(self).listen_port_spec()),
                r is Ok,
            ),
            !(map.version > old(self).version() && old(self).identity_spec() is Some) ==> final(self).backend_spec() == old(self).backend_spec(),
            final(self).listen_port_spec() == old(self).listen_port_spec(),
    {
        if map.version <= self.current_map_version {
            return Ok(false);
        }
        let key = match &self.identity {
            None => {
                return Err(AgentError::NotEnrolled);
            },
            Some(id) => id.keypair.private_key.as_str(),
        };
        let quick = render_quick(map, key, self.listen_port);
        let sync = render_setconf(map, key, self.listen_port);
        match self.backend.apply(quick.as_str(), sync.as_str()) {
            Err(e) => {
                return Err(AgentError::Backend(e));
            },
            Ok(()) => {},
        }
        self.current_map_version = map.version;
        self.inbound_filter = CompiledFilter::compile(map.packet_filter.as_slice());
        self.last_map = Some(copy_map(map));
        Ok(true)
    }

    /// Version of the map last applied.
    pub fn map_version(&self) -> (r: u64)
        ensures
            r == self.version(),
    {
        self.current_map_version
    }
}

/// The routes named in a comma-separated list: each piece trimmed, empty
/// pieces dropped, in order.
pub open spec fn route_list(pieces: Seq<Seq<char>>) -> Seq<Seq<char>>
    decreases pieces.len(),
{
    if pieces.len() == 0 {
        seq![]
    } else {
        let prev = route_list(pieces.drop_last());
        let t = trim_ws(pieces.last());
        if t.len() == 0 { prev } else { prev.push(t) }
    }
}

/// Parse a comma-separated route list (`192.168.1.0/24, 0.0.0.0/0`).
pub fn parse_route_list(text: &str) -> (r: Vec<String>)
    ensures
        r@.map_values(|s: String| s@) == route_list(split_char(text@, ',')),
{
    let pieces = split_on(&chars_of(text), ',');
    let ghost ps = split_char(text@, ',');
    let mut out: Vec<String> = Vec::new();
    let mut i: usize = 0;
    while i < pieces.len()
        invariant
            i <= pieces@.len(),
            pieces_view(pieces@) == ps,
            ps == split_char(text@, ','),
            out@.map_values(|s: String| s@) == route_list(ps.take(i as int)),
        decreases pieces.len() - i,
    {
        let piece = &pieces[i];
        assert(piece@ == ps[i as int]);
        assert(ps.take(i + 1).drop_last() =~= ps.take(i as int));
        assert(ps.take(i + 1).last() == ps[i as int]);
        let (a, b) = trim_bounds(piece.as_slice());
        if a < b {
            let ghost before = out@;
            out.push(string_from_chars(&slice_chars(piece.as_slice(), a, b)));
            assert(out@.map_values(|s: String| s@) =~= before.map_values(|s: String| s@).push(trim_ws(ps[i as int])));
        }
        i = i + 1;
    }
    assert(ps.take(ps.len() as int) =~= ps);
    out
}

} // verus!
