//! Wire types exchanged between the coordinator and node agents: the
//! network map, its peers and packet-filter rules, endpoints and relays.
//!
//! Identifiers (device, tenant) are 128-bit values (a UUID's `u128`);
//! instants are milliseconds since the Unix epoch.

use vstd::prelude::*;
use crate::net::{IpNet, SocketAddr};

verus! {

/// Request sent by an agent to register a new device with the coordinator.
pub struct EnrollRequest {
    /// Pre-auth key authorizing enrollment.
    pub auth_key: String,
    /// WireGuard public key (base64), generated locally by the agent.
    pub public_key: String,
    pub hostname: String,
    /// OS identifier, e.g. `linux`, `macos`, `ios`.
    pub os: String,
    /// Subnets this node routes for other peers, or `0.0.0.0/0` for an exit
    /// node, as CIDR strings.
    pub advertised_routes: Vec<String>,
}

/// Request to rotate a device's WireGuard key.
pub struct RotateRequest {
    pub new_public_key: String,
}

/// Which destination ports a [`FilterRule`] applies to.
#[derive(Debug, Clone, PartialEq, Eq)]
pub enum Ports {
    /// All ports.
    All,
    /// A specific set of ports.
    List(Vec<u16>),
}

/// One inbound packet-filter rule: traffic from any of `src_ips` to this node
/// is permitted on `ports`.
#[derive(Debug, Clone, PartialEq, Eq)]
pub struct FilterRule {
    pub src_ips: Vec<IpNet>,
    pub ports: Ports,
}

/// How a candidate endpoint was learned.
#[derive(Debug, Clone, Copy, PartialEq, Eq, Structural)]
pub enum EndpointKind {
    /// Address observed on a local interface.
    Local,
    /// Server-reflexive address learned via STUN.
    Stun,
}

/// A candidate endpoint the agent believes peers may reach it on.
#[derive(Debug, Clone, Copy, PartialEq, Eq, Structural)]
pub struct Endpoint {
    pub addr: SocketAddr,
    pub kind: EndpointKind,
}

/// A peer entry as seen by a single node.
#[derive(Debug, Clone, PartialEq, Eq)]
pub struct PeerNode {
    pub device_id: u128,
    pub hostname: String,
    pub public_key: String,
    /// Overlay address(es) this peer owns / routes (AllowedIPs).
    pub allowed_ips: Vec<IpNet>,
    /// Candidate endpoints for direct connection.
    pub endpoints: Vec<Endpoint>,
    /// Relay region id to use as fallback when direct fails.
    pub relay_region: Option<String>,
    pub online: bool,
    pub last_seen: Option<i64>,
}

/// The node a map is delivered to.
#[derive(Debug, Clone, PartialEq, Eq)]
pub struct SelfNode {
    pub device_id: u128,
    pub overlay_ip: IpNet,
    pub hostname: String,
}

/// A relay region advertised in the map.
#[derive(Debug, Clone, PartialEq, Eq)]
pub struct RelayRegion {
    pub id: String,
    pub name: String,
    /// Public host:port the relay listens on.
    pub addr: SocketAddr,
}

/// The full view delivered to one node: itself plus its permitted peers.
#[derive(Debug, Clone, PartialEq, Eq)]
pub struct NetworkMap {
    /// Monotonic version; agents ignore maps older than what they hold.
    pub version: u64,
    pub self_node: SelfNode,
    pub peers: Vec<PeerNode>,
    pub relays: Vec<RelayRegion>,
    /// MagicDNS suffix for the tenant.
    pub dns_suffix: Option<String>,
    /// Inbound packet filter for `self_node`; empty means no filtering.
    pub packet_filter: Vec<FilterRule>,
}

/// Two optional strings hold the same text.
pub open spec fn same_opt_text(a: Option<String>, b: Option<String>) -> bool {
    match (a, b) {
        (Some(x), Some(y)) => x@ == y@,
        (None, None) => true,
        _ => false,
    }
}

/// Two ports values are equal as values.
pub open spec fn same_ports(a: Ports, b: Ports) -> bool {
    match (a, b) {
        (Ports::All, Ports::All) => true,
        (Ports::List(x), Ports::List(y)) => x@ == y@,
        _ => false,
    }
}

pub open spec fn same_peer(a: PeerNode, b: PeerNode) -> bool {
    &&& a.device_id == b.device_id
    &&& a.hostname@ == b.hostname@
    &&& a.public_key@ == b.public_key@
    &&& a.allowed_ips@ == b.allowed_ips@
    &&& a.endpoints@ == b.endpoints@
    &&& same_opt_text(a.relay_region, b.relay_region)
    &&& a.online == b.online
    &&& a.last_seen == b.last_seen
}

pub open spec fn same_relay(a: RelayRegion, b: RelayRegion) -> bool {
    a.id@ == b.id@ && a.name@ == b.name@ && a.addr == b.addr
}

pub open spec fn same_rule(a: FilterRule, b: FilterRule) -> bool {
    a.src_ips@ == b.src_ips@ && same_ports(a.ports, b.ports)
}

/// Two network maps hold the same values.
pub open spec fn same_map(a: NetworkMap, b: NetworkMap) -> bool {
    &&& a.version == b.version
    &&& a.self_node.device_id == b.self_node.device_id
    &&& a.self_node.overlay_ip == b.self_node.overlay_ip
    &&& a.self_node.hostname@ == b.self_node.hostname@
    &&& a.peers@.len() == b.peers@.len()
    &&& forall|i: int| 0 <= i < a.peers@.len() ==> same_peer(#[trigger] a.peers@[i], b.peers@[i])
    &&& a.relays@.len() == b.relays@.len()
    &&& forall|i: int| 0 <= i < a.relays@.len() ==> same_relay(#[trigger] a.relays@[i], b.relays@[i])
    &&& same_opt_text(a.dns_suffix, b.dns_suffix)
    &&& a.packet_filter@.len() == b.packet_filter@.len()
    &&& forall|i: int| 0 <= i < a.packet_filter@.len() ==> same_rule(#[trigger] a.packet_filter@[i], b.packet_filter@[i])
}

fn copy_opt_text(s: &Option<String>) -> (r: Option<String>)
    ensures
        same_opt_text(r, *s),
{
    match s {
        Some(x) => Some(x.clone()),
        None => None,
    }
}

fn copy_vec<T: Copy>(v: &Vec<T>) -> (r: Vec<T>)
    ensures
        r@ == v@,
{
    let mut out: Vec<T> = Vec::new();
    let mut i: usize = 0;
    while i < v.len()
        invariant
            i <= v@.len(),
            out@ == v@.take(i as int),
        decreases v.len() - i,
    {
        out.push(v[i]);
        assert(out@ =~= v@.take(i + 1));
        i = i + 1;
    }
    assert(v@.take(v@.len() as int) =~= v@);
    out
}

fn copy_ports(p: &Ports) -> (r: Ports)
    ensures
        same_ports(r, *p),
{
    match p {
        Ports::All => Ports::All,
        Ports::List(v) => Ports::List(copy_vec(v)),
    }
}

fn copy_peer(p: &PeerNode) -> (r: PeerNode)
    ensures
        same_peer(r, *p),
{
    PeerNode {
        device_id: p.device_id,
        hostname: p.hostname.clone(),
        public_key: p.public_key.clone(),
        allowed_ips: copy_vec(&p.allowed_ips),
        endpoints: copy_vec(&p.endpoints),
        relay_region: copy_opt_text(&p.relay_region),
        online: p.online,
        last_seen: p.last_seen,
    }
}

/// A copy of a network map.
pub fn copy_map(m: &NetworkMap) -> (r: NetworkMap)
    ensures
        same_map(r, *m),
{
    let mut peers: Vec<PeerNode> = Vec::new();
    let mut i: usize = 0;
    while i < m.peers.len()
        invariant
            i <= m.peers@.len(),
            peers@.len() == i,
            forall|j: int| 0 <= j < i ==> same_peer(#[trigger] peers@[j], m.peers@[j]),
        decreases m.peers.len() - i,
    {
        peers.push(copy_peer(&m.peers[i]));
        i = i + 1;
    }
    let mut relays: Vec<RelayRegion> = Vec::new();
    let mut i: usize = 0;
    while i < m.relays.len()
        invariant
            i <= m.relays@.len(),
            relays@.len() == i,
            forall|j: int| 0 <= j < i ==> same_relay(#[trigger] relays@[j], m.relays@[j]),
        decreases m.relays.len() - i,
    {
        let r = &m.relays[i];
        relays.push(RelayRegion { id: r.id.clone(), name: r.name.clone(), addr: r.addr });
        i = i + 1;
    }
    let mut rules: Vec<FilterRule> = Vec::new();
    let mut i: usize = 0;
    while i < m.packet_filter.len()
        invariant
            i <= m.packet_filter@.len(),
            rules@.len() == i,
            forall|j: int| 0 <= j < i ==> same_rule(#[trigger] rules@[j], m.packet_filter@[j]),
        decreases m.packet_filter.len() - i,
    {
        let f = &m.packet_filter[i];
        rules.push(FilterRule { src_ips: copy_vec(&f.src_ips), ports: copy_ports(&f.ports) });
        i = i + 1;
    }
    NetworkMap {
        version: m.version,
        self_node: SelfNode {
            device_id: m.self_node.device_id,
            overlay_ip: m.self_node.overlay_ip,
            hostname: m.self_node.hostname.clone(),
        },
        peers,
        relays,
        dns_suffix: copy_opt_text(&m.dns_suffix),
        packet_filter: rules,
    }
}

} // verus!
