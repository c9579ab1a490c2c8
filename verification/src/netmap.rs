//! Assembly of the per-node network map.
//!
//! The coordinator loads a tenant's approved devices and its ACL policy; the
//! functions here decide what one node sees: devices whose key has expired
//! are left out, a peer is visible when the policy permits traffic in either
//! direction (every peer is visible when no policy is configured), and the
//! node's inbound packet filter is compiled from the policy.

use vstd::prelude::*;
use crate::acl::{
    filter_rules_model, inbound_entries, peers_model, policy_allows, principal_model, Policy,
    Principal, PrincipalModel,
};
use crate::expiry::{active_at, is_active};
use crate::net::{cidr_from_text, host_net_of, parse_cidr, IpAddr, IpNet};
use crate::proto::{Endpoint, NetworkMap, PeerNode, RelayRegion, SelfNode};
use crate::text::str_eq;

verus! {

/// A peer seen within the last minute is online.
pub const ONLINE_WINDOW_MS: i64 = 60_000;

/// Seen less than a minute before `now` (or after it).
pub open spec fn online_at(last_seen: Option<i64>, now: i64) -> bool {
    match last_seen {
        Some(t) => now - t < ONLINE_WINDOW_MS,
        None => false,
    }
}

/// Whether a device last seen at `last_seen` counts as online at `now`.
pub fn is_online(last_seen: Option<i64>, now: i64) -> (r: bool)
    ensures
        r == online_at(last_seen, now),
{
    match last_seen {
        Some(t) => (now as i128) - (t as i128) < ONLINE_WINDOW_MS as i128,
        None => false,
    }
}

/// A device's live status for the dashboard: whether it is online, and
/// `"direct"` when it has announced an endpoint, else `"relay"`.
pub fn device_status(last_seen: Option<i64>, now: i64, endpoint_count: usize) -> (r: (bool, &'static str))
    ensures
        r.0 == online_at(last_seen, now),
        r.1@ == (if endpoint_count > 0 { "direct"@ } else { "relay"@ }),
{
    let online = is_online(last_seen, now);
    let connectivity = if endpoint_count > 0 { "direct" } else { "relay" };
    (online, connectivity)
}

/// The single-address network of a stored overlay address.
pub fn host_net(ip: IpAddr) -> (r: IpNet)
    ensures
        r == host_net_of(ip),
{
    IpNet::host(ip)
}

/// AllowedIPs so far, extended by one parsed route: added unless it did not
/// parse or is already present.
pub open spec fn with_route(ips: Seq<IpNet>, route: Option<IpNet>) -> Seq<IpNet> {
    match route {
        Some(n) => if ips.contains(n) { ips } else { ips.push(n) },
        None => ips,
    }
}

/// AllowedIPs from the overlay network and the parsed routes, in order.
pub open spec fn merged_ips(first: IpNet, routes: Seq<Option<IpNet>>) -> Seq<IpNet>
    decreases routes.len(),
{
    if routes.len() == 0 {
        seq![first]
    } else {
        with_route(merged_ips(first, routes.drop_last()), routes.last())
    }
}

/// A peer's AllowedIPs: its overlay address and then each advertised route
/// that parses as a CIDR and is not already listed.
pub open spec fn allowed_ips_of(overlay: IpAddr, routes: Seq<Seq<char>>) -> Seq<IpNet> {
    merged_ips(host_net_of(overlay), routes.map_values(|r: Seq<char>| cidr_from_text(r)))
}

/// Add a parsed route to a peer's AllowedIPs.
pub fn add_route(ips: &mut Vec<IpNet>, route: Option<IpNet>)
    ensures
        final(ips)@ == with_route(old(ips)@, route),
{
    if let Some(n) = route {
        let mut present = false;
        let mut i: usize = 0;
        while i < ips.len()
            invariant
                i <= ips@.len(),
                present <==> exists|j: int| 0 <= j < i && ips@[j] == n,
            decreases ips.len() - i,
        {
            if ips[i] == n {
                present = true;
            }
            i = i + 1;
        }
        if !present {
            ips.push(n);
        }
    }
}

/// A peer's AllowedIPs = its own overlay address plus the subnets it routes
/// (subnet router, exit node); routes that do not parse are skipped.
pub fn merge_allowed_ips(overlay: IpAddr, routes: &[String]) -> (r: Vec<IpNet>)
    ensures
        r@ == allowed_ips_of(overlay, routes@.map_values(|s: String| s@)),
{
    let ghost parsed = routes@.map_values(|s: String| s@).map_values(|r: Seq<char>| cidr_from_text(r));
    let mut ips: Vec<IpNet> = Vec::new();
    ips.push(host_net(overlay));
    let mut i: usize = 0;
    while i < routes.len()
        invariant
            i <= routes@.len(),
            parsed == routes@.map_values(|s: String| s@).map_values(|r: Seq<char>| cidr_from_text(r)),
            ips@ == merged_ips(host_net_of(overlay), parsed.take(i as int)),
        decreases routes.len() - i,
    {
        let route = parse_cidr(routes[i].as_str());
        assert(parsed.take(i + 1).drop_last() =~= parsed.take(i as int));
        assert(parsed.take(i + 1).last() == route);
        add_route(&mut ips, route);
        i = i + 1;
    }
    assert(parsed.take(routes@.len() as int) =~= parsed);
    ips
}

/// A device of the tenant, as loaded for map assembly. Instants are
/// milliseconds since the Unix epoch.
pub struct DeviceRow {
    pub id: u128,
    pub hostname: String,
    pub public_key: String,
    pub overlay_ip: IpAddr,
    pub endpoints: Vec<Endpoint>,
    pub relay_region: Option<String>,
    pub last_seen: Option<i64>,
    pub tags: Vec<String>,
    pub owner_email: Option<String>,
    pub advertised_routes: Vec<String>,
    pub key_expires_at: Option<i64>,
    /// Whether an admin approved the device (a pending device is kept out of
    /// every map).
    pub approved: bool,
}

/// A row takes part in the mesh at `now`: approved, and its key not expired.
pub open spec fn in_mesh(d: DeviceRow, now: i64) -> bool {
    d.approved && active_at(d.key_expires_at, now)
}

fn row_in_mesh(d: &DeviceRow, now: i64) -> (r: bool)
    ensures
        r == in_mesh(*d, now),
{
    d.approved && is_active(d.key_expires_at, now)
}

/// The ACL principal of a device row.
pub open spec fn row_principal(d: DeviceRow) -> PrincipalModel {
    PrincipalModel {
        user: match d.owner_email {
            Some(u) => Some(u@),
            None => None,
        },
        tags: d.tags@.map_values(|t: String| t@),
    }
}

/// Peer visibility: with no policy every peer is visible; otherwise traffic
/// must be permitted in at least one direction.
pub open spec fn visible(policy: Option<crate::acl::PolicyModel>, me: PrincipalModel, peer: PrincipalModel) -> bool {
    match policy {
        None => true,
        Some(m) => policy_allows(m, me, peer) || policy_allows(m, peer, me),
    }
}

pub open spec fn policy_model(policy: Option<&Policy>) -> Option<crate::acl::PolicyModel> {
    match policy {
        Some(p) => Some(p.model()),
        None => None,
    }
}

/// The rows that become peers of `me`, in row order: active, not `me`, and
/// visible.
pub open spec fn peer_rows(
    rows: Seq<DeviceRow>,
    me: u128,
    now: i64,
    policy: Option<crate::acl::PolicyModel>,
    me_p: PrincipalModel,
) -> Seq<DeviceRow>
    decreases rows.len(),
{
    if rows.len() == 0 {
        seq![]
    } else {
        let prev = peer_rows(rows.drop_last(), me, now, policy, me_p);
        let d = rows.last();
        if in_mesh(d, now) && d.id != me && visible(policy, me_p, row_principal(d)) {
            prev.push(d)
        } else {
            prev
        }
    }
}

/// The active rows other than `me`, with their principals and overlay
/// networks, in row order (the sources the inbound filter resolves).
pub open spec fn other_principals(rows: Seq<DeviceRow>, me: u128, now: i64) -> Seq<(PrincipalModel, IpNet)>
    decreases rows.len(),
{
    if rows.len() == 0 {
        seq![]
    } else {
        let prev = other_principals(rows.drop_last(), me, now);
        let d = rows.last();
        if in_mesh(d, now) && d.id != me {
            prev.push((row_principal(d), host_net_of(d.overlay_ip)))
        } else {
            prev
        }
    }
}

/// The index of the first active row with id `me`.
pub open spec fn self_row(rows: Seq<DeviceRow>, me: u128, now: i64) -> Option<int>
    decreases rows.len(),
{
    if rows.len() == 0 {
        None
    } else {
        match self_row(rows.drop_last(), me, now) {
            Some(k) => Some(k),
            None => if in_mesh(rows.last(), now) && rows.last().id == me {
                Some(rows.len() - 1)
            } else {
                None
            },
        }
    }
}

/// A peer entry describes row `d` as of `now`.
pub open spec fn peer_describes(p: PeerNode, d: DeviceRow, now: i64) -> bool {
    &&& p.device_id == d.id
    &&& p.hostname@ == d.hostname@
    &&& p.public_key@ == d.public_key@
    &&& p.allowed_ips@ == allowed_ips_of(d.overlay_ip, d.advertised_routes@.map_values(|s: String| s@))
    &&& p.endpoints@ == d.endpoints@
    &&& (match (p.relay_region, d.relay_region) {
        (Some(a), Some(b)) => a@ == b@,
        (None, None) => true,
        _ => false,
    })
    &&& p.online == online_at(d.last_seen, now)
    &&& p.last_seen == d.last_seen
}

fn copy_string_opt(s: &Option<String>) -> (r: Option<String>)
    ensures
        match (r, *s) {
            (Some(a), Some(b)) => a@ == b@,
            (None, None) => true,
            _ => false,
        },
{
    match s {
        Some(x) => Some(x.clone()),
        None => None,
    }
}

fn copy_strings(v: &Vec<String>) -> (r: Vec<String>)
    ensures
        r@.map_values(|s: String| s@) == v@.map_values(|s: String| s@),
{
    let mut out: Vec<String> = Vec::new();
    let mut i: usize = 0;
    while i < v.len()
        invariant
            i <= v@.len(),
            out@.len() == i,
            forall|j: int| 0 <= j < i ==> (#[trigger] out@[j])@ == v@[j]@,
        decreases v.len() - i,
    {
        out.push(v[i].clone());
        i = i + 1;
    }
    assert(out@.map_values(|s: String| s@) =~= v@.map_values(|s: String| s@));
    out
}

fn copy_endpoints(v: &Vec<Endpoint>) -> (r: Vec<Endpoint>)
    ensures
        r@ == v@,
{
    let mut out: Vec<Endpoint> = Vec::new();
    let mut i: usize = 0;
    while i < v.len()
        invariant
            i <= v@.len(),
            out@ == v@.take(i as int),
        decreases v.len() - i,
    {
        out.push(v[i]);
        assert(out@ =~= v@.take(i + 1));
        i = i + 1;
    }
    assert(v@.take(v@.len() as int) =~= v@);
    out
}

impl DeviceRow {
    /// The device's ACL principal.
    pub fn principal(&self) -> (r: Principal)
        ensures
            principal_model(r) == row_principal(*self),
    {
        let r = Principal { user: copy_string_opt(&self.owner_email), tags: copy_strings(&self.tags) };
        assert(principal_model(r).tags =~= row_principal(*self).tags);
        r
    }

    /// The peer entry for this device as of `now`.
    fn to_peer(&self, now: i64) -> (r: PeerNode)
        ensures
            peer_describes(r, *self, now),
    {
        PeerNode {
            device_id: self.id,
            hostname: self.hostname.clone(),
            public_key: self.public_key.clone(),
            allowed_ips: merge_allowed_ips(self.overlay_ip, self.advertised_routes.as_slice()),
            endpoints: copy_endpoints(&self.endpoints),
            relay_region: copy_string_opt(&self.relay_region),
            online: is_online(self.last_seen, now),
            last_seen: self.last_seen,
        }
    }
}

/// Whether a peer is visible to `me` under `policy`.
pub fn is_visible(policy: Option<&Policy>, me: &Principal, peer: &Principal) -> (r: bool)
    ensures
        r == visible(policy_model(policy), principal_model(*me), principal_model(*peer)),
{
    match policy {
        None => true,
        Some(p) => p.allows(me, peer) || p.allows(peer, me),
    }
}

/// Assemble the network map delivered to `device_id` from the tenant's
/// devices, its policy (`None` allows all), the relay regions and DNS suffix
/// to advertise, at instant `now`. Pending devices and devices whose key has
/// expired take no part. `None` when `device_id` is not an approved, active
/// device of the tenant.
pub fn build_map(
    rows: &Vec<DeviceRow>,
    device_id: u128,
    policy: Option<&Policy>,
    relays: Vec<RelayRegion>,
    dns_suffix: Option<String>,
    now: i64,
) -> (r: Option<NetworkMap>)
    ensures
        r is None <==> self_row(rows@, device_id, now) is None,
        r matches Some(map) ==> {
            let k = self_row(rows@, device_id, now)->0;
            let me = rows@[k];
            let selected = peer_rows(rows@, device_id, now, policy_model(policy), row_principal(me));
            &&& 0 <= k < rows@.len()
            &&& map.version == now as u64
            &&& map.self_node.device_id == device_id
            &&& map.self_node.overlay_ip == host_net_of(me.overlay_ip)
            &&& map.self_node.hostname@ == me.hostname@
            &&& map.peers@.len() == selected.len()
            &&& forall|i: int| 0 <= i < selected.len() ==> peer_describes(#[trigger] map.peers@[i], selected[i], now)
            &&& map.relays == relays
            &&& map.dns_suffix == dns_suffix
            &&& match policy {
                None => map.packet_filter@.len() == 0,
                Some(p) => filter_rules_model(map.packet_filter@) == inbound_entries(
                    p.model(),
                    p.model().rules,
                    row_principal(me),
                    other_principals(rows@, device_id, now),
                ),
            }
        },
{
    let mut found: Option<usize> = None;
    let mut i: usize = 0;
    while i < rows.len()
        invariant
            i <= rows@.len(),
            found matches Some(k) ==> self_row(rows@.take(i as int), device_id, now) == Some(k as int),
            found is None ==> self_row(rows@.take(i as int), device_id, now) is None,
        decreases rows.len() - i,
    {
        assert(rows@.take(i + 1).drop_last() =~= rows@.take(i as int));
        if found.is_none() && row_in_mesh(&rows[i], now) && rows[i].id == device_id {
            found = Some(i);
        }
        i = i + 1;
    }
    assert(rows@.take(rows@.len() as int) =~= rows@);
    let k = match found {
        None => {
            return None;
        },
        Some(k) => k,
    };
    proof {
        lemma_self_row_in_range(rows@, device_id, now);
    }
    let me_row = &rows[k];
    let me = me_row.principal();
    let ghost pm = policy_model(policy);
    let ghost mp = row_principal(rows@[k as int]);
    let mut peers: Vec<PeerNode> = Vec::new();
    let mut others: Vec<(Principal, IpNet)> = Vec::new();
    let mut j: usize = 0;
    while j < rows.len()
        invariant
            j <= rows@.len(),
            k < rows@.len(),
            pm == policy_model(policy),
            mp == row_principal(rows@[k as int]),
            principal_model(me) == mp,
            peers@.len() == peer_rows(rows@.take(j as int), device_id, now, pm, mp).len(),
            forall|t: int| 0 <= t < peers@.len() ==> peer_describes(#[trigger] peers@[t], peer_rows(rows@.take(j as int), device_id, now, pm, mp)[t], now),
            peers_model(others@) == other_principals(rows@.take(j as int), device_id, now),
        decreases rows.len() - j,
    {
        let d = &rows[j];
        assert(rows@.take(j + 1).drop_last() =~= rows@.take(j as int));
        assert(rows@.take(j + 1).last() == *d);
        let ghost before = peer_rows(rows@.take(j as int), device_id, now, pm, mp);
        if row_in_mesh(d, now) && d.id != device_id {
            let p = d.principal();
            let ghost other_before = others@;
            others.push((p, host_net(d.overlay_ip)));
            assert(peers_model(others@) =~= peers_model(other_before).push((row_principal(*d), host_net_of(d.overlay_ip))));
            if is_visible(policy, &me, &d.principal()) {
                peers.push(d.to_peer(now));
            }
        }
        j = j + 1;
    }
    assert(rows@.take(rows@.len() as int) =~= rows@);
    let packet_filter = match policy {
        Some(p) => p.inbound_filter(&me, others.as_slice()),
        None => Vec::new(),
    };
    Some(NetworkMap {
        version: now as u64,
        self_node: SelfNode { device_id: me_row.id, overlay_ip: host_net(me_row.overlay_ip), hostname: me_row.hostname.clone() },
        peers,
        relays,
        dns_suffix,
        packet_filter,
    })
}

proof fn lemma_self_row_in_range(rows: Seq<DeviceRow>, me: u128, now: i64)
    ensures
        self_row(rows, me, now) matches Some(k) ==> 0 <= k < rows.len() && rows[k].id == me
            && in_mesh(rows[k], now),
    decreases rows.len(),
{
    if rows.len() > 0 {
        lemma_self_row_in_range(rows.drop_last(), me, now);
    }
}

/// Every peer row is an approved, active device other than the node itself
/// that the policy lets the node see.
pub proof fn lemma_peer_rows_are_visible(
    rows: Seq<DeviceRow>,
    me: u128,
    now: i64,
    policy: Option<crate::acl::PolicyModel>,
    me_p: PrincipalModel,
    i: int,
)
    requires
        0 <= i < peer_rows(rows, me, now, policy, me_p).len(),
    ensures
        ({
            let d = peer_rows(rows, me, now, policy, me_p)[i];
            &&& d.id != me
            &&& in_mesh(d, now)
            &&& visible(policy, me_p, row_principal(d))
            &&& rows.contains(d)
        }),
    decreases rows.len(),
{
    let prev = peer_rows(rows.drop_last(), me, now, policy, me_p);
    if i < prev.len() {
        lemma_peer_rows_are_visible(rows.drop_last(), me, now, policy, me_p, i);
        let d = prev[i];
        let j = choose|j: int| 0 <= j < rows.drop_last().len() && rows.drop_last()[j] == d;
        assert(rows[j] == d);
    } else {
        assert(rows[rows.len() - 1] == rows.last());
    }
}

/// A pending (unapproved) device is in no map: neither the node a map is
/// built for nor any of its peers.
pub proof fn lemma_pending_devices_in_no_map(
    rows: Seq<DeviceRow>,
    me: u128,
    now: i64,
    policy: Option<crate::acl::PolicyModel>,
    me_p: PrincipalModel,
)
    ensures
        self_row(rows, me, now) matches Some(k) ==> rows[k].approved,
        forall|i: int| 0 <= i < peer_rows(rows, me, now, policy, me_p).len()
            ==> (#[trigger] peer_rows(rows, me, now, policy, me_p)[i]).approved,
{
    lemma_self_row_in_range(rows, me, now);
    assert forall|i: int| 0 <= i < peer_rows(rows, me, now, policy, me_p).len()
        implies (#[trigger] peer_rows(rows, me, now, policy, me_p)[i]).approved by {
        lemma_peer_rows_are_visible(rows, me, now, policy, me_p, i);
    }
}

/// Visibility does not depend on which of the two nodes asks.
pub proof fn lemma_visibility_symmetric(policy: Option<crate::acl::PolicyModel>, a: PrincipalModel, b: PrincipalModel)
    ensures
        visible(policy, a, b) == visible(policy, b, a),
{
}

/// The policy a tenant's stored document puts in force: none (every peer
/// visible) without a document, and also when the document is invalid, so an
/// admin is never locked out of their own network.
pub fn effective_policy(raw: Option<crate::acl::RawPolicy>) -> (r: Option<Policy>)
    ensures
        raw is None ==> r is None,
        raw matches Some(d) ==> (r is Some <==> forall|i: int| 0 <= i < d.acls@.len()
            ==> crate::acl::rule_problem(#[trigger] d.acls@[i]) == 0),
        raw matches Some(d) ==> (r matches Some(p) ==> p.model() == (crate::acl::PolicyModel {
            groups: crate::acl::first_groups(crate::acl::groups_model(d.groups@)),
            rules: d.acls@.map_values(|a: crate::acl::RawRule| crate::acl::rule_from_raw(a)),
        })),
{
    match raw {
        None => None,
        Some(d) => match Policy::parse(d) {
            Ok(p) => Some(p),
            Err(_) => None,
        },
    }
}

/// The tenant data a map needs.
pub struct Tenant {
    pub dns_suffix: Option<String>,
}

proof fn lemma_allowed_other_is_listed(
    rows: Seq<DeviceRow>,
    me: u128,
    now: i64,
    m: crate::acl::PolicyModel,
    me_p: PrincipalModel,
    k: int,
)
    requires
        0 <= k < other_principals(rows, me, now).len(),
        policy_allows(m, other_principals(rows, me, now)[k].0, me_p),
    ensures
        exists|j: int| 0 <= j < peer_rows(rows, me, now, Some(m), me_p).len()
            && host_net_of((#[trigger] peer_rows(rows, me, now, Some(m), me_p)[j]).overlay_ip) == other_principals(rows, me, now)[k].1,
    decreases rows.len(),
{
    let prev_o = other_principals(rows.drop_last(), me, now);
    let prev_p = peer_rows(rows.drop_last(), me, now, Some(m), me_p);
    let all_p = peer_rows(rows, me, now, Some(m), me_p);
    if k < prev_o.len() {
        assert(other_principals(rows, me, now)[k] == prev_o[k]);
        lemma_allowed_other_is_listed(rows.drop_last(), me, now, m, me_p, k);
        let j = choose|j: int| 0 <= j < prev_p.len() && host_net_of((#[trigger] prev_p[j]).overlay_ip) == prev_o[k].1;
        assert(all_p[j] == prev_p[j]);
    } else {
        let d = rows.last();
        assert(visible(Some(m), me_p, row_principal(d)));
        assert(all_p[prev_p.len() as int] == d);
    }
}

/// Every source network of a node's packet filter is the overlay network of
/// a peer listed in that node's map.
pub proof fn lemma_filter_sources_are_listed_peers(
    rows: Seq<DeviceRow>,
    me: u128,
    now: i64,
    m: crate::acl::PolicyModel,
    me_p: PrincipalModel,
    e: int,
    i: int,
)
    requires
        0 <= e < inbound_entries(m, m.rules, me_p, other_principals(rows, me, now)).len(),
        0 <= i < inbound_entries(m, m.rules, me_p, other_principals(rows, me, now))[e].0.len(),
    ensures
        exists|j: int| 0 <= j < peer_rows(rows, me, now, Some(m), me_p).len()
            && host_net_of((#[trigger] peer_rows(rows, me, now, Some(m), me_p)[j]).overlay_ip)
            == inbound_entries(m, m.rules, me_p, other_principals(rows, me, now))[e].0[i],
{
    let others = other_principals(rows, me, now);
    crate::acl::lemma_inbound_sources_allowed(m, me_p, others, e, i);
    let k = choose|k: int| 0 <= k < others.len()
        && #[trigger] others[k].1 == inbound_entries(m, m.rules, me_p, others)[e].0[i]
        && policy_allows(m, others[k].0, me_p);
    lemma_allowed_other_is_listed(rows, me, now, m, me_p, k);
}

} // verus!
