//! Inbound packet-filter enforcement (ACL port rules).
//!
//! After WireGuard decrypts an inbound packet, the data path parses it with
//! [`parse_ipv4`] and asks the node's filter whether it is permitted.
//! [`allows_inbound`] is the reference rule; [`CompiledFilter`] answers the
//! same question with an exact-address hash lookup.

use vstd::prelude::*;
use std::collections::{HashMap, HashSet};
use crate::bytes::{be_value, lemma_be_value_bound, lemma_pow256_16, read_be};
use crate::net::{IpAddr, IpNet, net_contains};
use crate::proto::{FilterRule, Ports};

verus! {

broadcast use vstd::std_specs::hash::group_hash_axioms;

pub const PROTO_TCP: u8 = 6;

pub const PROTO_UDP: u8 = 17;

/// The fields of an inbound packet relevant to filtering.
#[derive(Debug, Clone, Copy, PartialEq, Eq, Structural)]
pub struct PacketMeta {
    pub src: IpAddr,
    /// Destination port for TCP/UDP; `None` for other protocols (e.g. ICMP).
    pub dst_port: Option<u16>,
}

/// Source address and destination port of an IPv4 packet; `None` for
/// non-IPv4 or truncated input.
pub open spec fn ipv4_meta(pkt: Seq<u8>) -> Option<PacketMeta> {
    if pkt.len() < 20 || pkt[0] / 16 != 4 {
        None
    } else {
        let ihl = (pkt[0] % 16) as int * 4;
        if ihl < 20 || pkt.len() < ihl {
            None
        } else {
            let protocol = pkt[9];
            let dst_port = if (protocol == PROTO_TCP || protocol == PROTO_UDP) && pkt.len() >= ihl + 4 {
                Some(be_value(pkt.subrange(ihl + 2, ihl + 4)) as u16)
            } else {
                None
            };
            Some(PacketMeta { src: IpAddr::V4(be_value(pkt.subrange(12, 16)) as u32), dst_port })
        }
    }
}

proof fn lemma_be_value_2(s: Seq<u8>)
    requires
        s.len() == 2,
    ensures
        be_value(s) == s[0] as nat * 256 + s[1] as nat,
{
    let a = s.drop_last();
    assert(a.drop_last().len() == 0);
    assert(be_value(a.drop_last()) == 0);
    assert(a.last() == s[0]);
    assert(be_value(a) == s[0] as nat);
    assert(be_value(s) == be_value(a) * 256 + s[1] as nat);
}

proof fn lemma_be_value_4(s: Seq<u8>)
    requires
        s.len() == 4,
    ensures
        be_value(s) == ((s[0] as nat * 256 + s[1] as nat) * 256 + s[2] as nat) * 256 + s[3] as nat,
{
    let a = s.drop_last();
    let b = a.drop_last();
    let c = b.drop_last();
    assert(c.drop_last().len() == 0);
    assert(be_value(c.drop_last()) == 0);
    assert(c.last() == s[0]);
    assert(be_value(c) == s[0] as nat);
    assert(b.last() == s[1]);
    assert(be_value(b) == be_value(c) * 256 + s[1] as nat);
    assert(a.last() == s[2]);
    assert(be_value(a) == be_value(b) * 256 + s[2] as nat);
    assert(be_value(s) == be_value(a) * 256 + s[3] as nat);
}

/// The addressing an inbound IPv4 packet carries, read straight from its
/// bytes: the source address is the big-endian word at bytes 12..16, and
/// for TCP (protocol 6) and UDP (protocol 17) alike, when the packet holds
/// the first four bytes of the transport header (which starts after the
/// IHL words of IP header), the destination port is the big-endian 16-bit
/// word two bytes into it. Other protocols have no port.
pub proof fn lemma_packet_addressing(pkt: Seq<u8>)
    requires
        pkt.len() >= 20,
        pkt[0] / 16 == 4,
        (pkt[0] % 16) * 4 >= 20,
        pkt.len() >= (pkt[0] % 16) * 4,
    ensures
        ({
            let ihl = (pkt[0] % 16) as int * 4;
            let src = ((pkt[12] as nat * 256 + pkt[13] as nat) * 256 + pkt[14] as nat) * 256 + pkt[15] as nat;
            &&& ipv4_meta(pkt) matches Some(m)
            &&& m.src == IpAddr::V4(src as u32)
            &&& ((pkt[9] == 6 || pkt[9] == 17) && pkt.len() >= ihl + 4
                ==> m.dst_port == Some((pkt[ihl + 2] as nat * 256 + pkt[ihl + 3] as nat) as u16))
            &&& (pkt[9] != 6 && pkt[9] != 17 ==> m.dst_port is None)
        }),
{
    let ihl = (pkt[0] % 16) as int * 4;
    lemma_be_value_4(pkt.subrange(12, 16));
    if pkt.len() >= ihl + 4 {
        lemma_be_value_2(pkt.subrange(ihl + 2, ihl + 4));
    }
}

/// Parse the source address and destination port from an IPv4 packet.
pub fn parse_ipv4(pkt: &[u8]) -> (r: Option<PacketMeta>)
    ensures
        r == ipv4_meta(pkt@),
{
    if pkt.len() < 20 || pkt[0] / 16 != 4 {
        return None;
    }
    let ihl: usize = (pkt[0] % 16) as usize * 4;
    if ihl < 20 || pkt.len() < ihl {
        return None;
    }
    let protocol = pkt[9];
    let src = read_be(pkt, 12, 4);
    proof {
        lemma_be_value_bound(pkt@.subrange(12, 16));
        lemma_pow256_16();
    }
    let dst_port = if (protocol == PROTO_TCP || protocol == PROTO_UDP) && pkt.len() >= ihl + 4 {
        let p = read_be(pkt, ihl + 2, 2);
        proof {
            lemma_be_value_bound(pkt@.subrange(ihl + 2, ihl + 4));
        }
        Some(p as u16)
    } else {
        None
    };
    Some(PacketMeta { src: IpAddr::V4(src as u32), dst_port })
}

/// Whether `ports` admits a packet with destination port `p`. A
/// port-restricted rule never admits a packet without a port.
pub open spec fn ports_allow(ports: Ports, p: Option<u16>) -> bool {
    match ports {
        Ports::All => true,
        Ports::List(v) => p matches Some(x) && v@.contains(x),
    }
}

/// Some source network of rule `rules[j]` holds `src`, and its ports admit `p`.
pub open spec fn rule_admits(rules: Seq<FilterRule>, j: int, i: int, src: IpAddr, p: Option<u16>) -> bool {
    &&& 0 <= j < rules.len()
    &&& 0 <= i < rules[j].src_ips@.len()
    &&& net_contains(rules[j].src_ips@[i], src)
    &&& ports_allow(rules[j].ports, p)
}

/// The reference rule: an empty filter allows everything; otherwise some
/// rule must hold the source and admit the port.
pub open spec fn filter_allows(rules: Seq<FilterRule>, meta: PacketMeta) -> bool {
    rules.len() == 0 || exists|j: int, i: int| #[trigger] rule_admits(rules, j, i, meta.src, meta.dst_port)
}

fn port_listed(v: &Vec<u16>, p: u16) -> (r: bool)
    ensures
        r == v@.contains(p),
{
    let mut k: usize = 0;
    while k < v.len()
        invariant
            k <= v.len(),
            forall|m: int| 0 <= m < k ==> v@[m] != p,
        decreases v.len() - k,
    {
        if v[k] == p {
            return true;
        }
        k = k + 1;
    }
    false
}

fn ports_admit(ports: &Ports, p: Option<u16>) -> (r: bool)
    ensures
        r == ports_allow(*ports, p),
{
    match ports {
        Ports::All => true,
        Ports::List(v) => match p {
            Some(x) => port_listed(v, x),
            None => false,
        },
    }
}

/// Decide whether an inbound packet is permitted by the node's packet filter
/// (an empty filter allows everything).
pub fn allows_inbound(filter: &[FilterRule], meta: &PacketMeta) -> (r: bool)
    ensures
        r == filter_allows(filter@, *meta),
{
    if filter.len() == 0 {
        return true;
    }
    let mut j: usize = 0;
    while j < filter.len()
        invariant
            j <= filter@.len(),
            forall|jj: int, i: int| 0 <= jj < j ==> !rule_admits(filter@, jj, i, meta.src, meta.dst_port),
        decreases filter.len() - j,
    {
        let rule = &filter[j];
        let mut i: usize = 0;
        let mut src_ok = false;
        while i < rule.src_ips.len()
            invariant_except_break
                !src_ok,
            invariant
                j < filter@.len(),
                *rule == filter@[j as int],
                i <= rule.src_ips@.len(),
                forall|ii: int| 0 <= ii < i ==> !net_contains(rule.src_ips@[ii], meta.src),
            ensures
                src_ok ==> i < rule.src_ips@.len() && net_contains(rule.src_ips@[i as int], meta.src),
                !src_ok ==> i == rule.src_ips@.len(),
            decreases rule.src_ips.len() - i,
        {
            if rule.src_ips[i].contains(&meta.src) {
                src_ok = true;
                break;
            }
            i = i + 1;
        }
        if src_ok && ports_admit(&rule.ports, meta.dst_port) {
            assert(rule_admits(filter@, j as int, i as int, meta.src, meta.dst_port));
            return true;
        }
        assert forall|jj: int, ii: int| 0 <= jj < j + 1 implies !rule_admits(filter@, jj, ii, meta.src, meta.dst_port) by {
            if jj == j && rule_admits(filter@, jj, ii, meta.src, meta.dst_port) {
                if !src_ok {
                    assert(!net_contains(rule.src_ips@[ii], meta.src));
                }
            }
        }
        j = j + 1;
    }
    false
}

/// Port matcher for a compiled filter entry.
#[derive(Debug)]
enum PortMatcher {
    All,
    Ports(HashSet<u16>),
}

/// Whether a matcher admits destination port `p`.
spec fn pm_allows(pm: PortMatcher, p: Option<u16>) -> bool {
    match pm {
        PortMatcher::All => true,
        PortMatcher::Ports(s) => p matches Some(x) && s@.contains(x),
    }
}

impl PortMatcher {
    fn from_ports(ports: &Ports) -> (r: PortMatcher)
        ensures
            forall|p: Option<u16>| #[trigger] pm_allows(r, p) == ports_allow(*ports, p),
    {
        match ports {
            Ports::All => PortMatcher::All,
            Ports::List(v) => {
                let mut set: HashSet<u16> = HashSet::new();
                let mut k: usize = 0;
                while k < v.len()
                    invariant
                        k <= v@.len(),
                        forall|x: u16| #[trigger] set@.contains(x) <==> exists|m: int| 0 <= m < k && #[trigger] v@[m] == x,
                    decreases v.len() - k,
                {
                    set.insert(v[k]);
                    k = k + 1;
                    assert forall|x: u16| #[trigger] set@.contains(x) <==> exists|m: int| 0 <= m < k && #[trigger] v@[m] == x by {
                        if x == v@[k - 1] {
                            assert(v@[k - 1] == x);
                        }
                    }
                }
                PortMatcher::Ports(set)
            },
        }
    }

    fn allows(&self, port: Option<u16>) -> (r: bool)
        ensures
            r == pm_allows(*self, port),
    {
        match self {
            PortMatcher::All => true,
            PortMatcher::Ports(set) => match port {
                Some(p) => set.contains(&p),
                None => false,
            },
        }
    }

    /// Combine with the ports of another rule (a source allowed by several
    /// rules): `All` absorbs, otherwise the port sets are united.
    fn merge(self, other: &Ports) -> (r: PortMatcher)
        ensures
            forall|p: Option<u16>| #[trigger] pm_allows(r, p) == (pm_allows(self, p) || ports_allow(*other, p)),
    {
        match self {
            PortMatcher::All => PortMatcher::All,
            PortMatcher::Ports(set) => match other {
                Ports::All => PortMatcher::All,
                Ports::List(v) => {
                    let mut set = set;
                    let ghost start = set@;
                    let mut k: usize = 0;
                    while k < v.len()
                        invariant
                            k <= v@.len(),
                            forall|x: u16| #[trigger] set@.contains(x) <==> (start.contains(x) || exists|m: int| 0 <= m < k && #[trigger] v@[m] == x),
                        decreases v.len() - k,
                    {
                        set.insert(v[k]);
                        k = k + 1;
                        assert forall|x: u16| #[trigger] set@.contains(x) <==> (start.contains(x) || exists|m: int| 0 <= m < k && #[trigger] v@[m] == x) by {
                            if x == v@[k - 1] {
                                assert(v@[k - 1] == x);
                            }
                        }
                    }
                    PortMatcher::Ports(set)
                },
            },
        }
    }
}

/// A `/32` IPv4 network: the exact-address case of a compiled filter.
pub open spec fn is_v4_host(n: IpNet) -> bool {
    n.addr is V4 && n.prefix_len == 32
}

pub open spec fn in_rules(rules: Seq<FilterRule>, j: int, i: int) -> bool {
    0 <= j < rules.len() && 0 <= i < rules[j].src_ips@.len()
}

/// Source network `(j, i)` is the `/32` of `ip` and its rule admits `p`.
pub open spec fn exact_cond(rules: Seq<FilterRule>, j: int, i: int, ip: u32, p: Option<u16>) -> bool {
    &&& in_rules(rules, j, i)
    &&& is_v4_host(rules[j].src_ips@[i])
    &&& rules[j].src_ips@[i].addr == IpAddr::V4(ip)
    &&& ports_allow(rules[j].ports, p)
}

/// Source network `(j, i)` is not a `/32` IPv4, holds `a`, and its rule admits `p`.
pub open spec fn net_cond(rules: Seq<FilterRule>, j: int, i: int, a: IpAddr, p: Option<u16>) -> bool {
    &&& in_rules(rules, j, i)
    &&& !is_v4_host(rules[j].src_ips@[i])
    &&& net_contains(rules[j].src_ips@[i], a)
    &&& ports_allow(rules[j].ports, p)
}

/// Position `(j, i)` comes before `(jj, ii)` in rule order.
pub open spec fn before(j: int, i: int, jj: int, ii: int) -> bool {
    j < jj || (j == jj && i < ii)
}

pub open spec fn exact_upto(rules: Seq<FilterRule>, jj: int, ii: int, ip: u32, p: Option<u16>) -> bool {
    exists|j: int, i: int| before(j, i, jj, ii) && #[trigger] exact_cond(rules, j, i, ip, p)
}

pub open spec fn nets_upto(rules: Seq<FilterRule>, jj: int, ii: int, a: IpAddr, p: Option<u16>) -> bool {
    exists|j: int, i: int| before(j, i, jj, ii) && #[trigger] net_cond(rules, j, i, a, p)
}

spec fn nets_hit(nets: Seq<(IpNet, PortMatcher)>, a: IpAddr, p: Option<u16>) -> bool {
    exists|k: int| 0 <= k < nets.len() && #[trigger] net_contains(nets[k].0, a) && pm_allows(nets[k].1, p)
}

/// A packet filter compiled for fast per-packet evaluation: `/32` sources in
/// a hash map keyed by address, other networks in a short list.
pub struct CompiledFilter {
    exact: HashMap<u32, PortMatcher>,
    nets: Vec<(IpNet, PortMatcher)>,
    empty: bool,
    source: Ghost<Seq<FilterRule>>,
}

impl CompiledFilter {
    /// The rules this filter was compiled from.
    pub closed spec fn rules(self) -> Seq<FilterRule> {
        self.source@
    }

    #[verifier::type_invariant]
    spec fn wf(self) -> bool {
        let rules = self.source@;
        &&& self.empty == (rules.len() == 0)
        &&& forall|ip: u32, p: Option<u16>| #[trigger] exact_upto(rules, rules.len() as int, 0, ip, p)
            == (self.exact@.contains_key(ip) && pm_allows(self.exact@[ip], p))
        &&& forall|a: IpAddr, p: Option<u16>| #[trigger] nets_upto(rules, rules.len() as int, 0, a, p)
            == nets_hit(self.nets@, a, p)
    }

    /// Compile a rule set into the fast lookup form.
    pub fn compile(rules: &[FilterRule]) -> (r: CompiledFilter)
        ensures
            r.rules() == rules@,
    {
        let mut exact: HashMap<u32, PortMatcher> = HashMap::new();
        let mut nets: Vec<(IpNet, PortMatcher)> = Vec::new();
        let ghost rs = rules@;
        let mut j: usize = 0;
        while j < rules.len()
            invariant
                rs == rules@,
                j <= rs.len(),
                forall|ip: u32, p: Option<u16>| #[trigger] exact_upto(rs, j as int, 0, ip, p)
                    == (exact@.contains_key(ip) && pm_allows(exact@[ip], p)),
                forall|a: IpAddr, p: Option<u16>| #[trigger] nets_upto(rs, j as int, 0, a, p)
                    == nets_hit(nets@, a, p),
            decreases rules.len() - j,
        {
            let rule = &rules[j];
            let mut i: usize = 0;
            while i < rule.src_ips.len()
                invariant
                    rs == rules@,
                    j < rs.len(),
                    *rule == rs[j as int],
                    i <= rule.src_ips@.len(),
                    forall|ip: u32, p: Option<u16>| #[trigger] exact_upto(rs, j as int, i as int, ip, p)
                        == (exact@.contains_key(ip) && pm_allows(exact@[ip], p)),
                    forall|a: IpAddr, p: Option<u16>| #[trigger] nets_upto(rs, j as int, i as int, a, p)
                        == nets_hit(nets@, a, p),
                decreases rule.src_ips.len() - i,
            {
                let net = rule.src_ips[i];
                proof {
                    lemma_step(rs, j as int, i as int);
                }
                let is_host = match net.addr {
                    IpAddr::V4(_) => net.prefix_len == 32,
                    IpAddr::V6(_) => false,
                };
                if is_host {
                    let bits: u32 = match net.addr {
                        IpAddr::V4(b) => b,
                        IpAddr::V6(_) => 0,
                    };
                    let ghost old_exact = exact@;
                    let pm = match exact.remove(&bits) {
                        Some(existing) => existing.merge(&rule.ports),
                        None => PortMatcher::from_ports(&rule.ports),
                    };
                    exact.insert(bits, pm);
                    assert forall|a: IpAddr, p: Option<u16>| #[trigger] nets_upto(rs, j as int, i + 1, a, p)
                        == nets_hit(nets@, a, p) by {
                        assert(nets_upto(rs, j as int, i + 1, a, p) == nets_upto(rs, j as int, i as int, a, p));
                    }
                    assert forall|ip: u32, p: Option<u16>| #[trigger] exact_upto(rs, j as int, i + 1, ip, p)
                        == (exact@.contains_key(ip) && pm_allows(exact@[ip], p)) by {
                        assert(exact_upto(rs, j as int, i + 1, ip, p) == (exact_upto(rs, j as int, i as int, ip, p)
                            || (ip == bits && ports_allow(rule.ports, p))));
                        if ip != bits {
                            assert(exact@[ip] == old_exact[ip]);
                        }
                    }
                } else {
                    assert(net == rs[j as int].src_ips@[i as int]);
                    assert(!is_v4_host(net));
                    let ghost old_nets = nets@;
                    let pm = PortMatcher::from_ports(&rule.ports);
                    nets.push((net, pm));
                    assert forall|ip: u32, p: Option<u16>| #[trigger] exact_upto(rs, j as int, i + 1, ip, p)
                        == (exact@.contains_key(ip) && pm_allows(exact@[ip], p)) by {
                        assert(exact_upto(rs, j as int, i + 1, ip, p) == exact_upto(rs, j as int, i as int, ip, p));
                    }
                    assert forall|a: IpAddr, p: Option<u16>| #[trigger] nets_upto(rs, j as int, i + 1, a, p)
                        == nets_hit(nets@, a, p) by {
                        assert(net_cond(rs, j as int, i as int, a, p) == (net_contains(net, a) && ports_allow(rule.ports, p)));
                        assert(nets_upto(rs, j as int, i + 1, a, p) == (nets_upto(rs, j as int, i as int, a, p)
                            || (net_contains(net, a) && ports_allow(rule.ports, p))));
                        if nets_hit(old_nets, a, p) {
                            let k = choose|k: int| 0 <= k < old_nets.len() && #[trigger] net_contains(old_nets[k].0, a) && pm_allows(old_nets[k].1, p);
                            assert(nets@[k] == old_nets[k]);
                        }
                        if nets_hit(nets@, a, p) {
                            let k = choose|k: int| 0 <= k < nets@.len() && #[trigger] net_contains(nets@[k].0, a) && pm_allows(nets@[k].1, p);
                            if k < old_nets.len() {
                                assert(nets@[k] == old_nets[k]);
                            } else {
                                assert(nets@[k] == (net, pm));
                                assert(pm_allows(pm, p));
                            }
                        }
                        if net_contains(net, a) && ports_allow(rule.ports, p) {
                            assert(nets@[old_nets.len() as int] == (net, pm));
                            assert(pm_allows(pm, p));
                            assert(net_contains(nets@[old_nets.len() as int].0, a));
                        }
                    }
                }
                i = i + 1;
            }
            proof {
                lemma_row_done(rs, j as int);
            }
            j = j + 1;
        }
        CompiledFilter { exact, nets, empty: rules.len() == 0, source: Ghost(rules@) }
    }

    /// Whether a parsed inbound packet is permitted (an empty filter allows
    /// everything). Agrees with [`allows_inbound`] on the rules it was
    /// compiled from.
    pub fn allows(&self, meta: &PacketMeta) -> (r: bool)
        ensures
            r == filter_allows(self.rules(), *meta),
    {
        proof {
            use_type_invariant(self);
            lemma_split(self.source@, *meta);
        }
        if self.empty {
            return true;
        }
        if let IpAddr::V4(v4) = meta.src {
            if let Some(pm) = self.exact.get(&v4) {
                if pm.allows(meta.dst_port) {
                    return true;
                }
            }
        }
        let mut k: usize = 0;
        while k < self.nets.len()
            invariant
                k <= self.nets@.len(),
                nets_hit(self.nets@, meta.src, meta.dst_port) ==> filter_allows(self.rules(), *meta),
                forall|m: int| 0 <= m < k ==> !(#[trigger] net_contains(self.nets@[m].0, meta.src) && pm_allows(self.nets@[m].1, meta.dst_port)),
            decreases self.nets.len() - k,
        {
            let entry = &self.nets[k];
            if entry.0.contains(&meta.src) && entry.1.allows(meta.dst_port) {
                assert(net_contains(self.nets@[k as int].0, meta.src) && pm_allows(self.nets@[k as int].1, meta.dst_port));
                assert(nets_hit(self.nets@, meta.src, meta.dst_port));
                return true;
            }
            k = k + 1;
        }
        false
    }
}

impl Default for CompiledFilter {
    /// An empty filter that allows everything (the no-policy default).
    fn default() -> (r: CompiledFilter)
        ensures
            r.rules() == Seq::<FilterRule>::empty(),
    {
        let empty: Vec<FilterRule> = Vec::new();
        let r = CompiledFilter::compile(empty.as_slice());
        assert(empty@ =~= Seq::<FilterRule>::empty());
        r
    }
}

/// Extending the processed prefix by one source network adds exactly that
/// network's contribution.
proof fn lemma_step(rs: Seq<FilterRule>, j: int, i: int)
    requires
        in_rules(rs, j, i),
    ensures
        forall|ip: u32, p: Option<u16>| #[trigger] exact_upto(rs, j, i + 1, ip, p) == (exact_upto(rs, j, i, ip, p)
            || exact_cond(rs, j, i, ip, p)),
        forall|a: IpAddr, p: Option<u16>| #[trigger] nets_upto(rs, j, i + 1, a, p) == (nets_upto(rs, j, i, a, p)
            || net_cond(rs, j, i, a, p)),
{
    assert forall|ip: u32, p: Option<u16>| #[trigger] exact_upto(rs, j, i + 1, ip, p) == (exact_upto(rs, j, i, ip, p)
        || exact_cond(rs, j, i, ip, p)) by {
        if exact_upto(rs, j, i + 1, ip, p) {
            let (a, b) = choose|a: int, b: int| before(a, b, j, i + 1) && #[trigger] exact_cond(rs, a, b, ip, p);
            if !(a == j && b == i) {
                assert(before(a, b, j, i));
            }
        }
        if exact_upto(rs, j, i, ip, p) {
            let (a, b) = choose|a: int, b: int| before(a, b, j, i) && #[trigger] exact_cond(rs, a, b, ip, p);
            assert(before(a, b, j, i + 1));
        }
        if exact_cond(rs, j, i, ip, p) {
            assert(before(j, i, j, i + 1));
        }
    }
    assert forall|a: IpAddr, p: Option<u16>| #[trigger] nets_upto(rs, j, i + 1, a, p) == (nets_upto(rs, j, i, a, p)
        || net_cond(rs, j, i, a, p)) by {
        if nets_upto(rs, j, i + 1, a, p) {
            let (x, y) = choose|x: int, y: int| before(x, y, j, i + 1) && #[trigger] net_cond(rs, x, y, a, p);
            if !(x == j && y == i) {
                assert(before(x, y, j, i));
            }
        }
        if nets_upto(rs, j, i, a, p) {
            let (x, y) = choose|x: int, y: int| before(x, y, j, i) && #[trigger] net_cond(rs, x, y, a, p);
            assert(before(x, y, j, i + 1));
        }
        if net_cond(rs, j, i, a, p) {
            assert(before(j, i, j, i + 1));
        }
    }
}

/// Finishing a rule's networks is starting the next rule.
proof fn lemma_row_done(rs: Seq<FilterRule>, j: int)
    requires
        0 <= j < rs.len(),
    ensures
        forall|ip: u32, p: Option<u16>| #[trigger] exact_upto(rs, j + 1, 0, ip, p) == exact_upto(rs, j, rs[j].src_ips@.len() as int, ip, p),
        forall|a: IpAddr, p: Option<u16>| #[trigger] nets_upto(rs, j + 1, 0, a, p) == nets_upto(rs, j, rs[j].src_ips@.len() as int, a, p),
{
    let n = rs[j].src_ips@.len() as int;
    assert forall|ip: u32, p: Option<u16>| #[trigger] exact_upto(rs, j + 1, 0, ip, p) == exact_upto(rs, j, n, ip, p) by {
        if exact_upto(rs, j + 1, 0, ip, p) {
            let (a, b) = choose|a: int, b: int| before(a, b, j + 1, 0) && #[trigger] exact_cond(rs, a, b, ip, p);
            assert(before(a, b, j, n));
        }
        if exact_upto(rs, j, n, ip, p) {
            let (a, b) = choose|a: int, b: int| before(a, b, j, n) && #[trigger] exact_cond(rs, a, b, ip, p);
            assert(before(a, b, j + 1, 0));
        }
    }
    assert forall|x: IpAddr, p: Option<u16>| #[trigger] nets_upto(rs, j + 1, 0, x, p) == nets_upto(rs, j, n, x, p) by {
        if nets_upto(rs, j + 1, 0, x, p) {
            let (a, b) = choose|a: int, b: int| before(a, b, j + 1, 0) && #[trigger] net_cond(rs, a, b, x, p);
            assert(before(a, b, j, n));
        }
        if nets_upto(rs, j, n, x, p) {
            let (a, b) = choose|a: int, b: int| before(a, b, j, n) && #[trigger] net_cond(rs, a, b, x, p);
            assert(before(a, b, j + 1, 0));
        }
    }
}

/// The reference rule splits into the exact-address part and the network part.
proof fn lemma_split(rs: Seq<FilterRule>, m: PacketMeta)
    ensures
        filter_allows(rs, m) == (rs.len() == 0 || (m.src matches IpAddr::V4(x) && exact_upto(
            rs,
            rs.len() as int,
            0,
            x,
            m.dst_port,
        )) || nets_upto(rs, rs.len() as int, 0, m.src, m.dst_port)),
{
    let n = rs.len() as int;
    if rs.len() > 0 {
        if exists|j: int, i: int| #[trigger] rule_admits(rs, j, i, m.src, m.dst_port) {
            let (j, i) = choose|j: int, i: int| #[trigger] rule_admits(rs, j, i, m.src, m.dst_port);
            let net = rs[j].src_ips@[i];
            assert(before(j, i, n, 0));
            if is_v4_host(net) {
                crate::net::lemma_host_net_contains(net.addr, m.src);
                assert(net == crate::net::host_net_of(net.addr));
                if let IpAddr::V4(x) = m.src {
                    assert(exact_cond(rs, j, i, x, m.dst_port));
                }
            } else {
                assert(net_cond(rs, j, i, m.src, m.dst_port));
            }
        }
        if let IpAddr::V4(x) = m.src {
            if exact_upto(rs, n, 0, x, m.dst_port) {
                let (j, i) = choose|j: int, i: int| before(j, i, n, 0) && #[trigger] exact_cond(rs, j, i, x, m.dst_port);
                let net = rs[j].src_ips@[i];
                crate::net::lemma_host_net_contains(net.addr, m.src);
                assert(net == crate::net::host_net_of(net.addr));
                assert(rule_admits(rs, j, i, m.src, m.dst_port));
            }
        }
        if nets_upto(rs, n, 0, m.src, m.dst_port) {
            let (j, i) = choose|j: int, i: int| before(j, i, n, 0) && #[trigger] net_cond(rs, j, i, m.src, m.dst_port);
            assert(rule_admits(rs, j, i, m.src, m.dst_port));
        }
    }
}

} // verus!
