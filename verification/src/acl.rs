//! Tailscale-style ACL policy engine.
//!
//! A policy defines `groups` and a list of `acls` rules with action
//! `accept`, `src` selectors and `dst` entries. Each device is reduced to a
//! [`Principal`] (its owner's email and its tags); [`Policy::allows`] decides
//! whether a source may reach a destination, and [`Policy::inbound_filter`]
//! compiles the policy into the inbound packet filter of one node.
//!
//! Selector forms (in `src`, and the host part of `dst`): `*` (any),
//! `group:NAME` (a member of the group), `tag:NAME` (a device carrying the
//! tag), or a user's email. `dst` entries are `HOST:PORTS`, e.g.
//! `tag:server:22,443` or `*:*`.

use vstd::prelude::*;
use crate::net::IpNet;
use crate::proto::{FilterRule, Ports};
use crate::text::{
    chars_of, decimal, find_last, has_prefix, last_index_of, lemma_last_index_of, parse_u16_chars,
    parse_u16_text, pieces_view, push_all, push_decimal, slice_chars, split_char, split_on,
    starts_with, str_eq, string_from_chars,
};

verus! {

/// What a device "is" for ACL matching.
#[derive(Debug, Clone, Default, PartialEq, Eq)]
pub struct Principal {
    /// Owner's email, if the device has an owner.
    pub user: Option<String>,
    /// Tags carried by the device, in `tag:NAME` form.
    pub tags: Vec<String>,
}

/// A rule as written in the policy document.
#[derive(Debug, Clone, PartialEq, Eq)]
pub struct RawRule {
    pub action: String,
    pub src: Vec<String>,
    pub dst: Vec<String>,
}

/// A policy document as written: named groups of users, and rules.
#[derive(Debug, Clone, PartialEq, Eq)]
pub struct RawPolicy {
    pub groups: Vec<(String, Vec<String>)>,
    pub acls: Vec<RawRule>,
}

/// The action a rule has when the document names none.
pub fn default_action() -> (r: String)
    ensures
        r@ == "accept"@,
{
    String::from_str("accept")
}

/// Why a policy document was rejected.
#[derive(Debug, Clone, PartialEq, Eq)]
pub enum PolicyError {
    /// `acls[index]` has an action other than `accept`.
    UnsupportedAction { index: usize, action: String },
    /// `acls[index]` has an empty `src` or `dst`.
    EmptySelectors { index: usize },
}

/// Ports of a `dst` entry, as values.
pub enum PortsModel {
    All,
    List(Seq<u16>),
}

/// A principal as values.
pub struct PrincipalModel {
    pub user: Option<Seq<char>>,
    pub tags: Seq<Seq<char>>,
}

/// A parsed rule as values: source selectors, and destination host selectors
/// with their ports.
pub struct RuleModel {
    pub src: Seq<Seq<char>>,
    pub dst: Seq<(Seq<char>, PortsModel)>,
}

/// A parsed policy as values.
pub struct PolicyModel {
    pub groups: Seq<(Seq<char>, Seq<Seq<char>>)>,
    pub rules: Seq<RuleModel>,
}

pub open spec fn strings_view(v: Seq<String>) -> Seq<Seq<char>> {
    v.map_values(|s: String| s@)
}

pub open spec fn principal_model(p: Principal) -> PrincipalModel {
    PrincipalModel {
        user: match p.user {
            Some(u) => Some(u@),
            None => None,
        },
        tags: strings_view(p.tags@),
    }
}

pub open spec fn ports_model(p: Ports) -> PortsModel {
    match p {
        Ports::All => PortsModel::All,
        Ports::List(v) => PortsModel::List(v@),
    }
}

pub open spec fn groups_model(g: Seq<(String, Vec<String>)>) -> Seq<(Seq<char>, Seq<Seq<char>>)> {
    g.map_values(|e: (String, Vec<String>)| (e.0@, strings_view(e.1@)))
}

/// The part of a `dst` entry after its last `:`, when that part is ports.
pub open spec fn ports_suffix(d: Seq<char>) -> Option<(int, Seq<char>)> {
    match last_index_of(d, ':') {
        Some(k) => {
            let tail = d.subrange(k + 1, d.len() as int);
            if is_ports_text(tail) {
                Some((k, tail))
            } else {
                None
            }
        },
        None => None,
    }
}

/// `*`, or a comma-separated list of ports that all parse.
pub open spec fn is_ports_text(s: Seq<char>) -> bool {
    s == "*"@ || (s.len() > 0 && all_parse(split_char(s, ',')))
}

/// The host selector of a `dst` entry: the entry without its `:PORTS` suffix.
pub open spec fn host_of_text(d: Seq<char>) -> Seq<char> {
    match ports_suffix(d) {
        Some((k, _)) => d.subrange(0, k),
        None => d,
    }
}

/// The ports of a `dst` entry: all ports unless a `:PORTS` suffix lists some.
pub open spec fn port_of_text(d: Seq<char>) -> PortsModel {
    match ports_suffix(d) {
        Some((_, tail)) => if tail == "*"@ {
            PortsModel::All
        } else {
            PortsModel::List(split_char(tail, ',').map_values(|p: Seq<char>| parse_u16_text(p)->0))
        },
        None => PortsModel::All,
    }
}

pub open spec fn rule_from_raw(r: RawRule) -> RuleModel {
    RuleModel {
        src: strings_view(r.src@),
        dst: strings_view(r.dst@).map_values(|d: Seq<char>| (host_of_text(d), port_of_text(d))),
    }
}

/// The problem a raw rule has, if any: 1 for an unsupported action, 2 for an
/// empty `src` or `dst`.
pub open spec fn rule_problem(r: RawRule) -> nat {
    if r.action@ != "accept"@ {
        1
    } else if r.src@.len() == 0 || r.dst@.len() == 0 {
        2
    } else {
        0
    }
}

/// The members of the first group named `key`.
pub open spec fn group_lookup(groups: Seq<(Seq<char>, Seq<Seq<char>>)>, key: Seq<char>) -> Option<Seq<Seq<char>>>
    decreases groups.len(),
{
    if groups.len() == 0 {
        None
    } else if groups[0].0 == key {
        Some(groups[0].1)
    } else {
        group_lookup(groups.drop_first(), key)
    }
}

/// Whether `selector` matches principal `p`.
pub open spec fn selector_matches(groups: Seq<(Seq<char>, Seq<Seq<char>>)>, selector: Seq<char>, p: PrincipalModel) -> bool {
    if selector == "*"@ {
        true
    } else if has_prefix(selector, "group:"@) {
        match p.user {
            None => false,
            Some(u) => match group_lookup(groups, selector) {
                Some(members) => members.contains(u),
                None => match group_lookup(groups, selector.subrange("group:"@.len() as int, selector.len() as int)) {
                    Some(members) => members.contains(u),
                    None => false,
                },
            },
        }
    } else if has_prefix(selector, "tag:"@) {
        p.tags.contains(selector)
    } else {
        p.user == Some(selector)
    }
}

/// A `tag:NAME` selector matches a principal exactly when the principal's
/// tags include `tag:NAME` itself: carrying some other tag is not enough.
pub proof fn lemma_tag_selector_needs_that_tag(
    groups: Seq<(Seq<char>, Seq<Seq<char>>)>,
    selector: Seq<char>,
    p: PrincipalModel,
)
    requires
        has_prefix(selector, "tag:"@),
    ensures
        selector_matches(groups, selector, p) <==> exists|i: int| 0 <= i < p.tags.len() && p.tags[i] == selector,
{
    reveal_strlit("tag:");
    reveal_strlit("group:");
    reveal_strlit("*");
    assert(selector.subrange(0, 4)[0] == selector[0]);
    assert(selector != "*"@) by {
        if selector == "*"@ {
            assert(selector.len() == 1);
        }
    }
    if has_prefix(selector, "group:"@) {
        assert(selector.subrange(0, 6)[0] == selector[0]);
    }
}

/// When every destination of every rule is a `tag:` selector, a principal
/// carrying none of those tags can be reached by no one.
pub proof fn lemma_tag_destinations_need_the_tag(m: PolicyModel, src: PrincipalModel, dst: PrincipalModel)
    requires
        forall|k: int, j: int| 0 <= k < m.rules.len() && 0 <= j < m.rules[k].dst.len()
            ==> has_prefix(#[trigger] m.rules[k].dst[j].0, "tag:"@)
                && !dst.tags.contains(m.rules[k].dst[j].0),
    ensures
        !policy_allows(m, src, dst),
{
    assert forall|k: int| 0 <= k < m.rules.len() implies !dst_matches(m, #[trigger] m.rules[k], dst) by {
        assert forall|j: int| 0 <= j < m.rules[k].dst.len() implies !selector_matches(m.groups, #[trigger] m.rules[k].dst[j].0, dst) by {
            lemma_tag_selector_needs_that_tag(m.groups, m.rules[k].dst[j].0, dst);
            if selector_matches(m.groups, m.rules[k].dst[j].0, dst) {
                let i = choose|i: int| 0 <= i < dst.tags.len() && dst.tags[i] == m.rules[k].dst[j].0;
                assert(dst.tags.contains(m.rules[k].dst[j].0));
            }
        }
    }
}

pub open spec fn src_matches(m: PolicyModel, rule: RuleModel, p: PrincipalModel) -> bool {
    exists|i: int| 0 <= i < rule.src.len() && #[trigger] selector_matches(m.groups, rule.src[i], p)
}

pub open spec fn dst_matches(m: PolicyModel, rule: RuleModel, p: PrincipalModel) -> bool {
    exists|i: int| 0 <= i < rule.dst.len() && #[trigger] selector_matches(m.groups, rule.dst[i].0, p)
}

/// Some accept rule lets `src` reach `dst`.
pub open spec fn policy_allows(m: PolicyModel, src: PrincipalModel, dst: PrincipalModel) -> bool {
    exists|k: int| 0 <= k < m.rules.len() && src_matches(m, #[trigger] m.rules[k], src) && dst_matches(m, m.rules[k], dst)
}

#[derive(Debug, Clone)]
pub struct Rule {
    src: Vec<String>,
    dst: Vec<DstSel>,
}

/// A destination selector: a host pattern plus the ports it covers.
#[derive(Debug, Clone)]
pub struct DstSel {
    host: String,
    ports: Ports,
}

/// A parsed, validated policy.
#[derive(Debug, Clone)]
pub struct Policy {
    groups: Vec<(String, Vec<String>)>,
    rules: Vec<Rule>,
}

spec fn dst_model(d: DstSel) -> (Seq<char>, PortsModel) {
    (d.host@, ports_model(d.ports))
}

spec fn rule_model(r: Rule) -> RuleModel {
    RuleModel { src: strings_view(r.src@), dst: r.dst@.map_values(|d: DstSel| dst_model(d)) }
}

/// Peers as values: each principal with its overlay network.
pub open spec fn peers_model(peers: Seq<(Principal, IpNet)>) -> Seq<(PrincipalModel, IpNet)> {
    peers.map_values(|e: (Principal, IpNet)| (principal_model(e.0), e.1))
}

/// The overlay networks of the peers matched by some `src` selector of `rule`,
/// in peer order.
pub open spec fn rule_sources(m: PolicyModel, rule: RuleModel, peers: Seq<(PrincipalModel, IpNet)>) -> Seq<IpNet>
    decreases peers.len(),
{
    if peers.len() == 0 {
        seq![]
    } else {
        let prev = rule_sources(m, rule, peers.drop_last());
        if src_matches(m, rule, peers.last().0) {
            prev.push(peers.last().1)
        } else {
            prev
        }
    }
}

/// One filter entry `(sources, ports)` per `dst` entry of a rule whose host
/// selector matches `dst`, in entry order.
pub open spec fn dst_entries(
    m: PolicyModel,
    dsts: Seq<(Seq<char>, PortsModel)>,
    dst: PrincipalModel,
    srcs: Seq<IpNet>,
) -> Seq<(Seq<IpNet>, PortsModel)>
    decreases dsts.len(),
{
    if dsts.len() == 0 {
        seq![]
    } else {
        let prev = dst_entries(m, dsts.drop_last(), dst, srcs);
        if selector_matches(m.groups, dsts.last().0, dst) {
            prev.push((srcs, dsts.last().1))
        } else {
            prev
        }
    }
}

/// The filter entries one rule contributes to `dst`'s inbound filter: none
/// when no peer matches its sources.
pub open spec fn rule_entries(m: PolicyModel, rule: RuleModel, dst: PrincipalModel, peers: Seq<(PrincipalModel, IpNet)>) -> Seq<(Seq<IpNet>, PortsModel)> {
    let srcs = rule_sources(m, rule, peers);
    if srcs.len() == 0 {
        seq![]
    } else {
        dst_entries(m, rule.dst, dst, srcs)
    }
}

/// The inbound filter of `dst` from the first `rules.len()` rules, rule by rule.
pub open spec fn inbound_entries(m: PolicyModel, rules: Seq<RuleModel>, dst: PrincipalModel, peers: Seq<(PrincipalModel, IpNet)>) -> Seq<(Seq<IpNet>, PortsModel)>
    decreases rules.len(),
{
    if rules.len() == 0 {
        seq![]
    } else {
        inbound_entries(m, rules.drop_last(), dst, peers) + rule_entries(m, rules.last(), dst, peers)
    }
}

/// A filter rule as values.
pub open spec fn filter_rule_model(r: FilterRule) -> (Seq<IpNet>, PortsModel) {
    (r.src_ips@, ports_model(r.ports))
}

pub open spec fn filter_rules_model(v: Seq<FilterRule>) -> Seq<(Seq<IpNet>, PortsModel)> {
    v.map_values(|r: FilterRule| filter_rule_model(r))
}

proof fn lemma_rules_model_push(v: Seq<FilterRule>, x: FilterRule)
    ensures
        filter_rules_model(v.push(x)) == filter_rules_model(v).push(filter_rule_model(x)),
{
    assert(filter_rules_model(v.push(x)) =~= filter_rules_model(v).push(filter_rule_model(x)));
}

/// `Debug` text of a string: quoted, with escapes.
pub uninterp spec fn debug_quoted(s: Seq<char>) -> Seq<char>;

#[verifier::external_body]
fn debug_str(s: &str) -> (r: String)
    ensures
        r@ == debug_quoted(s@),
{
    format!("{:?}", s)
}

/// The message the admin API shows for a rejected policy.
pub open spec fn policy_error_text(e: PolicyError) -> Seq<char> {
    match e {
        PolicyError::UnsupportedAction { index, action } => "acls["@ + decimal(index as nat)
            + "]: unsupported action "@ + debug_quoted(action@) + " (only \"accept\")"@,
        PolicyError::EmptySelectors { index } => "acls["@ + decimal(index as nat)
            + "]: src and dst must be non-empty"@,
    }
}

impl PolicyError {
    /// The error as text, naming the offending rule.
    pub fn message(&self) -> (r: String)
        ensures
            r@ == policy_error_text(*self),
    {
        let mut out: Vec<char> = Vec::new();
        push_all(&mut out, &chars_of("acls["));
        match self {
            PolicyError::UnsupportedAction { index, action } => {
                push_decimal(&mut out, *index as u64);
                push_all(&mut out, &chars_of("]: unsupported action "));
                push_all(&mut out, &chars_of(debug_str(action.as_str()).as_str()));
                push_all(&mut out, &chars_of(" (only \"accept\")"));
            },
            PolicyError::EmptySelectors { index } => {
                push_decimal(&mut out, *index as u64);
                push_all(&mut out, &chars_of("]: src and dst must be non-empty"));
            },
        }
        string_from_chars(&out)
    }
}

/// Parse the ports list `s` (`22,443`): every comma-separated piece must be
/// a `u16`.
fn parse_port_list(s: &[char]) -> (r: Option<Vec<u16>>)
    ensures
        r is Some <==> all_parse(split_char(s@, ',')),
        r matches Some(v) ==> v@ == split_char(s@, ',').map_values(|p: Seq<char>| parse_u16_text(p)->0),
{
    let pieces = split_on(s, ',');
    let ghost ps = split_char(s@, ',');
    let mut out: Vec<u16> = Vec::new();
    let mut i: usize = 0;
    while i < pieces.len()
        invariant
            i <= pieces@.len(),
            pieces_view(pieces@) == ps,
            ps == split_char(s@, ','),
            forall|j: int| 0 <= j < i ==> (#[trigger] parse_u16_text(ps[j])) is Some,
            out@ == ps.take(i as int).map_values(|p: Seq<char>| parse_u16_text(p)->0),
        decreases pieces.len() - i,
    {
        let piece = &pieces[i];
        assert(piece@ == ps[i as int]);
        assert(piece@.subrange(0, piece@.len() as int) =~= piece@);
        match parse_u16_chars(piece.as_slice(), 0, piece.len()) {
            None => {
                return None;
            },
            Some(v) => {
                out.push(v);
                assert(out@ =~= ps.take(i + 1).map_values(|p: Seq<char>| parse_u16_text(p)->0));
            },
        }
        i = i + 1;
    }
    assert(ps.take(ps.len() as int) =~= ps);
    Some(out)
}

/// Every piece is a `u16`.
pub open spec fn all_parse(pieces: Seq<Seq<char>>) -> bool {
    forall|i: int| 0 <= i < pieces.len() ==> (#[trigger] parse_u16_text(pieces[i])) is Some
}

proof fn lemma_star()
    ensures
        "*"@ == seq!['*'],
{
    reveal_strlit("*");
}

/// Whether `s` is `*`.
fn is_star(s: &[char]) -> (r: bool)
    ensures
        r == (s@ == "*"@),
{
    proof {
        lemma_star();
    }
    if s.len() == 1 && s[0] == '*' {
        assert(s@ =~= seq!['*']);
        true
    } else {
        false
    }
}

/// The host selector and the ports of a `dst` entry.
fn dst_parts(d: &[char]) -> (r: (Vec<char>, Ports))
    ensures
        r.0@ == host_of_text(d@),
        ports_model(r.1) == port_of_text(d@),
{
    assert(d@.subrange(0, d@.len() as int) =~= d@);
    match find_last(d, ':') {
        None => (slice_chars(d, 0, d.len()), Ports::All),
        Some(k) => {
            proof {
                lemma_last_index_of(d@, ':');
            }
            let n = d.len();
            assert(k < n);
            let tail = slice_chars(d, k + 1, n);
            if is_star(&tail) {
                (slice_chars(d, 0, k), Ports::All)
            } else if tail.len() == 0 {
                (slice_chars(d, 0, d.len()), Ports::All)
            } else {
                match parse_port_list(&tail) {
                    Some(v) => (slice_chars(d, 0, k), Ports::List(v)),
                    None => (slice_chars(d, 0, d.len()), Ports::All),
                }
            }
        },
    }
}

/// The host selector of a `dst` entry (`tag:server:22,443` gives
/// `tag:server`; an entry without a ports suffix is returned whole).
pub fn host_of(dst: &str) -> (r: String)
    ensures
        r@ == host_of_text(dst@),
{
    let (host, _) = dst_parts(&chars_of(dst));
    string_from_chars(&host)
}

/// The ports of a `dst` entry (`22,443` or `*`); all ports when there is no
/// ports suffix.
pub fn port_of(dst: &str) -> (r: Ports)
    ensures
        ports_model(r) == port_of_text(dst@),
{
    let (_, ports) = dst_parts(&chars_of(dst));
    ports
}

/// Whether `item` is one of `list`.
fn list_contains(list: &Vec<String>, item: &str) -> (r: bool)
    ensures
        r == strings_view(list@).contains(item@),
{
    let mut i: usize = 0;
    while i < list.len()
        invariant
            i <= list@.len(),
            forall|j: int| 0 <= j < i ==> (#[trigger] list@[j])@ != item@,
        decreases list.len() - i,
    {
        if str_eq(list[i].as_str(), item) {
            assert(strings_view(list@)[i as int] == item@);
            return true;
        }
        i = i + 1;
    }
    assert forall|j: int| 0 <= j < strings_view(list@).len() implies strings_view(list@)[j] != item@ by {
        assert(list@[j]@ != item@);
    }
    false
}

/// A copy of a list of strings.
fn copy_strings(v: &Vec<String>) -> (r: Vec<String>)
    ensures
        strings_view(r@) == strings_view(v@),
{
    let mut out: Vec<String> = Vec::new();
    let mut i: usize = 0;
    while i < v.len()
        invariant
            i <= v@.len(),
            out@.len() == i,
            forall|j: int| 0 <= j < i ==> (#[trigger] out@[j])@ == v@[j]@,
        decreases v.len() - i,
    {
        let c = v[i].clone();
        out.push(c);
        i = i + 1;
    }
    assert(strings_view(out@) =~= strings_view(v@));
    out
}

/// A copy of a ports value.
fn copy_ports(p: &Ports) -> (r: Ports)
    ensures
        ports_model(r) == ports_model(*p),
{
    match p {
        Ports::All => Ports::All,
        Ports::List(v) => {
            let mut out: Vec<u16> = Vec::new();
            let mut i: usize = 0;
            while i < v.len()
                invariant
                    i <= v@.len(),
                    out@ == v@.take(i as int),
                decreases v.len() - i,
            {
                out.push(v[i]);
                assert(out@ =~= v@.take(i + 1));
                i = i + 1;
            }
            assert(v@.take(v@.len() as int) =~= v@);
            Ports::List(out)
        },
    }
}

/// A copy of a list of networks.
fn copy_nets(v: &Vec<IpNet>) -> (r: Vec<IpNet>)
    ensures
        r@ == v@,
{
    let mut out: Vec<IpNet> = Vec::new();
    let mut i: usize = 0;
    while i < v.len()
        invariant
            i <= v@.len(),
            out@ == v@.take(i as int),
        decreases v.len() - i,
    {
        out.push(v[i]);
        assert(out@ =~= v@.take(i + 1));
        i = i + 1;
    }
    assert(v@.take(v@.len() as int) =~= v@);
    out
}

/// The groups with only the first of each name kept, in order (what a
/// table keyed by group name holds).
pub open spec fn first_groups(g: Seq<(Seq<char>, Seq<Seq<char>>)>) -> Seq<(Seq<char>, Seq<Seq<char>>)>
    decreases g.len(),
{
    if g.len() == 0 {
        g
    } else {
        let d = first_groups(g.drop_last());
        if group_lookup(d, g.last().0) is Some {
            d
        } else {
            d.push(g.last())
        }
    }
}

/// No two groups have the same name.
pub open spec fn group_names_distinct(g: Seq<(Seq<char>, Seq<Seq<char>>)>) -> bool {
    forall|i: int, j: int| 0 <= i < j < g.len() ==> #[trigger] g[i].0 != #[trigger] g[j].0
}

proof fn lemma_group_lookup_push(s: Seq<(Seq<char>, Seq<Seq<char>>)>, x: (Seq<char>, Seq<Seq<char>>), k: Seq<char>)
    ensures
        group_lookup(s.push(x), k) == match group_lookup(s, k) {
            Some(v) => Some(v),
            None => if x.0 == k { Some(x.1) } else { None },
        },
    decreases s.len(),
{
    if s.len() == 0 {
        assert(s.push(x).drop_first() =~= s);
    } else {
        assert(s.push(x)[0] == s[0]);
        assert(s.push(x).drop_first() =~= s.drop_first().push(x));
        lemma_group_lookup_push(s.drop_first(), x, k);
    }
}

proof fn lemma_group_lookup_none(s: Seq<(Seq<char>, Seq<Seq<char>>)>, k: Seq<char>)
    ensures
        group_lookup(s, k) is None <==> forall|i: int| 0 <= i < s.len() ==> (#[trigger] s[i]).0 != k,
    decreases s.len(),
{
    if s.len() > 0 {
        lemma_group_lookup_none(s.drop_first(), k);
        assert forall|i: int| 0 < i < s.len() implies s[i] == s.drop_first()[i - 1] by {}
        if group_lookup(s, k) is None {
            assert forall|i: int| 0 <= i < s.len() implies (#[trigger] s[i]).0 != k by {
                if i > 0 {
                    assert(s[i] == s.drop_first()[i - 1]);
                }
            }
        } else if s[0].0 != k {
            let i = choose|i: int| 0 <= i < s.drop_first().len() && (#[trigger] s.drop_first()[i]).0 == k;
            assert(s[i + 1] == s.drop_first()[i]);
        }
    }
}

/// Keeping the first group of each name changes no lookup, and leaves each
/// name once.
pub proof fn lemma_first_groups(g: Seq<(Seq<char>, Seq<Seq<char>>)>, k: Seq<char>)
    ensures
        group_lookup(first_groups(g), k) == group_lookup(g, k),
        group_names_distinct(first_groups(g)),
    decreases g.len(),
{
    if g.len() > 0 {
        let g0 = g.drop_last();
        let x = g.last();
        lemma_first_groups(g0, k);
        lemma_first_groups(g0, x.0);
        let d = first_groups(g0);
        assert(g0.push(x) =~= g);
        lemma_group_lookup_push(g0, x, k);
        if group_lookup(d, x.0) is None {
            lemma_group_lookup_push(d, x, k);
            lemma_group_lookup_none(d, x.0);
            let e = d.push(x);
            assert forall|i: int, j: int| 0 <= i < j < e.len() implies #[trigger] e[i].0 != #[trigger] e[j].0 by {
                assert(e[i] == d[i]);
                if j < d.len() {
                    assert(e[j] == d[j]);
                }
            }
        }
    } else {
        assert(first_groups(g) == g);
    }
}

/// The groups of `raw`, keeping the first of each name.
fn first_groups_exec(raw: Vec<(String, Vec<String>)>) -> (r: Vec<(String, Vec<String>)>)
    ensures
        groups_model(r@) == first_groups(groups_model(raw@)),
{
    let ghost orig = groups_model(raw@);
    let mut src = raw;
    let mut out: Vec<(String, Vec<String>)> = Vec::new();
    let ghost mut k: int = 0;
    assert(orig.skip(0) =~= orig);
    assert(groups_model(out@) =~= first_groups(orig.take(0)));
    while src.len() > 0
        invariant
            0 <= k <= orig.len(),
            groups_model(src@) == orig.skip(k),
            groups_model(out@) == first_groups(orig.take(k)),
        decreases src.len(),
    {
        let ghost before = src@;
        let g = src.remove(0);
        assert(groups_model(src@) =~= groups_model(before).drop_first());
        assert(orig.skip(k).drop_first() =~= orig.skip(k + 1));
        assert(orig[k] == groups_model(before)[0]);
        assert(orig.take(k + 1).drop_last() =~= orig.take(k));
        assert(orig.take(k + 1).last() == orig[k]);
        if find_group(&out, g.0.as_str()).is_none() {
            let ghost prev = out@;
            out.push(g);
            assert(groups_model(out@) =~= groups_model(prev).push(orig[k]));
        }
        proof {
            k = k + 1;
        }
    }
    assert(orig.take(k) =~= orig);
    out
}

/// Index of the first group named `key`.
fn find_group(groups: &Vec<(String, Vec<String>)>, key: &str) -> (r: Option<usize>)
    ensures
        r matches Some(k) ==> k < groups@.len() && group_lookup(groups_model(groups@), key@) == Some(
            strings_view(groups@[k as int].1@),
        ),
        r is None ==> group_lookup(groups_model(groups@), key@) is None,
{
    let ghost gm = groups_model(groups@);
    let mut i: usize = 0;
    assert(gm.subrange(0, gm.len() as int) =~= gm);
    while i < groups.len()
        invariant
            i <= groups@.len(),
            gm == groups_model(groups@),
            group_lookup(gm, key@) == group_lookup(gm.subrange(i as int, gm.len() as int), key@),
        decreases groups.len() - i,
    {
        let ghost rest = gm.subrange(i as int, gm.len() as int);
        assert(rest[0] == gm[i as int]);
        if str_eq(groups[i].0.as_str(), key) {
            return Some(i);
        }
        assert(rest.drop_first() =~= gm.subrange(i + 1, gm.len() as int));
        i = i + 1;
    }
    None
}

impl Policy {
    /// Each group name occurs once.
    pub closed spec fn wf(self) -> bool {
        group_names_distinct(groups_model(self.groups@))
    }

    /// The policy as values.
    pub closed spec fn model(self) -> PolicyModel {
        PolicyModel {
            groups: groups_model(self.groups@),
            rules: self.rules@.map_values(|r: Rule| rule_model(r)),
        }
    }

    /// Parse and validate a policy document, reporting the first rule with a
    /// problem.
    pub fn parse(raw: RawPolicy) -> (r: Result<Policy, PolicyError>)
        ensures
            r is Ok <==> forall|i: int| 0 <= i < raw.acls@.len() ==> rule_problem(#[trigger] raw.acls@[i]) == 0,
            r matches Ok(p) ==> p.wf() && p.model() == (PolicyModel {
                groups: first_groups(groups_model(raw.groups@)),
                rules: raw.acls@.map_values(|a: RawRule| rule_from_raw(a)),
            }),
            r matches Err(PolicyError::UnsupportedAction { index, action }) ==> index < raw.acls@.len()
                && rule_problem(raw.acls@[index as int]) == 1 && action@ == raw.acls@[index as int].action@
                && forall|j: int| 0 <= j < index ==> rule_problem(#[trigger] raw.acls@[j]) == 0,
            r matches Err(PolicyError::EmptySelectors { index }) ==> index < raw.acls@.len()
                && rule_problem(raw.acls@[index as int]) == 2
                && forall|j: int| 0 <= j < index ==> rule_problem(#[trigger] raw.acls@[j]) == 0,
    {
        let mut rules: Vec<Rule> = Vec::new();
        let mut i: usize = 0;
        while i < raw.acls.len()
            invariant
                i <= raw.acls@.len(),
                forall|j: int| 0 <= j < i ==> rule_problem(#[trigger] raw.acls@[j]) == 0,
                rules@.len() == i,
                forall|j: int| 0 <= j < i ==> rule_model(#[trigger] rules@[j]) == rule_from_raw(raw.acls@[j]),
            decreases raw.acls.len() - i,
        {
            let r = &raw.acls[i];
            if !str_eq(r.action.as_str(), "accept") {
                return Err(PolicyError::UnsupportedAction { index: i, action: r.action.clone() });
            }
            if r.src.len() == 0 || r.dst.len() == 0 {
                return Err(PolicyError::EmptySelectors { index: i });
            }
            let mut dst: Vec<DstSel> = Vec::new();
            let mut k: usize = 0;
            while k < r.dst.len()
                invariant
                    k <= r.dst@.len(),
                    dst@.len() == k,
                    forall|j: int| 0 <= j < k ==> dst_model(#[trigger] dst@[j]) == (host_of_text(r.dst@[j]@), port_of_text(r.dst@[j]@)),
                decreases r.dst.len() - k,
            {
                let (host, ports) = dst_parts(&chars_of(r.dst[k].as_str()));
                let sel = DstSel { host: string_from_chars(&host), ports };
                assert(dst_model(sel) == (host_of_text(r.dst@[k as int]@), port_of_text(r.dst@[k as int]@)));
                dst.push(sel);
                k = k + 1;
            }
            let rule = Rule { src: copy_strings(&r.src), dst };
            assert(rule_model(rule).dst =~= rule_from_raw(*r).dst) by {
                assert forall|j: int| 0 <= j < rule.dst@.len() implies rule_model(rule).dst[j] == rule_from_raw(*r).dst[j] by {
                    assert(strings_view(r.dst@)[j] == r.dst@[j]@);
                }
            }
            assert(rule_model(rule) == rule_from_raw(*r));
            rules.push(rule);
            i = i + 1;
        }
        let groups = first_groups_exec(raw.groups);
        proof {
            lemma_first_groups(groups_model(raw.groups@), seq![]);
        }
        let p = Policy { groups, rules };
        assert(p.model().rules =~= raw.acls@.map_values(|a: RawRule| rule_from_raw(a)));
        Ok(p)
    }

    /// Does `selector` match `p`?
    fn matches(&self, selector: &str, p: &Principal) -> (r: bool)
        ensures
            r == selector_matches(self.model().groups, selector@, principal_model(*p)),
    {
        if str_eq(selector, "*") {
            return true;
        }
        let sel = chars_of(selector);
        let group_prefix = chars_of("group:");
        if starts_with(&sel, &group_prefix) {
            match &p.user {
                None => {
                    return false;
                },
                Some(user) => {
                    match find_group(&self.groups, selector) {
                        Some(k) => {
                            return list_contains(&self.groups[k].1, user.as_str());
                        },
                        None => {
                            let bare = string_from_chars(&slice_chars(&sel, group_prefix.len(), sel.len()));
                            match find_group(&self.groups, bare.as_str()) {
                                Some(k) => {
                                    return list_contains(&self.groups[k].1, user.as_str());
                                },
                                None => {
                                    return false;
                                },
                            }
                        },
                    }
                },
            }
        }
        if starts_with(&sel, &chars_of("tag:")) {
            return list_contains(&p.tags, selector);
        }
        match &p.user {
            Some(u) => str_eq(u.as_str(), selector),
            None => false,
        }
    }

    /// Whether some `src` selector of `rule` matches `p`.
    fn src_any(&self, rule: &Rule, p: &Principal) -> (r: bool)
        ensures
            r == src_matches(self.model(), rule_model(*rule), principal_model(*p)),
    {
        let ghost rm = rule_model(*rule);
        let mut i: usize = 0;
        while i < rule.src.len()
            invariant
                i <= rule.src@.len(),
                rm == rule_model(*rule),
                forall|j: int| 0 <= j < i ==> !selector_matches(self.model().groups, #[trigger] rm.src[j], principal_model(*p)),
            decreases rule.src.len() - i,
        {
            if self.matches(rule.src[i].as_str(), p) {
                assert(selector_matches(self.model().groups, rm.src[i as int], principal_model(*p)));
                return true;
            }
            i = i + 1;
        }
        false
    }

    /// Whether some `dst` host selector of `rule` matches `p`.
    fn dst_any(&self, rule: &Rule, p: &Principal) -> (r: bool)
        ensures
            r == dst_matches(self.model(), rule_model(*rule), principal_model(*p)),
    {
        let ghost rm = rule_model(*rule);
        let mut i: usize = 0;
        while i < rule.dst.len()
            invariant
                i <= rule.dst@.len(),
                rm == rule_model(*rule),
                forall|j: int| 0 <= j < i ==> !selector_matches(self.model().groups, (#[trigger] rm.dst[j]).0, principal_model(*p)),
            decreases rule.dst.len() - i,
        {
            if self.matches(rule.dst[i].host.as_str(), p) {
                assert(selector_matches(self.model().groups, rm.dst[i as int].0, principal_model(*p)));
                return true;
            }
            i = i + 1;
        }
        false
    }

    /// Does any accept rule permit `src` to reach `dst`?
    pub fn allows(&self, src: &Principal, dst: &Principal) -> (r: bool)
        ensures
            r == policy_allows(self.model(), principal_model(*src), principal_model(*dst)),
    {
        let ghost m = self.model();
        let mut k: usize = 0;
        while k < self.rules.len()
            invariant
                k <= self.rules@.len(),
                m == self.model(),
                forall|j: int| 0 <= j < k ==> !(src_matches(m, #[trigger] m.rules[j], principal_model(*src))
                    && dst_matches(m, m.rules[j], principal_model(*dst))),
            decreases self.rules.len() - k,
        {
            let rule = &self.rules[k];
            assert(m.rules[k as int] == rule_model(*rule));
            if self.src_any(rule, src) && self.dst_any(rule, dst) {
                return true;
            }
            k = k + 1;
        }
        false
    }

    /// The inbound packet filter of node `dst`: for every rule whose `dst`
    /// matches it, the overlay networks of the peers its `src` matches are
    /// allowed on the ports of each matching `dst` entry.
    pub fn inbound_filter(&self, dst: &Principal, peers: &[(Principal, IpNet)]) -> (r: Vec<FilterRule>)
        ensures
            filter_rules_model(r@) == inbound_entries(self.model(), self.model().rules, principal_model(*dst), peers_model(peers@)),
    {
        let ghost m = self.model();
        let ghost pm = peers_model(peers@);
        let ghost dm = principal_model(*dst);
        let mut out: Vec<FilterRule> = Vec::new();
        let mut k: usize = 0;
        while k < self.rules.len()
            invariant
                k <= self.rules@.len(),
                m == self.model(),
                pm == peers_model(peers@),
                dm == principal_model(*dst),
                filter_rules_model(out@) == inbound_entries(m, m.rules.take(k as int), dm, pm),
            decreases self.rules.len() - k,
        {
            let rule = &self.rules[k];
            let ghost rm = rule_model(*rule);
            assert(m.rules[k as int] == rm);
            assert(m.rules.take(k + 1).drop_last() =~= m.rules.take(k as int));
            let ghost before = out@;
            let mut srcs: Vec<IpNet> = Vec::new();
            let mut i: usize = 0;
            while i < peers.len()
                invariant
                    i <= peers@.len(),
                    m == self.model(),
                    rm == rule_model(*rule),
                    pm == peers_model(peers@),
                    srcs@ == rule_sources(m, rm, pm.take(i as int)),
                decreases peers.len() - i,
            {
                assert(pm.take(i + 1).drop_last() =~= pm.take(i as int));
                assert(pm[i as int] == (principal_model(peers@[i as int].0), peers@[i as int].1));
                if self.src_any(rule, &peers[i].0) {
                    srcs.push(peers[i].1);
                }
                i = i + 1;
            }
            assert(pm.take(peers@.len() as int) =~= pm);
            if srcs.len() > 0 {
                let mut d: usize = 0;
                while d < rule.dst.len()
                    invariant
                        d <= rule.dst@.len(),
                        m == self.model(),
                        rm == rule_model(*rule),
                        dm == principal_model(*dst),
                        srcs@ == rule_sources(m, rm, pm),
                        filter_rules_model(out@) == filter_rules_model(before) + dst_entries(m, rm.dst.take(d as int), dm, srcs@),
                    decreases rule.dst.len() - d,
                {
                    assert(rm.dst.take(d + 1).drop_last() =~= rm.dst.take(d as int));
                    assert(rm.dst[d as int] == dst_model(rule.dst@[d as int]));
                    assert(rm.dst.take(d + 1).last() == rm.dst[d as int]);
                    if self.matches(rule.dst[d].host.as_str(), dst) {
                        let fr = FilterRule { src_ips: copy_nets(&srcs), ports: copy_ports(&rule.dst[d].ports) };
                        assert(filter_rule_model(fr) == (srcs@, rm.dst[d as int].1));
                        proof {
                            lemma_rules_model_push(out@, fr);
                        }
                        out.push(fr);
                        assert(filter_rules_model(out@) =~= filter_rules_model(before) + dst_entries(m, rm.dst.take(d + 1), dm, srcs@));
                    } else {
                        assert(filter_rules_model(out@) =~= filter_rules_model(before) + dst_entries(m, rm.dst.take(d + 1), dm, srcs@));
                    }
                    d = d + 1;
                }
                assert(rm.dst.take(rm.dst.len() as int) =~= rm.dst);
            } else {
                assert(filter_rules_model(out@) =~= filter_rules_model(before) + rule_entries(m, rm, dm, pm));
            }
            assert(filter_rules_model(out@) =~= inbound_entries(m, m.rules.take(k + 1), dm, pm));
            k = k + 1;
        }
        assert(m.rules.take(m.rules.len() as int) =~= m.rules);
        out
    }
}

/// A rule whose sources include `*` and one of whose destinations has host
/// `*` lets every principal reach every principal.
pub proof fn lemma_wildcard_rule_allows_all(m: PolicyModel, k: int, si: int, di: int, src: PrincipalModel, dst: PrincipalModel)
    requires
        0 <= k < m.rules.len(),
        0 <= si < m.rules[k].src.len(),
        0 <= di < m.rules[k].dst.len(),
        m.rules[k].src[si] == "*"@,
        m.rules[k].dst[di].0 == "*"@,
    ensures
        policy_allows(m, src, dst),
{
    assert(selector_matches(m.groups, m.rules[k].src[si], src));
    assert(selector_matches(m.groups, m.rules[k].dst[di].0, dst));
    assert(src_matches(m, m.rules[k], src));
    assert(dst_matches(m, m.rules[k], dst));
}

/// A policy without rules lets nobody reach anybody.
pub proof fn lemma_no_rules_denies_all(m: PolicyModel, src: PrincipalModel, dst: PrincipalModel)
    requires
        m.rules.len() == 0,
    ensures
        !policy_allows(m, src, dst),
{
}

proof fn lemma_sources_from_peers(m: PolicyModel, rule: RuleModel, peers: Seq<(PrincipalModel, IpNet)>, i: int)
    requires
        0 <= i < rule_sources(m, rule, peers).len(),
    ensures
        exists|j: int| 0 <= j < peers.len() && #[trigger] peers[j].1 == rule_sources(m, rule, peers)[i]
            && src_matches(m, rule, peers[j].0),
    decreases peers.len(),
{
    let prev = rule_sources(m, rule, peers.drop_last());
    if i < prev.len() {
        lemma_sources_from_peers(m, rule, peers.drop_last(), i);
        let j = choose|j: int| 0 <= j < peers.drop_last().len() && #[trigger] peers.drop_last()[j].1 == prev[i]
            && src_matches(m, rule, peers.drop_last()[j].0);
        assert(peers[j] == peers.drop_last()[j]);
    } else {
        assert(peers[peers.len() - 1].1 == rule_sources(m, rule, peers)[i]);
    }
}

proof fn lemma_dst_entry_origin(m: PolicyModel, dsts: Seq<(Seq<char>, PortsModel)>, dst: PrincipalModel, srcs: Seq<IpNet>, e: int)
    requires
        0 <= e < dst_entries(m, dsts, dst, srcs).len(),
    ensures
        dst_entries(m, dsts, dst, srcs)[e].0 == srcs,
        exists|i: int| 0 <= i < dsts.len() && selector_matches(m.groups, (#[trigger] dsts[i]).0, dst)
            && dst_entries(m, dsts, dst, srcs)[e].1 == dsts[i].1,
    decreases dsts.len(),
{
    let prev = dst_entries(m, dsts.drop_last(), dst, srcs);
    if e < prev.len() {
        lemma_dst_entry_origin(m, dsts.drop_last(), dst, srcs, e);
        let i = choose|i: int| 0 <= i < dsts.drop_last().len() && selector_matches(m.groups, (#[trigger] dsts.drop_last()[i]).0, dst)
            && prev[e].1 == dsts.drop_last()[i].1;
        assert(dsts[i] == dsts.drop_last()[i]);
    } else {
        assert(dsts[dsts.len() - 1] == dsts.last());
    }
}

proof fn lemma_inbound_upto(m: PolicyModel, n: int, dst: PrincipalModel, peers: Seq<(PrincipalModel, IpNet)>, e: int, i: int)
    requires
        0 <= n <= m.rules.len(),
        0 <= e < inbound_entries(m, m.rules.take(n), dst, peers).len(),
        0 <= i < inbound_entries(m, m.rules.take(n), dst, peers)[e].0.len(),
    ensures
        exists|j: int| 0 <= j < peers.len() && #[trigger] peers[j].1 == inbound_entries(m, m.rules.take(n), dst, peers)[e].0[i]
            && policy_allows(m, peers[j].0, dst),
    decreases n,
{
    let rules = m.rules.take(n);
    assert(rules.drop_last() =~= m.rules.take(n - 1));
    let prev = inbound_entries(m, m.rules.take(n - 1), dst, peers);
    let all = inbound_entries(m, rules, dst, peers);
    if e < prev.len() {
        assert(all[e] == prev[e]);
        lemma_inbound_upto(m, n - 1, dst, peers, e, i);
    } else {
        let rule = m.rules[n - 1];
        assert(rules.last() == rule);
        let srcs = rule_sources(m, rule, peers);
        let ent = rule_entries(m, rule, dst, peers);
        assert(all[e] == ent[e - prev.len()]);
        lemma_dst_entry_origin(m, rule.dst, dst, srcs, e - prev.len());
        lemma_sources_from_peers(m, rule, peers, i);
        let j = choose|j: int| 0 <= j < peers.len() && #[trigger] peers[j].1 == srcs[i] && src_matches(m, rule, peers[j].0);
        assert(dst_matches(m, rule, dst));
        assert(src_matches(m, m.rules[n - 1], peers[j].0) && dst_matches(m, m.rules[n - 1], dst));
        assert(peers[j].1 == all[e].0[i]);
    }
}

/// Every source network in a node's inbound filter belongs to a peer that
/// the policy allows to reach that node.
pub proof fn lemma_inbound_sources_allowed(m: PolicyModel, dst: PrincipalModel, peers: Seq<(PrincipalModel, IpNet)>, e: int, i: int)
    requires
        0 <= e < inbound_entries(m, m.rules, dst, peers).len(),
        0 <= i < inbound_entries(m, m.rules, dst, peers)[e].0.len(),
    ensures
        exists|j: int| 0 <= j < peers.len() && #[trigger] peers[j].1 == inbound_entries(m, m.rules, dst, peers)[e].0[i]
            && policy_allows(m, peers[j].0, dst),
{
    assert(m.rules.take(m.rules.len() as int) =~= m.rules);
    lemma_inbound_upto(m, m.rules.len() as int, dst, peers, e, i);
}

proof fn lemma_dst_entries_none(m: PolicyModel, dsts: Seq<(Seq<char>, PortsModel)>, dst: PrincipalModel, srcs: Seq<IpNet>)
    requires
        forall|i: int| 0 <= i < dsts.len() ==> !selector_matches(m.groups, (#[trigger] dsts[i]).0, dst),
    ensures
        dst_entries(m, dsts, dst, srcs).len() == 0,
    decreases dsts.len(),
{
    if dsts.len() > 0 {
        assert(dsts.last() == dsts[dsts.len() - 1]);
        lemma_dst_entries_none(m, dsts.drop_last(), dst, srcs);
    }
}

proof fn lemma_inbound_none_upto(m: PolicyModel, n: int, dst: PrincipalModel, peers: Seq<(PrincipalModel, IpNet)>)
    requires
        0 <= n <= m.rules.len(),
        forall|k: int| 0 <= k < m.rules.len() ==> !dst_matches(m, #[trigger] m.rules[k], dst),
    ensures
        inbound_entries(m, m.rules.take(n), dst, peers).len() == 0,
    decreases n,
{
    if n > 0 {
        let rules = m.rules.take(n);
        assert(rules.drop_last() =~= m.rules.take(n - 1));
        lemma_inbound_none_upto(m, n - 1, dst, peers);
        let rule = m.rules[n - 1];
        assert(rules.last() == rule);
        assert(!dst_matches(m, rule, dst));
        lemma_dst_entries_none(m, rule.dst, dst, rule_sources(m, rule, peers));
    }
}

/// A node that no rule names as a destination gets an empty inbound filter.
pub proof fn lemma_not_a_destination_no_inbound(m: PolicyModel, dst: PrincipalModel, peers: Seq<(PrincipalModel, IpNet)>)
    requires
        forall|k: int| 0 <= k < m.rules.len() ==> !dst_matches(m, #[trigger] m.rules[k], dst),
    ensures
        inbound_entries(m, m.rules, dst, peers).len() == 0,
{
    assert(m.rules.take(m.rules.len() as int) =~= m.rules);
    lemma_inbound_none_upto(m, m.rules.len() as int, dst, peers);
}

/// A `dst` entry with a ports suffix is exactly its host selector, a `:`,
/// and the ports text.
pub proof fn lemma_dst_is_host_and_ports(d: Seq<char>)
    requires
        ports_suffix(d) is Some,
    ensures
        ({
            let (k, tail) = ports_suffix(d)->0;
            d == host_of_text(d) + seq![':'] + tail
        }),
{
    lemma_last_index_of(d, ':');
    let (k, tail) = ports_suffix(d)->0;
    assert(d =~= d.subrange(0, k) + seq![':'] + d.subrange(k + 1, d.len() as int));
}

} // verus!

