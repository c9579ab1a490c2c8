//! WireGuard configuration rendered from a network map, in two flavours:
//! [`render_quick`] (`wg-quick` format, with `Address`) brings the interface
//! up; [`render_setconf`] (no `Address`, no comments) updates a running
//! interface in place.
//!
//! Peers without a known endpoint are still listed: they connect once an
//! endpoint is learned, or through the relay.

use vstd::prelude::*;
use crate::net::{net_text, push_net, push_sockaddr, sockaddr_text, IpNet};
use crate::proto::{Endpoint, EndpointKind, NetworkMap, PeerNode};
use crate::conf_lines::{join_lines, lemma_setconf_is_quick_without_address_and_comments, quick_lines, without_quick_only};
use crate::text::{chars_of, decimal, push_all, push_decimal, string_from_chars};

verus! {

/// The first endpoint learned through STUN, else the first endpoint.
pub open spec fn best_endpoint_of(eps: Seq<Endpoint>) -> Option<Endpoint> {
    if exists|i: int| 0 <= i < eps.len() && eps[i].kind == EndpointKind::Stun {
        let i = choose|i: int| 0 <= i < eps.len() && eps[i].kind == EndpointKind::Stun
            && forall|j: int| 0 <= j < i ==> eps[j].kind != EndpointKind::Stun;
        Some(eps[i])
    } else if eps.len() > 0 {
        Some(eps[0])
    } else {
        None
    }
}

/// The endpoint to dial for a peer: its server-reflexive (STUN) address,
/// which a peer on another network must use; else a local-network address.
pub fn best_endpoint(endpoints: &[Endpoint]) -> (r: Option<Endpoint>)
    ensures
        r == best_endpoint_of(endpoints@),
{
    let r = first_stun_or_first(endpoints);
    proof {
        lemma_best_endpoint(endpoints@, r);
    }
    r
}

fn first_stun_or_first(endpoints: &[Endpoint]) -> (r: Option<Endpoint>)
    ensures
        r is None <==> endpoints@.len() == 0,
        r matches Some(e) ==> (e.kind == EndpointKind::Stun ==> exists|i: int| 0 <= i < endpoints@.len()
            && endpoints@[i] == e && forall|j: int| 0 <= j < i ==> endpoints@[j].kind != EndpointKind::Stun),
        r matches Some(e) ==> (e.kind != EndpointKind::Stun ==> e == endpoints@[0] && forall|j: int|
            0 <= j < endpoints@.len() ==> endpoints@[j].kind != EndpointKind::Stun),
{
    let mut i: usize = 0;
    while i < endpoints.len()
        invariant
            i <= endpoints@.len(),
            forall|j: int| 0 <= j < i ==> endpoints@[j].kind != EndpointKind::Stun,
        decreases endpoints.len() - i,
    {
        if endpoints[i].kind == EndpointKind::Stun {
            return Some(endpoints[i]);
        }
        i = i + 1;
    }
    if endpoints.len() > 0 {
        Some(endpoints[0])
    } else {
        None
    }
}

/// A line of text.
pub open spec fn line(s: Seq<char>) -> Seq<char> {
    s + seq!['\n']
}

/// Networks joined by `, `.
pub open spec fn nets_text(nets: Seq<IpNet>) -> Seq<char>
    decreases nets.len(),
{
    if nets.len() == 0 {
        seq![]
    } else if nets.len() == 1 {
        net_text(nets[0])
    } else {
        nets_text(nets.drop_last()) + seq![',', ' '] + net_text(nets.last())
    }
}

/// One `[Peer]` section; `comments` adds a `# hostname` line.
pub open spec fn peer_section(p: PeerNode, comments: bool) -> Seq<char> {
    line("[Peer]"@) + (if comments { line("# "@ + p.hostname@) } else { seq![] }) + line(
        "PublicKey = "@ + p.public_key@,
    ) + line("AllowedIPs = "@ + nets_text(p.allowed_ips@)) + match best_endpoint_of(p.endpoints@) {
        Some(e) => line("Endpoint = "@ + sockaddr_text(e.addr)),
        None => seq![],
    } + line("PersistentKeepalive = 25"@) + line(seq![])
}

/// The `[Peer]` sections of all peers, in order.
pub open spec fn peers_text(peers: Seq<PeerNode>, comments: bool) -> Seq<char>
    decreases peers.len(),
{
    if peers.len() == 0 {
        seq![]
    } else {
        peers_text(peers.drop_last(), comments) + peer_section(peers.last(), comments)
    }
}

/// The `wg-quick` configuration of a node.
pub open spec fn quick_text(map: NetworkMap, private_key: Seq<char>, listen_port: u16) -> Seq<char> {
    line("[Interface]"@) + line("PrivateKey = "@ + private_key) + line(
        "Address = "@ + net_text(map.self_node.overlay_ip),
    ) + line("ListenPort = "@ + decimal(listen_port as nat)) + line(seq![]) + peers_text(map.peers@, true)
}

/// The `wg setconf` configuration of a node.
pub open spec fn setconf_text(map: NetworkMap, private_key: Seq<char>, listen_port: u16) -> Seq<char> {
    line("[Interface]"@) + line("PrivateKey = "@ + private_key) + line(
        "ListenPort = "@ + decimal(listen_port as nat),
    ) + line(seq![]) + peers_text(map.peers@, false)
}

fn push_str(out: &mut Vec<char>, s: &str)
    ensures
        final(out)@ == old(out)@ + s@,
{
    push_all(out, &chars_of(s));
}

fn push_nets(out: &mut Vec<char>, nets: &Vec<IpNet>)
    ensures
        final(out)@ == old(out)@ + nets_text(nets@),
{
    let ghost start = out@;
    let mut i: usize = 0;
    while i < nets.len()
        invariant
            i <= nets@.len(),
            out@ == start + nets_text(nets@.take(i as int)),
        decreases nets.len() - i,
    {
        assert(nets@.take(i + 1).drop_last() =~= nets@.take(i as int));
        assert(nets@.take(i + 1).last() == nets@[i as int]);
        let ghost before = out@;
        if i > 0 {
            out.push(',');
            out.push(' ');
        }
        push_net(out, &nets[i]);
        proof {
            if i == 0 {
                assert(out@ =~= start + nets_text(nets@.take(1)));
            } else {
                assert(out@ =~= start + nets_text(nets@.take(i + 1)));
            }
        }
        i = i + 1;
    }
    assert(nets@.take(nets@.len() as int) =~= nets@);
}

fn push_peer(out: &mut Vec<char>, p: &PeerNode, comments: bool)
    ensures
        final(out)@ == old(out)@ + peer_section(*p, comments),
{
    let ghost start = out@;
    push_str(out, "[Peer]\n");
    if comments {
        push_str(out, "# ");
        push_str(out, p.hostname.as_str());
        out.push('\n');
    }
    push_str(out, "PublicKey = ");
    push_str(out, p.public_key.as_str());
    out.push('\n');
    push_str(out, "AllowedIPs = ");
    push_nets(out, &p.allowed_ips);
    out.push('\n');
    let ghost mid = out@;
    let best = best_endpoint(p.endpoints.as_slice());
    if let Some(ep) = best {
        push_str(out, "Endpoint = ");
        push_sockaddr(out, &ep.addr);
        out.push('\n');
    }
    let ghost mid2 = out@;
    push_str(out, "PersistentKeepalive = 25\n");
    out.push('\n');
    proof {
        reveal_strlit("[Peer]\n");
        reveal_strlit("[Peer]");
        reveal_strlit("PersistentKeepalive = 25\n");
        reveal_strlit("PersistentKeepalive = 25");
        assert("[Peer]\n"@ =~= line("[Peer]"@));
        assert("PersistentKeepalive = 25\n"@ =~= line("PersistentKeepalive = 25"@));
        assert(out@ =~= start + peer_section(*p, comments));
    }
}

proof fn lemma_best_endpoint(eps: Seq<Endpoint>, best: Option<Endpoint>)
    requires
        best is None <==> eps.len() == 0,
        best matches Some(e) ==> (e.kind == EndpointKind::Stun ==> exists|i: int| 0 <= i < eps.len()
            && eps[i] == e && forall|j: int| 0 <= j < i ==> eps[j].kind != EndpointKind::Stun),
        best matches Some(e) ==> (e.kind != EndpointKind::Stun ==> e == eps[0] && forall|j: int|
            0 <= j < eps.len() ==> eps[j].kind != EndpointKind::Stun),
    ensures
        best == best_endpoint_of(eps),
{
    if exists|i: int| 0 <= i < eps.len() && eps[i].kind == EndpointKind::Stun {
        let k = choose|i: int| 0 <= i < eps.len() && eps[i].kind == EndpointKind::Stun
            && forall|j: int| 0 <= j < i ==> eps[j].kind != EndpointKind::Stun;
        assert(0 <= k < eps.len() && eps[k].kind == EndpointKind::Stun && forall|j: int| 0 <= j < k ==> eps[j].kind != EndpointKind::Stun) by {
            lemma_first_stun_exists(eps);
        }
        let e = best->0;
        if e.kind == EndpointKind::Stun {
            let i = choose|i: int| 0 <= i < eps.len() && eps[i] == e && forall|j: int| 0 <= j < i ==> eps[j].kind != EndpointKind::Stun;
            assert(i == k) by {
                if i < k {
                    assert(eps[i].kind != EndpointKind::Stun);
                } else if k < i {
                    assert(eps[k].kind != EndpointKind::Stun);
                }
            }
        } else {
            assert(eps[k].kind != EndpointKind::Stun);
        }
    }
}

proof fn lemma_first_stun_exists(eps: Seq<Endpoint>)
    requires
        exists|i: int| 0 <= i < eps.len() && eps[i].kind == EndpointKind::Stun,
    ensures
        exists|i: int| 0 <= i < eps.len() && eps[i].kind == EndpointKind::Stun
            && forall|j: int| 0 <= j < i ==> eps[j].kind != EndpointKind::Stun,
    decreases eps.len(),
{
    if eps[0].kind == EndpointKind::Stun {
        assert(forall|j: int| 0 <= j < 0 ==> eps[j].kind != EndpointKind::Stun);
    } else {
        let i = choose|i: int| 0 <= i < eps.len() && eps[i].kind == EndpointKind::Stun;
        assert(eps.drop_first()[i - 1].kind == EndpointKind::Stun);
        lemma_first_stun_exists(eps.drop_first());
        let k = choose|k: int| 0 <= k < eps.drop_first().len() && eps.drop_first()[k].kind == EndpointKind::Stun
            && forall|j: int| 0 <= j < k ==> eps.drop_first()[j].kind != EndpointKind::Stun;
        assert forall|j: int| 0 <= j < k + 1 implies eps[j].kind != EndpointKind::Stun by {
            if j > 0 {
                assert(eps[j] == eps.drop_first()[j - 1]);
            }
        }
        assert(eps[k + 1] == eps.drop_first()[k]);
    }
}

/// Write the `[Peer]` sections shared by both formats; `comments` adds a
/// `# hostname` line (valid for wg-quick, not for `wg setconf`).
pub fn write_peers(out: &mut Vec<char>, map: &NetworkMap, comments: bool)
    ensures
        final(out)@ == old(out)@ + peers_text(map.peers@, comments),
{
    let ghost start = out@;
    let mut i: usize = 0;
    while i < map.peers.len()
        invariant
            i <= map.peers@.len(),
            out@ == start + peers_text(map.peers@.take(i as int), comments),
        decreases map.peers.len() - i,
    {
        assert(map.peers@.take(i + 1).drop_last() =~= map.peers@.take(i as int));
        assert(map.peers@.take(i + 1).last() == map.peers@[i as int]);
        push_peer(out, &map.peers[i], comments);
        assert(out@ =~= start + peers_text(map.peers@.take(i + 1), comments));
        i = i + 1;
    }
    assert(map.peers@.take(map.peers@.len() as int) =~= map.peers@);
}

/// wg-quick configuration (with `Address`) used to bring the interface up.
pub fn render_quick(map: &NetworkMap, private_key: &str, listen_port: u16) -> (r: String)
    ensures
        r@ == quick_text(*map, private_key@, listen_port),
        r@ == join_lines(quick_lines(*map, private_key@, listen_port)),
{
    proof {
        lemma_setconf_is_quick_without_address_and_comments(*map, private_key@, listen_port);
    }
    let mut out: Vec<char> = Vec::new();
    push_str(&mut out, "[Interface]");
    out.push('\n');
    push_str(&mut out, "PrivateKey = ");
    push_str(&mut out, private_key);
    out.push('\n');
    push_str(&mut out, "Address = ");
    push_net(&mut out, &map.self_node.overlay_ip);
    out.push('\n');
    push_str(&mut out, "ListenPort = ");
    push_decimal(&mut out, listen_port as u64);
    out.push('\n');
    out.push('\n');
    let ghost head = out@;
    write_peers(&mut out, map, true);
    assert(out@ =~= quick_text(*map, private_key@, listen_port));
    string_from_chars(&out)
}

/// Stripped `wg setconf`/`syncconf` configuration (no `Address`, no
/// comments) used to update a running interface in place: the lines of the
/// wg-quick configuration, in order, without its `Address` line and its
/// `# hostname` comment lines.
pub fn render_setconf(map: &NetworkMap, private_key: &str, listen_port: u16) -> (r: String)
    ensures
        r@ == setconf_text(*map, private_key@, listen_port),
        r@ == join_lines(without_quick_only(quick_lines(*map, private_key@, listen_port))),
{
    proof {
        lemma_setconf_is_quick_without_address_and_comments(*map, private_key@, listen_port);
    }
    let mut out: Vec<char> = Vec::new();
    push_str(&mut out, "[Interface]");
    out.push('\n');
    push_str(&mut out, "PrivateKey = ");
    push_str(&mut out, private_key);
    out.push('\n');
    push_str(&mut out, "ListenPort = ");
    push_decimal(&mut out, listen_port as u64);
    out.push('\n');
    out.push('\n');
    write_peers(&mut out, map, false);
    assert(out@ =~= setconf_text(*map, private_key@, listen_port));
    string_from_chars(&out)
}

/// The wg-quick renderer under its earlier name.
pub fn render(map: &NetworkMap, private_key: &str, listen_port: u16) -> (r: String)
    ensures
        r@ == quick_text(*map, private_key@, listen_port),
{
    render_quick(map, private_key, listen_port)
}

} // verus!
