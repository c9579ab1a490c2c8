//! The line structure of the rendered WireGuard configurations: both are
//! lists of lines, and the `wg setconf` one is the `wg-quick` one without the
//! lines that only `wg-quick` reads.

use vstd::prelude::*;
use crate::net::{net_text, sockaddr_text};
use crate::proto::{NetworkMap, PeerNode};
use crate::text::decimal;
use crate::wgconfig::{best_endpoint_of, line, nets_text, peer_section, peers_text, quick_text, setconf_text};

verus! {

/// Lines joined, each ended by a newline.
pub open spec fn join_lines(ls: Seq<Seq<char>>) -> Seq<char>
    decreases ls.len(),
{
    if ls.len() == 0 {
        seq![]
    } else {
        join_lines(ls.drop_last()) + line(ls.last())
    }
}

/// The lines of one `[Peer]` section; `comments` adds the `# hostname` line.
pub open spec fn peer_lines(p: PeerNode, comments: bool) -> Seq<Seq<char>> {
    seq!["[Peer]"@] + (if comments { seq!["# "@ + p.hostname@] } else { seq![] }) + seq![
        "PublicKey = "@ + p.public_key@,
    ] + seq!["AllowedIPs = "@ + nets_text(p.allowed_ips@)] + match best_endpoint_of(p.endpoints@) {
        Some(e) => seq!["Endpoint = "@ + sockaddr_text(e.addr)],
        None => seq![],
    } + seq!["PersistentKeepalive = 25"@] + seq![seq![]]
}

/// The lines of the `[Peer]` sections of all peers, in order.
pub open spec fn peers_lines(peers: Seq<PeerNode>, comments: bool) -> Seq<Seq<char>>
    decreases peers.len(),
{
    if peers.len() == 0 {
        seq![]
    } else {
        peers_lines(peers.drop_last(), comments) + peer_lines(peers.last(), comments)
    }
}

/// The lines of a node's `wg-quick` configuration.
pub open spec fn quick_lines(map: NetworkMap, private_key: Seq<char>, listen_port: u16) -> Seq<Seq<char>> {
    seq!["[Interface]"@] + seq!["PrivateKey = "@ + private_key] + seq![
        "Address = "@ + net_text(map.self_node.overlay_ip),
    ] + seq!["ListenPort = "@ + decimal(listen_port as nat)] + seq![seq![]] + peers_lines(map.peers@, true)
}

/// A line that only `wg-quick` reads: the interface `Address`, or a comment.
pub open spec fn is_quick_only(l: Seq<char>) -> bool {
    "Address = "@.is_prefix_of(l) || "# "@.is_prefix_of(l)
}

/// The lines without those that only `wg-quick` reads, in order.
pub open spec fn without_quick_only(ls: Seq<Seq<char>>) -> Seq<Seq<char>>
    decreases ls.len(),
{
    if ls.len() == 0 {
        seq![]
    } else {
        without_quick_only(ls.drop_last()) + if is_quick_only(ls.last()) {
            seq![]
        } else {
            seq![ls.last()]
        }
    }
}

proof fn lemma_join_concat(x: Seq<Seq<char>>, y: Seq<Seq<char>>)
    ensures
        join_lines(x + y) == join_lines(x) + join_lines(y),
    decreases y.len(),
{
    if y.len() == 0 {
        assert(x + y =~= x);
        assert(join_lines(x) + join_lines(y) =~= join_lines(x));
    } else {
        lemma_join_concat(x, y.drop_last());
        assert((x + y).drop_last() =~= x + y.drop_last());
        assert((x + y).last() == y.last());
        assert(join_lines(x + y) =~= join_lines(x) + join_lines(y));
    }
}

proof fn lemma_without_concat(x: Seq<Seq<char>>, y: Seq<Seq<char>>)
    ensures
        without_quick_only(x + y) == without_quick_only(x) + without_quick_only(y),
    decreases y.len(),
{
    if y.len() == 0 {
        assert(x + y =~= x);
        assert(without_quick_only(x) + without_quick_only(y) =~= without_quick_only(x));
    } else {
        lemma_without_concat(x, y.drop_last());
        assert((x + y).drop_last() =~= x + y.drop_last());
        assert((x + y).last() == y.last());
        assert(without_quick_only(x + y) =~= without_quick_only(x) + without_quick_only(y));
    }
}

proof fn lemma_one_line(l: Seq<char>)
    ensures
        join_lines(seq![l]) == line(l),
        without_quick_only(seq![l]) == if is_quick_only(l) { seq![] } else { seq![l] },
{
    let e = Seq::<Seq<char>>::empty();
    assert(seq![l].drop_last() =~= e);
    assert(seq![l].last() == l);
    assert(join_lines(e) == Seq::<char>::empty());
    assert(without_quick_only(e) == e);
    assert(join_lines(seq![l]) == join_lines(e) + line(l));
    assert(join_lines(seq![l]) =~= line(l));
    assert(without_quick_only(seq![l]) =~= if is_quick_only(l) { seq![] } else { seq![l] });
}

/// A line whose text starts with `lit` (of at least two characters, starting
/// neither with `#` nor with `Ad`) is read by `wg setconf` too.
proof fn lemma_kept(lit: Seq<char>, rest: Seq<char>)
    requires
        lit.len() >= 2,
        lit[0] != 'A' || lit[1] != 'd',
        lit[0] != '#',
    ensures
        !is_quick_only(lit + rest),
        join_lines(seq![lit + rest]) == line(lit + rest),
        without_quick_only(seq![lit + rest]) == seq![lit + rest],
{
    reveal_strlit("Address = ");
    reveal_strlit("# ");
    let l = lit + rest;
    assert(l[0] == lit[0]);
    assert(l[1] == lit[1]);
    if "Address = "@.is_prefix_of(l) {
        assert(l.subrange(0, 10)[0] == l[0]);
        assert(l.subrange(0, 10)[1] == l[1]);
    }
    if "# "@.is_prefix_of(l) {
        assert(l.subrange(0, 2)[0] == l[0]);
    }
    lemma_one_line(l);
}

proof fn lemma_peer_lines(p: PeerNode)
    ensures
        join_lines(peer_lines(p, true)) == peer_section(p, true),
        join_lines(peer_lines(p, false)) == peer_section(p, false),
        without_quick_only(peer_lines(p, true)) == peer_lines(p, false),
{
    reveal_strlit("[Peer]");
    reveal_strlit("# ");
    reveal_strlit("PublicKey = ");
    reveal_strlit("AllowedIPs = ");
    reveal_strlit("Endpoint = ");
    reveal_strlit("PersistentKeepalive = 25");
    let a = seq!["[Peer]"@];
    let c = seq!["# "@ + p.hostname@];
    let k = seq!["PublicKey = "@ + p.public_key@];
    let n = seq!["AllowedIPs = "@ + nets_text(p.allowed_ips@)];
    let e = match best_endpoint_of(p.endpoints@) {
        Some(ep) => seq!["Endpoint = "@ + sockaddr_text(ep.addr)],
        None => Seq::<Seq<char>>::empty(),
    };
    let d = seq!["PersistentKeepalive = 25"@];
    let z = seq![Seq::<char>::empty()];
    assert("[Peer]"@ + Seq::<char>::empty() =~= "[Peer]"@);
    assert("PersistentKeepalive = 25"@ + Seq::<char>::empty() =~= "PersistentKeepalive = 25"@);
    lemma_kept("[Peer]"@, seq![]);
    lemma_kept("PublicKey = "@, p.public_key@);
    lemma_kept("AllowedIPs = "@, nets_text(p.allowed_ips@));
    lemma_kept("PersistentKeepalive = 25"@, seq![]);
    lemma_one_line(Seq::<char>::empty());
    lemma_one_line("# "@ + p.hostname@);
    assert(is_quick_only("# "@ + p.hostname@)) by {
        assert(("# "@ + p.hostname@).subrange(0, 2) =~= "# "@);
    }
    assert(!is_quick_only(Seq::<char>::empty()));
    assert(join_lines(Seq::<Seq<char>>::empty()) == Seq::<char>::empty());
    assert(without_quick_only(Seq::<Seq<char>>::empty()) == Seq::<Seq<char>>::empty());
    match best_endpoint_of(p.endpoints@) {
        Some(ep) => {
            lemma_kept("Endpoint = "@, sockaddr_text(ep.addr));
        },
        None => {},
    }
    let rest = k + n + e + d + z;
    lemma_join_concat(k, n);
    lemma_join_concat(k + n, e);
    lemma_join_concat(k + n + e, d);
    lemma_join_concat(k + n + e + d, z);
    lemma_without_concat(k, n);
    lemma_without_concat(k + n, e);
    lemma_without_concat(k + n + e, d);
    lemma_without_concat(k + n + e + d, z);
    assert(without_quick_only(rest) == rest);
    assert(peer_lines(p, true) =~= a + c + rest);
    assert(peer_lines(p, false) =~= a + rest);
    lemma_join_concat(a, c);
    lemma_join_concat(a + c, rest);
    lemma_join_concat(a, rest);
    lemma_without_concat(a, c);
    lemma_without_concat(a + c, rest);
    assert(without_quick_only(c) =~= Seq::<Seq<char>>::empty());
    assert(without_quick_only(a + c) =~= a);
    assert(join_lines(peer_lines(p, true)) =~= peer_section(p, true));
    assert(join_lines(peer_lines(p, false)) =~= peer_section(p, false));
}

proof fn lemma_peers_lines(peers: Seq<PeerNode>)
    ensures
        join_lines(peers_lines(peers, true)) == peers_text(peers, true),
        join_lines(peers_lines(peers, false)) == peers_text(peers, false),
        without_quick_only(peers_lines(peers, true)) == peers_lines(peers, false),
    decreases peers.len(),
{
    if peers.len() > 0 {
        lemma_peers_lines(peers.drop_last());
        lemma_peer_lines(peers.last());
        lemma_join_concat(peers_lines(peers.drop_last(), true), peer_lines(peers.last(), true));
        lemma_join_concat(peers_lines(peers.drop_last(), false), peer_lines(peers.last(), false));
        lemma_without_concat(peers_lines(peers.drop_last(), true), peer_lines(peers.last(), true));
    } else {
        assert(join_lines(Seq::<Seq<char>>::empty()) == Seq::<char>::empty());
        assert(without_quick_only(Seq::<Seq<char>>::empty()) == Seq::<Seq<char>>::empty());
    }
}

/// The `wg setconf` configuration is the `wg-quick` one, line for line, with
/// the interface `Address` line and every `# hostname` comment line left out.
pub proof fn lemma_setconf_is_quick_without_address_and_comments(map: NetworkMap, private_key: Seq<char>, listen_port: u16)
    ensures
        quick_text(map, private_key, listen_port) == join_lines(quick_lines(map, private_key, listen_port)),
        setconf_text(map, private_key, listen_port) == join_lines(
            without_quick_only(quick_lines(map, private_key, listen_port)),
        ),
        without_quick_only(quick_lines(map, private_key, listen_port)) == seq!["[Interface]"@] + seq![
            "PrivateKey = "@ + private_key,
        ] + seq!["ListenPort = "@ + decimal(listen_port as nat)] + seq![Seq::<char>::empty()] + peers_lines(
            map.peers@,
            false,
        ),
{
    reveal_strlit("[Interface]");
    reveal_strlit("PrivateKey = ");
    reveal_strlit("Address = ");
    reveal_strlit("ListenPort = ");
    let i = seq!["[Interface]"@];
    let k = seq!["PrivateKey = "@ + private_key];
    let a = seq!["Address = "@ + net_text(map.self_node.overlay_ip)];
    let l = seq!["ListenPort = "@ + decimal(listen_port as nat)];
    let z = seq![Seq::<char>::empty()];
    let ps = peers_lines(map.peers@, true);
    assert("[Interface]"@ + Seq::<char>::empty() =~= "[Interface]"@);
    lemma_kept("[Interface]"@, seq![]);
    lemma_kept("PrivateKey = "@, private_key);
    lemma_kept("ListenPort = "@, decimal(listen_port as nat));
    lemma_one_line(Seq::<char>::empty());
    lemma_one_line("Address = "@ + net_text(map.self_node.overlay_ip));
    assert(is_quick_only("Address = "@ + net_text(map.self_node.overlay_ip))) by {
        assert(("Address = "@ + net_text(map.self_node.overlay_ip)).subrange(0, 10) =~= "Address = "@);
    }
    assert(!is_quick_only(Seq::<char>::empty()));
    lemma_peers_lines(map.peers@);
    lemma_join_concat(i, k);
    lemma_join_concat(i + k, a);
    lemma_join_concat(i + k + a, l);
    lemma_join_concat(i + k + a + l, z);
    lemma_join_concat(i + k + a + l + z, ps);
    lemma_without_concat(i, k);
    lemma_without_concat(i + k, a);
    lemma_without_concat(i + k + a, l);
    lemma_without_concat(i + k + a + l, z);
    lemma_without_concat(i + k + a + l + z, ps);
    let kept = i + k + l + z + peers_lines(map.peers@, false);
    assert(without_quick_only(quick_lines(map, private_key, listen_port)) =~= kept);
    lemma_join_concat(i, k);
    lemma_join_concat(i + k, l);
    lemma_join_concat(i + k + l, z);
    lemma_join_concat(i + k + l + z, peers_lines(map.peers@, false));
    assert(quick_text(map, private_key, listen_port) =~= join_lines(quick_lines(map, private_key, listen_port)));
    assert(setconf_text(map, private_key, listen_port) =~= join_lines(kept));
}

/// How many of the lines are `l`.
pub open spec fn count_lines(ls: Seq<Seq<char>>, l: Seq<char>) -> nat
    decreases ls.len(),
{
    if ls.len() == 0 {
        0
    } else {
        count_lines(ls.drop_last(), l) + if ls.last() == l { 1nat } else { 0nat }
    }
}

proof fn lemma_count_concat(x: Seq<Seq<char>>, y: Seq<Seq<char>>, l: Seq<char>)
    ensures
        count_lines(x + y, l) == count_lines(x, l) + count_lines(y, l),
    decreases y.len(),
{
    if y.len() == 0 {
        assert(x + y =~= x);
    } else {
        lemma_count_concat(x, y.drop_last(), l);
        assert((x + y).drop_last() =~= x + y.drop_last());
        assert((x + y).last() == y.last());
    }
}

proof fn lemma_count_one(a: Seq<char>, l: Seq<char>)
    ensures
        count_lines(seq![a], l) == if a == l { 1nat } else { 0nat },
{
    let e = Seq::<Seq<char>>::empty();
    assert(seq![a].drop_last() =~= e);
    assert(seq![a].last() == a);
    assert(count_lines(e, l) == 0);
    assert(count_lines(seq![a], l) == count_lines(e, l) + if a == l { 1nat } else { 0nat });
}

/// A line starting with `lit` (a literal whose first character is not `[`)
/// is not the `[Peer]` header.
proof fn lemma_not_peer_header(lit: Seq<char>, rest: Seq<char>)
    requires
        lit.len() >= 1,
        lit[0] != '[',
    ensures
        lit + rest != "[Peer]"@,
{
    reveal_strlit("[Peer]");
    assert((lit + rest)[0] == lit[0]);
}

/// Each peer's section holds one `[Peer]` header and the peer's public key.
proof fn lemma_peer_section_lines(p: PeerNode, comments: bool)
    ensures
        count_lines(peer_lines(p, comments), "[Peer]"@) == 1,
        peer_lines(p, comments).contains("PublicKey = "@ + p.public_key@),
{
    reveal_strlit("[Peer]");
    reveal_strlit("# ");
    reveal_strlit("PublicKey = ");
    reveal_strlit("AllowedIPs = ");
    reveal_strlit("Endpoint = ");
    reveal_strlit("PersistentKeepalive = 25");
    let h = "[Peer]"@;
    let a = seq![h];
    let c = if comments { seq!["# "@ + p.hostname@] } else { Seq::<Seq<char>>::empty() };
    let k = seq!["PublicKey = "@ + p.public_key@];
    let n = seq!["AllowedIPs = "@ + nets_text(p.allowed_ips@)];
    let e = match best_endpoint_of(p.endpoints@) {
        Some(ep) => seq!["Endpoint = "@ + sockaddr_text(ep.addr)],
        None => Seq::<Seq<char>>::empty(),
    };
    let d = seq!["PersistentKeepalive = 25"@];
    let z = seq![Seq::<char>::empty()];
    assert(peer_lines(p, comments) =~= a + c + k + n + e + d + z);
    lemma_count_one(h, h);
    lemma_not_peer_header("# "@, p.hostname@);
    lemma_not_peer_header("PublicKey = "@, p.public_key@);
    lemma_not_peer_header("AllowedIPs = "@, nets_text(p.allowed_ips@));
    lemma_not_peer_header("PersistentKeepalive = 25"@, seq![]);
    assert("PersistentKeepalive = 25"@ + Seq::<char>::empty() =~= "PersistentKeepalive = 25"@);
    assert(Seq::<char>::empty() != h);
    assert(count_lines(Seq::<Seq<char>>::empty(), h) == 0);
    if comments {
        lemma_count_one("# "@ + p.hostname@, h);
    }
    lemma_count_one("PublicKey = "@ + p.public_key@, h);
    lemma_count_one("AllowedIPs = "@ + nets_text(p.allowed_ips@), h);
    lemma_count_one("PersistentKeepalive = 25"@, h);
    lemma_count_one(Seq::<char>::empty(), h);
    match best_endpoint_of(p.endpoints@) {
        Some(ep) => {
            lemma_not_peer_header("Endpoint = "@, sockaddr_text(ep.addr));
            lemma_count_one("Endpoint = "@ + sockaddr_text(ep.addr), h);
        },
        None => {},
    }
    lemma_count_concat(a, c, h);
    lemma_count_concat(a + c, k, h);
    lemma_count_concat(a + c + k, n, h);
    lemma_count_concat(a + c + k + n, e, h);
    lemma_count_concat(a + c + k + n + e, d, h);
    lemma_count_concat(a + c + k + n + e + d, z, h);
    let all = a + c + k + n + e + d + z;
    assert(all[(a.len() + c.len()) as int] == "PublicKey = "@ + p.public_key@);
}

/// The `[Peer]` sections of a list of peers: one per peer, each holding that
/// peer's public key, whether or not its endpoints are known.
pub proof fn lemma_one_section_per_peer(peers: Seq<PeerNode>, comments: bool)
    ensures
        count_lines(peers_lines(peers, comments), "[Peer]"@) == peers.len(),
        forall|i: int| 0 <= i < peers.len() ==> peers_lines(peers, comments).contains(
            "PublicKey = "@ + (#[trigger] peers[i]).public_key@,
        ),
    decreases peers.len(),
{
    if peers.len() == 0 {
        assert(count_lines(Seq::<Seq<char>>::empty(), "[Peer]"@) == 0);
    } else {
        let prev = peers.drop_last();
        lemma_one_section_per_peer(prev, comments);
        lemma_peer_section_lines(peers.last(), comments);
        let x = peers_lines(prev, comments);
        let y = peer_lines(peers.last(), comments);
        lemma_count_concat(x, y, "[Peer]"@);
        assert forall|i: int| 0 <= i < peers.len() implies peers_lines(peers, comments).contains(
            "PublicKey = "@ + (#[trigger] peers[i]).public_key@,
        ) by {
            let key = "PublicKey = "@ + peers[i].public_key@;
            if i < prev.len() {
                assert(prev[i] == peers[i]);
                let j = choose|j: int| 0 <= j < x.len() && x[j] == key;
                assert((x + y)[j] == key);
            } else {
                let j = choose|j: int| 0 <= j < y.len() && y[j] == key;
                assert((x + y)[x.len() + j] == key);
            }
        }
    }
}

/// A node's rendered configurations, wg-quick and setconf alike, have
/// exactly one `[Peer]` section per peer of its map, each carrying that
/// peer's public key; a peer whose endpoints are not known yet is listed too.
pub proof fn lemma_every_peer_configured(map: NetworkMap, private_key: Seq<char>, listen_port: u16)
    ensures
        count_lines(quick_lines(map, private_key, listen_port), "[Peer]"@) == map.peers@.len(),
        count_lines(without_quick_only(quick_lines(map, private_key, listen_port)), "[Peer]"@) == map.peers@.len(),
        forall|i: int| 0 <= i < map.peers@.len() ==> quick_lines(map, private_key, listen_port).contains(
            "PublicKey = "@ + (#[trigger] map.peers@[i]).public_key@,
        ),
{
    reveal_strlit("[Peer]");
    reveal_strlit("[Interface]");
    reveal_strlit("PrivateKey = ");
    reveal_strlit("Address = ");
    reveal_strlit("ListenPort = ");
    let h = "[Peer]"@;
    let i0 = seq!["[Interface]"@];
    let k = seq!["PrivateKey = "@ + private_key];
    let a = seq!["Address = "@ + net_text(map.self_node.overlay_ip)];
    let l = seq!["ListenPort = "@ + decimal(listen_port as nat)];
    let z = seq![Seq::<char>::empty()];
    let head = i0 + k + a + l + z;
    assert("[Interface]"@ != h) by {
        assert("[Interface]"@.len() != h.len());
    }
    lemma_not_peer_header("PrivateKey = "@, private_key);
    lemma_not_peer_header("Address = "@, net_text(map.self_node.overlay_ip));
    lemma_not_peer_header("ListenPort = "@, decimal(listen_port as nat));
    assert(Seq::<char>::empty() != h);
    lemma_count_one("[Interface]"@, h);
    lemma_count_one("PrivateKey = "@ + private_key, h);
    lemma_count_one("Address = "@ + net_text(map.self_node.overlay_ip), h);
    lemma_count_one("ListenPort = "@ + decimal(listen_port as nat), h);
    lemma_count_one(Seq::<char>::empty(), h);
    lemma_count_concat(i0, k, h);
    lemma_count_concat(i0 + k, a, h);
    lemma_count_concat(i0 + k + a, l, h);
    lemma_count_concat(i0 + k + a + l, z, h);
    let ps = peers_lines(map.peers@, true);
    lemma_one_section_per_peer(map.peers@, true);
    lemma_one_section_per_peer(map.peers@, false);
    lemma_count_concat(head, ps, h);
    assert(quick_lines(map, private_key, listen_port) =~= head + ps);
    // The setconf lines are the head without `Address`, then the peers without comments.
    lemma_setconf_is_quick_without_address_and_comments(map, private_key, listen_port);
    let kept = i0 + k + l + z + peers_lines(map.peers@, false);
    lemma_count_concat(i0, k, h);
    lemma_count_concat(i0 + k, l, h);
    lemma_count_concat(i0 + k + l, z, h);
    lemma_count_concat(i0 + k + l + z, peers_lines(map.peers@, false), h);
    assert forall|i: int| 0 <= i < map.peers@.len() implies quick_lines(map, private_key, listen_port).contains(
        "PublicKey = "@ + (#[trigger] map.peers@[i]).public_key@,
    ) by {
        let key = "PublicKey = "@ + map.peers@[i].public_key@;
        let j = choose|j: int| 0 <= j < ps.len() && ps[j] == key;
        assert((head + ps)[head.len() + j] == key);
    }
}

} // verus!
