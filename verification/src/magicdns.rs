//! MagicDNS: resolve peer hostnames (`prod-server-1`, or
//! `prod-server-1.dev.whale.net` under the tenant's suffix) to their overlay
//! IPv4 address.
//!
//! A minimal DNS codec (single-question `A` queries and their answers) and a
//! [`Resolver`] built from the current network map. IPv4 addresses are their
//! 32-bit values.

use vstd::prelude::*;
use vstd::utf8::*;
use crate::bytes::{be_bytes, be_value, lemma_be_bytes_len, lemma_be_value_of_bytes, lemma_pow256_16, push_be, read_be};
use crate::net::IpAddr;
use crate::proto::{NetworkMap, PeerNode};
use crate::registry::{key_lookup, key_without, keys_distinct, lemma_key_without, lemma_key_without_distinct};
use crate::text::{chars_of, push_all, str_eq, string_from_chars, utf8_to_string};

verus! {

/// Query type of an IPv4 address record.
pub const QTYPE_A: u16 = 1;

/// A parsed DNS question.
#[derive(Debug, Clone)]
pub struct Query {
    pub id: u16,
    pub name: String,
    pub qtype: u16,
    /// Raw question bytes (QNAME, QTYPE, QCLASS), echoed into the response.
    pub question: Vec<u8>,
}

/// The big-endian 16-bit value at `i`.
pub open spec fn be16_at(buf: Seq<u8>, i: int) -> u16 {
    be_value(buf.subrange(i, i + 2)) as u16
}

/// The labels of a question name starting at `off`, and the offset just past
/// the terminating zero label; `None` for a truncated name or a compression
/// pointer.
pub open spec fn parse_labels(buf: Seq<u8>, off: int) -> Option<(Seq<Seq<u8>>, int)>
    decreases buf.len() - off,
{
    if off < 0 || off >= buf.len() {
        None
    } else {
        let len = buf[off] as int;
        if len == 0 {
            Some((seq![], off + 1))
        } else if buf[off] & 0xC0u8 != 0 || off + 1 + len > buf.len() {
            None
        } else {
            match parse_labels(buf, off + 1 + len) {
                Some((rest, end)) => Some((seq![buf.subrange(off + 1, off + 1 + len)] + rest, end)),
                None => None,
            }
        }
    }
}

/// Names joined with `.` between them.
pub open spec fn join_dot(parts: Seq<Seq<char>>) -> Seq<char>
    decreases parts.len(),
{
    if parts.len() == 0 {
        seq![]
    } else if parts.len() == 1 {
        parts[0]
    } else {
        join_dot(parts.drop_last()) + seq!['.'] + parts.last()
    }
}

pub open spec fn all_utf8(labels: Seq<Seq<u8>>) -> bool {
    forall|i: int| 0 <= i < labels.len() ==> valid_utf8(#[trigger] labels[i])
}

/// A single-question query: `(id, name, qtype, question bytes)`, or `None`
/// for malformed input.
pub open spec fn query_of(buf: Seq<u8>) -> Option<(u16, Seq<char>, u16, Seq<u8>)> {
    if buf.len() < 12 || be16_at(buf, 4) < 1 {
        None
    } else {
        match parse_labels(buf, 12) {
            None => None,
            Some((labels, end)) => if !all_utf8(labels) || end + 4 > buf.len() {
                None
            } else {
                Some((
                    be16_at(buf, 0),
                    join_dot(labels.map_values(|l: Seq<u8>| decode_utf8(l))),
                    be16_at(buf, end),
                    buf.subrange(12, end + 4),
                ))
            },
        }
    }
}

spec fn with_prefix(done: Seq<Seq<u8>>, r: Option<(Seq<Seq<u8>>, int)>) -> Option<(Seq<Seq<u8>>, int)> {
    match r {
        Some((rest, end)) => Some((done + rest, end)),
        None => None,
    }
}

proof fn lemma_parse_labels_end(buf: Seq<u8>, off: int)
    ensures
        parse_labels(buf, off) matches Some((ls, end)) ==> off < end <= buf.len(),
    decreases buf.len() - off,
{
    if 0 <= off < buf.len() && buf[off] != 0 && off + 1 + buf[off] as int <= buf.len() {
        lemma_parse_labels_end(buf, off + 1 + buf[off] as int);
    }
}

/// Join names with `.` between them.
fn join_names(names: &Vec<String>) -> (r: String)
    ensures
        r@ == join_dot(names@.map_values(|s: String| s@)),
{
    let ghost parts = names@.map_values(|s: String| s@);
    let mut out: Vec<char> = Vec::new();
    let mut i: usize = 0;
    while i < names.len()
        invariant
            i <= names@.len(),
            parts == names@.map_values(|s: String| s@),
            out@ == join_dot(parts.take(i as int)),
        decreases names.len() - i,
    {
        assert(parts.take(i + 1).drop_last() =~= parts.take(i as int));
        assert(parts.take(i + 1).last() == names@[i as int]@);
        if i > 0 {
            out.push('.');
        }
        push_all(&mut out, &chars_of(names[i].as_str()));
        proof {
            if i == 0 {
                assert(out@ =~= parts.take(1)[0]);
            } else {
                assert(out@ =~= join_dot(parts.take(i as int)) + seq!['.'] + parts.take(i + 1).last());
            }
        }
        i = i + 1;
    }
    assert(parts.take(names@.len() as int) =~= parts);
    string_from_chars(&out)
}

/// Parse a single-question DNS query; `None` for malformed input or a
/// compressed question name (which queries never use).
pub fn parse_query(buf: &[u8]) -> (r: Option<Query>)
    ensures
        r is Some <==> query_of(buf@) is Some,
        r matches Some(q) ==> query_of(buf@) == Some((q.id, q.name@, q.qtype, q.question@)),
{
    if buf.len() < 12 {
        return None;
    }
    proof {
        lemma_pow256_16();
    }
    let id = read_be(buf, 0, 2) as u16;
    let qdcount = read_be(buf, 4, 2) as u16;
    if qdcount < 1 {
        return None;
    }
    let mut off: usize = 12;
    let mut names: Vec<String> = Vec::new();
    let ghost mut done: Seq<Seq<u8>> = seq![];
    assert(done + seq![] =~= seq![]);
    assert forall|x: Option<(Seq<Seq<u8>>, int)>| with_prefix(seq![], x) == x by {
        if let Some((rest, end)) = x {
            assert(Seq::<Seq<u8>>::empty() + rest =~= rest);
        }
    }
    let n = buf.len();
    loop
        invariant_except_break
            parse_labels(buf@, 12) == with_prefix(done, parse_labels(buf@, off as int)),
        invariant
            12 <= off,
            n == buf@.len(),
            buf@.len() >= 12,
            all_utf8(done),
            names@.len() == done.len(),
            forall|i: int| 0 <= i < done.len() ==> (#[trigger] names@[i])@ == decode_utf8(done[i]),
        ensures
            parse_labels(buf@, 12) == Some((done, off as int)),
        decreases buf@.len() - off,
    {
        if off >= buf.len() {
            return None;
        }
        let len = buf[off] as usize;
        if len == 0 {
            off = off + 1;
            assert(done + seq![] =~= done);
            break;
        }
        if buf[off] & 0xC0 != 0 {
            return None;
        }
        if len > buf.len() - off - 1 {
            return None;
        }
        let mut label: Vec<u8> = Vec::new();
        let mut k: usize = 0;
        while k < len
            invariant
                k <= len,
                n == buf@.len(),
                off + 1 + len <= n,
                label@ == buf@.subrange(off + 1, off + 1 + k),
            decreases len - k,
        {
            label.push(buf[off + 1 + k]);
            assert(label@ =~= buf@.subrange(off + 1, off + 1 + k + 1));
            k = k + 1;
        }
        let ghost this = buf@.subrange(off + 1, off + 1 + len);
        match utf8_to_string(&label) {
            None => {
                proof {
                    match parse_labels(buf@, off + 1 + len) {
                        Some((rest, end)) => {
                            let all = done + (seq![this] + rest);
                            assert(all[done.len() as int] == this);
                        },
                        None => {},
                    }
                }
                return None;
            },
            Some(s) => {
                names.push(s);
                proof {
                    match parse_labels(buf@, off + 1 + len) {
                        Some((rest, end)) => {
                            assert(done + (seq![this] + rest) =~= done.push(this) + rest);
                        },
                        None => {},
                    }
                    done = done.push(this);
                }
                off = off + 1 + len;
            },
        }
    }
    if off > buf.len() || buf.len() - off < 4 {
        return None;
    }
    let qtype = read_be(buf, off, 2) as u16;
    let mut question: Vec<u8> = Vec::new();
    let mut k: usize = 12;
    let qend = off + 4;
    while k < qend
        invariant
            12 <= k <= qend,
            qend == off + 4,
            qend <= buf@.len(),
            question@ == buf@.subrange(12, k as int),
        decreases qend - k,
    {
        question.push(buf[k]);
        assert(question@ =~= buf@.subrange(12, k + 1));
        k = k + 1;
    }
    assert(names@.map_values(|s: String| s@) =~= done.map_values(|l: Seq<u8>| decode_utf8(l)));
    let name = join_names(&names);
    Some(Query { id, name, qtype, question })
}

/// The response to a query with id `id` and question bytes `question`:
/// answered with `ip`, or NXDOMAIN when there is none.
pub open spec fn response_bytes(id: u16, question: Seq<u8>, ip: Option<u32>) -> Seq<u8> {
    be_bytes(id as nat, 2) + be_bytes(if ip is Some { 0x8180nat } else { 0x8183nat }, 2) + be_bytes(1, 2)
        + be_bytes(if ip is Some { 1nat } else { 0nat }, 2) + be_bytes(0, 2) + be_bytes(0, 2) + question
        + match ip {
        Some(a) => seq![0xC0u8, 0x0Cu8] + be_bytes(QTYPE_A as nat, 2) + be_bytes(1, 2) + be_bytes(60, 4)
            + be_bytes(4, 2) + be_bytes(a as nat, 4),
        None => seq![],
    }
}

/// The header of a response, byte by byte: the query's id, the flags
/// `0x81 0x80` (a recursion-available answer, RCODE 0) when an address is
/// given and `0x81 0x83` (RCODE 3, NXDOMAIN) only when none is, one
/// question (copied as asked), and one answer exactly when an address is
/// given, whose last four bytes are that address, big-endian.
pub proof fn lemma_response_header(id: u16, question: Seq<u8>, ip: Option<u32>)
    ensures
        ({
            let r = response_bytes(id, question, ip);
            &&& r.len() == 12 + question.len() + if ip is Some { 16int } else { 0int }
            &&& r[0] as int * 256 + r[1] as int == id as int
            &&& r[2] == 0x81u8
            &&& r[3] == if ip is Some { 0x80u8 } else { 0x83u8 }
            &&& (r[3] % 16 == 0 <==> ip is Some)
            &&& r[4] == 0u8 && r[5] == 1u8
            &&& r[6] == 0u8 && r[7] == if ip is Some { 1u8 } else { 0u8 }
            &&& r.subrange(12, 12 + question.len() as int) == question
            &&& (ip matches Some(a) ==> ((r[r.len() - 4] as int * 256 + r[r.len() - 3] as int) * 256
                + r[r.len() - 2] as int) * 256 + r[r.len() - 1] as int == a as int)
        }),
{
    reveal_with_fuel(be_bytes, 5);
    let r = response_bytes(id, question, ip);
    let flags: nat = if ip is Some { 0x8180nat } else { 0x8183nat };
    let an: nat = if ip is Some { 1nat } else { 0nat };
    let head = be_bytes(id as nat, 2) + be_bytes(flags, 2) + be_bytes(1, 2) + be_bytes(an, 2) + be_bytes(0, 2)
        + be_bytes(0, 2);
    assert(be_bytes(flags, 2) == seq![0x81u8, (flags % 256) as u8]);
    assert(be_bytes(1, 2) == seq![0u8, 1u8]);
    assert(be_bytes(an, 2) == seq![0u8, an as u8]);
    assert(be_bytes(0, 2) == seq![0u8, 0u8]);
    assert(be_bytes(id as nat, 2) == seq![((id as nat / 256) % 256) as u8, (id as nat % 256) as u8]);
    assert(head.len() == 12);
    match ip {
        Some(a) => {
            let tail = seq![0xC0u8, 0x0Cu8] + be_bytes(QTYPE_A as nat, 2) + be_bytes(1, 2) + be_bytes(60, 4)
                + be_bytes(4, 2) + be_bytes(a as nat, 4);
            let ab = be_bytes(a as nat, 4);
            assert(ab == seq![
                ((a as nat / 16777216) % 256) as u8,
                ((a as nat / 65536) % 256) as u8,
                ((a as nat / 256) % 256) as u8,
                (a as nat % 256) as u8,
            ]) by {
                assert(a as nat / 256 / 256 == a as nat / 65536) by (nonlinear_arith);
                assert(a as nat / 65536 / 256 == a as nat / 16777216) by (nonlinear_arith);
            }
            assert(tail.len() == 16);
            assert(r == head + question + tail);
            assert(r[r.len() - 4] == ab[0]);
            assert(r[r.len() - 3] == ab[1]);
            assert(r[r.len() - 2] == ab[2]);
            assert(r[r.len() - 1] == ab[3]);
            assert(((((a as nat / 16777216) % 256) * 256 + (a as nat / 65536) % 256) * 256 + (a as nat / 256) % 256) * 256
                + a as nat % 256 == a as nat) by (nonlinear_arith)
                requires a as nat <= 0xffff_ffff;
        },
        None => {
            assert(r == head + question + Seq::<u8>::empty());
        },
    }
    assert(r.subrange(12, 12 + question.len() as int) =~= question);
    assert(((id as nat / 256) % 256) * 256 + id as nat % 256 == id as nat) by (nonlinear_arith)
        requires id as nat <= 0xffff;
}

/// Build the response to `query`: an `A` answer with `ip`, or NXDOMAIN.
pub fn build_response(query: &Query, ip: Option<u32>) -> (r: Vec<u8>)
    ensures
        r@ == response_bytes(query.id, query.question@, ip),
{
    let mut out: Vec<u8> = Vec::new();
    push_be(&mut out, query.id as u128, 2);
    let flags: u128 = if ip.is_some() { 0x8180 } else { 0x8183 };
    push_be(&mut out, flags, 2);
    push_be(&mut out, 1, 2);
    let ancount: u128 = if ip.is_some() { 1 } else { 0 };
    push_be(&mut out, ancount, 2);
    push_be(&mut out, 0, 2);
    push_be(&mut out, 0, 2);
    let mut i: usize = 0;
    let ghost head = out@;
    while i < query.question.len()
        invariant
            i <= query.question@.len(),
            out@ == head + query.question@.subrange(0, i as int),
        decreases query.question.len() - i,
    {
        out.push(query.question[i]);
        assert(out@ =~= head + query.question@.subrange(0, i + 1));
        i = i + 1;
    }
    assert(query.question@.subrange(0, query.question@.len() as int) =~= query.question@);
    let ghost body = out@;
    if let Some(a) = ip {
        out.push(0xC0);
        out.push(0x0C);
        push_be(&mut out, QTYPE_A as u128, 2);
        push_be(&mut out, 1, 2);
        push_be(&mut out, 60, 4);
        push_be(&mut out, 4, 2);
        push_be(&mut out, a as u128, 4);
        assert(out@ =~= body + (seq![0xC0u8, 0x0Cu8] + be_bytes(QTYPE_A as nat, 2) + be_bytes(1, 2) + be_bytes(60, 4)
            + be_bytes(4, 2) + be_bytes(a as nat, 4)));
    } else {
        assert(out@ =~= body + Seq::<u8>::empty());
    }
    out
}

/// ASCII letters lowered, other characters kept.
pub open spec fn lower_char(c: char) -> char {
    if 'A' <= c <= 'Z' {
        ((c as u8) + 32u8) as char
    } else {
        c
    }
}

/// `str::to_ascii_lowercase`.
pub open spec fn ascii_lower(s: Seq<char>) -> Seq<char> {
    s.map_values(|c: char| lower_char(c))
}

/// `s` without its trailing dots (`str::trim_end_matches('.')`).
pub open spec fn trim_dots(s: Seq<char>) -> Seq<char>
    decreases s.len(),
{
    if s.len() > 0 && s.last() == '.' {
        trim_dots(s.drop_last())
    } else {
        s
    }
}

fn lower_chars(s: &[char]) -> (r: Vec<char>)
    ensures
        r@ == ascii_lower(s@),
{
    let mut out: Vec<char> = Vec::new();
    let mut i: usize = 0;
    while i < s.len()
        invariant
            i <= s@.len(),
            out@ == ascii_lower(s@.take(i as int)),
        decreases s.len() - i,
    {
        let c = s[i];
        let l = if 'A' <= c && c <= 'Z' { ((c as u8) + 32u8) as char } else { c };
        out.push(l);
        assert(out@ =~= ascii_lower(s@.take(i + 1)));
        i = i + 1;
    }
    assert(s@.take(s@.len() as int) =~= s@);
    out
}

/// The lookup key of a name: trailing dots dropped, ASCII lowered.
pub open spec fn lookup_key(name: Seq<char>) -> Seq<char> {
    ascii_lower(trim_dots(name))
}

/// Name table entries, in insertion order (a later entry for the same name
/// replaces an earlier one).
pub open spec fn lookup(entries: Seq<(Seq<char>, u32)>, key: Seq<char>) -> Option<u32>
    decreases entries.len(),
{
    if entries.len() == 0 {
        None
    } else if entries.last().0 == key {
        Some(entries.last().1)
    } else {
        lookup(entries.drop_last(), key)
    }
}

/// The entries one host contributes: its lowered name and, under a suffix,
/// its lowered FQDN; nothing for an IPv6 address.
pub open spec fn host_entries(host: Seq<char>, ip: IpAddr, suffix: Option<Seq<char>>) -> Seq<(Seq<char>, u32)> {
    match ip {
        IpAddr::V4(v) => seq![(ascii_lower(host), v)] + match suffix {
            Some(s) => seq![(ascii_lower(host + seq!['.'] + s), v)],
            None => seq![],
        },
        IpAddr::V6(_) => seq![],
    }
}

/// The entries of the peers: each peer by the address of its first
/// AllowedIPs network.
pub open spec fn peer_entries(peers: Seq<PeerNode>, suffix: Option<Seq<char>>) -> Seq<(Seq<char>, u32)>
    decreases peers.len(),
{
    if peers.len() == 0 {
        seq![]
    } else {
        let p = peers.last();
        peer_entries(peers.drop_last(), suffix) + if p.allowed_ips@.len() > 0 {
            host_entries(p.hostname@, p.allowed_ips@[0].addr, suffix)
        } else {
            seq![]
        }
    }
}

pub open spec fn suffix_of(map: NetworkMap) -> Option<Seq<char>> {
    match map.dns_suffix {
        Some(s) => Some(s@),
        None => None,
    }
}

/// The name table built from a network map: this node, then its peers.
pub open spec fn netmap_entries(map: NetworkMap) -> Seq<(Seq<char>, u32)> {
    host_entries(map.self_node.hostname@, map.self_node.overlay_ip.addr, suffix_of(map))
        + peer_entries(map.peers@, suffix_of(map))
}

/// The table `t` with the entry `e` put in: any entry under the same name
/// replaced, the new one last.
pub open spec fn upsert(t: Seq<(Seq<char>, u32)>, e: (Seq<char>, u32)) -> Seq<(Seq<char>, u32)> {
    key_without(t, e.0).push(e)
}

/// The table `t` with the entries of `log` put in, in order.
pub open spec fn upsert_all(t: Seq<(Seq<char>, u32)>, log: Seq<(Seq<char>, u32)>) -> Seq<(Seq<char>, u32)>
    decreases log.len(),
{
    if log.len() == 0 {
        t
    } else {
        upsert(upsert_all(t, log.drop_last()), log.last())
    }
}

proof fn lemma_lookup_is_key_lookup(t: Seq<(Seq<char>, u32)>, k: Seq<char>)
    ensures
        lookup(t, k) == key_lookup(t, k),
    decreases t.len(),
{
    if t.len() > 0 {
        lemma_lookup_is_key_lookup(t.drop_last(), k);
    }
}

/// Putting entries in a table answers each name as the entries followed by
/// the table's would: the last entry under it.
proof fn lemma_upsert_all_lookup(t: Seq<(Seq<char>, u32)>, log: Seq<(Seq<char>, u32)>, k: Seq<char>)
    ensures
        lookup(upsert_all(t, log), k) == lookup(t + log, k),
    decreases log.len(),
{
    if log.len() == 0 {
        assert(t + log =~= t);
    } else {
        let u = upsert_all(t, log.drop_last());
        lemma_upsert_all_lookup(t, log.drop_last(), k);
        let w = key_without(u, log.last().0);
        assert(upsert(u, log.last()).drop_last() =~= w);
        lemma_lookup_is_key_lookup(w, k);
        lemma_lookup_is_key_lookup(u, k);
        lemma_key_without(u, log.last().0, k);
        assert((t + log).drop_last() =~= t + log.drop_last());
        assert((t + log).last() == log.last());
    }
}

proof fn lemma_upsert_distinct(t: Seq<(Seq<char>, u32)>, e: (Seq<char>, u32))
    requires
        keys_distinct(t),
    ensures
        keys_distinct(upsert(t, e)),
{
    lemma_key_without_distinct(t, e.0);
    let w = key_without(t, e.0);
    let u = upsert(t, e);
    assert forall|i: int, j: int| 0 <= i < j < u.len() implies #[trigger] u[i].0 != #[trigger] u[j].0 by {
        assert(u[i] == w[i]);
        if j < w.len() {
            assert(u[j] == w[j]);
        }
    }
}

proof fn lemma_upsert_all_two(t: Seq<(Seq<char>, u32)>, a: (Seq<char>, u32), b: (Seq<char>, u32))
    ensures
        upsert_all(t, seq![a]) == upsert(t, a),
        upsert_all(t, seq![a, b]) == upsert(upsert(t, a), b),
{
    let e = Seq::<(Seq<char>, u32)>::empty();
    assert(seq![a].drop_last() =~= e);
    assert(seq![a].last() == a);
    assert(upsert_all(t, e) == t);
    assert(upsert_all(t, seq![a]) == upsert(upsert_all(t, e), a));
    assert(seq![a, b].drop_last() =~= seq![a]);
    assert(seq![a, b].last() == b);
    assert(upsert_all(t, seq![a, b]) == upsert(upsert_all(t, seq![a]), b));
}

proof fn lemma_upsert_all_concat(t: Seq<(Seq<char>, u32)>, a: Seq<(Seq<char>, u32)>, b: Seq<(Seq<char>, u32)>)
    ensures
        upsert_all(t, a + b) == upsert_all(upsert_all(t, a), b),
    decreases b.len(),
{
    if b.len() == 0 {
        assert(a + b =~= a);
    } else {
        lemma_upsert_all_concat(t, a, b.drop_last());
        assert((a + b).drop_last() =~= a + b.drop_last());
        assert((a + b).last() == b.last());
    }
}

/// Name to overlay IPv4 lookup table.
#[derive(Debug)]
pub struct Resolver {
    table: Vec<(String, u32)>,
}

/// Table entries by the view of their names.
pub open spec fn table_entries(t: Seq<(String, u32)>) -> Seq<(Seq<char>, u32)> {
    t.map_values(|e: (String, u32)| (e.0@, e.1))
}

impl Resolver {
    /// Each name is in the table once.
    #[verifier::type_invariant]
    spec fn wf(self) -> bool {
        keys_distinct(self.entries())
    }

    /// The table's entries: each name once, the most recently put in last.
    pub closed spec fn entries(&self) -> Seq<(Seq<char>, u32)> {
        table_entries(self.table@)
    }

    /// Put an entry in, replacing the one under the same name.
    fn put(&mut self, name: String, ip: u32)
        ensures
            final(self).entries() == upsert(old(self).entries(), (name@, ip)),
    {
        proof {
            use_type_invariant(&*self);
            lemma_upsert_distinct(self.entries(), (name@, ip));
        }
        let ghost old_entries = self.entries();
        let ghost key = name@;
        let mut t: Vec<(String, u32)> = Vec::new();
        std::mem::swap(&mut t, &mut self.table);
        assert(table_entries(t@) == old_entries);
        let mut i = t.len();
        assert(table_entries(t@).take(i as int) =~= table_entries(t@));
        assert(table_entries(t@).skip(i as int) =~= Seq::<(Seq<char>, u32)>::empty());
        while i > 0
            invariant
                i <= t@.len(),
                key == name@,
                key_without(old_entries, key) == key_without(table_entries(t@).take(i as int), key) + table_entries(t@).skip(i as int),
            decreases i,
        {
            let ghost before = table_entries(t@);
            assert(before.take(i as int).drop_last() =~= before.take(i - 1));
            if str_eq(t[i - 1].0.as_str(), name.as_str()) {
                let _ = t.remove(i - 1);
                assert(table_entries(t@).take(i - 1) =~= before.take(i - 1));
                assert(table_entries(t@).skip(i - 1) =~= before.skip(i as int));
            } else {
                assert(table_entries(t@).skip(i - 1) =~= seq![before[i - 1]] + before.skip(i as int));
                assert(key_without(before.take(i - 1), key).push(before[i - 1]) + before.skip(i as int)
                    =~= key_without(before.take(i - 1), key) + table_entries(t@).skip(i - 1));
            }
            i = i - 1;
        }
        assert(table_entries(t@).skip(0) =~= table_entries(t@));
        assert(key_without(table_entries(t@).take(0), key) =~= Seq::<(Seq<char>, u32)>::empty());
        assert(key_without(old_entries, key) =~= table_entries(t@));
        t.push((name, ip));
        assert(table_entries(t@) =~= upsert(old_entries, (key, ip)));
        self.table = t;
    }

    fn insert_host(&mut self, host: &str, ip: IpAddr, suffix: &Option<String>)
        ensures
            final(self).entries() == upsert_all(old(self).entries(), host_entries(
                host@,
                ip,
                match *suffix {
                    Some(s) => Some(s@),
                    None => None,
                },
            )),
    {
        let ghost before = self.entries();
        if let IpAddr::V4(v) = ip {
            let h = chars_of(host);
            self.put(string_from_chars(&lower_chars(&h)), v);
            let ghost e1 = (ascii_lower(host@), v);
            proof { lemma_upsert_all_two(before, e1, e1); }
            match suffix {
                Some(s) => {
                    let mut fq = h;
                    fq.push('.');
                    push_all(&mut fq, &chars_of(s.as_str()));
                    assert(fq@ =~= host@ + seq!['.'] + s@);
                    self.put(string_from_chars(&lower_chars(&fq)), v);
                    proof { lemma_upsert_all_two(before, e1, (ascii_lower(host@ + seq!['.'] + s@), v)); }
                    assert(seq![e1] + seq![(ascii_lower(host@ + seq!['.'] + s@), v)] =~= seq![e1, (ascii_lower(host@ + seq!['.'] + s@), v)]);
                },
                None => {
                    assert(seq![e1] + Seq::<(Seq<char>, u32)>::empty() =~= seq![e1]);
                },
            }
        }
    }

    /// Build a resolver from the network map: each device by its short
    /// hostname and, when the tenant has a DNS suffix, by its FQDN.
    pub fn from_netmap(map: &NetworkMap) -> (r: Resolver)
        ensures
            r.entries() == upsert_all(seq![], netmap_entries(*map)),
            forall|name: Seq<char>| lookup(r.entries(), name) == lookup(netmap_entries(*map), name),
    {
        let ghost empty = Seq::<(Seq<char>, u32)>::empty();
        let t0: Vec<(String, u32)> = Vec::new();
        assert(table_entries(t0@) =~= empty);
        let mut r = Resolver { table: t0 };
        r.insert_host(map.self_node.hostname.as_str(), map.self_node.overlay_ip.addr, &map.dns_suffix);
        let ghost head = host_entries(map.self_node.hostname@, map.self_node.overlay_ip.addr, suffix_of(*map));
        assert(r.entries() == upsert_all(empty, head));
        let mut i: usize = 0;
        assert(head + peer_entries(map.peers@.take(0), suffix_of(*map)) =~= head);
        while i < map.peers.len()
            invariant
                i <= map.peers@.len(),
                r.entries() == upsert_all(empty, head + peer_entries(map.peers@.take(i as int), suffix_of(*map))),
            decreases map.peers.len() - i,
        {
            let ghost prev_log = head + peer_entries(map.peers@.take(i as int), suffix_of(*map));
            let peer = &map.peers[i];
            assert(map.peers@.take(i + 1).drop_last() =~= map.peers@.take(i as int));
            assert(map.peers@.take(i + 1).last() == *peer);
            if peer.allowed_ips.len() > 0 {
                r.insert_host(peer.hostname.as_str(), peer.allowed_ips[0].addr, &map.dns_suffix);
                let ghost add = host_entries(peer.hostname@, peer.allowed_ips@[0].addr, suffix_of(*map));
                proof { lemma_upsert_all_concat(empty, prev_log, add); }
                assert(head + peer_entries(map.peers@.take(i + 1), suffix_of(*map)) =~= prev_log + add);
            } else {
                assert(head + peer_entries(map.peers@.take(i + 1), suffix_of(*map)) =~= prev_log);
            }
            i = i + 1;
        }
        assert(map.peers@.take(map.peers@.len() as int) =~= map.peers@);
        proof {
            assert forall|name: Seq<char>| lookup(r.entries(), name) == lookup(netmap_entries(*map), name) by {
                lemma_upsert_all_lookup(empty, netmap_entries(*map), name);
                assert(empty + netmap_entries(*map) =~= netmap_entries(*map));
            }
        }
        r
    }

    /// Resolve a name (ASCII case-insensitive, trailing dot optional).
    pub fn resolve(&self, name: &str) -> (r: Option<u32>)
        ensures
            r == lookup(self.entries(), lookup_key(name@)),
    {
        let s = chars_of(name);
        let mut end = s.len();
        assert(s@.subrange(0, end as int) =~= s@);
        while end > 0 && s[end - 1] == '.'
            invariant
                end <= s@.len(),
                trim_dots(s@) == trim_dots(s@.subrange(0, end as int)),
            decreases end,
        {
            assert(s@.subrange(0, end as int).drop_last() =~= s@.subrange(0, end - 1));
            end = end - 1;
        }
        let key = lower_chars(&crate::text::slice_chars(&s, 0, end));
        let ghost es = self.entries();
        let mut i = self.table.len();
        assert(es.take(i as int) =~= es);
        while i > 0
            invariant
                i <= self.table@.len(),
                es == self.entries(),
                key@ == lookup_key(name@),
                lookup(es, key@) == lookup(es.take(i as int), key@),
            decreases i,
        {
            assert(es.take(i as int).drop_last() =~= es.take(i - 1));
            assert(es.take(i as int).last() == (self.table@[i - 1].0@, self.table@[i - 1].1));
            if crate::text::chars_eq(&chars_of(self.table[i - 1].0.as_str()), &key) {
                return Some(self.table[i - 1].1);
            }
            i = i - 1;
        }
        None
    }
}

impl Clone for Resolver {
    /// A resolver with the same entries.
    fn clone(&self) -> (r: Resolver)
        ensures
            r.entries() == self.entries(),
    {
        proof {
            use_type_invariant(self);
        }
        let mut t: Vec<(String, u32)> = Vec::new();
        let mut i: usize = 0;
        while i < self.table.len()
            invariant
                i <= self.table@.len(),
                table_entries(t@) == self.entries().take(i as int),
            decreases self.table.len() - i,
        {
            let e = &self.table[i];
            let ghost before = t@;
            let name = e.0.clone();
            assert(name@ == self.table@[i as int].0@);
            t.push((name, e.1));
            assert(table_entries(t@) =~= table_entries(before).push((self.table@[i as int].0@, self.table@[i as int].1)));
            assert(self.entries()[i as int] == (self.table@[i as int].0@, self.table@[i as int].1));
            assert(self.entries().take(i + 1) =~= self.entries().take(i as int).push(self.entries()[i as int]));
            i = i + 1;
        }
        assert(self.entries().take(self.table@.len() as int) =~= self.entries());
        Resolver { table: t }
    }
}

impl Default for Resolver {
    fn default() -> (r: Resolver)
        ensures
            r.entries() == Seq::<(Seq<char>, u32)>::empty(),
    {
        let t0: Vec<(String, u32)> = Vec::new();
        assert(table_entries(t0@) =~= Seq::<(Seq<char>, u32)>::empty());
        Resolver { table: t0 }
    }
}

/// The reply MagicDNS sends to a packet: for a well-formed query, the
/// response answering an `A` question from the table (NXDOMAIN for unknown
/// names and other types); nothing for malformed input.
pub fn answer_packet(resolver: &Resolver, packet: &[u8]) -> (r: Option<Vec<u8>>)
    ensures
        r is Some <==> query_of(packet@) is Some,
        r matches Some(v) ==> ({
            let (id, name, qtype, question) = query_of(packet@)->0;
            v@ == response_bytes(id, question, if qtype == QTYPE_A { lookup(resolver.entries(), lookup_key(name)) } else { None })
        }),
{
    match parse_query(packet) {
        None => None,
        Some(q) => {
            let ip = if q.qtype == QTYPE_A { resolver.resolve(q.name.as_str()) } else { None };
            Some(build_response(&q, ip))
        },
    }
}

spec fn labels_end(b: Seq<u8>, off: int) -> int {
    match parse_labels(b, off) {
        Some((_, e)) => e,
        None => 0,
    }
}

spec fn agree(b1: Seq<u8>, b2: Seq<u8>, lo: int, hi: int) -> bool {
    hi <= b1.len() && hi <= b2.len() && forall|i: int| lo <= i < hi ==> b1[i] == b2[i]
}

/// The labels of a name depend only on the bytes the name occupies.
proof fn lemma_parse_labels_agree(b1: Seq<u8>, b2: Seq<u8>, off: int)
    requires
        parse_labels(b1, off) is Some,
        agree(b1, b2, off, labels_end(b1, off)),
    ensures
        parse_labels(b2, off) == parse_labels(b1, off),
    decreases b1.len() - off,
{
    lemma_parse_labels_end(b1, off);
    let end = labels_end(b1, off);
    assert(b2[off] == b1[off]);
    if b1[off] != 0 {
        let nxt = off + 1 + b1[off] as int;
        lemma_parse_labels_end(b1, nxt);
        lemma_parse_labels_agree(b1, b2, nxt);
        assert(b1.subrange(off + 1, nxt) =~= b2.subrange(off + 1, nxt));
    }
}

/// Parsing the response to a query as a query gives back that query: the
/// same id, name, type and question.
pub proof fn lemma_response_echoes_query(buf: Seq<u8>, ip: Option<u32>)
    requires
        query_of(buf) is Some,
    ensures
        ({
            let (id, name, qtype, question) = query_of(buf)->0;
            query_of(response_bytes(id, question, ip)) == Some((id, name, qtype, question))
        }),
{
    let (id, name, qtype, question) = query_of(buf)->0;
    let (labels, end) = parse_labels(buf, 12)->0;
    lemma_parse_labels_end(buf, 12);
    lemma_pow256_16();
    lemma_be_bytes_len(id as nat, 2);
    lemma_be_bytes_len(if ip is Some { 0x8180nat } else { 0x8183nat }, 2);
    lemma_be_bytes_len(1, 2);
    lemma_be_bytes_len(if ip is Some { 1nat } else { 0nat }, 2);
    lemma_be_bytes_len(0, 2);
    let header = be_bytes(id as nat, 2) + be_bytes(if ip is Some { 0x8180nat } else { 0x8183nat }, 2) + be_bytes(1, 2)
        + be_bytes(if ip is Some { 1nat } else { 0nat }, 2) + be_bytes(0, 2) + be_bytes(0, 2);
    let tail = match ip {
        Some(a) => seq![0xC0u8, 0x0Cu8] + be_bytes(QTYPE_A as nat, 2) + be_bytes(1, 2) + be_bytes(60, 4)
            + be_bytes(4, 2) + be_bytes(a as nat, 4),
        None => seq![],
    };
    let resp = response_bytes(id, question, ip);
    assert(resp =~= header + question + tail);
    assert(header.len() == 12);
    assert(question.len() == end + 4 - 12);
    assert forall|i: int| 12 <= i < end + 4 implies resp[i] == buf[i] by {
        assert(resp[i] == question[i - 12]);
    }
    assert(agree(buf, resp, 12, end));
    lemma_parse_labels_agree(buf, resp, 12);
    lemma_be_value_of_bytes(id as nat, 2);
    lemma_be_value_of_bytes(1, 2);
    assert(resp.subrange(0, 2) =~= be_bytes(id as nat, 2));
    assert(resp.subrange(4, 6) =~= be_bytes(1, 2));
    assert(resp.subrange(end, end + 2) =~= buf.subrange(end, end + 2));
    assert(resp.subrange(12, end + 4) =~= question);
}

} // verus!
