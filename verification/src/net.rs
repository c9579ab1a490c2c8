//! IP addresses, networks (CIDR blocks) and socket addresses, as plain
//! values, with their membership rule and their textual forms.

use vstd::prelude::*;
use crate::bytes::{be_bytes, lemma_be_bytes_len, push_be};
use crate::text::{chars_of, decimal, push_all, push_decimal};

verus! {

/// An IP address: IPv4 as its 32-bit value, IPv6 as its 128-bit value
/// (both big-endian, as `u32::from(Ipv4Addr)` / `u128::from(Ipv6Addr)`).
#[derive(Debug, Clone, Copy, PartialEq, Eq, Hash, Structural)]
pub enum IpAddr {
    V4(u32),
    V6(u128),
}

/// An IP network: an address and a prefix length (host bits may be set, as
/// in `ipnet`).
#[derive(Debug, Clone, Copy, PartialEq, Eq, Hash, Structural)]
pub struct IpNet {
    pub addr: IpAddr,
    pub prefix_len: u8,
}

/// An IP address with a port.
#[derive(Debug, Clone, Copy, PartialEq, Eq, Hash, Structural)]
pub struct SocketAddr {
    pub ip: IpAddr,
    pub port: u16,
}

impl IpNet {
    /// The prefix length is in range for the address family.
    pub open spec fn wf(self) -> bool {
        match self.addr {
            IpAddr::V4(_) => self.prefix_len <= 32,
            IpAddr::V6(_) => self.prefix_len <= 128,
        }
    }

    /// Build a network, rejecting a prefix longer than the address (as
    /// `IpNet::new`).
    pub fn new(addr: IpAddr, prefix_len: u8) -> (r: Option<IpNet>)
        ensures
            r matches Some(n) ==> n.addr == addr && n.prefix_len == prefix_len && n.wf(),
            r is None <==> !(IpNet { addr, prefix_len }).wf(),
    {
        let max: u8 = match addr {
            IpAddr::V4(_) => 32,
            IpAddr::V6(_) => 128,
        };
        if prefix_len <= max {
            Some(IpNet { addr, prefix_len })
        } else {
            None
        }
    }

    /// The single-address network of `ip` (`/32` or `/128`).
    pub fn host(ip: IpAddr) -> (r: IpNet)
        ensures
            r == host_net_of(ip),
            r.wf(),
    {
        match ip {
            IpAddr::V4(_) => IpNet { addr: ip, prefix_len: 32 },
            IpAddr::V6(_) => IpNet { addr: ip, prefix_len: 128 },
        }
    }

    /// Parse CIDR text (`100.64.0.0/10`, `2001:db8::/32`).
    pub fn parse(s: &str) -> (r: Option<IpNet>)
        ensures
            r == cidr_from_text(s@),
            r matches Some(n) ==> n.wf(),
    {
        parse_cidr(s)
    }

    /// Whether `ip` lies in this network.
    pub fn contains(&self, ip: &IpAddr) -> (r: bool)
        ensures
            r == net_contains(*self, *ip),
    {
        match (self.addr, *ip) {
            (IpAddr::V4(na), IpAddr::V4(x)) => {
                if self.prefix_len == 0 {
                    true
                } else {
                    let s: u32 = if self.prefix_len >= 32 { 0 } else { 32 - self.prefix_len as u32 };
                    (na >> s) == (x >> s)
                }
            },
            (IpAddr::V6(na), IpAddr::V6(x)) => {
                if self.prefix_len == 0 {
                    true
                } else {
                    let s: u32 = if self.prefix_len >= 128 { 0 } else { 128 - self.prefix_len as u32 };
                    (na >> s) == (x >> s)
                }
            },
            _ => false,
        }
    }
}

/// The single-address network of `ip`.
pub open spec fn host_net_of(ip: IpAddr) -> IpNet {
    match ip {
        IpAddr::V4(_) => IpNet { addr: ip, prefix_len: 32 },
        IpAddr::V6(_) => IpNet { addr: ip, prefix_len: 128 },
    }
}

pub open spec fn v4_shift(p: u8) -> u32 {
    if p >= 32 { 0 } else { (32 - p) as u32 }
}

pub open spec fn v6_shift(p: u8) -> u32 {
    if p >= 128 { 0 } else { (128 - p) as u32 }
}

/// Membership: same family, and the first `prefix_len` bits agree.
pub open spec fn net_contains(n: IpNet, ip: IpAddr) -> bool {
    match (n.addr, ip) {
        (IpAddr::V4(na), IpAddr::V4(x)) => n.prefix_len == 0 || (na >> v4_shift(n.prefix_len))
            == (x >> v4_shift(n.prefix_len)),
        (IpAddr::V6(na), IpAddr::V6(x)) => n.prefix_len == 0 || (na >> v6_shift(n.prefix_len))
            == (x >> v6_shift(n.prefix_len)),
        _ => false,
    }
}

/// A host network contains exactly its own address.
pub proof fn lemma_host_net_contains(ip: IpAddr, x: IpAddr)
    ensures
        net_contains(host_net_of(ip), x) <==> x == ip,
{
    match (ip, x) {
        (IpAddr::V4(a), IpAddr::V4(b)) => {
            assert((a >> 0u32) == a && (b >> 0u32) == b) by (bit_vector);
        },
        (IpAddr::V6(a), IpAddr::V6(b)) => {
            assert((a >> 0u32) == a && (b >> 0u32) == b) by (bit_vector);
        },
        _ => {},
    }
}

/// What `ipnet` parses a CIDR string (`"100.64.0.0/10"`) into.
pub uninterp spec fn cidr_from_text(s: Seq<char>) -> Option<IpNet>;

/// Parse a CIDR string with `ipnet`'s `FromStr` (`None` when it does not
/// parse).
#[verifier::external_body]
pub(crate) fn parse_cidr(s: &str) -> (r: Option<IpNet>)
    ensures
        r == cidr_from_text(s@),
        r matches Some(n) ==> n.wf(),
{
    match s.parse::<ipnet::IpNet>() {
        Ok(ipnet::IpNet::V4(n)) => Some(IpNet { addr: IpAddr::V4(u32::from(n.addr())), prefix_len: n.prefix_len() }),
        Ok(ipnet::IpNet::V6(n)) => Some(IpNet { addr: IpAddr::V6(u128::from(n.addr())), prefix_len: n.prefix_len() }),
        Err(_) => None,
    }
}

/// The textual form `std` gives an IPv6 address (RFC 5952).
pub uninterp spec fn ipv6_text(x: u128) -> Seq<char>;

/// Render an IPv6 address with the standard library's `Display`, the address
/// type reached through `ipnet` (the address of a `/128` `Ipv6Net`).
#[verifier::external_body]
fn ipv6_to_string(x: u128) -> (r: String)
    ensures
        r@ == ipv6_text(x),
{
    ipnet::Ipv6Net::new_assert(x.into(), 128).addr().to_string()
}

/// Dotted-decimal IPv4 text.
pub open spec fn ipv4_text(x: u32) -> Seq<char> {
    let b = be_bytes(x as nat, 4);
    decimal(b[0] as nat) + seq!['.'] + decimal(b[1] as nat) + seq!['.'] + decimal(b[2] as nat)
        + seq!['.'] + decimal(b[3] as nat)
}

/// The textual form of an address.
pub open spec fn ip_text(ip: IpAddr) -> Seq<char> {
    match ip {
        IpAddr::V4(x) => ipv4_text(x),
        IpAddr::V6(x) => ipv6_text(x),
    }
}

/// `addr/prefix`, as `ipnet` displays a network.
pub open spec fn net_text(n: IpNet) -> Seq<char> {
    ip_text(n.addr) + seq!['/'] + decimal(n.prefix_len as nat)
}

/// `ip:port`, or `[ip]:port` for IPv6, as `std` displays a socket address.
pub open spec fn sockaddr_text(a: SocketAddr) -> Seq<char> {
    match a.ip {
        IpAddr::V4(_) => ip_text(a.ip) + seq![':'] + decimal(a.port as nat),
        IpAddr::V6(_) => seq!['['] + ip_text(a.ip) + seq![']', ':'] + decimal(a.port as nat),
    }
}

/// Append the textual form of `ip`.
pub fn push_ip(out: &mut Vec<char>, ip: &IpAddr)
    ensures
        final(out)@ == old(out)@ + ip_text(*ip),
{
    match *ip {
        IpAddr::V4(x) => {
            let mut b: Vec<u8> = Vec::new();
            push_be(&mut b, x as u128, 4);
            proof {
                lemma_be_bytes_len(x as nat, 4);
            }
            push_decimal(out, b[0] as u64);
            out.push('.');
            push_decimal(out, b[1] as u64);
            out.push('.');
            push_decimal(out, b[2] as u64);
            out.push('.');
            push_decimal(out, b[3] as u64);
            assert(out@ =~= old(out)@ + ipv4_text(x));
        },
        IpAddr::V6(x) => {
            let s = ipv6_to_string(x);
            let cs = chars_of(s.as_str());
            push_all(out, cs.as_slice());
        },
    }
}

/// Append `addr/prefix`.
pub fn push_net(out: &mut Vec<char>, n: &IpNet)
    ensures
        final(out)@ == old(out)@ + net_text(*n),
{
    push_ip(out, &n.addr);
    out.push('/');
    push_decimal(out, n.prefix_len as u64);
    assert(out@ =~= old(out)@ + net_text(*n));
}

/// Append `ip:port` (`[ip]:port` for IPv6).
pub fn push_sockaddr(out: &mut Vec<char>, a: &SocketAddr)
    ensures
        final(out)@ == old(out)@ + sockaddr_text(*a),
{
    match a.ip {
        IpAddr::V4(_) => {
            push_ip(out, &a.ip);
            out.push(':');
            push_decimal(out, a.port as u64);
        },
        IpAddr::V6(_) => {
            out.push('[');
            push_ip(out, &a.ip);
            out.push(']');
            out.push(':');
            push_decimal(out, a.port as u64);
        },
    }
    assert(out@ =~= old(out)@ + sockaddr_text(*a));
}

} // verus!
