//! Endpoint discovery results: the addresses peers can reach this node on.
//! A local endpoint (the source address the system uses towards the STUN
//! server, with the WireGuard port) and the server-reflexive endpoint the
//! STUN server saw, with the measured round-trip time.

use vstd::prelude::*;
use crate::net::SocketAddr;
use crate::proto::{Endpoint, EndpointKind};

verus! {

/// Result of an endpoint-discovery pass.
pub struct Discovery {
    pub endpoints: Vec<Endpoint>,
    /// Measured STUN round-trip time in milliseconds, if STUN succeeded.
    pub stun_rtt_ms: Option<u32>,
}

/// A round-trip time in milliseconds, saturated to 32 bits.
pub fn clamp_rtt(ms: u128) -> (r: u32)
    ensures
        r == if ms > u32::MAX { u32::MAX } else { ms as u32 },
{
    if ms > u32::MAX as u128 {
        u32::MAX
    } else {
        ms as u32
    }
}

/// The discovery result from the local address (when one was found) and the
/// STUN answer (reflexive address and round-trip time, when STUN succeeded):
/// the local endpoint first, then the reflexive one.
pub fn assemble(local: Option<SocketAddr>, stun: Option<(SocketAddr, u32)>) -> (r: Discovery)
    ensures
        r.endpoints@ == (match local {
            Some(a) => seq![Endpoint { addr: a, kind: EndpointKind::Local }],
            None => seq![],
        }) + (match stun {
            Some((a, _)) => seq![Endpoint { addr: a, kind: EndpointKind::Stun }],
            None => seq![],
        }),
        r.stun_rtt_ms == match stun {
            Some((_, rtt)) => Some(rtt),
            None => None::<u32>,
        },
{
    let mut endpoints: Vec<Endpoint> = Vec::new();
    if let Some(a) = local {
        endpoints.push(Endpoint { addr: a, kind: EndpointKind::Local });
    }
    let ghost head = endpoints@;
    let mut stun_rtt_ms: Option<u32> = None;
    if let Some((a, rtt)) = stun {
        endpoints.push(Endpoint { addr: a, kind: EndpointKind::Stun });
        stun_rtt_ms = Some(rtt);
    }
    proof {
        let l = match local {
            Some(a) => seq![Endpoint { addr: a, kind: EndpointKind::Local }],
            None => seq![],
        };
        let s = match stun {
            Some((a, _)) => seq![Endpoint { addr: a, kind: EndpointKind::Stun }],
            None => seq![],
        };
        assert(head =~= l);
        assert(endpoints@ =~= l + s);
    }
    Discovery { endpoints, stun_rtt_ms }
}

} // verus!
