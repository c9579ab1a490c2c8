//! Userspace WireGuard data plane: one session per peer, with `boringtun`
//! doing the Noise handshake and the transport cryptography. A platform TUN
//! backend pumps packets between the tunnel device and a UDP socket.

use vstd::prelude::*;
use boringtun::noise::{Tunn, TunnResult};

verus! {

#[verifier::external_type_specification]
#[verifier::external_body]
pub struct ExTunn(boringtun::noise::Tunn);

#[verifier::external_type_specification]
#[verifier::external_body]
pub struct ExAnyhowError(anyhow::Error);

/// What the caller should do after an operation.
#[derive(Debug, PartialEq, Eq)]
pub enum Action {
    /// Nothing to send.
    Nothing,
    /// Send these bytes to the peer over UDP.
    ToNetwork(Vec<u8>),
    /// Deliver these decrypted bytes to the local tunnel device.
    ToTunnel(Vec<u8>),
}

/// Room `boringtun` needs beyond a packet's length.
pub const OVERHEAD: usize = 148;

/// The length of the longest packet waiting in a session's queue of packets
/// held back until its handshake completes (0 when none waits).
pub uninterp spec fn queued_max(t: Tunn) -> nat;

/// A `boringtun` session from this node's secret key to a peer's public key
/// (`Tunn::new`, no preshared key, no keepalive, its own rate limiter); the
/// error is its message. In this version `Tunn::new` always succeeds: its
/// only error comes from building the Noise parameters, which cannot fail.
/// The session's timers and rate-limiter secret come from the clock and the
/// system's randomness, so nothing more is stated of it but that its packet
/// queue starts empty.
#[verifier::external_body]
fn new_tunn(private_key: [u8; 32], peer_public: [u8; 32], index: u32) -> (r: Result<Tunn, anyhow::Error>)
    ensures
        r is Ok,
        r matches Ok(t) ==> queued_max(t) == 0,
{
    let secret = boringtun::x25519::StaticSecret::from(private_key);
    let public = boringtun::x25519::PublicKey::from(peer_public);
    Tunn::new(secret, public, None, None, index, None)
        .map_err(|e| anyhow::Error::msg(format!("failed to create WireGuard session: {e}")))
}

/// `Tunn::encapsulate` of `packet` into `buf` (which `boringtun` requires to
/// hold at least the packet plus 32 bytes, and at least 148); what comes out
/// depends on the session's state and its clock. An error of the operation
/// sends nothing. It never delivers to the tunnel: what it sends is either
/// the packet sealed in a transport message (32 bytes longer) or a 148-byte
/// handshake initiation. Without an established session `boringtun` queues
/// `packet` (so the queue's longest packet grows to at most its length);
/// otherwise the queue is untouched.
#[verifier::external_body]
fn tunn_encapsulate(tunn: &mut Tunn, packet: &[u8], buf: &mut [u8]) -> (r: Action)
    requires
        old(buf)@.len() >= packet@.len() + 32,
        old(buf)@.len() >= 148,
    ensures
        queued_max(*final(tunn)) <= queued_max(*old(tunn)) || queued_max(*final(tunn)) <= packet@.len(),
        !(r is ToTunnel),
        r matches Action::ToNetwork(b) ==> b@.len() == packet@.len() + 32 || b@.len() == 148,
{
    match tunn.encapsulate(packet, buf) {
        TunnResult::Done => Action::Nothing,
        TunnResult::Err(_) => Action::Nothing,
        TunnResult::WriteToNetwork(b) => Action::ToNetwork(b.to_vec()),
        TunnResult::WriteToTunnelV4(b, _) => Action::ToTunnel(b.to_vec()),
        TunnResult::WriteToTunnelV6(b, _) => Action::ToTunnel(b.to_vec()),
    }
}

/// Whether `d` is a WireGuard message (see [`is_wire_message`]) of type `t`.
pub open spec fn message_of_type(d: Seq<u8>, t: u8) -> bool {
    is_wire_message(d) && d[0] == t
}

/// Whether `d` has the type (a little-endian `u32`) and the length of a
/// WireGuard message: handshake initiation (1, 148 bytes), handshake response
/// (2, 92 bytes), cookie reply (3, 64 bytes) or transport data (4, at least
/// 32 bytes).
pub open spec fn is_wire_message(d: Seq<u8>) -> bool {
    &&& d.len() >= 4
    &&& d[1] == 0 && d[2] == 0 && d[3] == 0
    &&& (d[0] == 1 && d.len() == 148) || (d[0] == 2 && d.len() == 92)
        || (d[0] == 3 && d.len() == 64) || (d[0] == 4 && d.len() >= 32)
}

/// `Tunn::decapsulate` (no source address) of `datagram` into `buf`. An
/// error of the operation sends nothing. What comes out depends on the
/// session's state and its clock; what is stated is that a non-empty
/// datagram without the type and length of a WireGuard message is refused
/// by `Tunn::parse_incoming_packet` before anything else, and so gives
/// nothing. An empty datagram asks `boringtun` to send the first queued
/// packet, which it encapsulates into `buf`: `buf` must then hold the longest
/// queued packet plus 32 bytes. No call adds to the queue anything longer
/// than what it held. Decrypted bytes for the tunnel come only from a
/// transport message (type 4), 32 bytes shorter at least; a non-empty
/// datagram is answered only for a handshake initiation (a 92-byte response)
/// or a handshake response (a 32-byte keepalive); an empty one sends a queued
/// packet (sealed, 32 bytes longer) or a 148-byte handshake initiation.
#[verifier::external_body]
fn tunn_decapsulate(tunn: &mut Tunn, datagram: &[u8], buf: &mut [u8]) -> (r: Action)
    requires
        old(buf)@.len() >= datagram@.len() + 32,
        old(buf)@.len() >= 148,
        datagram@.len() == 0 ==> old(buf)@.len() >= queued_max(*old(tunn)) + 32,
    ensures
        queued_max(*final(tunn)) <= queued_max(*old(tunn)),
        datagram@.len() > 0 && !is_wire_message(datagram@) ==> r is Nothing,
        r matches Action::ToTunnel(b) ==> message_of_type(datagram@, 4) && b@.len() + 32 <= datagram@.len(),
        datagram@.len() > 0 ==> (r matches Action::ToNetwork(b) ==> (message_of_type(datagram@, 1) && b@.len() == 92)
            || (message_of_type(datagram@, 2) && b@.len() == 32)),
        datagram@.len() == 0 ==> (r matches Action::ToNetwork(b) ==> b@.len() == 148
            || b@.len() <= queued_max(*old(tunn)) + 32),
{
    match tunn.decapsulate(None, datagram, buf) {
        TunnResult::Done => Action::Nothing,
        TunnResult::Err(_) => Action::Nothing,
        TunnResult::WriteToNetwork(b) => Action::ToNetwork(b.to_vec()),
        TunnResult::WriteToTunnelV4(b, _) => Action::ToTunnel(b.to_vec()),
        TunnResult::WriteToTunnelV6(b, _) => Action::ToTunnel(b.to_vec()),
    }
}

/// A single WireGuard peer session.
pub struct Peer {
    tunn: Tunn,
    /// The length of the longest packet ever handed to `encapsulate`: an
    /// upper bound of what the session may hold queued.
    longest: usize,
}

impl Peer {
    /// The session queues nothing longer than the longest packet handed to
    /// `encapsulate`, and a buffer for it fits in memory.
    /// The length of the longest packet handed to `encapsulate` so far.
    pub closed spec fn longest_sent(self) -> nat {
        self.longest as nat
    }

    pub closed spec fn wf(self) -> bool {
        &&& queued_max(self.tunn) <= self.longest
        &&& self.longest + OVERHEAD <= usize::MAX
    }

    /// Create a session from this node's private key and the peer's public
    /// key; this always succeeds.
    pub fn new(private_key: [u8; 32], peer_public: [u8; 32], index: u32) -> (r: Result<Peer, anyhow::Error>)
        ensures
            r is Ok,
            r matches Ok(p) ==> p.wf() && p.longest_sent() == 0,
    {
        match new_tunn(private_key, peer_public, index) {
            Ok(tunn) => Ok(Peer { tunn, longest: 0 }),
            Err(e) => Err(e),
        }
    }

    /// Encrypt an outbound IP packet (or start a handshake when `packet` is
    /// empty or the session is not established yet).
    pub fn encapsulate(&mut self, packet: &[u8]) -> (r: Result<Action, anyhow::Error>)
        requires
            old(self).wf(),
            packet@.len() + OVERHEAD <= usize::MAX,
        ensures
            final(self).wf(),
            final(self).longest_sent() == if packet@.len() > old(self).longest_sent() {
                packet@.len()
            } else {
                old(self).longest_sent()
            },
            r is Ok,
            r matches Ok(a) ==> !(a is ToTunnel),
            r matches Ok(Action::ToNetwork(b)) ==> b@.len() == packet@.len() + 32 || b@.len() == 148,
    {
        let mut buf = vec![0u8; packet.len() + OVERHEAD];
        if packet.len() > self.longest {
            self.longest = packet.len();
        }
        Ok(tunn_encapsulate(&mut self.tunn, packet, buf.as_mut_slice()))
    }

    /// Process an inbound UDP datagram from the peer; a non-empty datagram
    /// that is not a WireGuard message is dropped, and an empty one sends the
    /// next packet held back before the handshake completed.
    pub fn decapsulate(&mut self, datagram: &[u8]) -> (r: Result<Action, anyhow::Error>)
        requires
            old(self).wf(),
            datagram@.len() + OVERHEAD <= usize::MAX,
        ensures
            final(self).wf(),
            r is Ok,
            datagram@.len() > 0 && !is_wire_message(datagram@) ==> r matches Ok(Action::Nothing),
            final(self).longest_sent() == old(self).longest_sent(),
            r matches Ok(Action::ToTunnel(b)) ==> message_of_type(datagram@, 4) && b@.len() + 32 <= datagram@.len(),
            datagram@.len() > 0 ==> (r matches Ok(Action::ToNetwork(b)) ==> (message_of_type(datagram@, 1)
                && b@.len() == 92) || (message_of_type(datagram@, 2) && b@.len() == 32)),
            datagram@.len() == 0 ==> (r matches Ok(Action::ToNetwork(b)) ==> b@.len() == 148
                || b@.len() <= old(self).longest_sent() + 32),
    {
        let room = if datagram.len() > self.longest { datagram.len() } else { self.longest };
        let mut buf = vec![0u8; room + OVERHEAD];
        Ok(tunn_decapsulate(&mut self.tunn, datagram, buf.as_mut_slice()))
    }
}

/// Foreign-interface code: nothing to do.
pub const WS_ACTION_NONE: i32 = 0;

/// Foreign-interface code: send the output bytes to the peer over UDP.
pub const WS_ACTION_NETWORK: i32 = 1;

/// Foreign-interface code: write the output bytes to the tunnel device.
pub const WS_ACTION_TUNNEL: i32 = 2;

/// Foreign-interface code: internal error.
pub const WS_ERR: i32 = -1;

/// Foreign-interface code: output buffer missing or too small.
pub const WS_ERR_BUFFER: i32 = -2;

/// The code a foreign caller receives for the outcome of an operation, and
/// the bytes to copy into its output buffer (`out_present`: the caller gave
/// one; `out_cap`: its size).
pub fn ffi_outcome(action: Result<Action, anyhow::Error>, out_present: bool, out_cap: usize) -> (r: (i32, Option<Vec<u8>>))
    ensures
        match action {
            Err(_) => r.0 == WS_ERR && r.1 is None,
            Ok(Action::Nothing) => r.0 == WS_ACTION_NONE && r.1 is None,
            Ok(Action::ToNetwork(b)) => if !out_present || b@.len() > out_cap {
                r.0 == WS_ERR_BUFFER && r.1 is None
            } else {
                r.0 == WS_ACTION_NETWORK && (r.1 matches Some(v) && v@ == b@)
            },
            Ok(Action::ToTunnel(b)) => if !out_present || b@.len() > out_cap {
                r.0 == WS_ERR_BUFFER && r.1 is None
            } else {
                r.0 == WS_ACTION_TUNNEL && (r.1 matches Some(v) && v@ == b@)
            },
        },
{
    let (code, bytes) = match action {
        Err(_) => {
            return (WS_ERR, None);
        },
        Ok(Action::Nothing) => {
            return (WS_ACTION_NONE, None);
        },
        Ok(Action::ToNetwork(b)) => (WS_ACTION_NETWORK, b),
        Ok(Action::ToTunnel(b)) => (WS_ACTION_TUNNEL, b),
    };
    if !out_present || bytes.len() > out_cap {
        return (WS_ERR_BUFFER, None);
    }
    (code, Some(bytes))
}

} // verus!
