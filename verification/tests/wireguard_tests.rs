use boringtun::x25519::{PublicKey, StaticSecret};
use whalescale::wireguard::{Action, Peer};

fn ipv4_packet() -> Vec<u8> {
    let mut p = vec![0u8; 20];
    p[0] = 0x45;
    p[3] = 20;
    p[8] = 64;
    p[9] = 0;
    p[12..16].copy_from_slice(&[100, 64, 0, 1]);
    p[16..20].copy_from_slice(&[100, 64, 0, 2]);
    p
}

#[test]
fn handshake_and_transport_between_two_peers() {
    let a_priv: [u8; 32] = rand::random();
    let b_priv: [u8; 32] = rand::random();
    let a_pub = PublicKey::from(&StaticSecret::from(a_priv)).to_bytes();
    let b_pub = PublicKey::from(&StaticSecret::from(b_priv)).to_bytes();

    let mut a = Peer::new(a_priv, b_pub, 0).unwrap();
    let mut b = Peer::new(b_priv, a_pub, 1).unwrap();

    let init = match a.encapsulate(&[]).unwrap() {
        Action::ToNetwork(d) => d,
        other => panic!("expected handshake init, got {other:?}"),
    };
    let resp = match b.decapsulate(&init).unwrap() {
        Action::ToNetwork(d) => d,
        other => panic!("expected handshake response, got {other:?}"),
    };
    a.decapsulate(&resp).unwrap();

    let packet = ipv4_packet();
    let encrypted = match a.encapsulate(&packet).unwrap() {
        Action::ToNetwork(d) => d,
        other => panic!("expected encrypted data, got {other:?}"),
    };
    let delivered = match b.decapsulate(&encrypted).unwrap() {
        Action::ToTunnel(d) => d,
        other => panic!("expected delivered packet, got {other:?}"),
    };
    assert_eq!(delivered, packet, "B must recover A's exact packet");
}

#[test]
fn garbage_datagram_yields_nothing() {
    let a_priv: [u8; 32] = rand::random();
    let b_pub = PublicKey::from(&StaticSecret::from(rand::random::<[u8; 32]>())).to_bytes();
    let mut a = Peer::new(a_priv, b_pub, 0).unwrap();
    assert_eq!(a.decapsulate(&[1, 2, 3, 4, 5]).unwrap(), Action::Nothing);
}

#[test]
fn datagram_that_is_not_a_wireguard_message_is_dropped() {
    let a_priv = [7u8; 32];
    let b_pub = PublicKey::from(&StaticSecret::from([9u8; 32])).to_bytes();
    let mut a = Peer::new(a_priv, b_pub, 0).unwrap();
    assert_eq!(a.decapsulate(&[1, 0, 0]).unwrap(), Action::Nothing);
    assert_eq!(a.decapsulate(&[9u8; 100]).unwrap(), Action::Nothing);
    assert_eq!(a.decapsulate(&[1, 0, 0, 0, 5]).unwrap(), Action::Nothing);
}

#[test]
fn queued_packet_longer_than_a_handshake_is_flushed_after_the_handshake() {
    let a_priv = [3u8; 32];
    let b_priv = [4u8; 32];
    let a_pub = PublicKey::from(&StaticSecret::from(a_priv)).to_bytes();
    let b_pub = PublicKey::from(&StaticSecret::from(b_priv)).to_bytes();
    let mut a = Peer::new(a_priv, b_pub, 0).unwrap();
    let mut b = Peer::new(b_priv, a_pub, 1).unwrap();
    let big = vec![0x45u8; 600];
    let init = match a.encapsulate(&big).unwrap() {
        Action::ToNetwork(d) => d,
        other => panic!("expected handshake init, got {other:?}"),
    };
    let resp = match b.decapsulate(&init).unwrap() {
        Action::ToNetwork(d) => d,
        other => panic!("expected handshake response, got {other:?}"),
    };
    a.decapsulate(&resp).unwrap();
    match a.decapsulate(&[]).unwrap() {
        Action::ToNetwork(d) => assert!(d.len() >= big.len() + 16),
        other => panic!("expected the queued packet, got {other:?}"),
    }
}

#[test]
fn message_lengths_follow_the_protocol() {
    let a_priv = [5u8; 32];
    let b_priv = [6u8; 32];
    let a_pub = PublicKey::from(&StaticSecret::from(a_priv)).to_bytes();
    let b_pub = PublicKey::from(&StaticSecret::from(b_priv)).to_bytes();
    let mut a = Peer::new(a_priv, b_pub, 0).unwrap();
    let mut b = Peer::new(b_priv, a_pub, 1).unwrap();
    let init = match a.encapsulate(&[]).unwrap() {
        Action::ToNetwork(d) => d,
        other => panic!("expected handshake init, got {other:?}"),
    };
    assert_eq!(init.len(), 148);
    let resp = match b.decapsulate(&init).unwrap() {
        Action::ToNetwork(d) => d,
        other => panic!("expected handshake response, got {other:?}"),
    };
    assert_eq!(resp.len(), 92);
    match a.decapsulate(&resp).unwrap() {
        Action::ToNetwork(k) => assert_eq!(k.len(), 32),
        other => panic!("expected keepalive, got {other:?}"),
    }
    let packet = ipv4_packet();
    let sealed = match a.encapsulate(&packet).unwrap() {
        Action::ToNetwork(d) => d,
        other => panic!("expected transport message, got {other:?}"),
    };
    assert_eq!(sealed.len(), packet.len() + 32);
    match b.decapsulate(&sealed).unwrap() {
        Action::ToTunnel(d) => assert!(d.len() + 32 <= sealed.len()),
        other => panic!("expected delivered packet, got {other:?}"),
    }
}
