use whalescale::net::{IpNet, IpAddr, SocketAddr};
use whalescale::proto::{Endpoint, EndpointKind, NetworkMap, PeerNode, SelfNode};
use whalescale::wgconfig::{best_endpoint, render, render_quick, render_setconf};

fn sample_map() -> NetworkMap {
    NetworkMap {
        version: 1,
        self_node: SelfNode { device_id: 0, overlay_ip: IpNet::parse("100.64.0.1/32").unwrap(), hostname: "self".into() },
        peers: vec![PeerNode {
            device_id: 0,
            hostname: "peer-a".into(),
            public_key: "PEERKEYBASE64".into(),
            allowed_ips: vec![IpNet::parse("100.64.0.2/32").unwrap()],
            endpoints: vec![Endpoint {
                addr: SocketAddr { ip: IpAddr::V4(u32::from_be_bytes([203, 0, 113, 5])), port: 51820 },
                kind: EndpointKind::Stun,
            }],
            relay_region: None,
            online: true,
            last_seen: None,
        }],
        relays: vec![],
        dns_suffix: None,
        packet_filter: vec![],
    }
}

#[test]
fn renders_interface_and_peer() {
    let cfg = render(&sample_map(), "PRIVKEYBASE64", 51820);
    assert!(cfg.contains("[Interface]"));
    assert!(cfg.contains("PrivateKey = PRIVKEYBASE64"));
    assert!(cfg.contains("Address = 100.64.0.1/32"));
    assert!(cfg.contains("[Peer]"));
    assert!(cfg.contains("PublicKey = PEERKEYBASE64"));
    assert!(cfg.contains("AllowedIPs = 100.64.0.2/32"));
    assert!(cfg.contains("Endpoint = 203.0.113.5:51820"));
}

#[test]
fn setconf_omits_address_and_comments() {
    let cfg = render_setconf(&sample_map(), "PRIVKEYBASE64", 51820);
    assert!(!cfg.contains("Address ="), "setconf must not carry Address");
    assert!(!cfg.contains("# peer-a"), "setconf must not carry comments");
    assert!(cfg.contains("PublicKey = PEERKEYBASE64"));
    assert!(cfg.contains("Endpoint = 203.0.113.5:51820"));
}

#[test]
fn quick_config_exact_text() {
    let cfg = render_quick(&sample_map(), "K", 51820);
    assert_eq!(
        cfg,
        "[Interface]\nPrivateKey = K\nAddress = 100.64.0.1/32\nListenPort = 51820\n\n[Peer]\n# peer-a\nPublicKey = PEERKEYBASE64\nAllowedIPs = 100.64.0.2/32\nEndpoint = 203.0.113.5:51820\nPersistentKeepalive = 25\n\n"
    );
}

#[test]
fn stun_endpoint_preferred_over_local() {
    let local = Endpoint { addr: SocketAddr { ip: IpAddr::V4(0x0a000001), port: 1 }, kind: EndpointKind::Local };
    let stun = Endpoint { addr: SocketAddr { ip: IpAddr::V4(0x0a000002), port: 2 }, kind: EndpointKind::Stun };
    assert_eq!(best_endpoint(&[local, stun]), Some(stun));
    assert_eq!(best_endpoint(&[local]), Some(local));
    assert_eq!(best_endpoint(&[]), None);
}

#[test]
fn ipv6_endpoints_are_bracketed_and_routes_joined() {
    let mut m = sample_map();
    m.peers[0].endpoints = vec![Endpoint { addr: SocketAddr { ip: IpAddr::V6(1), port: 9 }, kind: EndpointKind::Local }];
    m.peers[0].allowed_ips.push(IpNet::parse("10.0.0.0/8").unwrap());
    let cfg = render_setconf(&m, "K", 1);
    assert!(cfg.contains("Endpoint = [::1]:9\n"));
    assert!(cfg.contains("AllowedIPs = 100.64.0.2/32, 10.0.0.0/8\n"));
}

#[test]
fn setconf_is_quick_without_address_and_comment_lines() {
    let quick = render_quick(&sample_map(), "K", 41641);
    let sync = render_setconf(&sample_map(), "K", 41641);
    let kept: String = quick
        .split_inclusive('\n')
        .filter(|l| !l.starts_with("Address = ") && !l.starts_with("# "))
        .collect();
    assert_eq!(sync, kept);
    assert!(quick.contains("# peer-a\n"));
}
