use whalescale::magicdns::{answer_packet, build_response, parse_query, Resolver, QTYPE_A};
use whalescale::net::{IpAddr, IpNet};
use whalescale::proto::{NetworkMap, PeerNode, SelfNode};

fn encode_query(id: u16, name: &str) -> Vec<u8> {
    let mut q = Vec::new();
    q.extend_from_slice(&id.to_be_bytes());
    q.extend_from_slice(&0x0100u16.to_be_bytes());
    q.extend_from_slice(&1u16.to_be_bytes());
    q.extend_from_slice(&[0, 0, 0, 0, 0, 0]);
    for label in name.split('.') {
        q.push(label.len() as u8);
        q.extend_from_slice(label.as_bytes());
    }
    q.push(0);
    q.extend_from_slice(&QTYPE_A.to_be_bytes());
    q.extend_from_slice(&1u16.to_be_bytes());
    q
}

fn ip(a: u8, b: u8, c: u8, d: u8) -> u32 {
    u32::from_be_bytes([a, b, c, d])
}

fn sample_map() -> NetworkMap {
    NetworkMap {
        version: 1,
        self_node: SelfNode { device_id: 0, overlay_ip: IpNet::parse("100.64.0.1/32").unwrap(), hostname: "my-laptop".into() },
        peers: vec![PeerNode {
            device_id: 0,
            hostname: "prod-server-1".into(),
            public_key: "k".into(),
            allowed_ips: vec![IpNet::parse("100.64.0.2/32").unwrap()],
            endpoints: vec![],
            relay_region: None,
            online: true,
            last_seen: None,
        }],
        relays: vec![],
        dns_suffix: Some("dev.whale.net".into()),
        packet_filter: vec![],
    }
}

#[test]
fn resolver_maps_short_and_fqdn() {
    let r = Resolver::from_netmap(&sample_map());
    assert_eq!(r.resolve("prod-server-1"), Some(ip(100, 64, 0, 2)));
    assert_eq!(r.resolve("prod-server-1.dev.whale.net"), Some(ip(100, 64, 0, 2)));
    assert_eq!(r.resolve("MY-LAPTOP"), Some(ip(100, 64, 0, 1)));
    assert_eq!(r.resolve("unknown"), None);
}

#[test]
fn query_response_roundtrip() {
    let q = parse_query(&encode_query(0x1234, "prod-server-1.dev.whale.net")).unwrap();
    assert_eq!(q.id, 0x1234);
    assert_eq!(q.name, "prod-server-1.dev.whale.net");
    assert_eq!(q.qtype, QTYPE_A);

    let resp = build_response(&q, Some(ip(100, 64, 0, 2)));
    assert_eq!(u16::from_be_bytes([resp[6], resp[7]]), 1);
    assert_eq!(&resp[resp.len() - 4..], &[100, 64, 0, 2]);
}

#[test]
fn trailing_dot_and_case_are_ignored() {
    let r = Resolver::from_netmap(&sample_map());
    assert_eq!(r.resolve("Prod-Server-1.Dev.Whale.Net."), Some(ip(100, 64, 0, 2)));
    assert_eq!(r.resolve("prod-server-1.."), Some(ip(100, 64, 0, 2)));
}

#[test]
fn unknown_names_get_nxdomain() {
    let r = Resolver::from_netmap(&sample_map());
    let resp = answer_packet(&r, &encode_query(7, "nope")).unwrap();
    assert_eq!(u16::from_be_bytes([resp[0], resp[1]]), 7);
    assert_eq!(u16::from_be_bytes([resp[2], resp[3]]), 0x8183);
    assert_eq!(u16::from_be_bytes([resp[6], resp[7]]), 0);
    let q = parse_query(&resp).unwrap();
    assert_eq!(q.name, "nope");
}

#[test]
fn malformed_queries_are_dropped() {
    let r = Resolver::from_netmap(&sample_map());
    assert!(answer_packet(&r, &[0u8; 5]).is_none());
    let mut compressed = encode_query(1, "a");
    compressed[12] = 0xC0;
    assert!(parse_query(&compressed).is_none());
    let mut truncated = encode_query(1, "abc");
    truncated.truncate(truncated.len() - 3);
    assert!(parse_query(&truncated).is_none());
}

#[test]
fn ipv6_hosts_are_not_listed() {
    let mut m = sample_map();
    m.self_node.overlay_ip = IpNet { addr: IpAddr::V6(1), prefix_len: 128 };
    let r = Resolver::from_netmap(&m);
    assert_eq!(r.resolve("my-laptop"), None);
    assert_eq!(r.resolve("prod-server-1"), Some(ip(100, 64, 0, 2)));
}

#[test]
fn a_name_given_twice_resolves_to_the_later_device() {
    let mut m = sample_map();
    m.peers[0].hostname = "my-laptop".into();
    let r = Resolver::from_netmap(&m);
    assert_eq!(r.resolve("my-laptop"), Some(ip(100, 64, 0, 2)));
    let c = r.clone();
    assert_eq!(c.resolve("my-laptop.dev.whale.net"), Some(ip(100, 64, 0, 2)));
}
