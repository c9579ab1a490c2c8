use whalescale::filter::{allows_inbound, parse_ipv4, CompiledFilter, PROTO_TCP};
use whalescale::net::{IpNet, IpAddr};
use whalescale::proto::{FilterRule, Ports};

fn packet(protocol: u8, src: [u8; 4], dst_port: u16) -> Vec<u8> {
    let mut p = vec![0u8; 24];
    p[0] = 0x45;
    p[3] = 24;
    p[8] = 64;
    p[9] = protocol;
    p[12..16].copy_from_slice(&src);
    p[16..20].copy_from_slice(&[100, 64, 0, 1]);
    p[20..22].copy_from_slice(&1234u16.to_be_bytes());
    p[22..24].copy_from_slice(&dst_port.to_be_bytes());
    p
}

fn rule(src_cidr: &str, ports: Ports) -> FilterRule {
    FilterRule { src_ips: vec![IpNet::parse(src_cidr).unwrap()], ports }
}

#[test]
fn parses_tcp_src_and_dst_port() {
    let meta = parse_ipv4(&packet(PROTO_TCP, [100, 64, 0, 10], 22)).unwrap();
    assert_eq!(meta.src, IpAddr::V4(u32::from_be_bytes([100, 64, 0, 10])));
    assert_eq!(meta.dst_port, Some(22));
}

#[test]
fn rejects_non_ipv4() {
    assert!(parse_ipv4(&[0x60, 0, 0, 0]).is_none());
    assert!(parse_ipv4(&[0x45, 0]).is_none());
}

#[test]
fn empty_filter_allows_everything() {
    let meta = parse_ipv4(&packet(PROTO_TCP, [203, 0, 113, 5], 80)).unwrap();
    assert!(allows_inbound(&[], &meta));
}

#[test]
fn enforces_source_and_port() {
    let filter = vec![rule("100.64.0.10/32", Ports::List(vec![22, 443]))];
    let ok = parse_ipv4(&packet(PROTO_TCP, [100, 64, 0, 10], 22)).unwrap();
    assert!(allows_inbound(&filter, &ok));
    let bad_port = parse_ipv4(&packet(PROTO_TCP, [100, 64, 0, 10], 80)).unwrap();
    assert!(!allows_inbound(&filter, &bad_port));
    let bad_src = parse_ipv4(&packet(PROTO_TCP, [100, 64, 0, 11], 22)).unwrap();
    assert!(!allows_inbound(&filter, &bad_src));
}

#[test]
fn all_ports_rule_allows_icmp() {
    let filter = vec![rule("100.64.0.0/10", Ports::All)];
    let icmp = parse_ipv4(&packet(1, [100, 64, 0, 10], 0)).unwrap();
    assert_eq!(icmp.dst_port, None);
    assert!(allows_inbound(&filter, &icmp));
}

#[test]
fn compiled_matches_reference() {
    let filter = vec![rule("100.64.0.10/32", Ports::List(vec![22, 443])), rule("100.64.0.0/10", Ports::All)];
    let compiled = CompiledFilter::compile(&filter);
    for (src, port) in [([100, 64, 0, 10], 22), ([100, 64, 0, 10], 80), ([100, 64, 0, 11], 22), ([203, 0, 113, 5], 443)] {
        let meta = parse_ipv4(&packet(PROTO_TCP, src, port)).unwrap();
        assert_eq!(compiled.allows(&meta), allows_inbound(&filter, &meta), "mismatch for {src:?}:{port}");
    }
}

#[test]
fn empty_compiled_filter_allows_all() {
    let compiled = CompiledFilter::compile(&[]);
    let meta = parse_ipv4(&packet(PROTO_TCP, [1, 2, 3, 4], 9999)).unwrap();
    assert!(compiled.allows(&meta));
}

#[test]
fn port_rule_blocks_portless_protocols() {
    let filter = vec![rule("100.64.0.0/10", Ports::List(vec![22]))];
    let icmp = parse_ipv4(&packet(1, [100, 64, 0, 10], 0)).unwrap();
    assert!(!allows_inbound(&filter, &icmp));
    assert!(!CompiledFilter::compile(&filter).allows(&icmp));
}
