use whalescale::acl::{Policy, RawPolicy, RawRule};
use whalescale::net::{IpAddr, IpNet};
use whalescale::netmap::{build_map, device_status, merge_allowed_ips, DeviceRow};

fn v4(a: u8, b: u8, c: u8, d: u8) -> IpAddr {
    IpAddr::V4(u32::from_be_bytes([a, b, c, d]))
}

#[test]
fn allowed_ips_includes_overlay_and_routes() {
    let ips = merge_allowed_ips(v4(100, 64, 0, 5), &["192.168.1.0/24".into(), "10.0.0.0/8".into()]);
    assert_eq!(ips[0], IpNet::parse("100.64.0.5/32").unwrap());
    assert!(ips.contains(&IpNet::parse("192.168.1.0/24").unwrap()));
    assert!(ips.contains(&IpNet::parse("10.0.0.0/8").unwrap()));
}

#[test]
fn exit_node_advertises_default_route() {
    let ips = merge_allowed_ips(v4(100, 64, 0, 9), &["0.0.0.0/0".into()]);
    assert!(ips.contains(&IpNet::parse("0.0.0.0/0").unwrap()));
}

#[test]
fn invalid_routes_are_skipped() {
    let ips = merge_allowed_ips(v4(100, 64, 0, 1), &["not-a-cidr".into()]);
    assert_eq!(ips.len(), 1); // only the overlay address
}

#[test]
fn duplicate_routes_are_listed_once() {
    let ips = merge_allowed_ips(v4(100, 64, 0, 1), &["10.0.0.0/8".into(), "10.0.0.0/8".into(), "100.64.0.1/32".into()]);
    assert_eq!(ips, vec![IpNet { addr: v4(100, 64, 0, 1), prefix_len: 32 }, IpNet::parse("10.0.0.0/8").unwrap()]);
}

#[test]
fn online_within_60s_and_direct_with_endpoints() {
    let now: i64 = 1_700_000_000_000;
    let (online, conn) = device_status(Some(now), now, 2);
    assert!(online);
    assert_eq!(conn, "direct");
}

#[test]
fn offline_when_stale_and_relayed_without_endpoints() {
    let now: i64 = 1_700_000_000_000;
    let stale = now - 120_000;
    let (online, conn) = device_status(Some(stale), now, 0);
    assert!(!online);
    assert_eq!(conn, "relay");
}

#[test]
fn never_seen_is_offline() {
    let now: i64 = 1_700_000_000_000;
    let (online, _) = device_status(None, now, 0);
    assert!(!online);
}

fn row(id: u128, host: &str, ip: IpAddr, owner: Option<&str>, tags: &[&str], expires: Option<i64>) -> DeviceRow {
    DeviceRow {
        id,
        hostname: host.to_string(),
        public_key: format!("KEY{id}"),
        overlay_ip: ip,
        endpoints: vec![],
        relay_region: None,
        last_seen: Some(1_000),
        tags: tags.iter().map(|t| t.to_string()).collect(),
        owner_email: owner.map(|o| o.to_string()),
        advertised_routes: vec![],
        key_expires_at: expires,
        approved: true,
    }
}

#[test]
fn map_lists_visible_active_peers() {
    let rows = vec![
        row(1, "laptop", v4(100, 64, 0, 1), Some("alice@x.com"), &[], None),
        row(2, "server", v4(100, 64, 0, 2), None, &["tag:server"], None),
        row(3, "expired", v4(100, 64, 0, 3), None, &["tag:server"], Some(500)),
        row(4, "other", v4(100, 64, 0, 4), Some("bob@x.com"), &[], None),
    ];
    let now: i64 = 30_000;

    let open = build_map(&rows, 1, None, vec![], Some("dev.whale.net".to_string()), now).unwrap();
    assert_eq!(open.version, 30_000);
    assert_eq!(open.self_node.hostname, "laptop");
    let ids: Vec<u128> = open.peers.iter().map(|p| p.device_id).collect();
    assert_eq!(ids, vec![2, 4]);
    assert!(open.packet_filter.is_empty());
    assert!(open.peers[0].online);

    let policy = Policy::parse(RawPolicy {
        groups: vec![],
        acls: vec![RawRule { action: "accept".into(), src: vec!["alice@x.com".into()], dst: vec!["tag:server:22".into()] }],
    })
    .unwrap();
    let map = build_map(&rows, 1, Some(&policy), vec![], None, now).unwrap();
    let ids: Vec<u128> = map.peers.iter().map(|p| p.device_id).collect();
    assert_eq!(ids, vec![2]);
    assert!(map.packet_filter.is_empty()); // the laptop is no destination

    let server_map = build_map(&rows, 2, Some(&policy), vec![], None, now).unwrap();
    assert_eq!(server_map.peers.len(), 1);
    assert_eq!(server_map.packet_filter.len(), 1);
    assert_eq!(server_map.packet_filter[0].src_ips, vec![IpNet::parse("100.64.0.1/32").unwrap()]);

    assert!(build_map(&rows, 3, None, vec![], None, now).is_none()); // expired
    assert!(build_map(&rows, 9, None, vec![], None, now).is_none()); // unknown
}

#[test]
fn pending_devices_are_in_no_map() {
    let mut pending = row(2, "pending", v4(100, 64, 0, 2), None, &[], None);
    pending.approved = false;
    let rows = vec![row(1, "laptop", v4(100, 64, 0, 1), None, &[], None), pending];
    let map = build_map(&rows, 1, None, vec![], None, 30_000).unwrap();
    assert!(map.peers.is_empty());
    assert!(build_map(&rows, 2, None, vec![], None, 30_000).is_none());
}
