use whalescale::conn::{select_path, Path};
use whalescale::net::{IpAddr, SocketAddr};

fn addr() -> SocketAddr {
    SocketAddr { ip: IpAddr::V4(u32::from_be_bytes([203, 0, 113, 7])), port: 51820 }
}

const TIMEOUT: i64 = 30_000;
const NOW: i64 = 1_700_000_000_000;

#[test]
fn healthy_direct_is_preferred_over_relay() {
    let path = select_path(Some(addr()), Some(NOW), Some("local"), NOW, TIMEOUT);
    assert_eq!(path, Some(Path::Direct(addr())));
}

#[test]
fn stale_direct_falls_back_to_relay() {
    let stale = NOW - 120_000;
    let path = select_path(Some(addr()), Some(stale), Some("local"), NOW, TIMEOUT);
    assert_eq!(path, Some(Path::Relay("local".into())));
}

#[test]
fn no_direct_uses_relay() {
    let path = select_path(None, None, Some("local"), NOW, TIMEOUT);
    assert_eq!(path, Some(Path::Relay("local".into())));
}

#[test]
fn optimistic_direct_when_no_relay_and_unproven() {
    let path = select_path(Some(addr()), None, None, NOW, TIMEOUT);
    assert_eq!(path, Some(Path::Direct(addr())));
}

#[test]
fn nothing_usable_is_none() {
    assert_eq!(select_path(None, None, None, NOW, TIMEOUT), None);
}

#[test]
fn handshake_exactly_at_timeout_is_healthy() {
    let path = select_path(Some(addr()), Some(NOW - TIMEOUT), Some("local"), NOW, TIMEOUT);
    assert_eq!(path, Some(Path::Direct(addr())));
    let path = select_path(Some(addr()), Some(NOW - TIMEOUT - 1), Some("local"), NOW, TIMEOUT);
    assert_eq!(path, Some(Path::Relay("local".into())));
}
