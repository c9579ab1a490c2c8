use whalescale::auth::{AppError, CreateAuthKey};
use whalescale::discovery::{assemble, clamp_rtt};
use whalescale::enroll::{check_auth_key, check_endpoint_owner, validate_routes, AuthKeyState};
use whalescale::net::{IpAddr, SocketAddr};
use whalescale::proto::EndpointKind;
use whalescale::registry::Hub;
use whalescale::settings::Settings;
use whalescale::store::{LatencyStore, Reading, ThroughputStore};

#[test]
fn auth_key_admission() {
    let now: i64 = 1_000;
    let fresh = AuthKeyState { revoked: false, expires_at: None, reusable: false, used_count: 0 };
    assert_eq!(check_auth_key(fresh, now), Ok(()));
    assert_eq!(check_auth_key(AuthKeyState { revoked: true, ..fresh }, now), Err(AppError::Unauthorized));
    assert_eq!(check_auth_key(AuthKeyState { expires_at: Some(999), ..fresh }, now), Err(AppError::Unauthorized));
    assert_eq!(check_auth_key(AuthKeyState { expires_at: Some(1_000), ..fresh }, now), Ok(()));
    assert_eq!(check_auth_key(AuthKeyState { used_count: 1, ..fresh }, now), Err(AppError::Unauthorized));
    assert_eq!(check_auth_key(AuthKeyState { used_count: 1, reusable: true, ..fresh }, now), Ok(()));
}

#[test]
fn routes_must_be_cidrs() {
    assert_eq!(validate_routes(&["10.0.0.0/8".to_string(), "::/0".to_string()]), Ok(()));
    assert_eq!(
        validate_routes(&["10.0.0.0/8".to_string(), "bogus".to_string(), "x".to_string()]),
        Err(AppError::BadRequest("invalid route: bogus".to_string()))
    );
}

#[test]
fn endpoints_only_for_own_device() {
    assert_eq!(check_endpoint_owner(5, 5), Ok(()));
    assert_eq!(check_endpoint_owner(5, 6), Err(AppError::BadRequest("device_id mismatch".to_string())));
}

#[test]
fn auth_key_lifetime_only_when_positive() {
    let k = CreateAuthKey { reusable: false, ephemeral: false, require_approval: false, expires_in_days: Some(0) };
    assert_eq!(k.lifetime_days(), None);
    let k = CreateAuthKey { expires_in_days: Some(7), ..k };
    assert_eq!(k.lifetime_days(), Some(7));
}

#[test]
fn hub_registers_and_removes_agents() {
    let mut hub: Hub<u8> = Hub::new();
    hub.register(1, 10, 0);
    hub.register(1, 11, 1);
    hub.register(2, 20, 2);
    hub.register(1, 10, 3);
    assert_eq!(hub.connected_devices(1), vec![11, 10]);
    assert_eq!(hub.get(1, 10), Some(&3));
    hub.unregister(1, 10);
    assert_eq!(hub.connected_devices(1), vec![11]);
    assert_eq!(hub.get(1, 10), None);
    assert_eq!(hub.connected_devices(2), vec![20]);
    assert!(hub.connected_devices(3).is_empty());
}

#[test]
fn latency_store_windows_per_device() {
    let mut s = LatencyStore::new();
    for i in 0..70u32 {
        s.push(1, 100, i);
    }
    s.push(1, 200, 5);
    s.push(2, 300, 9);
    let snap = s.snapshot(1);
    assert_eq!(snap.len(), 2);
    assert_eq!(snap[0].device_id, 100);
    assert_eq!(snap[0].samples.len(), 60);
    assert_eq!(snap[0].last, Some(69));
    assert_eq!(snap[0].samples[0], 10);
    assert_eq!(snap[1].p95, Some(5));
    s.push(2, 100, 1);
    assert_eq!(s.snapshot(1).len(), 1);
    assert_eq!(s.snapshot(2).len(), 2);
}

#[test]
fn throughput_store_keeps_two_latest_readings() {
    let mut s = ThroughputStore::new();
    s.push(1, 7, 100, 200, 1_000);
    let snap = s.snapshot(1);
    assert_eq!(snap.len(), 1);
    assert_eq!(snap[0].1.previous, None);
    s.push(1, 7, 500, 900, 5_000);
    let snap = s.snapshot(1);
    assert_eq!(snap[0].1.previous, Some(Reading { tx: 100, rx: 200, at: 1_000 }));
    assert_eq!(snap[0].1.latest, Reading { tx: 500, rx: 900, at: 5_000 });
    assert!(s.snapshot(2).is_empty());
}

#[test]
fn discovery_lists_local_then_reflexive() {
    let local = SocketAddr { ip: IpAddr::V4(0x0a000002), port: 51820 };
    let public = SocketAddr { ip: IpAddr::V4(0xcb007107), port: 40000 };
    let d = assemble(Some(local), Some((public, 12)));
    assert_eq!(d.endpoints.len(), 2);
    assert_eq!(d.endpoints[0].kind, EndpointKind::Local);
    assert_eq!(d.endpoints[1].addr, public);
    assert_eq!(d.stun_rtt_ms, Some(12));
    let d = assemble(None, None);
    assert!(d.endpoints.is_empty());
    assert_eq!(d.stun_rtt_ms, None);
    assert_eq!(clamp_rtt(5_000_000_000), u32::MAX);
    assert_eq!(clamp_rtt(42), 42);
}

#[test]
fn relay_region_only_when_configured() {
    let mut s = Settings {
        bind_addr: "0.0.0.0:8080".into(),
        database_url: "postgres://".into(),
        redis_url: "redis://".into(),
        jwt_secret: "s".into(),
        relay_addr: None,
        relay_region_id: "default".into(),
        relay_region_name: "Default Relay".into(),
        device_key_ttl_days: None,
    };
    assert!(s.relay_regions().is_empty());
    let addr = SocketAddr { ip: IpAddr::V4(0x7f000001), port: 3479 };
    s.relay_addr = Some(addr);
    let r = s.relay_regions();
    assert_eq!(r.len(), 1);
    assert_eq!(r[0].id, "default");
    assert_eq!(r[0].addr, addr);
}

#[test]
fn key_expiry_adds_the_lifetime_in_days() {
    let mut s = Settings {
        bind_addr: "0.0.0.0:8080".into(),
        database_url: "postgres://".into(),
        redis_url: "redis://".into(),
        jwt_secret: "s".into(),
        relay_addr: None,
        relay_region_id: "default".into(),
        relay_region_name: "Default Relay".into(),
        device_key_ttl_days: None,
    };
    assert_eq!(s.key_expiry(1_000), None);
    s.device_key_ttl_days = Some(2);
    assert_eq!(s.key_expiry(1_000), Some(1_000 + 2 * 86_400_000));
}

#[test]
fn enrollment_under_an_approval_key_is_pending() {
    assert_eq!(whalescale::enroll::enrollment(false), (true, "device.enroll".to_string()));
    assert_eq!(whalescale::enroll::enrollment(true), (false, "device.enroll.pending".to_string()));
}
