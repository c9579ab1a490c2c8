use whalescale::agent::{parse_route_list, Agent, AgentError, AgentIdentity};
use whalescale::wireguard::{ffi_outcome, Action, WS_ACTION_NETWORK, WS_ACTION_NONE, WS_ERR, WS_ERR_BUFFER};
use whalescale::backend::{
    parse_wg_transfer, try_parse_wg_transfer, CommandRunner, LogBackend, TunnelBackend,
    WgQuickState, WgStep,
};
use whalescale::keys::WgKeypair;
use whalescale::net::{IpAddr, IpNet};
use whalescale::proto::{FilterRule, NetworkMap, Ports, SelfNode};

#[test]
fn parses_and_sums_wg_transfer() {
    let output = "PEERA\t1000\t2000\nPEERB\t30\t40\n";
    assert_eq!(parse_wg_transfer(output), (1030, 2040));
    assert_eq!(parse_wg_transfer(""), (0, 0));
}

#[test]
fn transfer_tolerates_crlf_short_lines_and_garbage() {
    assert_eq!(parse_wg_transfer("A\t 5 \t7\r\nB\t1\nC\tx\t3\nD\t+2\t-1"), (7, 10));
    assert_eq!(try_parse_wg_transfer("A\t18446744073709551615\t0\nB\t1\t0\n"), None);
    assert_eq!(try_parse_wg_transfer("A\t18446744073709551615\t0\n"), Some((u64::MAX, 0)));
}

#[test]
fn wg_quick_state_brings_up_then_syncs() {
    let mut st = WgQuickState::new("whale0".to_string());
    assert_eq!(st.next_step(), WgStep::BringUp);
    assert_eq!(st.quick_file_name(), "whale0.conf");
    assert_eq!(st.sync_file_name(), "whale0.sync.conf");
    st.mark_up();
    assert_eq!(st.next_step(), WgStep::Sync);
    assert!(st.is_up());
    assert_eq!(st.iface(), "whale0");
}

#[derive(Default)]
struct RecordingRunner {
    calls: Vec<String>,
}

impl CommandRunner for RecordingRunner {
    fn run(&mut self, program: &str, args: &[&str]) -> Result<(), anyhow::Error> {
        self.calls.push(format!("{program} {}", args.join(" ")));
        Ok(())
    }
}

#[test]
fn wg_quick_commands_bring_up_then_sync() {
    let mut st = WgQuickState::new("whale0".to_string());
    let mut runner = RecordingRunner::default();
    for _ in 0..2 {
        let file = match st.next_step() {
            WgStep::BringUp => format!("/tmp/{}", st.quick_file_name()),
            WgStep::Sync => format!("/tmp/{}", st.sync_file_name()),
        };
        let (program, args) = st.command(&file);
        let args: Vec<&str> = args.iter().map(String::as_str).collect();
        runner.run(&program, &args).unwrap();
        if !st.is_up() {
            st.mark_up();
        }
    }
    assert_eq!(runner.calls.len(), 2);
    assert_eq!(runner.calls[0], "wg-quick up /tmp/whale0.conf");
    assert!(runner.calls[1].starts_with("wg syncconf whale0"), "second: {}", runner.calls[1]);
    assert_eq!(runner.calls[1], "wg syncconf whale0 /tmp/whale0.sync.conf");
}

struct Recording {
    applied: Vec<(String, String)>,
    fail: bool,
}

impl TunnelBackend for Recording {
    fn apply(&mut self, quick_config: &str, sync_config: &str) -> Result<(), anyhow::Error> {
        if self.fail {
            return Err(anyhow::Error::msg("boom"));
        }
        self.applied.push((quick_config.to_string(), sync_config.to_string()));
        Ok(())
    }

    fn transfer(&mut self) -> Option<(u64, u64)> {
        Some((1, 2))
    }
}

fn map(version: u64) -> NetworkMap {
    NetworkMap {
        version,
        self_node: SelfNode {
            device_id: 1,
            overlay_ip: IpNet { addr: IpAddr::V4(u32::from_be_bytes([100, 64, 0, 1])), prefix_len: 32 },
            hostname: "self".into(),
        },
        peers: vec![],
        relays: vec![],
        dns_suffix: None,
        packet_filter: vec![FilterRule { src_ips: vec![IpNet::parse("100.64.0.10/32").unwrap()], ports: Ports::List(vec![22]) }],
    }
}

fn identity() -> AgentIdentity {
    AgentIdentity {
        device_id: 1,
        session_token: "tok".into(),
        keypair: WgKeypair { private_key: "PRIV".into(), public_key: "PUB".into() },
        key_expires_at: Some(100_000),
    }
}

fn tcp_from(src: [u8; 4], port: u16) -> Vec<u8> {
    let mut p = vec![0u8; 24];
    p[0] = 0x45;
    p[9] = 6;
    p[12..16].copy_from_slice(&src);
    p[22..24].copy_from_slice(&port.to_be_bytes());
    p
}

#[test]
fn apply_map_requires_enrollment_and_dedupes_versions() {
    let mut agent = Agent::new(Recording { applied: vec![], fail: false });
    assert!(matches!(agent.apply_map(&map(1)), Err(AgentError::NotEnrolled)));
    assert_eq!(agent.map_version(), 0);

    agent.set_identity(identity());
    assert!(agent.inbound_allowed(&tcp_from([1, 2, 3, 4], 80))); // no filter yet
    assert!(matches!(agent.apply_map(&map(5)), Ok(true)));
    assert_eq!(agent.map_version(), 5);
    assert!(matches!(agent.apply_map(&map(5)), Ok(false)));
    assert!(matches!(agent.apply_map(&map(4)), Ok(false)));
    assert_eq!(agent.current_map().unwrap().version, 5);

    assert!(agent.inbound_allowed(&tcp_from([100, 64, 0, 10], 22)));
    assert!(!agent.inbound_allowed(&tcp_from([100, 64, 0, 10], 80)));
    assert!(agent.inbound_allowed(&[0x60, 0, 0])); // not IPv4
}

#[test]
fn backend_failure_keeps_the_old_map() {
    let mut agent = Agent::new(Recording { applied: vec![], fail: true });
    agent.set_identity(identity());
    assert!(matches!(agent.apply_map(&map(3)), Err(AgentError::Backend(_))));
    assert_eq!(agent.map_version(), 0);
    assert!(agent.current_map().is_none());
}

#[test]
fn rotation_window_and_reset() {
    let mut agent = Agent::new(LogBackend);
    assert!(matches!(agent.needs_rotation(0, 10), Err(AgentError::NotEnrolled)));
    agent.set_identity(identity());
    assert!(matches!(agent.needs_rotation(95_000, 10_000), Ok(true)));
    assert!(matches!(agent.needs_rotation(50_000, 10_000), Ok(false)));
    assert!(matches!(agent.needs_rotation(200_000, 10_000), Ok(false)));
    assert!(matches!(agent.apply_map(&map(7)), Ok(true)));
    let kp = WgKeypair::generate();
    agent.complete_rotation(kp.clone(), Some(900_000));
    assert_eq!(agent.map_version(), 0);
    assert_eq!(agent.identity().unwrap().keypair.public_key, kp.public_key);
    assert_eq!(agent.identity().unwrap().key_expires_at, Some(900_000));
    assert!(matches!(agent.apply_map(&map(7)), Ok(true)));
}

#[test]
fn rendered_configs_reach_the_backend() {
    let mut agent = Agent::new(Recording { applied: vec![], fail: false });
    agent.set_identity(identity());
    agent.apply_map(&map(1)).unwrap();
    assert_eq!(agent.transfer(), Some((1, 2)));
}

#[test]
fn route_list_is_trimmed_and_skips_empty_pieces() {
    assert_eq!(parse_route_list(" 192.168.1.0/24 ,, 0.0.0.0/0,"), vec!["192.168.1.0/24".to_string(), "0.0.0.0/0".to_string()]);
    assert!(parse_route_list("").is_empty());
    assert!(parse_route_list(" , ").is_empty());
}

#[test]
fn foreign_interface_codes() {
    assert_eq!(ffi_outcome(Ok(Action::Nothing), true, 10), (WS_ACTION_NONE, None));
    assert_eq!(ffi_outcome(Ok(Action::ToNetwork(vec![1, 2])), true, 10), (WS_ACTION_NETWORK, Some(vec![1, 2])));
    assert_eq!(ffi_outcome(Ok(Action::ToTunnel(vec![1, 2, 3])), true, 2), (WS_ERR_BUFFER, None));
    assert_eq!(ffi_outcome(Ok(Action::ToNetwork(vec![1])), false, 10), (WS_ERR_BUFFER, None));
    assert_eq!(ffi_outcome(Err(anyhow::Error::msg("x")), true, 10), (WS_ERR, None));
}

#[test]
fn cidr_text_parses_both_families() {
    assert_eq!(IpNet::parse("100.64.0.0/10"), Some(IpNet { addr: IpAddr::V4(0x6440_0000), prefix_len: 10 }));
    assert_eq!(IpNet::parse("::1/128"), Some(IpNet { addr: IpAddr::V6(1), prefix_len: 128 }));
    assert_eq!(IpNet::parse("100.64.0.0/33"), None);
    assert_eq!(IpNet::parse("nonsense"), None);
}

#[test]
fn log_backend_agent_reports_no_counters() {
    let mut agent = Agent::new(LogBackend);
    assert_eq!(agent.transfer(), None);
}

#[test]
fn transfer_totals_add_over_concatenated_outputs() {
    let a = "PEERA\t1000\t2000\n";
    let b = "PEERB\t30\t40\nPEERC\t1\t1";
    let (ra, ta) = parse_wg_transfer(a);
    let (rb, tb) = parse_wg_transfer(b);
    assert_eq!(parse_wg_transfer(&format!("{a}{b}")), (ra + rb, ta + tb));
}
