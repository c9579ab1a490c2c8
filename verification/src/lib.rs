//! WhaleScale: a WireGuard mesh VPN's control-plane and agent logic.
//!
//! The crate holds the verified core of the system: wire codecs (STUN,
//! relay framing, MagicDNS), the ACL policy engine and the inbound packet
//! filter it compiles to, overlay address management, network-map assembly,
//! WireGuard configuration rendering, the agent's map-application state
//! machine, and the role-based access rules of the dashboard.

pub mod text;
pub mod roles;
pub mod bytes;
pub mod net;
pub mod stun;
pub mod proto;
pub mod filter;
pub mod relay;
pub mod stats;
pub mod acl;
pub mod ipam;
pub mod expiry;
pub mod netmap;
pub mod magicdns;
pub mod wgconfig;
pub mod conf_lines;
pub mod conn;
pub mod keys;
pub mod wireguard;
pub mod backend;
pub mod agent;
pub mod auth;
pub mod enroll;
pub mod jwt;
pub mod registry;
pub mod store;
pub mod discovery;
pub mod settings;
