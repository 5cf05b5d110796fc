//! Control plane of a home router: kernel blocklist tables, a DHCPv4 lease
//! database and server, a DHCP client, a local-first DNS router and the
//! supervisor decisions that tie them together.

pub mod actuator;
pub mod common;
pub mod config;
pub mod tables;
pub mod text;
pub mod uci;
mod wire;
pub mod dhcp_client;
pub mod dns;
pub mod dhcp_server;
pub mod filter;
pub mod firewall;
pub mod lease;
pub mod supervisor;
