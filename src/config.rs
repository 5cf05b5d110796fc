//! The router configuration, as the configuration file describes it.

use vstd::prelude::*;
use crate::dhcp_client::ClientConfig;
use crate::dhcp_server::ServerConfig;
use crate::dns::DnsConfig;
use crate::firewall::FirewallConfig;
use crate::uci::WifiConfig;

verus! {

pub struct Config {
    pub system: SystemConfig,
    pub api: ApiConfig,
    pub mode: ModeConfig,
    pub interfaces: InterfacesConfig,
    pub firewall: FirewallConfig,
    pub dhcp: DhcpConfig,
    pub dns: Option<DnsConfig>,
    pub wifi: WifiConfig,
}

pub struct SystemConfig {
    pub hostname: String,
    pub timezone: String,
    pub log_level: String,
}

/// The time zone assumed when the configuration names none.
pub fn default_timezone() -> (r: String)
    ensures
        r@ == "UTC"@,
{
    String::from_str("UTC")
}

/// The log level assumed when the configuration names none.
pub fn default_log_level() -> (r: String)
    ensures
        r@ == "info"@,
{
    String::from_str("info")
}

pub struct ApiConfig {
    pub listen: String,
}

pub struct ModeConfig {
    pub mode_type: OperatingMode,
}

#[derive(Clone, Copy, Debug, PartialEq, Eq, Structural)]
pub enum OperatingMode {
    Router,
    Ap,
    Repeater,
    Wireguard,
}

pub open spec fn mode_name(m: OperatingMode) -> Seq<char> {
    match m {
        OperatingMode::Router => "router"@,
        OperatingMode::Ap => "ap"@,
        OperatingMode::Repeater => "repeater"@,
        OperatingMode::Wireguard => "wireguard"@,
    }
}

impl OperatingMode {
    /// The name the configuration file and the admin API use.
    pub fn name(self) -> (r: &'static str)
        ensures
            r@ == mode_name(self),
    {
        match self {
            OperatingMode::Router => "router",
            OperatingMode::Ap => "ap",
            OperatingMode::Repeater => "repeater",
            OperatingMode::Wireguard => "wireguard",
        }
    }
}

pub struct InterfacesConfig {
    pub wan: InterfaceConfig,
    pub lan: InterfaceConfig,
}

pub struct InterfaceConfig {
    pub name: String,
    /// `dhcp`, `static` or `pppoe`.
    pub iface_type: Option<String>,
    /// An address in CIDR form.
    pub address: Option<String>,
    /// Bridge members.
    pub members: Option<Vec<String>>,
}

pub struct DhcpConfig {
    pub server: Option<ServerConfig>,
    pub client: Option<ClientConfig>,
}

impl Default for DhcpConfig {
    fn default() -> (r: DhcpConfig)
        ensures
            r.server.is_none(),
            r.client.is_none(),
    {
        DhcpConfig { server: None, client: None }
    }
}

} // verus!
