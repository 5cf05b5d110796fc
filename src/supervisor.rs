//! The supervisor's decisions: which services a configuration starts and
//! stops, and what the admin API reports. The tasks themselves, the file
//! watcher and the HTTP server are the caller's.

use vstd::prelude::*;
use crate::common::Stats;
use crate::config::{Config, OperatingMode, mode_name};

verus! {

/// Command-line settings of the daemon.
pub struct Args {
    /// Interface the ingress filter attaches to.
    pub interface: String,
    /// Path of the configuration file.
    pub config: String,
    /// Attach in socket-buffer mode instead of native mode.
    pub skb_mode: bool,
    /// Seconds between statistics reports.
    pub stats_interval: u64,
    /// Address the admin API listens on.
    pub api_bind: String,
}

impl Default for Args {
    fn default() -> (r: Args)
        ensures
            r.interface@ == "eth0"@,
            r.config@ == "/etc/beryl/config.toml"@,
            !r.skb_mode,
            r.stats_interval == 10,
            r.api_bind@ == "0.0.0.0:8080"@,
    {
        Args {
            interface: String::from_str("eth0"),
            config: String::from_str("/etc/beryl/config.toml"),
            skb_mode: false,
            stats_interval: 10,
            api_bind: String::from_str("0.0.0.0:8080"),
        }
    }
}

/// Which long-running services are up.
#[derive(Clone, Copy, Debug, PartialEq, Eq, Structural)]
pub struct ServiceState {
    pub dhcp_server: bool,
    pub dhcp_client: bool,
    pub dns_server: bool,
    pub wifi: bool,
}

impl ServiceState {
    pub fn stopped() -> (r: ServiceState)
        ensures
            r == (ServiceState { dhcp_server: false, dhcp_client: false, dns_server: false, wifi: false }),
    {
        ServiceState { dhcp_server: false, dhcp_client: false, dns_server: false, wifi: false }
    }
}

/// What applying a configuration does to each service: each running one is
/// stopped, and started again when the new configuration asks for it.
#[derive(Clone, Copy, Debug, PartialEq, Eq, Structural)]
pub struct ApplyPlan {
    pub stop_dhcp_server: bool,
    pub start_dhcp_server: bool,
    pub stop_dhcp_client: bool,
    pub start_dhcp_client: bool,
    pub stop_dns_server: bool,
    pub start_dns_server: bool,
}

pub open spec fn plan_spec(running: ServiceState, config: &Config) -> ApplyPlan {
    let dhcp_on = config.dhcp.server.is_some() && config.dhcp.server.unwrap().enabled;
    ApplyPlan {
        stop_dhcp_server: running.dhcp_server,
        start_dhcp_server: dhcp_on,
        stop_dhcp_client: running.dhcp_client,
        start_dhcp_client: config.dhcp.client.is_some(),
        stop_dns_server: running.dns_server,
        start_dns_server: dhcp_on && config.dns.is_some() && config.dns.unwrap().enabled,
    }
}

/// The plan for `config`. The DHCP server starts when enabled, with a fresh
/// lease database; the client starts when configured; the DNS server starts
/// when enabled and that lease database exists.
pub fn plan_apply(running: ServiceState, config: &Config) -> (r: ApplyPlan)
    ensures
        r == plan_spec(running, config),
{
    let dhcp_on = match &config.dhcp.server {
        Some(s) => s.enabled,
        None => false,
    };
    let dns_on = match &config.dns {
        Some(d) => d.enabled,
        None => false,
    };
    ApplyPlan {
        stop_dhcp_server: running.dhcp_server,
        start_dhcp_server: dhcp_on,
        stop_dhcp_client: running.dhcp_client,
        start_dhcp_client: config.dhcp.client.is_some(),
        stop_dns_server: running.dns_server,
        start_dns_server: dhcp_on && dns_on,
    }
}

/// The services that run once `plan` is carried out.
pub fn after_plan(running: ServiceState, plan: ApplyPlan) -> (r: ServiceState)
    ensures
        r == (ServiceState {
            dhcp_server: plan.start_dhcp_server,
            dhcp_client: plan.start_dhcp_client,
            dns_server: plan.start_dns_server,
            wifi: running.wifi,
        }),
{
    ServiceState {
        dhcp_server: plan.start_dhcp_server,
        dhcp_client: plan.start_dhcp_client,
        dns_server: plan.start_dns_server,
        wifi: running.wifi,
    }
}

pub struct ServicesStatus {
    pub dhcp_server: String,
    pub dns_server: String,
    pub wifi: String,
}

pub struct StatusResponse {
    pub version: String,
    pub mode: String,
    pub services: ServicesStatus,
}

pub struct StatsResponse {
    pub packets: Stats,
}

pub open spec fn state_name(up: bool) -> Seq<char> {
    if up {
        "running"@
    } else {
        "stopped"@
    }
}

fn state_text(up: bool) -> (r: String)
    ensures
        r@ == state_name(up),
{
    if up {
        String::from_str("running")
    } else {
        String::from_str("stopped")
    }
}

/// The body of `GET /api/v1/status`.
pub fn status_response(version: &str, mode: OperatingMode, running: ServiceState) -> (r: StatusResponse)
    ensures
        r.version@ == version@,
        r.mode@ == mode_name(mode),
        r.services.dhcp_server@ == state_name(running.dhcp_server),
        r.services.dns_server@ == state_name(running.dns_server),
        r.services.wifi@ == state_name(running.wifi),
{
    StatusResponse {
        version: String::from_str(version),
        mode: String::from_str(mode.name()),
        services: ServicesStatus {
            dhcp_server: state_text(running.dhcp_server),
            dns_server: state_text(running.dns_server),
            wifi: state_text(running.wifi),
        },
    }
}

/// The mode a configuration runs in; a router when there is none.
pub fn current_mode(config: &Option<Config>) -> (r: OperatingMode)
    ensures
        config.is_none() ==> r == OperatingMode::Router,
        config.is_some() ==> r == config.unwrap().mode.mode_type,
{
    match config {
        Some(c) => c.mode.mode_type,
        None => OperatingMode::Router,
    }
}

/// The body of `GET /api/v1/stats`: the per-CPU counters summed.
pub fn stats_response(per_cpu: &Vec<Stats>) -> (r: StatsResponse)
    ensures
        r.packets.packets_total == crate::common::wrap64(crate::common::total_sum(per_cpu@)),
        r.packets.packets_passed == crate::common::wrap64(crate::common::passed_sum(per_cpu@)),
        r.packets.packets_dropped == crate::common::wrap64(crate::common::dropped_sum(per_cpu@)),
{
    StatsResponse { packets: crate::common::sum_stats(per_cpu) }
}

} // verus!
