use dhcproto::Decodable;
use beryl_router::actuator::{lease_commands, prefix_len, resolv_conf};
use beryl_router::common::Stats;
use beryl_router::config::{default_log_level, default_timezone, OperatingMode};
use beryl_router::dhcp_client::{
    read_server_message, renewal_delay, Awaiting, Client, ClientConfig, ClientEvent, DhcpLease,
    ServerMessage,
};
use beryl_router::dhcp_server::{
    read_request, DhcpRequest, OptionsConfig, Server, ServerConfig, ACK, NAK, OFFER,
};
use beryl_router::dns::{
    classify_upstream, local_hostname, resolver_targets, response_header, route_query, DnsRoute,
    Endpoint, ResponseCode, UpstreamError, RECORD_TYPE_A,
};
use beryl_router::lease::{LeaseDatabase, LeaseRecord, PoolConfig, StaticLease};
use beryl_router::supervisor::{status_response, stats_response, Args, ServiceState};
use beryl_router::uci::{UciGenerator, WifiConfig, WifiInterfaceConfig, WifiManager, WifiRadioConfig};

const NOW: u64 = 1_700_000_000;

fn pool() -> PoolConfig {
    PoolConfig { start: 0xC0A8_0864, end: 0xC0A8_086E, lease_time: "1h".to_string() }
}

#[test]
fn dns_local_scenario() {
    let mut db = LeaseDatabase::new(&pool(), &vec![]);
    db.load(
        &vec![LeaseRecord {
            mac: "aa:bb:cc:00:00:07".to_string(),
            ip: "192.168.8.102".to_string(),
            hostname: Some("printer".to_string()),
            expires_at: NOW + 600,
        }],
        NOW,
    );
    assert_eq!(
        route_query(&db, "printer.lan.", RECORD_TYPE_A, Some("lan"), NOW),
        DnsRoute::Local { ip: 0xC0A8_0866, ttl: 60 }
    );
    assert_eq!(route_query(&db, "example.com.", RECORD_TYPE_A, Some("lan"), NOW), DnsRoute::Forward);
    assert_eq!(route_query(&db, "printer.lan.", 28, Some("lan"), NOW), DnsRoute::Forward);
    assert_eq!(classify_upstream(UpstreamError::NoRecords), ResponseCode::NXDomain);
    let h = response_header(7, ResponseCode::NoError);
    assert!(h.response && h.recursion_available && !h.authoritative);
    assert_eq!(h.id, 7);
}

#[test]
fn dns_upstream_errors_map_to_codes() {
    assert_eq!(classify_upstream(UpstreamError::NoRecords).code(), 3);
    assert_eq!(classify_upstream(UpstreamError::Protocol), ResponseCode::ServFail);
    assert_eq!(classify_upstream(UpstreamError::Timeout), ResponseCode::ServFail);
    assert_eq!(classify_upstream(UpstreamError::Other).code(), 2);
}

#[test]
fn local_hostnames() {
    assert_eq!(local_hostname("printer.LAN.", Some("lan")), Some("printer".to_string()));
    assert_eq!(local_hostname("printer.lan", Some("lan")), Some("printer".to_string()));
    assert_eq!(local_hostname("lan.", Some("lan")), None);
    assert_eq!(local_hostname("printerlan", Some("lan")), None);
    assert_eq!(local_hostname("nas.", None), Some("nas".to_string()));
}

#[test]
fn resolver_fallback_when_no_upstream() {
    assert!(resolver_targets(&vec![]).is_none());
    let up = Endpoint { ip: 0x0808_0808, port: 53 };
    let t = resolver_targets(&vec![up]).unwrap();
    assert_eq!(t.len(), 2);
    assert!(!t[0].tcp && t[1].tcp);
    assert_eq!(t[1].endpoint, up);
}

#[test]
fn bootstrap_status() {
    let s = status_response("0.1.0", OperatingMode::Router, ServiceState::stopped());
    assert!(!s.version.is_empty());
    assert_eq!(s.mode, "router");
    assert_eq!(s.services.dhcp_server, "stopped");
    assert_eq!(s.services.dns_server, "stopped");
    assert_eq!(s.services.wifi, "stopped");
    let stats = stats_response(&vec![Stats::default()]);
    assert_eq!(stats.packets.packets_total, 0);
}

#[test]
fn defaults() {
    assert_eq!(default_timezone(), "UTC");
    assert_eq!(default_log_level(), "info");
    let a = Args::default();
    assert_eq!(a.interface, "eth0");
    assert_eq!(a.config, "/etc/beryl/config.toml");
    assert_eq!(a.stats_interval, 10);
    assert_eq!(a.api_bind, "0.0.0.0:8080");
}

#[test]
fn client_reads_acknowledgements_with_defaults() {
    let m = ServerMessage {
        xid: 9,
        message_type: Some(ACK),
        yiaddr: 0x0A00_0002,
        server_id: None,
        subnet_mask: None,
        routers: vec![0x0A00_0001, 0x0A00_00FE],
        dns: vec![],
        lease_time: None,
    };
    let client = Client::with_xid(ClientConfig { interface: "wan".to_string(), mac: [2, 0, 0, 0, 0, 1] }, 9);
    match client.classify(Awaiting::Ack, &m) {
        ClientEvent::Acked(l) => {
            assert_eq!(l.ip, 0x0A00_0002);
            assert_eq!(l.netmask, 0xFFFF_FF00);
            assert_eq!(l.gateway, Some(0x0A00_0001));
            assert_eq!(l.lease_time, 3600);
            assert_eq!(l.server_id, 0);
            assert_eq!(renewal_delay(&l), 1800);
        }
        _ => panic!("expected an ack"),
    }
    let mut other = m;
    other.xid = 10;
    assert!(matches!(client.classify(Awaiting::Ack, &other), ClientEvent::Ignore));
    other.xid = 9;
    other.message_type = Some(NAK);
    assert!(matches!(client.classify(Awaiting::Ack, &other), ClientEvent::Refused));
    assert!(matches!(client.classify(Awaiting::Offer, &other), ClientEvent::Ignore));
}

#[test]
fn handshake_over_the_wire() {
    let server = Server::new(ServerConfig {
        enabled: true,
        interface: "br-lan".to_string(),
        pool: pool(),
        options: OptionsConfig { gateway: Some(0xC0A8_0801), dns: vec![0xC0A8_0801], domain: None, ntp: vec![], subnet_mask: None },
        static_leases: vec![StaticLease { mac: "02:00:00:00:00:01".to_string(), ip: 0xC0A8_0832, hostname: None }],
        lease_file: None,
    });
    let mut db = LeaseDatabase::new(&pool(), &server.config_ref().static_leases);
    let client = Client::with_xid(ClientConfig { interface: "wan".to_string(), mac: [2, 0, 0, 0, 0, 1] }, 77);
    let discover = client.discover_packet().unwrap();
    let offer_bytes = server.handle_datagram(&mut db, &discover, NOW).unwrap();
    let offer = read_server_message(&offer_bytes).unwrap();
    assert_eq!(offer.message_type, Some(OFFER));
    assert_eq!(offer.xid, 77);
    let (ip, sid) = match client.classify(Awaiting::Offer, &offer) {
        ClientEvent::Offered { ip, server_id } => (ip, server_id),
        _ => panic!("expected an offer"),
    };
    assert_eq!(ip, 0xC0A8_0832);
    assert_eq!(sid, Some(0xC0A8_0801));
    let request = client.request_packet(ip, sid).unwrap();
    let ack_bytes = server.handle_datagram(&mut db, &request, NOW).unwrap();
    let ack = read_server_message(&ack_bytes).unwrap();
    match client.classify(Awaiting::Ack, &ack) {
        ClientEvent::Acked(l) => {
            assert_eq!(l.ip, 0xC0A8_0832);
            assert_eq!(l.lease_time, 3600);
            assert_eq!(l.gateway, Some(0xC0A8_0801));
            assert_eq!(l.dns, vec![0xC0A8_0801]);
        }
        _ => panic!("expected an ack"),
    }
    assert!(server.handle_datagram(&mut db, &[1, 2, 3], NOW).is_none());
}

#[test]
fn decoded_requests_keep_their_fields() {
    let client = Client::with_xid(ClientConfig { interface: "wan".to_string(), mac: [2, 0, 0, 0, 0, 3] }, 5);
    let bytes = client.request_packet(0xC0A8_0865, Some(0xC0A8_0801)).unwrap();
    let r: DhcpRequest = read_request(&bytes).unwrap();
    assert!(r.boot_request);
    assert_eq!(r.xid, 5);
    assert_eq!(r.chaddr, vec![2, 0, 0, 0, 0, 3]);
    assert_eq!(r.requested_ip, Some(0xC0A8_0865));
    assert_eq!(r.server_id, Some(0xC0A8_0801));
    assert_eq!(r.message_type, Some(3));
}

#[test]
fn oversized_hardware_length_is_dropped() {
    let client = Client::with_xid(ClientConfig { interface: "wan".to_string(), mac: [2, 0, 0, 0, 0, 3] }, 5);
    let mut bytes = client.discover_packet().unwrap();
    bytes[2] = 200;
    assert!(read_request(&bytes).is_none());
    assert!(read_server_message(&bytes).is_none());
    let server = Server::new(ServerConfig {
        enabled: true,
        interface: "br-lan".to_string(),
        pool: pool(),
        options: OptionsConfig { gateway: None, dns: vec![], domain: None, ntp: vec![], subnet_mask: None },
        static_leases: vec![],
        lease_file: None,
    });
    let mut db = LeaseDatabase::new(&pool(), &vec![]);
    assert!(server.handle_datagram(&mut db, &bytes, NOW).is_none());
    assert!(db.get_lease(0x0200_0000_0003, NOW).is_none());
}

#[test]
fn discover_carries_the_parameter_requests() {
    let client = Client::with_xid(ClientConfig { interface: "wan".to_string(), mac: [2, 0, 0, 0, 0, 4] }, 0xDEAD_BEEF);
    let bytes = client.discover_packet().unwrap();
    assert_eq!(bytes[0], 1);
    assert_eq!(&bytes[4..8], &[0xDE, 0xAD, 0xBE, 0xEF]);
    assert_eq!(bytes[10], 0x80);
    let m = dhcproto_message(&bytes);
    assert_eq!(m.chaddr(), &[2, 0, 0, 0, 0, 4]);
}

fn dhcproto_message(bytes: &[u8]) -> dhcproto::v4::Message {
    dhcproto::v4::Message::from_bytes(bytes).unwrap()
}

#[test]
fn lease_actuation() {
    let lease = DhcpLease {
        ip: 0x0A00_0002,
        netmask: 0xFFFF_FF00,
        gateway: Some(0x0A00_0001),
        dns: vec![0x0101_0101, 0x0808_0808],
        lease_time: 3600,
        server_id: 0x0A00_0001,
    };
    assert_eq!(prefix_len(0xFFFF_FF00), 24);
    assert_eq!(prefix_len(0), 0);
    assert_eq!(prefix_len(u32::MAX), 32);
    let cmds = lease_commands("wan0", &lease);
    assert_eq!(cmds.len(), 4);
    assert_eq!(cmds[1].args, vec!["ip", "addr", "add", "10.0.0.2/24", "dev", "wan0"]);
    assert!(cmds[1].fatal && !cmds[3].fatal);
    assert_eq!(cmds[3].args, vec!["ip", "route", "add", "default", "via", "10.0.0.1", "dev", "wan0"]);
    assert_eq!(resolv_conf(&lease.dns), "nameserver 1.1.1.1\nnameserver 8.8.8.8\n");
}

#[test]
fn uci_text_of_wireless_config() {
    let cfg = WifiConfig {
        radio0: Some(WifiRadioConfig {
            path: "platform/soc/wifi".to_string(),
            channel: "6".to_string(),
            band: "2g".to_string(),
            htmode: "HE20".to_string(),
            disabled: false,
        }),
        radio1: None,
        interfaces: vec![WifiInterfaceConfig {
            device: "radio0".to_string(),
            network: "lan".to_string(),
            mode: "ap".to_string(),
            ssid: "home".to_string(),
            encryption: "psk2".to_string(),
            key: "SECRET-REDACTED".to_string(),
        }],
    };
    let text = UciGenerator::generate(&cfg);
    let expected = "config wifi-device 'radio0'\n\toption type 'mac80211'\n\toption path 'platform/soc/wifi'\n\toption channel '6'\n\toption band '2g'\n\toption htmode 'HE20'\n\toption disabled '0'\n\nconfig wifi-iface 'default_radio0_0'\n\toption device 'radio0'\n\toption network 'lan'\n\toption mode 'ap'\n\toption ssid 'home'\n\toption encryption 'psk2'\n\toption key 'SECRET-REDACTED'\n\n";
    assert_eq!(text, expected);
    assert_eq!(WifiManager::new().config_text(&cfg), expected);
}

#[test]
fn request_for_a_taken_address_is_refused_on_the_wire() {
    let server = Server::new(ServerConfig {
        enabled: true,
        interface: "br-lan".to_string(),
        pool: pool(),
        options: OptionsConfig { gateway: None, dns: vec![], domain: None, ntp: vec![], subnet_mask: Some(0xFFFF_0000) },
        static_leases: vec![],
        lease_file: None,
    });
    let mut db = LeaseDatabase::new(&pool(), &vec![]);
    let first = Client::with_xid(ClientConfig { interface: "a".to_string(), mac: [2, 0, 0, 0, 0, 1] }, 1);
    let offer = read_server_message(&server.handle_datagram(&mut db, &first.discover_packet().unwrap(), NOW).unwrap()).unwrap();
    assert_eq!(offer.subnet_mask, Some(0xFFFF_0000));
    assert_eq!(offer.server_id, Some(0xC0A8_0801));
    assert!(offer.routers.is_empty());
    let second = Client::with_xid(ClientConfig { interface: "b".to_string(), mac: [2, 0, 0, 0, 0, 2] }, 2);
    let bytes = second.request_packet(offer.yiaddr, None).unwrap();
    let reply = read_server_message(&server.handle_datagram(&mut db, &bytes, NOW).unwrap()).unwrap();
    assert_eq!(reply.message_type, Some(NAK));
    assert_eq!(reply.xid, 2);
}
