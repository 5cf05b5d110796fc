use beryl_router::dhcp_server::{
    DhcpRequest, OptionsConfig, ReplyKind, Server, ServerConfig, DISCOVER, REQUEST,
};
use beryl_router::lease::{parse_duration, LeaseDatabase, LeaseRecord, PoolConfig, StaticLease};

const NOW: u64 = 1_700_000_000;

fn pool() -> PoolConfig {
    PoolConfig { start: 0xC0A8_0864, end: 0xC0A8_086E, lease_time: "1h".to_string() }
}

fn statics() -> Vec<StaticLease> {
    vec![StaticLease {
        mac: "aa:bb:cc:00:00:01".to_string(),
        ip: 0xC0A8_0832,
        hostname: Some("printer".to_string()),
    }]
}

fn server() -> Server {
    Server::new(ServerConfig {
        enabled: true,
        interface: "br-lan".to_string(),
        pool: pool(),
        options: OptionsConfig {
            gateway: Some(0xC0A8_0801),
            dns: vec![0xC0A8_0801],
            domain: Some("lan".to_string()),
            ntp: vec![],
            subnet_mask: None,
        },
        static_leases: statics(),
        lease_file: None,
    })
}

fn mac(n: u8) -> Vec<u8> {
    vec![0xaa, 0xbb, 0xcc, 0x00, 0x00, n]
}

fn message(kind: u8, n: u8, requested: Option<u32>, ciaddr: u32) -> DhcpRequest {
    DhcpRequest {
        boot_request: true,
        message_type: Some(kind),
        xid: 0x1234_0000 + n as u32,
        chaddr: mac(n),
        ciaddr,
        requested_ip: requested,
        server_id: None,
    }
}

#[test]
fn durations_parse() {
    assert_eq!(parse_duration("1h"), 3600);
    assert_eq!(parse_duration("12h"), 43_200);
    assert_eq!(parse_duration("30m"), 1800);
    assert_eq!(parse_duration("45s"), 45);
    assert_eq!(parse_duration("600"), 600);
    assert_eq!(parse_duration("soon"), 3600);
    assert_eq!(parse_duration(""), 3600);
}

#[test]
fn dhcp_allocation_scenario() {
    let srv = server();
    let mut db = LeaseDatabase::new(&pool(), &statics());
    let r = srv.handle_request(&mut db, &message(DISCOVER, 1, None, 0), NOW).unwrap();
    assert_eq!(r.kind, ReplyKind::Offer);
    assert_eq!(r.yiaddr, 0xC0A8_0832);
    let r = srv.handle_request(&mut db, &message(DISCOVER, 2, None, 0), NOW).unwrap();
    assert_eq!(r.yiaddr, 0xC0A8_0864);
    assert_eq!(r.lease_time, 3600);
    assert_eq!(r.subnet_mask, 0xFFFF_FF00);
    assert_eq!(r.server_id, 0xC0A8_0801);
    assert_eq!(r.router, Some(0xC0A8_0801));
    let r = srv
        .handle_request(&mut db, &message(DISCOVER, 3, Some(0xC0A8_0864), 0), NOW)
        .unwrap();
    assert_eq!(r.yiaddr, 0xC0A8_0865);
    for n in 4..13u8 {
        let r = srv.handle_request(&mut db, &message(DISCOVER, n, None, 0), NOW).unwrap();
        assert_eq!(r.yiaddr, 0xC0A8_0864 + (n as u32 - 2));
    }
    assert!(srv.handle_request(&mut db, &message(DISCOVER, 13, None, 0), NOW).is_none());
}

#[test]
fn dhcp_renewal_scenario() {
    let srv = server();
    let mut db = LeaseDatabase::new(&pool(), &statics());
    srv.handle_request(&mut db, &message(DISCOVER, 2, None, 0), NOW).unwrap();
    let later = NOW + 1000;
    let r = srv
        .handle_request(&mut db, &message(REQUEST, 2, None, 0xC0A8_0864), later)
        .unwrap();
    assert_eq!(r.kind, ReplyKind::Ack);
    assert_eq!(r.yiaddr, 0xC0A8_0864);
    assert_eq!(db.get_lease(0xAABB_CC00_0002, later).unwrap().expires_at, later + 3600);
    let r = srv
        .handle_request(&mut db, &message(REQUEST, 9, None, 0xC0A8_0864), later)
        .unwrap();
    assert_eq!(r.kind, ReplyKind::Nak);
}

#[test]
fn request_without_address_is_dropped() {
    let srv = server();
    let mut db = LeaseDatabase::new(&pool(), &statics());
    assert!(srv.handle_request(&mut db, &message(REQUEST, 2, None, 0), NOW).is_none());
    let mut reply = message(DISCOVER, 2, None, 0);
    reply.boot_request = false;
    assert!(srv.handle_request(&mut db, &reply, NOW).is_none());
    let mut short = message(DISCOVER, 2, None, 0);
    short.chaddr = vec![1, 2, 3];
    assert!(srv.handle_request(&mut db, &short, NOW).is_none());
}

#[test]
fn static_binding_is_never_given_away() {
    let mut db = LeaseDatabase::new(&pool(), &statics());
    assert_eq!(db.get_lease(0xAABB_CC00_0001, NOW).unwrap().ip, 0xC0A8_0832);
    let l = db.allocate_ip(0xAABB_CC00_0009, Some(0xC0A8_0832), NOW).unwrap();
    assert_eq!(l.ip, 0xC0A8_0864);
    let l = db.allocate_ip(0xAABB_CC00_0001, Some(0xC0A8_0866), NOW).unwrap();
    assert_eq!(l.ip, 0xC0A8_0832);
    assert_eq!(db.get_lease(0xAABB_CC00_0001, NOW + 100_000).unwrap().ip, 0xC0A8_0832);
}

#[test]
fn expired_leases_are_reused() {
    let mut db = LeaseDatabase::new(&pool(), &vec![]);
    let a = db.allocate_ip(1, None, NOW).unwrap();
    assert_eq!(a.ip, 0xC0A8_0864);
    assert!(db.get_lease(1, NOW + 3601).is_none());
    let b = db.allocate_ip(2, None, NOW + 3601).unwrap();
    assert_eq!(b.ip, 0xC0A8_0864);
    assert!(db.get_lease(1, NOW + 3601).is_none());
}

#[test]
fn hostnames_are_found_ignoring_case() {
    let db = LeaseDatabase::new(&pool(), &statics());
    assert_eq!(db.get_ip_by_hostname("PRINTER", NOW), Some(0xC0A8_0832));
    assert_eq!(db.get_ip_by_hostname("scanner", NOW), None);
}

#[test]
fn journal_round_trip() {
    let mut db = LeaseDatabase::new(&pool(), &statics());
    db.allocate_ip(0xAABB_CC00_0001, None, NOW).unwrap();
    db.allocate_ip(0xAABB_CC00_0002, None, NOW).unwrap();
    db.allocate_ip(0xAABB_CC00_0003, None, NOW - 7200).unwrap();
    let records = db.save(NOW);
    assert_eq!(records.len(), 2);
    assert_eq!(records[0].mac, "aa:bb:cc:00:00:01");
    assert_eq!(records[0].ip, "192.168.8.50");
    assert_eq!(records[1].ip, "192.168.8.100");
    let mut fresh = LeaseDatabase::new(&pool(), &statics());
    fresh.load(&records, NOW);
    assert_eq!(fresh.get_lease(0xAABB_CC00_0002, NOW).unwrap().ip, 0xC0A8_0864);
    assert_eq!(fresh.get_lease(0xAABB_CC00_0001, NOW).unwrap().ip, 0xC0A8_0832);
    assert!(fresh.get_lease(0xAABB_CC00_0003, NOW).is_none());
    assert_eq!(fresh.save(NOW).len(), 2);
}

#[test]
fn load_drops_malformed_and_expired_records() {
    let mut db = LeaseDatabase::new(&pool(), &statics());
    let records = vec![
        LeaseRecord { mac: "nonsense".to_string(), ip: "192.168.8.101".to_string(), hostname: None, expires_at: NOW + 10 },
        LeaseRecord { mac: "aa:bb:cc:00:00:05".to_string(), ip: "bogus".to_string(), hostname: None, expires_at: NOW + 10 },
        LeaseRecord { mac: "aa:bb:cc:00:00:06".to_string(), ip: "192.168.8.102".to_string(), hostname: None, expires_at: NOW - 10 },
        LeaseRecord { mac: "aa:bb:cc:00:00:07".to_string(), ip: "192.168.8.50".to_string(), hostname: None, expires_at: NOW + 10 },
        LeaseRecord { mac: "aa:bb:cc:00:00:08".to_string(), ip: "192.168.8.102".to_string(), hostname: Some("printer2".to_string()), expires_at: NOW + 10 },
    ];
    db.load(&records, NOW);
    assert_eq!(db.save(NOW).len(), 1);
    assert_eq!(db.get_ip_by_hostname("printer2", NOW), Some(0xC0A8_0866));
}

#[test]
fn pool_at_the_top_of_the_address_space() {
    let top = PoolConfig { start: 0xFFFF_FFFE, end: 0xFFFF_FFFF, lease_time: "10m".to_string() };
    let mut db = LeaseDatabase::new(&top, &vec![]);
    assert_eq!(db.get_duration(), 600);
    assert_eq!(db.allocate_ip(1, None, NOW).unwrap().ip, 0xFFFF_FFFE);
    assert_eq!(db.allocate_ip(2, None, NOW).unwrap().ip, 0xFFFF_FFFF);
    assert!(db.allocate_ip(3, None, NOW).is_none());
    assert!(!db.available(0xFFFF_FFFF, 3, NOW));
    assert!(db.available(0xFFFF_FFFF, 2, NOW));
}

#[test]
fn empty_pool_allocates_nothing_but_static_bindings() {
    let empty = PoolConfig { start: 0xC0A8_0810, end: 0xC0A8_080F, lease_time: "1h".to_string() };
    let mut db = LeaseDatabase::new(&empty, &statics());
    assert!(db.allocate_ip(7, Some(0xC0A8_0810), NOW).is_none());
    assert_eq!(db.allocate_ip(0xAABB_CC00_0001, None, NOW).unwrap().ip, 0xC0A8_0832);
}

#[test]
fn later_static_entry_for_a_mac_wins() {
    let statics = vec![
        StaticLease { mac: "aa:bb:cc:00:00:01".to_string(), ip: 0xC0A8_0832, hostname: None },
        StaticLease { mac: "AA:BB:CC:00:00:01".to_string(), ip: 0xC0A8_0833, hostname: None },
        StaticLease { mac: "not-a-mac".to_string(), ip: 0xC0A8_0834, hostname: None },
    ];
    let db = LeaseDatabase::new(&pool(), &statics);
    assert_eq!(db.get_lease(0xAABB_CC00_0001, NOW).unwrap().ip, 0xC0A8_0833);
}

#[test]
fn static_address_bound_twice_keeps_the_first_mac() {
    let statics = vec![
        StaticLease { mac: "aa:bb:cc:00:00:01".to_string(), ip: 0xC0A8_0832, hostname: None },
        StaticLease { mac: "aa:bb:cc:00:00:02".to_string(), ip: 0xC0A8_0832, hostname: None },
    ];
    let mut db = LeaseDatabase::new(&pool(), &statics);
    assert_eq!(db.get_lease(0xAABB_CC00_0001, NOW).unwrap().ip, 0xC0A8_0832);
    assert!(db.get_lease(0xAABB_CC00_0002, NOW).is_none());
    assert_eq!(db.allocate_ip(0xAABB_CC00_0002, None, NOW).unwrap().ip, 0xC0A8_0864);
}
