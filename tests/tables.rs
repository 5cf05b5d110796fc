use beryl_router::common::{sum_stats, PacketAction, Stats};
use beryl_router::filter::{count_all, count_ingress, dst_port, egress_verdict, ingress_verdict, PacketInfo, Transport};
use beryl_router::firewall::{apply_firewall, parse_ip_list, FirewallConfig};
use beryl_router::tables::{replace_all, BlockTable, MemoryTable};

#[test]
fn packet_action_codes() {
    assert_eq!(PacketAction::from(1u32), PacketAction::Drop);
    assert_eq!(PacketAction::from(0u32), PacketAction::Pass);
    assert_eq!(PacketAction::from(7u32), PacketAction::Pass);
    assert_eq!(PacketAction::Drop.code(), 1);
    assert_eq!(PacketAction::Pass.code(), 0);
}

#[test]
fn replace_all_leaves_exactly_the_new_keys() {
    let mut t: MemoryTable<u32> = MemoryTable::new(16);
    assert!(t.put(1, 1));
    assert!(t.put(2, 1));
    let report = replace_all(&mut t, &vec![2, 3, 4]);
    assert!(report.is_complete());
    let (mut keys, complete) = t.list_keys();
    keys.sort();
    assert!(complete);
    assert_eq!(keys, vec![2, 3, 4]);
    assert_eq!(t.get(3), Some(1));
    assert_eq!(t.get(1), None);
}

#[test]
fn replace_all_skips_what_does_not_fit() {
    let mut t: MemoryTable<u16> = MemoryTable::new(2);
    let report = replace_all(&mut t, &vec![22, 80, 443]);
    assert!(report.cleared);
    assert_eq!(report.failed, vec![443]);
    assert_eq!(t.get(22), Some(1));
    assert_eq!(t.get(80), Some(1));
    assert_eq!(t.get(443), None);
}

#[test]
fn firewall_apply_scenario() {
    let mut ips: MemoryTable<u32> = MemoryTable::new(4096);
    let mut ports: MemoryTable<u16> = MemoryTable::new(1024);
    let mut egress: MemoryTable<u32> = MemoryTable::new(4096);
    let config = FirewallConfig {
        blocked_ips: vec!["10.0.0.5".to_string(), "bogus".to_string()],
        blocked_ports: vec![22],
        blocked_egress_ips: vec![],
    };
    let report = apply_firewall(&mut ips, &mut ports, &mut egress, &config);
    assert_eq!(report.skipped, vec!["bogus".to_string()]);
    assert_eq!(ips.list_keys().0, vec![0x0A00_0005]);
    assert_eq!(ips.get(0x0A00_0005), Some(1));
    assert_eq!(ports.list_keys().0, vec![22]);
    assert_eq!(ports.get(22), Some(1));
    assert!(egress.list_keys().0.is_empty());
}

#[test]
fn hot_reload_scenario() {
    let mut ips: MemoryTable<u32> = MemoryTable::new(4096);
    let mut ports: MemoryTable<u16> = MemoryTable::new(1024);
    let mut egress: MemoryTable<u32> = MemoryTable::new(4096);
    let first = FirewallConfig {
        blocked_ips: vec!["10.0.0.5".to_string(), "bogus".to_string()],
        blocked_ports: vec![22],
        blocked_egress_ips: vec![],
    };
    apply_firewall(&mut ips, &mut ports, &mut egress, &first);
    let second = FirewallConfig {
        blocked_ips: vec!["10.0.0.6".to_string()],
        blocked_ports: vec![],
        blocked_egress_ips: vec![],
    };
    let report = apply_firewall(&mut ips, &mut ports, &mut egress, &second);
    assert!(report.ingress_ips.is_complete());
    assert_eq!(ips.list_keys().0, vec![0x0A00_0006]);
    assert_eq!(ips.get(0x0A00_0005), None);
}

#[test]
fn ip_lists_keep_order_and_report_bad_entries() {
    let (ips, bad) = parse_ip_list(&vec![
        "1.2.3.4".to_string(),
        "x".to_string(),
        "5.6.7.8".to_string(),
        "1.2.3.256".to_string(),
    ]);
    assert_eq!(ips, vec![0x0102_0304, 0x0506_0708]);
    assert_eq!(bad, vec!["x".to_string(), "1.2.3.256".to_string()]);
}

#[test]
fn counters_sum_across_cpus() {
    let mut cpu0 = Stats::default();
    for i in 0..25u32 {
        cpu0.count(if i % 5 == 0 { PacketAction::Drop } else { PacketAction::Pass });
    }
    let per_cpu = vec![cpu0, Stats::default(), Stats::default(), Stats::default()];
    let total = sum_stats(&per_cpu);
    assert_eq!(total.packets_total, 25);
    assert_eq!(total.packets_dropped, 5);
    assert_eq!(total.packets_passed, 20);
}

#[test]
fn counters_wrap_at_two_to_the_sixty_four() {
    let a = Stats { packets_total: u64::MAX, packets_passed: 3, packets_dropped: 0 };
    let b = Stats { packets_total: 2, packets_passed: 4, packets_dropped: 1 };
    let total = sum_stats(&vec![a, b]);
    assert_eq!(total.packets_total, 1);
    assert_eq!(total.packets_passed, 7);
    assert_eq!(total.packets_dropped, 1);
}

#[test]
fn single_cpu_harness_counts_every_packet() {
    use_filter_harness();
}

fn use_filter_harness() {
    let blocked_ip = 0x0A00_0005u32;
    let packets = vec![
        PacketInfo { ipv4: true, src_ip: blocked_ip, dst_ip: 1, transport: Transport::Tcp { dst_port: 80 } },
        PacketInfo { ipv4: true, src_ip: 0x0A00_0009, dst_ip: 1, transport: Transport::Tcp { dst_port: 22 } },
        PacketInfo { ipv4: true, src_ip: 0x0A00_0009, dst_ip: 1, transport: Transport::Udp { dst_port: 53 } },
        PacketInfo { ipv4: false, src_ip: 0, dst_ip: 0, transport: Transport::Other },
        PacketInfo { ipv4: true, src_ip: 0x0A00_0009, dst_ip: 1, transport: Transport::Other },
    ];
    let mut fed = Vec::new();
    for p in &packets {
        let ip_slot = if p.src_ip == blocked_ip { Some(1) } else { None };
        let port_slot = if dst_port(p) == 22 { Some(1) } else { None };
        fed.push((*p, ingress_verdict(p, ip_slot, port_slot)));
    }
    let mut cpu0 = Stats::default();
    count_all(&mut cpu0, &fed);
    let mut again = Stats::default();
    for (p, a) in &fed {
        count_ingress(&mut again, p, *a);
    }
    assert_eq!(again.packets_total, cpu0.packets_total);
    let total = sum_stats(&vec![Stats::default(), cpu0, Stats::default()]);
    assert_eq!(total.packets_total, packets.len() as u64);
    assert_eq!(total.packets_dropped, 2);
    assert_eq!(total.packets_passed, 2);
}

#[test]
fn egress_blocks_only_blocked_destinations() {
    let p = PacketInfo { ipv4: true, src_ip: 1, dst_ip: 0x0808_0808, transport: Transport::Other };
    assert_eq!(egress_verdict(&p, Some(1)), PacketAction::Drop);
    assert_eq!(egress_verdict(&p, None), PacketAction::Pass);
    assert_eq!(egress_verdict(&p, Some(0)), PacketAction::Pass);
}
