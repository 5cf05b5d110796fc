use beryl_router::text::{format_ipv4, format_mac, mac_from_bytes, mac_to_bytes, parse_ipv4, parse_mac};

#[test]
fn ipv4_reads_dotted_quads() {
    assert_eq!(parse_ipv4("10.0.0.5"), Some(0x0A00_0005));
    assert_eq!(parse_ipv4("192.168.8.100"), Some(0xC0A8_0864));
    assert_eq!(parse_ipv4("0.0.0.0"), Some(0));
    assert_eq!(parse_ipv4("255.255.255.255"), Some(u32::MAX));
}

#[test]
fn ipv4_rejects_malformed_text() {
    assert_eq!(parse_ipv4("bogus"), None);
    assert_eq!(parse_ipv4("1.2.3"), None);
    assert_eq!(parse_ipv4("1.2.3.4.5"), None);
    assert_eq!(parse_ipv4("256.1.1.1"), None);
    assert_eq!(parse_ipv4("01.2.3.4"), None);
    assert_eq!(parse_ipv4("1..3.4"), None);
    assert_eq!(parse_ipv4(""), None);
}

#[test]
fn ipv4_formats_in_host_order() {
    assert_eq!(format_ipv4(0x0A00_0006), "10.0.0.6");
    assert_eq!(format_ipv4(0xC0A8_0832), "192.168.8.50");
    assert_eq!(parse_ipv4(&format_ipv4(0x7F00_0001)), Some(0x7F00_0001));
}

#[test]
fn mac_text_round_trip() {
    let m = parse_mac("AA:bb:CC:00:00:01").unwrap();
    assert_eq!(m, 0xAABB_CC00_0001);
    assert_eq!(format_mac(m), "aa:bb:cc:00:00:01");
    assert_eq!(parse_mac("aa:bb:cc:00:00"), None);
    assert_eq!(parse_mac("aa-bb-cc-00-00-01"), None);
    assert_eq!(parse_mac("zz:bb:cc:00:00:01"), None);
}

#[test]
fn mac_bytes_round_trip() {
    let bytes = [0xaa, 0xbb, 0xcc, 0x00, 0x00, 0x02];
    let m = mac_from_bytes(&bytes).unwrap();
    assert_eq!(m, 0xAABB_CC00_0002);
    assert_eq!(mac_to_bytes(m), bytes.to_vec());
    assert_eq!(mac_from_bytes(&[1, 2, 3]), None);
}
