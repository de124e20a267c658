use udp_router::checksum::{calculate_ip_checksum, update_udp_checksum};
use udp_router::classify::{
    get_gateway_mac_address, is_from_backend_server, is_from_local_network, is_link_local_ip,
};

#[test]
fn ip_checksum_of_known_header() {
    let header: [u8; 20] = [
        0x45, 0x00, 0x00, 0x73, 0x00, 0x00, 0x40, 0x00, 0x40, 0x11, 0x00, 0x00, 0xc0, 0xa8, 0x00,
        0x01, 0xc0, 0xa8, 0x00, 0xc7,
    ];
    assert_eq!(calculate_ip_checksum(&header), 0xb861);
}

#[test]
fn ip_checksum_ignores_existing_field() {
    let mut header: [u8; 20] = [
        0x45, 0x00, 0x00, 0x73, 0x00, 0x00, 0x40, 0x00, 0x40, 0x11, 0x00, 0x00, 0xc0, 0xa8, 0x00,
        0x01, 0xc0, 0xa8, 0x00, 0xc7,
    ];
    header[10] = 0x12;
    header[11] = 0x34;
    assert_eq!(calculate_ip_checksum(&header), 0xb861);
}

#[test]
fn ip_checksum_of_zero_header() {
    assert_eq!(calculate_ip_checksum(&[0u8; 20]), 0xffff);
}

#[test]
fn udp_checksum_update_values() {
    // no change keeps the checksum
    assert_eq!(update_udp_checksum(0x1234, 0xabcd, 0xabcd), 0x1234);
    // a word growing by one lowers the checksum by one
    assert_eq!(update_udp_checksum(0x1234, 0x0001, 0x0002), 0x1233);
    // end-around carry: !0x0000 + !0x0000 + 0x0001
    assert_eq!(update_udp_checksum(0x0000, 0x0000, 0x0001), 0xfffe);
    assert_eq!(update_udp_checksum(0xffff, 0x0000, 0xffff), 0x0000);
}

#[test]
fn link_local_range() {
    assert!(is_link_local_ip(0xa9fe_0101));
    assert!(is_link_local_ip(0xa9fe_ffff));
    assert!(!is_link_local_ip(0xa9ff_0000));
    assert!(!is_link_local_ip(0x0a01_0005));
}

#[test]
fn network_matching() {
    let ten_slash_eight = (0x0a00_0000u64 << 32) | 0xff00_0000;
    assert!(is_from_local_network(0x0a01_0005, ten_slash_eight));
    assert!(!is_from_local_network(0x0b01_0005, ten_slash_eight));
    assert!(is_from_backend_server(0x0aff_ffff, ten_slash_eight));
    assert!(!is_from_backend_server(0xc000_020a, ten_slash_eight));
    // an unset slot matches every address
    assert!(is_from_local_network(0xc000_020a, 0));
}

#[test]
fn gateway_mac_bytes() {
    assert_eq!(get_gateway_mac_address(0x0011_2233_4455), [0x00, 0x11, 0x22, 0x33, 0x44, 0x55]);
    assert_eq!(get_gateway_mac_address(0xffff_0011_2233_4455), [0x00, 0x11, 0x22, 0x33, 0x44, 0x55]);
}
