use std::collections::VecDeque;

use sn2_validator::address::{
    disconnect_burst, ip_region, is_valid_ip, known_address, parse_ipv4, parse_miner_address,
    require_ipv4, rotation_detected, ExternalIpError, HostAddr, MinerAddressError,
};
use sn2_validator::results::event_slice_num;

#[test]
fn ip_region_extraction() {
    assert_eq!(ip_region("192.168.1.100"), "192.168");
    assert_eq!(ip_region("10.0.0.1"), "10.0");
    assert_eq!(ip_region(""), "");
}

fn ip(a: u8) -> HostAddr {
    HostAddr::V4(203, 0, 113, a)
}

#[test]
fn first_publish_is_not_a_rotation() {
    assert!(!rotation_detected(None, ip(1)));
}

#[test]
fn same_address_is_not_a_rotation() {
    assert!(!rotation_detected(Some(ip(1)), ip(1)));
}

#[test]
fn changed_address_is_a_rotation() {
    assert!(rotation_detected(Some(ip(1)), ip(2)));
}

#[test]
fn observed_address_takes_precedence_so_failed_publish_cannot_reopen_grace() {
    assert!(rotation_detected(known_address(None, None, Some(ip(1))), ip(2)));
    assert!(!rotation_detected(known_address(Some(ip(2)), None, Some(ip(1))), ip(2)));
    assert!(rotation_detected(known_address(Some(ip(2)), None, Some(ip(1))), ip(3)));
}

#[test]
fn burst_counts_distinct_miners_only() {
    let same_miner: VecDeque<(u64, u16)> = (0..10).map(|_| (0, 7)).collect();
    assert!(!disconnect_burst(&same_miner, 5));
    let distinct: VecDeque<(u64, u16)> = (0..5).map(|i| (0, i)).collect();
    assert!(disconnect_burst(&distinct, 5));
    assert!(!disconnect_burst(&distinct, 6));
}

#[test]
fn miner_addresses_have_a_host_and_a_port() {
    assert_eq!(parse_miner_address("1.2.3.4:8080"), Ok(("1.2.3.4".to_string(), 8080)));
    assert_eq!(parse_miner_address("::1:99"), Ok(("::1".to_string(), 99)));
    assert_eq!(parse_miner_address("1.2.3.4"), Err(MinerAddressError::NotHostPort));
    assert!(parse_miner_address("1.2.3.4:x").is_err());
    assert!(parse_miner_address("1.2.3.4:65536").is_err());
    assert!(parse_miner_address("1.2.3.4:0").is_err());
    assert!(parse_miner_address("  :80").is_err());
}

#[test]
fn only_public_ipv4_addresses_are_published() {
    assert_eq!(require_ipv4(HostAddr::V4(8, 8, 8, 8)), Ok(HostAddr::V4(8, 8, 8, 8)));
    assert_eq!(require_ipv4(HostAddr::V4(10, 0, 0, 1)), Err(ExternalIpError::NotRoutable));
    assert_eq!(require_ipv4(HostAddr::V6(1)), Err(ExternalIpError::NotIpv4));
}

#[test]
fn octets_are_plain_decimal_numbers() {
    assert_eq!(parse_ipv4("1.2.3.255"), Some((1, 2, 3, 255)));
    assert_eq!(parse_ipv4("1.2.3.256"), None);
    assert_eq!(parse_ipv4("1.2.3"), None);
    assert_eq!(parse_ipv4("01.2.3.4"), None);
    assert_eq!(parse_ipv4("+1.2.3.4"), None);
    assert_eq!(parse_ipv4(" 1.2.3.4"), None);
}

#[test]
fn validator_loop_is_valid_ip_public() {
    assert!(is_valid_ip("8.8.8.8"));
}

#[test]
fn validator_loop_is_valid_ip_rejects_loopback() {
    assert!(!is_valid_ip("127.0.0.1"));
}

#[test]
fn validator_loop_is_valid_ip_rejects_rfc1918_10() {
    assert!(!is_valid_ip("10.0.0.1"));
}

#[test]
fn validator_loop_is_valid_ip_rejects_rfc1918_172() {
    assert!(!is_valid_ip("172.16.0.1"));
}

#[test]
fn validator_loop_is_valid_ip_rejects_rfc1918_192() {
    assert!(!is_valid_ip("192.168.1.1"));
}

#[test]
fn validator_loop_is_valid_ip_rejects_link_local() {
    assert!(!is_valid_ip("169.254.0.1"));
}

#[test]
fn validator_loop_is_valid_ip_rejects_multicast() {
    assert!(!is_valid_ip("224.0.0.1"));
}

#[test]
fn validator_loop_is_valid_ip_rejects_broadcast() {
    assert!(!is_valid_ip("255.255.255.255"));
}

#[test]
fn validator_loop_is_valid_ip_rejects_zero_network() {
    assert!(!is_valid_ip("0.0.0.0"));
}

#[test]
fn validator_loop_is_valid_ip_rejects_non_ipv4() {
    assert!(!is_valid_ip("not_an_ip"));
}

#[test]
fn validator_loop_is_valid_ip_rejects_rfc1918_172_upper_bound() {
    assert!(!is_valid_ip("172.31.255.255"));
}

#[test]
fn validator_loop_is_valid_ip_accepts_first_public_after_172_range() {
    assert!(is_valid_ip("172.32.0.1"));
}

#[test]
fn validator_loop_is_valid_ip_accepts_last_public_before_multicast() {
    assert!(is_valid_ip("223.255.255.255"));
}

#[test]
fn validator_loop_is_valid_ip_rejects_class_e_240() {
    assert!(!is_valid_ip("240.0.0.1"));
}

#[test]
fn validator_loop_is_valid_ip_rejects_class_e_254() {
    assert!(!is_valid_ip("254.0.0.1"));
}

#[test]
fn validator_loop_is_valid_ip_rejects_cgnat() {
    assert!(!is_valid_ip("100.64.0.1"));
    assert!(!is_valid_ip("100.127.255.255"));
}

#[test]
fn validator_loop_is_valid_ip_accepts_outside_cgnat() {
    assert!(is_valid_ip("100.63.255.255"));
    assert!(is_valid_ip("100.128.0.1"));
}

#[test]
fn validator_loop_event_slice_num_plain() {
    assert_eq!(event_slice_num("slice_0", false, None), "slice_0");
    assert_eq!(event_slice_num("slice_3", false, Some(2)), "slice_3");
    assert_eq!(event_slice_num("slice_0", true, None), "slice_0");
}

#[test]
fn validator_loop_event_slice_num_tiled() {
    assert_eq!(event_slice_num("slice_0", true, Some(0)), "slice_0_tile_0");
    assert_eq!(event_slice_num("slice_2", true, Some(7)), "slice_2_tile_7");
}

#[test]
fn mod_is_valid_ip_public() {
    assert!(is_valid_ip("8.8.8.8"));
}

#[test]
fn mod_is_valid_ip_rejects_loopback() {
    assert!(!is_valid_ip("127.0.0.1"));
}

#[test]
fn mod_is_valid_ip_rejects_rfc1918_10() {
    assert!(!is_valid_ip("10.0.0.1"));
}

#[test]
fn mod_is_valid_ip_rejects_rfc1918_172() {
    assert!(!is_valid_ip("172.16.0.1"));
}

#[test]
fn mod_is_valid_ip_rejects_rfc1918_192() {
    assert!(!is_valid_ip("192.168.1.1"));
}

#[test]
fn mod_is_valid_ip_rejects_link_local() {
    assert!(!is_valid_ip("169.254.0.1"));
}

#[test]
fn mod_is_valid_ip_rejects_multicast() {
    assert!(!is_valid_ip("224.0.0.1"));
}

#[test]
fn mod_is_valid_ip_rejects_broadcast() {
    assert!(!is_valid_ip("255.255.255.255"));
}

#[test]
fn mod_is_valid_ip_rejects_zero_network() {
    assert!(!is_valid_ip("0.0.0.0"));
}

#[test]
fn mod_is_valid_ip_rejects_non_ipv4() {
    assert!(!is_valid_ip("not_an_ip"));
}

#[test]
fn mod_is_valid_ip_rejects_rfc1918_172_upper_bound() {
    assert!(!is_valid_ip("172.31.255.255"));
}

#[test]
fn mod_is_valid_ip_accepts_first_public_after_172_range() {
    assert!(is_valid_ip("172.32.0.1"));
}

#[test]
fn mod_is_valid_ip_accepts_last_public_before_multicast() {
    assert!(is_valid_ip("223.255.255.255"));
}

#[test]
fn mod_is_valid_ip_rejects_class_e_240() {
    assert!(!is_valid_ip("240.0.0.1"));
}

#[test]
fn mod_is_valid_ip_rejects_class_e_254() {
    assert!(!is_valid_ip("254.0.0.1"));
}

#[test]
fn mod_is_valid_ip_rejects_cgnat() {
    assert!(!is_valid_ip("100.64.0.1"));
    assert!(!is_valid_ip("100.127.255.255"));
}

#[test]
fn mod_is_valid_ip_accepts_outside_cgnat() {
    assert!(is_valid_ip("100.63.255.255"));
    assert!(is_valid_ip("100.128.0.1"));
}

#[test]
fn mod_event_slice_num_plain() {
    assert_eq!(event_slice_num("slice_0", false, None), "slice_0");
    assert_eq!(event_slice_num("slice_3", false, Some(2)), "slice_3");
    assert_eq!(event_slice_num("slice_0", true, None), "slice_0");
}

#[test]
fn mod_event_slice_num_tiled() {
    assert_eq!(event_slice_num("slice_0", true, Some(0)), "slice_0_tile_0");
    assert_eq!(event_slice_num("slice_2", true, Some(7)), "slice_2_tile_7");
}
