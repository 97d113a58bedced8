//! Tests of the destination policy filter.

use aether_proxy::filter::{
    block_reason, parse_host, parse_ipv4, parse_ipv6, port_allowed, validate_resolved,
    validate_target, BlockReason, Endpoint, FilterError, IpAddress, TargetCheck,
};

#[test]
fn ipv4_literals_parse() {
    assert_eq!(parse_ipv4(b"0.0.0.0"), Some(0));
    assert_eq!(parse_ipv4(b"127.0.0.1"), Some(0x7f000001));
    assert_eq!(parse_ipv4(b"255.255.255.255"), Some(0xffffffff));
    assert_eq!(parse_ipv4(b"93.184.216.34"), Some(u32::from_be_bytes([93, 184, 216, 34])));
}

#[test]
fn ipv4_rejects_bad_literals() {
    assert_eq!(parse_ipv4(b""), None);
    assert_eq!(parse_ipv4(b"1.2.3"), None);
    assert_eq!(parse_ipv4(b"1.2.3.4.5"), None);
    assert_eq!(parse_ipv4(b"256.1.1.1"), None);
    assert_eq!(parse_ipv4(b"01.2.3.4"), None);
    assert_eq!(parse_ipv4(b"1.2.3.x"), None);
    assert_eq!(parse_ipv4(b"1..3.4"), None);
    assert_eq!(parse_ipv4(b" 1.2.3.4"), None);
}

#[test]
fn ipv6_literals_parse() {
    assert_eq!(parse_ipv6(b"::"), Some(0));
    assert_eq!(parse_ipv6(b"::1"), Some(1));
    assert_eq!(parse_ipv6(b"1::"), Some(1u128 << 112));
    assert_eq!(
        parse_ipv6(b"2001:db8::1"),
        Some((0x2001u128 << 112) | (0x0db8u128 << 96) | 1)
    );
    assert_eq!(
        parse_ipv6(b"1:2:3:4:5:6:7:8"),
        Some(
            (1u128 << 112)
                | (2u128 << 96)
                | (3u128 << 80)
                | (4u128 << 64)
                | (5u128 << 48)
                | (6u128 << 32)
                | (7u128 << 16)
                | 8
        )
    );
    // Embedded dotted-decimal IPv4 tail.
    assert_eq!(
        parse_ipv6(b"::ffff:192.168.0.1"),
        Some((0xffffu128 << 32) | 0xc0a80001)
    );
    // Uppercase hex digits.
    assert_eq!(parse_ipv6(b"FE80::1"), Some((0xfe80u128 << 112) | 1));
}

#[test]
fn ipv6_rejects_bad_literals() {
    assert_eq!(parse_ipv6(b""), None);
    assert_eq!(parse_ipv6(b":"), None);
    assert_eq!(parse_ipv6(b":::"), None);
    assert_eq!(parse_ipv6(b"1:2:3:4:5:6:7"), None);
    assert_eq!(parse_ipv6(b"1:2:3:4:5:6:7:8:9"), None);
    assert_eq!(parse_ipv6(b"1:2:3:4:5:6:7:8::"), None);
    assert_eq!(parse_ipv6(b"12345::"), None);
    assert_eq!(parse_ipv6(b"g::1"), None);
    assert_eq!(parse_ipv6(b"1::2::3"), None);
}

#[test]
fn host_literals_are_recognized() {
    assert_eq!(parse_host("10.0.0.1"), Some(IpAddress::V4(0x0a000001)));
    assert_eq!(parse_host("[::1]"), Some(IpAddress::V6(1)));
    assert_eq!(parse_host("::1"), Some(IpAddress::V6(1)));
    assert_eq!(parse_host("example.com"), None);
    assert_eq!(parse_host("[example]"), None);
}

#[test]
fn blocked_ranges_v4() {
    let cases: &[(&[u8], BlockReason)] = &[
        (b"0.0.0.0", BlockReason::Unspecified),
        (b"255.255.255.255", BlockReason::Broadcast),
        (b"127.0.0.1", BlockReason::Loopback),
        (b"127.255.255.254", BlockReason::Loopback),
        (b"169.254.1.1", BlockReason::LinkLocal),
        (b"10.0.0.1", BlockReason::Private),
        (b"172.16.0.1", BlockReason::Private),
        (b"172.31.255.255", BlockReason::Private),
        (b"192.168.1.1", BlockReason::Private),
        (b"224.0.0.1", BlockReason::Multicast),
        (b"239.255.255.255", BlockReason::Multicast),
    ];
    for (text, reason) in cases {
        let a = parse_ipv4(text).unwrap();
        assert_eq!(block_reason(&IpAddress::V4(a)), Some(*reason));
    }
    for text in [&b"8.8.8.8"[..], b"93.184.216.34", b"172.32.0.1", b"169.253.1.1"] {
        let a = parse_ipv4(text).unwrap();
        assert_eq!(block_reason(&IpAddress::V4(a)), None);
    }
}

#[test]
fn blocked_ranges_v6() {
    let cases: &[(&[u8], BlockReason)] = &[
        (b"::", BlockReason::Unspecified),
        (b"::1", BlockReason::Loopback),
        (b"fe80::1", BlockReason::LinkLocal),
        (b"febf::1", BlockReason::LinkLocal),
        (b"fc00::1", BlockReason::Private),
        (b"fdff::1", BlockReason::Private),
        (b"ff02::1", BlockReason::Multicast),
    ];
    for (text, reason) in cases {
        let a = parse_ipv6(text).unwrap();
        assert_eq!(block_reason(&IpAddress::V6(a)), Some(*reason));
    }
    for text in [&b"2001:db8::1"[..], b"fec0::1", b"fbff::1"] {
        let a = parse_ipv6(text).unwrap();
        assert_eq!(block_reason(&IpAddress::V6(a)), None);
    }
}

#[test]
fn port_whitelist_is_enforced() {
    let allowed = vec![80u16, 443];
    assert!(port_allowed(443, &allowed));
    assert!(!port_allowed(8443, &allowed));
    assert_eq!(
        validate_target("example.com", 8443, &allowed),
        Err(FilterError::PortNotAllowed)
    );
    // The port is checked before the address.
    assert_eq!(
        validate_target("10.0.0.1", 8443, &allowed),
        Err(FilterError::PortNotAllowed)
    );
}

#[test]
fn private_literal_is_rejected_before_any_dial() {
    let allowed = vec![443u16];
    assert_eq!(
        validate_target("10.0.0.1", 443, &allowed),
        Err(FilterError::BlockedAddress(BlockReason::Private))
    );
    assert_eq!(
        validate_target("[::1]", 443, &allowed),
        Err(FilterError::BlockedAddress(BlockReason::Loopback))
    );
}

#[test]
fn public_literal_is_usable() {
    let allowed = vec![443u16];
    assert_eq!(
        validate_target("93.184.216.34", 443, &allowed),
        Ok(TargetCheck::Usable(Endpoint {
            ip: IpAddress::V4(u32::from_be_bytes([93, 184, 216, 34])),
            port: 443,
        }))
    );
}

#[test]
fn dns_names_need_resolution() {
    let allowed = vec![443u16];
    assert_eq!(
        validate_target("example.com", 443, &allowed),
        Ok(TargetCheck::NeedsResolution)
    );
}

#[test]
fn resolved_addresses_must_all_pass() {
    let allowed = vec![443u16];
    let public = IpAddress::V4(u32::from_be_bytes([93, 184, 216, 34]));
    let private = IpAddress::V4(0x0a000001);
    assert_eq!(
        validate_resolved(&vec![public], 443, &allowed),
        Ok(Endpoint { ip: public, port: 443 })
    );
    // One blocked address poisons the whole answer.
    assert_eq!(
        validate_resolved(&vec![public, private], 443, &allowed),
        Err(FilterError::BlockedAddress(BlockReason::Private))
    );
    assert_eq!(
        validate_resolved(&vec![], 443, &allowed),
        Err(FilterError::ResolutionFailed)
    );
    assert_eq!(
        validate_resolved(&vec![public], 80, &allowed),
        Err(FilterError::PortNotAllowed)
    );
}

#[test]
fn port_zero_is_never_usable() {
    // Snapshots never contain port 0, so a request to port 0 is always
    // refused by the whitelist.
    let d = aether_proxy::config::DynamicConfig::from_config(&aether_proxy::config::Config {
        aether_url: String::new(),
        management_token: String::new(),
        hmac_key: String::new(),
        listen_port: 1,
        public_ip: None,
        node_name: String::new(),
        node_region: None,
        heartbeat_interval: 30,
        allowed_ports: vec![0, 80],
        timestamp_tolerance: 300,
        log_level: String::new(),
        log_json: false,
        enable_tls: false,
        tls_cert: String::new(),
        tls_key: String::new(),
    });
    assert_eq!(
        validate_target("example.com", 0, &d.allowed_ports),
        Err(FilterError::PortNotAllowed)
    );
}

#[test]
fn filter_messages_are_stable() {
    assert_eq!(
        FilterError::PortNotAllowed.message(),
        "destination port is not allowed"
    );
    assert_eq!(
        FilterError::BlockedAddress(BlockReason::Private).message(),
        "destination address is blocked: private range"
    );
    assert_eq!(
        FilterError::ResolutionFailed.message(),
        "destination host could not be resolved"
    );
}
