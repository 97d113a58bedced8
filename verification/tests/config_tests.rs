//! Tests of the dynamic configuration snapshot and remote application.

use aether_proxy::config::{Config, DynamicConfig};
use aether_proxy::controller::RemoteConfig;

fn base_config() -> Config {
    Config {
        aether_url: "https://controller.example.com".to_string(),
        management_token: "tok".to_string(),
        hmac_key: "k".to_string(),
        listen_port: 18080,
        public_ip: None,
        node_name: "proxy-01".to_string(),
        node_region: None,
        heartbeat_interval: 30,
        allowed_ports: vec![80, 443],
        timestamp_tolerance: 300,
        log_level: "info".to_string(),
        log_json: false,
        enable_tls: true,
        tls_cert: "cert.pem".to_string(),
        tls_key: "key.pem".to_string(),
    }
}

fn no_change() -> RemoteConfig {
    RemoteConfig {
        node_name: None,
        allowed_ports: None,
        log_level: None,
        heartbeat_interval: None,
        timestamp_tolerance: None,
    }
}

#[test]
fn snapshot_starts_at_version_zero() {
    let d = DynamicConfig::from_config(&base_config());
    assert_eq!(d.config_version, 0);
    assert_eq!(d.allowed_ports, vec![80, 443]);
    assert_eq!(d.timestamp_tolerance, 300);
    assert_eq!(d.heartbeat_interval, 30);
    assert_eq!(d.log_level, "info");
    assert_eq!(d.node_name, "proxy-01");
}

#[test]
fn port_zero_is_dropped_from_snapshots() {
    let mut c = base_config();
    c.allowed_ports = vec![0, 80, 0, 443];
    let d = DynamicConfig::from_config(&c);
    assert_eq!(d.allowed_ports, vec![80, 443]);

    let rc = RemoteConfig { allowed_ports: Some(vec![0, 8443]), ..no_change() };
    let out = d.apply_remote(&rc, 1);
    assert!(out.applied);
    assert_eq!(out.next.allowed_ports, vec![8443]);
}

#[test]
fn newer_version_is_applied() {
    let d = DynamicConfig::from_config(&base_config());
    let rc = RemoteConfig { allowed_ports: Some(vec![80, 443, 8443]), ..no_change() };
    let out = d.apply_remote(&rc, 7);
    assert!(out.applied);
    assert_eq!(out.next.config_version, 7);
    assert_eq!(out.next.allowed_ports, vec![80, 443, 8443]);
    // Untouched fields carry over.
    assert_eq!(out.next.timestamp_tolerance, 300);
    assert_eq!(out.next.node_name, "proxy-01");
    assert!(!out.log_level_changed);
    assert!(!out.node_name_changed);
}

#[test]
fn same_or_older_version_is_a_no_op() {
    let d = DynamicConfig::from_config(&base_config());
    let rc = RemoteConfig { allowed_ports: Some(vec![8443]), ..no_change() };
    let applied = d.apply_remote(&rc, 7).next;
    for version in [7, 3, 0] {
        let out = applied.apply_remote(&rc, version);
        assert!(!out.applied);
        assert_eq!(out.next.config_version, 7);
        assert_eq!(out.next.allowed_ports, applied.allowed_ports);
    }
}

#[test]
fn config_version_never_decreases() {
    let mut d = DynamicConfig::from_config(&base_config());
    let rc = no_change();
    let mut last = d.config_version;
    for version in [3u64, 1, 5, 5, 2, 9, 0] {
        d = d.apply_remote(&rc, version).next;
        assert!(d.config_version >= last);
        last = d.config_version;
    }
    assert_eq!(last, 9);
}

#[test]
fn change_flags_report_side_effects() {
    let d = DynamicConfig::from_config(&base_config());
    let rc = RemoteConfig {
        log_level: Some("debug".to_string()),
        node_name: Some("proxy-02".to_string()),
        ..no_change()
    };
    let out = d.apply_remote(&rc, 2);
    assert!(out.applied);
    assert!(out.log_level_changed);
    assert!(out.node_name_changed);
    assert_eq!(out.next.log_level, "debug");
    assert_eq!(out.next.node_name, "proxy-02");

    // Re-sending the same values under a newer version changes nothing.
    let again = out.next.apply_remote(&rc, 3);
    assert!(again.applied);
    assert!(!again.log_level_changed);
    assert!(!again.node_name_changed);
}

#[test]
fn ports_visible_after_reconciliation() {
    // A request to a port outside the set is refused until a heartbeat
    // brings a newer set that contains it.
    let d = DynamicConfig::from_config(&base_config());
    assert!(!aether_proxy::filter::port_allowed(8443, &d.allowed_ports));
    let rc = RemoteConfig { allowed_ports: Some(vec![80, 443, 8443]), ..no_change() };
    let out = d.apply_remote(&rc, 7);
    assert!(aether_proxy::filter::port_allowed(8443, &out.next.allowed_ports));
    assert_eq!(out.next.config_version, 7);
}
