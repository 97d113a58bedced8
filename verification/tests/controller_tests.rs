//! Tests of the controller coupling and reconciliation rules.

use aether_proxy::controller::{
    classify_heartbeat_status, heartbeat_disposition, interpret_heartbeat_body, next_backoff,
    normalize_base_url, region_code_ok, HeartbeatDisposition, HeartbeatError, HeartbeatNodeInfo,
    HeartbeatResult, HeartbeatStatusClass, RemoteConfig,
};

#[test]
fn heartbeat_statuses_classify() {
    assert_eq!(classify_heartbeat_status(200), HeartbeatStatusClass::Success);
    assert_eq!(classify_heartbeat_status(204), HeartbeatStatusClass::Success);
    assert_eq!(classify_heartbeat_status(299), HeartbeatStatusClass::Success);
    assert_eq!(classify_heartbeat_status(404), HeartbeatStatusClass::NodeNotFound);
    assert_eq!(classify_heartbeat_status(300), HeartbeatStatusClass::Failure);
    assert_eq!(classify_heartbeat_status(400), HeartbeatStatusClass::Failure);
    assert_eq!(classify_heartbeat_status(500), HeartbeatStatusClass::Failure);
    assert_eq!(classify_heartbeat_status(199), HeartbeatStatusClass::Failure);
}

#[test]
fn heartbeat_bodies_interpret_with_defaults() {
    let r = interpret_heartbeat_body(None);
    assert!(r.remote_config.is_none());
    assert_eq!(r.config_version, 0);

    let r = interpret_heartbeat_body(Some(HeartbeatNodeInfo {
        remote_config: None,
        config_version: None,
    }));
    assert!(r.remote_config.is_none());
    assert_eq!(r.config_version, 0);

    let r = interpret_heartbeat_body(Some(HeartbeatNodeInfo {
        remote_config: Some(RemoteConfig {
            node_name: None,
            allowed_ports: Some(vec![80, 443, 8443]),
            log_level: None,
            heartbeat_interval: None,
            timestamp_tolerance: None,
        }),
        config_version: Some(7),
    }));
    assert_eq!(r.config_version, 7);
    assert_eq!(r.remote_config.unwrap().allowed_ports.unwrap(), vec![80, 443, 8443]);
}

fn success(version: u64, with_config: bool) -> Result<HeartbeatResult, HeartbeatError> {
    Ok(HeartbeatResult {
        remote_config: if with_config {
            Some(RemoteConfig {
                node_name: None,
                allowed_ports: None,
                log_level: None,
                heartbeat_interval: None,
                timestamp_tolerance: None,
            })
        } else {
            None
        },
        config_version: version,
    })
}

#[test]
fn dispositions_follow_the_outcome() {
    assert_eq!(heartbeat_disposition(3, &success(7, true)), HeartbeatDisposition::Apply);
    assert_eq!(heartbeat_disposition(7, &success(7, true)), HeartbeatDisposition::Unchanged);
    assert_eq!(heartbeat_disposition(9, &success(7, true)), HeartbeatDisposition::Unchanged);
    // A newer version without a config body applies nothing.
    assert_eq!(heartbeat_disposition(3, &success(7, false)), HeartbeatDisposition::Unchanged);
    assert_eq!(
        heartbeat_disposition(3, &Err(HeartbeatError::NodeNotFound("gone".to_string()))),
        HeartbeatDisposition::Reregister
    );
    assert_eq!(
        heartbeat_disposition(3, &Err(HeartbeatError::Other("boom".to_string()))),
        HeartbeatDisposition::Retry
    );
}

#[test]
fn backoff_doubles_to_a_minute() {
    let mut b = 0;
    let mut seen = Vec::new();
    for _ in 0..8 {
        b = next_backoff(b);
        seen.push(b);
    }
    assert_eq!(seen, vec![1, 2, 4, 8, 16, 32, 60, 60]);
}

#[test]
fn base_urls_lose_trailing_slashes() {
    assert_eq!(normalize_base_url("https://c.example.com/"), "https://c.example.com");
    assert_eq!(normalize_base_url("https://c.example.com///"), "https://c.example.com");
    assert_eq!(normalize_base_url("https://c.example.com"), "https://c.example.com");
    assert_eq!(normalize_base_url(""), "");
}

#[test]
fn region_codes_are_short_and_nonempty() {
    assert!(region_code_ok("JP"));
    assert!(region_code_ok("DEU"));
    assert!(!region_code_ok(""));
    assert!(!region_code_ok("EUROPE"));
}

#[test]
fn heartbeat_error_messages_carry_the_text() {
    assert_eq!(HeartbeatError::NodeNotFound("gone".to_string()).message(), "gone");
    assert_eq!(HeartbeatError::Other("boom".to_string()).message(), "boom");
}
