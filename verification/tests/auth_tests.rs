//! Tests of the HMAC request authenticator.

use aether_proxy::auth::{validate_proxy_auth, validate_proxy_auth_at, AuthError};
use aether_proxy::config::Config;
use base64::Engine;
use hmac::Mac;

fn make_config() -> Config {
    Config {
        aether_url: String::new(),
        management_token: String::new(),
        hmac_key: "test-hmac-key".to_string(),
        listen_port: 18080,
        public_ip: None,
        node_name: "test".to_string(),
        node_region: None,
        heartbeat_interval: 30,
        allowed_ports: vec![80, 443],
        timestamp_tolerance: 300,
        log_level: "info".to_string(),
        log_json: false,
        enable_tls: false,
        tls_cert: String::new(),
        tls_key: String::new(),
    }
}

fn now_secs() -> u64 {
    std::time::SystemTime::now()
        .duration_since(std::time::UNIX_EPOCH)
        .unwrap()
        .as_secs()
}

fn sign(key: &str, ts: u64, node_id: &str) -> String {
    let payload = format!("{}\n{}", ts, node_id);
    let mut mac = hmac::Hmac::<sha2::Sha256>::new_from_slice(key.as_bytes()).unwrap();
    mac.update(payload.as_bytes());
    hex::encode(mac.finalize().into_bytes())
}

fn make_auth_at(key: &str, ts: u64, node_id: &str) -> String {
    let sig = sign(key, ts, node_id);
    let cred = format!("hmac:{}.{}", ts, sig);
    let encoded = base64::engine::general_purpose::STANDARD.encode(cred);
    format!("Basic {}", encoded)
}

fn make_valid_auth(config: &Config, node_id: &str) -> String {
    make_auth_at(&config.hmac_key, now_secs(), node_id)
}

#[test]
fn test_valid_auth() {
    let config = make_config();
    let header = make_valid_auth(&config, "node-1");
    assert!(
        validate_proxy_auth(Some(&header), &config, "node-1", config.timestamp_tolerance).is_ok()
    );
}

#[test]
fn test_wrong_node_id() {
    let config = make_config();
    let header = make_valid_auth(&config, "node-1");
    assert!(matches!(
        validate_proxy_auth(Some(&header), &config, "node-2", config.timestamp_tolerance),
        Err(AuthError::SignatureMismatch)
    ));
}

#[test]
fn test_missing_header() {
    let config = make_config();
    assert!(matches!(
        validate_proxy_auth(None, &config, "node-1", config.timestamp_tolerance),
        Err(AuthError::MissingHeader)
    ));
}

#[test]
fn test_wrong_username() {
    let cred = "user:12345.abc";
    let encoded = base64::engine::general_purpose::STANDARD.encode(cred);
    let header = format!("Basic {}", encoded);
    let config = make_config();
    assert!(matches!(
        validate_proxy_auth(Some(&header), &config, "node-1", config.timestamp_tolerance),
        Err(AuthError::InvalidUsername)
    ));
}

#[test]
fn scheme_matches_case_insensitively() {
    let now = 1_700_000_000;
    let sig = sign("k", now, "N");
    let cred = format!("hmac:{}.{}", now, sig);
    let encoded = base64::engine::general_purpose::STANDARD.encode(cred);
    for scheme in ["Basic", "basic", "BASIC", "bAsIc"] {
        let header = format!("{} {}", scheme, encoded);
        assert_eq!(
            validate_proxy_auth_at(Some(&header), "k", "N", 300, now),
            Ok(())
        );
    }
}

#[test]
fn replay_window_boundary() {
    // At distance exactly `tolerance` the credential is accepted; one
    // second further out it is expired.
    let tolerance = 300;
    let now = 1_700_000_000u64;
    let accept = make_auth_at("k", now - tolerance, "N");
    assert_eq!(
        validate_proxy_auth_at(Some(&accept), "k", "N", tolerance, now),
        Ok(())
    );
    let expired = make_auth_at("k", now - tolerance - 1, "N");
    assert_eq!(
        validate_proxy_auth_at(Some(&expired), "k", "N", tolerance, now),
        Err(AuthError::TimestampExpired)
    );
    let future_ok = make_auth_at("k", now + tolerance, "N");
    assert_eq!(
        validate_proxy_auth_at(Some(&future_ok), "k", "N", tolerance, now),
        Ok(())
    );
    let future_expired = make_auth_at("k", now + tolerance + 1, "N");
    assert_eq!(
        validate_proxy_auth_at(Some(&future_expired), "k", "N", tolerance, now),
        Err(AuthError::TimestampExpired)
    );
}

#[test]
fn single_byte_flip_is_rejected() {
    // Swapping any single byte of the signature yields a rejection.
    let now = 1_700_000_000u64;
    let sig = sign("k", now, "N");
    for i in 0..sig.len() {
        let mut flipped = sig.clone().into_bytes();
        flipped[i] = if flipped[i] == b'0' { b'1' } else { b'0' };
        let cred = format!("hmac:{}.{}", now, String::from_utf8(flipped).unwrap());
        let encoded = base64::engine::general_purpose::STANDARD.encode(cred);
        let header = format!("Basic {}", encoded);
        assert_eq!(
            validate_proxy_auth_at(Some(&header), "k", "N", 300, now),
            Err(AuthError::SignatureMismatch)
        );
    }
}

#[test]
fn uppercase_signature_is_rejected() {
    // The expected encoding is lowercase hex; an uppercased signature
    // differs byte for byte and must not match.
    let now = 1_700_000_000u64;
    let sig = sign("k", now, "N").to_uppercase();
    let cred = format!("hmac:{}.{}", now, sig);
    let encoded = base64::engine::general_purpose::STANDARD.encode(cred);
    let header = format!("Basic {}", encoded);
    assert_eq!(
        validate_proxy_auth_at(Some(&header), "k", "N", 300, now),
        Err(AuthError::SignatureMismatch)
    );
}

#[test]
fn truncated_signature_is_rejected() {
    let now = 1_700_000_000u64;
    let sig = sign("k", now, "N");
    let cred = format!("hmac:{}.{}", now, &sig[..sig.len() - 2]);
    let encoded = base64::engine::general_purpose::STANDARD.encode(cred);
    let header = format!("Basic {}", encoded);
    assert_eq!(
        validate_proxy_auth_at(Some(&header), "k", "N", 300, now),
        Err(AuthError::SignatureMismatch)
    );
}

#[test]
fn malformed_headers_yield_distinct_errors() {
    let now = 1_700_000_000u64;
    // No Basic scheme.
    assert_eq!(
        validate_proxy_auth_at(Some("Bearer xyz"), "k", "N", 300, now),
        Err(AuthError::InvalidBasicAuth)
    );
    // Broken base64.
    assert_eq!(
        validate_proxy_auth_at(Some("Basic !!!"), "k", "N", 300, now),
        Err(AuthError::InvalidBasicAuth)
    );
    // No colon in the credential.
    let encoded = base64::engine::general_purpose::STANDARD.encode("nocolon");
    assert_eq!(
        validate_proxy_auth_at(Some(&format!("Basic {}", encoded)), "k", "N", 300, now),
        Err(AuthError::InvalidBasicAuth)
    );
    // Credential that is not UTF-8.
    let encoded = base64::engine::general_purpose::STANDARD.encode([0xffu8, 0xfe, 0x3a, 0x2e]);
    assert_eq!(
        validate_proxy_auth_at(Some(&format!("Basic {}", encoded)), "k", "N", 300, now),
        Err(AuthError::InvalidBasicAuth)
    );
    // No dot in the password.
    let encoded = base64::engine::general_purpose::STANDARD.encode("hmac:12345abc");
    assert_eq!(
        validate_proxy_auth_at(Some(&format!("Basic {}", encoded)), "k", "N", 300, now),
        Err(AuthError::InvalidPasswordFormat)
    );
    // Unparseable timestamp.
    let encoded = base64::engine::general_purpose::STANDARD.encode("hmac:12x45.abc");
    assert_eq!(
        validate_proxy_auth_at(Some(&format!("Basic {}", encoded)), "k", "N", 300, now),
        Err(AuthError::TimestampParseError)
    );
}

#[test]
fn whitespace_around_credential_is_trimmed() {
    let now = 1_700_000_000u64;
    let sig = sign("k", now, "N");
    let cred = format!("hmac:{}.{}", now, sig);
    let encoded = base64::engine::general_purpose::STANDARD.encode(cred);
    let header = format!("Basic   {} ", encoded);
    assert_eq!(
        validate_proxy_auth_at(Some(&header), "k", "N", 300, now),
        Ok(())
    );
}

#[test]
fn rebinding_to_new_node_id_switches_acceptance() {
    // After re-registration the node validates against the new id: old
    // credentials are rejected, new ones accepted.
    let now = 1_700_000_000u64;
    let old_header = make_auth_at("k", now, "N");
    let new_header = make_auth_at("k", now, "N2");
    assert_eq!(
        validate_proxy_auth_at(Some(&new_header), "k", "N2", 300, now),
        Ok(())
    );
    assert_eq!(
        validate_proxy_auth_at(Some(&old_header), "k", "N2", 300, now),
        Err(AuthError::SignatureMismatch)
    );
}

#[test]
fn error_messages_are_stable() {
    assert_eq!(
        AuthError::MissingHeader.message(),
        "missing Proxy-Authorization header"
    );
    assert_eq!(AuthError::SignatureMismatch.message(), "HMAC signature mismatch");
}
