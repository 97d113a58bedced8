//! Tests of the per-connection and per-request decisions.

use aether_proxy::filter::{Endpoint, IpAddress};
use aether_proxy::proxy::{
    classify_first_byte, forward_headers, is_hop_header, parse_authority, parse_url,
    plan_connect, plan_plain, plan_delegate, route_request, DelegatePlan, DelegateRequest,
    ForwardPlan, Header, Route, StreamKind, TunnelPlan,
};
use base64::Engine;
use hmac::Mac;

fn sign(key: &str, ts: u64, node_id: &str) -> String {
    let payload = format!("{}\n{}", ts, node_id);
    let mut mac = hmac::Hmac::<sha2::Sha256>::new_from_slice(key.as_bytes()).unwrap();
    mac.update(payload.as_bytes());
    hex::encode(mac.finalize().into_bytes())
}

fn make_auth_at(key: &str, ts: u64, node_id: &str) -> String {
    let cred = format!("hmac:{}.{}", ts, sign(key, ts, node_id));
    format!(
        "Basic {}",
        base64::engine::general_purpose::STANDARD.encode(cred)
    )
}

const NOW: u64 = 1_700_000_000;

#[test]
fn first_byte_0x16_selects_tls() {
    assert_eq!(classify_first_byte(Some(0x16)), StreamKind::Tls);
    for b in [0u8, b'G', b'P', 0x15, 0x17, 0xff] {
        assert_eq!(classify_first_byte(Some(b)), StreamKind::Plain);
    }
    // No byte before the peek deadline: treat as plaintext.
    assert_eq!(classify_first_byte(None), StreamKind::Plain);
}

#[test]
fn requests_are_dispatched_by_method_and_path() {
    assert_eq!(route_request("CONNECT", "example.com:443"), Route::ConnectTunnel);
    assert_eq!(route_request("POST", "/_aether/delegate"), Route::Delegate);
    assert_eq!(route_request("GET", "/_aether/delegate"), Route::PlainForward);
    assert_eq!(route_request("POST", "/other"), Route::PlainForward);
    assert_eq!(route_request("GET", "http://example.com/"), Route::PlainForward);
}

#[test]
fn authorities_split_into_host_and_port() {
    assert_eq!(
        parse_authority("example.com:443"),
        Some(("example.com".to_string(), Some(443)))
    );
    assert_eq!(
        parse_authority("example.com"),
        Some(("example.com".to_string(), None))
    );
    assert_eq!(
        parse_authority("[::1]:8443"),
        Some(("[::1]".to_string(), Some(8443)))
    );
    assert_eq!(parse_authority("[::1]"), Some(("[::1]".to_string(), None)));
    assert_eq!(parse_authority(""), None);
    assert_eq!(parse_authority(":443"), None);
    assert_eq!(parse_authority("host:"), None);
    assert_eq!(parse_authority("host:99999"), None);
    assert_eq!(parse_authority("host:4x3"), None);
    assert_eq!(parse_authority("[::1]x"), None);
}

#[test]
fn urls_yield_host_and_port() {
    assert_eq!(
        parse_url("http://example.com/path"),
        Some(("example.com".to_string(), 80))
    );
    assert_eq!(
        parse_url("https://example.com/path?q=1"),
        Some(("example.com".to_string(), 443))
    );
    assert_eq!(
        parse_url("https://example.com:8443/x"),
        Some(("example.com".to_string(), 8443))
    );
    assert_eq!(
        parse_url("http://example.com"),
        Some(("example.com".to_string(), 80))
    );
    assert_eq!(parse_url("ftp://example.com/"), None);
    assert_eq!(parse_url("example.com"), None);
    assert_eq!(parse_url("http://"), None);
}

#[test]
fn hop_headers_are_recognized_case_insensitively() {
    assert!(is_hop_header("proxy-authorization"));
    assert!(is_hop_header("Proxy-Authorization"));
    assert!(is_hop_header("PROXY-CONNECTION"));
    assert!(!is_hop_header("authorization"));
    assert!(!is_hop_header("content-type"));
}

#[test]
fn forwarded_headers_drop_proxy_headers_and_keep_the_rest() {
    let headers = vec![
        Header { name: "Host".to_string(), value: b"example.com".to_vec() },
        Header { name: "Proxy-Authorization".to_string(), value: b"Basic xyz".to_vec() },
        Header { name: "Accept".to_string(), value: b"*/*".to_vec() },
        Header { name: "proxy-connection".to_string(), value: b"keep-alive".to_vec() },
        Header { name: "X-Custom".to_string(), value: vec![0, 159, 146, 150] },
    ];
    let out = forward_headers(&headers);
    assert_eq!(out.len(), 3);
    // Order and bytes are preserved exactly, name case included.
    assert_eq!(out[0].name, "Host");
    assert_eq!(out[0].value, b"example.com".to_vec());
    assert_eq!(out[1].name, "Accept");
    assert_eq!(out[1].value, b"*/*".to_vec());
    assert_eq!(out[2].name, "X-Custom");
    assert_eq!(out[2].value, vec![0, 159, 146, 150]);
    for h in &out {
        assert!(!is_hop_header(&h.name));
    }
}

#[test]
fn connect_happy_path_establishes_tunnel() {
    let header = make_auth_at("k", NOW, "N");
    let plan = plan_connect(
        Some(&header),
        "k",
        "N",
        300,
        NOW,
        Some("93.184.216.34:443"),
        &vec![443],
    );
    match plan {
        TunnelPlan::Establish(ep) => {
            assert_eq!(
                ep,
                Endpoint { ip: IpAddress::V4(u32::from_be_bytes([93, 184, 216, 34])), port: 443 }
            );
        }
        other => panic!("expected Establish, got {:?}", other),
    }
}

#[test]
fn connect_auth_failure_yields_407() {
    // A credential minted for another node id is rejected.
    let header = make_auth_at("k", NOW, "M");
    let plan = plan_connect(Some(&header), "k", "N", 300, NOW, Some("example.com:443"), &vec![443]);
    match plan {
        TunnelPlan::Deny(d) => {
            assert_eq!(d.status, 407);
            assert!(d.proxy_authenticate);
            assert_eq!(d.x_error, "HMAC signature mismatch");
        }
        other => panic!("expected Deny, got {:?}", other),
    }
}

#[test]
fn connect_policy_reject_yields_403() {
    let header = make_auth_at("k", NOW, "N");
    let plan = plan_connect(Some(&header), "k", "N", 300, NOW, Some("10.0.0.1:443"), &vec![443]);
    match plan {
        TunnelPlan::Deny(d) => {
            assert_eq!(d.status, 403);
            assert!(!d.proxy_authenticate);
            assert_eq!(d.x_error, "destination address is blocked: private range");
        }
        other => panic!("expected Deny, got {:?}", other),
    }
}

#[test]
fn connect_missing_authority_yields_400() {
    let header = make_auth_at("k", NOW, "N");
    let plan = plan_connect(Some(&header), "k", "N", 300, NOW, None, &vec![443]);
    match plan {
        TunnelPlan::Deny(d) => {
            assert_eq!(d.status, 400);
            assert_eq!(d.x_error, "missing target authority");
        }
        other => panic!("expected Deny, got {:?}", other),
    }
}

#[test]
fn connect_default_port_is_443() {
    let header = make_auth_at("k", NOW, "N");
    let plan = plan_connect(Some(&header), "k", "N", 300, NOW, Some("example.com"), &vec![443]);
    match plan {
        TunnelPlan::Resolve { host, port } => {
            assert_eq!(host, "example.com");
            assert_eq!(port, 443);
        }
        other => panic!("expected Resolve, got {:?}", other),
    }
}

#[test]
fn plain_forward_default_port_is_80() {
    let header = make_auth_at("k", NOW, "N");
    let plan = plan_plain(Some(&header), "k", "N", 300, NOW, Some("example.com"), None, &vec![80]);
    match plan {
        ForwardPlan::Resolve { port } => assert_eq!(port, 80),
        other => panic!("expected Resolve, got {:?}", other),
    }
}

#[test]
fn plain_forward_missing_host_yields_400() {
    let header = make_auth_at("k", NOW, "N");
    let plan = plan_plain(Some(&header), "k", "N", 300, NOW, None, None, &vec![80]);
    match plan {
        ForwardPlan::Deny(d) => {
            assert_eq!(d.status, 400);
            assert_eq!(d.x_error, "missing host in URI");
        }
        other => panic!("expected Deny, got {:?}", other),
    }
}

#[test]
fn plain_forward_missing_header_yields_407() {
    let plan = plan_plain(None, "k", "N", 300, NOW, Some("example.com"), None, &vec![80]);
    match plan {
        ForwardPlan::Deny(d) => {
            assert_eq!(d.status, 407);
            assert!(d.proxy_authenticate);
            assert_eq!(d.x_error, "missing Proxy-Authorization header");
        }
        other => panic!("expected Deny, got {:?}", other),
    }
}

fn delegate_request(url: &str, body_base64: Option<&str>) -> DelegateRequest {
    DelegateRequest {
        method: "POST".to_string(),
        url: url.to_string(),
        headers: vec![],
        body_base64: body_base64.map(|s| s.to_string()),
    }
}

#[test]
fn delegate_decodes_body_and_resolves_host() {
    let header = make_auth_at("k", NOW, "N");
    let body = base64::engine::general_purpose::STANDARD.encode(b"payload");
    let req = delegate_request("https://api.example.com/v1", Some(&body));
    let plan = plan_delegate(Some(&header), "k", "N", 300, NOW, &req, &vec![443]);
    match plan {
        DelegatePlan::Resolve { host, port, body } => {
            assert_eq!(host, "api.example.com");
            assert_eq!(port, 443);
            assert_eq!(body, b"payload".to_vec());
        }
        other => panic!("expected Resolve, got {:?}", other),
    }
}

#[test]
fn delegate_literal_host_executes_directly() {
    let header = make_auth_at("k", NOW, "N");
    let req = delegate_request("http://93.184.216.34/v1", None);
    let plan = plan_delegate(Some(&header), "k", "N", 300, NOW, &req, &vec![80]);
    match plan {
        DelegatePlan::Execute { body } => assert_eq!(body, Vec::<u8>::new()),
        other => panic!("expected Execute, got {:?}", other),
    }
}

#[test]
fn delegate_bad_url_yields_400() {
    let header = make_auth_at("k", NOW, "N");
    let req = delegate_request("not a url", None);
    let plan = plan_delegate(Some(&header), "k", "N", 300, NOW, &req, &vec![443]);
    match plan {
        DelegatePlan::Deny(d) => {
            assert_eq!(d.status, 400);
            assert_eq!(d.x_error, "invalid delegate URL");
        }
        other => panic!("expected Deny, got {:?}", other),
    }
}

#[test]
fn delegate_bad_body_yields_400() {
    let header = make_auth_at("k", NOW, "N");
    let req = delegate_request("https://api.example.com/v1", Some("!!not-base64!!"));
    let plan = plan_delegate(Some(&header), "k", "N", 300, NOW, &req, &vec![443]);
    match plan {
        DelegatePlan::Deny(d) => {
            assert_eq!(d.status, 400);
            assert_eq!(d.x_error, "invalid body_base64");
        }
        other => panic!("expected Deny, got {:?}", other),
    }
}

#[test]
fn delegate_policy_reject_yields_403() {
    let header = make_auth_at("k", NOW, "N");
    let req = delegate_request("http://192.168.1.10/admin", None);
    let plan = plan_delegate(Some(&header), "k", "N", 300, NOW, &req, &vec![80]);
    match plan {
        DelegatePlan::Deny(d) => {
            assert_eq!(d.status, 403);
            assert_eq!(d.x_error, "destination address is blocked: private range");
        }
        other => panic!("expected Deny, got {:?}", other),
    }
}
