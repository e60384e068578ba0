//! The on-device agent: controller URL handling, requests, the transactional
//! configuration apply and its metrics.

use sdwanlite::agent::{
    bearer_frame, get_request, next_backoff_ms, post_request, response_body, url_addr, url_host,
    url_path, ws_url, Agent, AgentConfig, AgentError,
};
use sdwanlite::device::{
    ConfigVersion, DeviceConfig, DeviceId, FirewallPolicy, OrgId, QosPolicy, SiteId,
    ValidatedConfig,
};
use std::cell::Cell;

fn sample_config(version: u64) -> DeviceConfig {
    DeviceConfig {
        device_id: DeviceId::new(),
        org_id: OrgId::new(),
        site_id: SiteId::new(),
        hostname: format!("edge-{version}"),
        interfaces: Vec::new(),
        tunnels: Vec::new(),
        routes: Vec::new(),
        firewall: FirewallPolicy::default(),
        qos: QosPolicy::default(),
        path_labels: Vec::new(),
        version: ConfigVersion::new(version),
    }
}

fn make_agent() -> Agent {
    let cfg = AgentConfig::new(
        "http://127.0.0.1:65535",
        "test-bootstrap",
        DeviceId::new(),
        OrgId::new(),
        SiteId::new(),
        "edge-test",
    )
    .expect("agent config");
    Agent::new(cfg).expect("agent init")
}

fn validated(c: DeviceConfig) -> ValidatedConfig {
    ValidatedConfig::validate(c).unwrap()
}

#[test]
fn verify_ok_commits_new_config_at_pushed_revision() {
    let mut agent = make_agent();
    agent.set_current_for_test(sample_config(1));
    let calls = Cell::new(0u32);
    let verify = |_c: &DeviceConfig| -> Result<(), String> {
        calls.set(calls.get() + 1);
        Ok(())
    };
    let incoming = sample_config(2);
    let outcome = agent.apply_config(validated(incoming.clone()), Some(&verify));
    assert!(outcome.verified);
    assert_eq!(outcome.new_version, ConfigVersion::new(2));
    assert_eq!(outcome.active_version, ConfigVersion::new(2));
    assert!(outcome.error.is_none());
    assert_eq!(calls.get(), 1, "verify called once");
    let active = agent.current();
    assert_eq!(active.version, ConfigVersion::new(2));
    assert_eq!(active.hostname, incoming.hostname);
}

#[test]
fn verify_err_rolls_back_and_does_not_bump_version() {
    let mut agent = make_agent();
    let initial = sample_config(5);
    let initial_hostname = initial.hostname.clone();
    agent.set_current_for_test(initial);
    let verify = |_c: &DeviceConfig| -> Result<(), String> { Err("simulated verify failure".into()) };
    let incoming = sample_config(7);
    let incoming_hostname = incoming.hostname.clone();
    let outcome = agent.apply_config(validated(incoming), Some(&verify));
    assert!(!outcome.verified);
    assert_eq!(outcome.new_version, ConfigVersion::new(7), "incoming version reported back");
    assert_eq!(outcome.active_version, ConfigVersion::new(5), "active version unchanged after rollback");
    assert!(outcome.error.is_some());
    let active = agent.current();
    assert_eq!(active.version, ConfigVersion::new(5));
    assert_eq!(active.hostname, initial_hostname);
    assert_ne!(active.hostname, incoming_hostname);
}

#[test]
fn stale_version_is_refused_without_calling_verify() {
    let mut agent = make_agent();
    agent.set_current_for_test(sample_config(10));
    let calls = Cell::new(0u32);
    let verify = |_c: &DeviceConfig| -> Result<(), String> {
        calls.set(calls.get() + 1);
        Ok(())
    };
    let outcome = agent.apply_config(validated(sample_config(10)), Some(&verify));
    assert!(!outcome.verified);
    assert_eq!(outcome.active_version, ConfigVersion::new(10));
    assert_eq!(outcome.error.as_deref(), Some("stale: incoming v10 <= active v10"));
    assert_eq!(calls.get(), 0, "verify must not be called for stale version");
}

#[test]
fn sequential_verifies_keep_version_monotonic() {
    let mut agent = make_agent();
    agent.set_current_for_test(sample_config(1));
    let calls = Cell::new(0u32);
    let verify = |_c: &DeviceConfig| -> Result<(), String> {
        calls.set(calls.get() + 1);
        Ok(())
    };
    for v in [10u64, 20, 30, 40] {
        let outcome = agent.apply_config(validated(sample_config(v)), Some(&verify));
        assert!(outcome.verified, "v{v} should verify");
        assert_eq!(outcome.active_version, ConfigVersion::new(v));
    }
    assert_eq!(calls.get(), 4);
    assert_eq!(agent.current().version, ConfigVersion::new(40));
}

#[test]
fn apply_without_verifier_commits_newer() {
    let mut agent = make_agent();
    agent.set_current_for_test(sample_config(3));
    let none: Option<&fn(&DeviceConfig) -> Result<(), String>> = None;
    let outcome = agent.apply_config(validated(sample_config(4)), none);
    assert!(outcome.verified);
    assert_eq!(agent.current().version, ConfigVersion::new(4));
}

#[test]
fn agent_starts_with_placeholder_config() {
    let agent = make_agent();
    assert_eq!(agent.current().version, ConfigVersion::new(0));
    assert_eq!(agent.current().hostname, "edge-test");
}

#[test]
fn non_loopback_controller_is_refused() {
    let e = AgentConfig::new(
        "http://203.0.113.5:8080",
        "t",
        DeviceId::new(),
        OrgId::new(),
        SiteId::new(),
        "h",
    )
    .unwrap_err();
    match e {
        AgentError::Internal(m) => assert_eq!(
            m,
            "controller_url must be loopback (got http://203.0.113.5:8080) \u{2014} pass --enable-live-actions to allow non-loopback"
        ),
        other => panic!("unexpected {other:?}"),
    }
    assert!(AgentConfig::new("http://localhost:1", "t", DeviceId::new(), OrgId::new(), SiteId::new(), "h").is_ok());
    assert!(AgentConfig::new("http://[::1]:1", "t", DeviceId::new(), OrgId::new(), SiteId::new(), "h").is_ok());
}

#[test]
fn url_pieces() {
    assert_eq!(url_addr("http://127.0.0.1:8080/api"), "127.0.0.1:8080");
    assert_eq!(url_addr("http:///x"), "127.0.0.1:8080");
    assert_eq!(url_path("http://127.0.0.1:8080/api/v1"), "/api/v1");
    assert_eq!(url_path("http://127.0.0.1:8080"), "/");
    assert_eq!(url_host("http://127.0.0.1:8080/x"), "127.0.0.1");
    assert_eq!(ws_url("http://127.0.0.1:8080"), "ws://127.0.0.1:8080/stream/config");
}

#[test]
fn request_texts() {
    assert_eq!(
        get_request("http://127.0.0.1:8080/api/v1/devices", "tok"),
        "GET /api/v1/devices HTTP/1.1\r\nHost: 127.0.0.1\r\nAuthorization: Bearer tok\r\nConnection: close\r\n\r\n"
    );
    assert_eq!(
        post_request("http://127.0.0.1:8080/api/v1/telemetry", "tok", "{}"),
        "POST /api/v1/telemetry HTTP/1.1\r\nHost: 127.0.0.1\r\nAuthorization: Bearer tok\r\nContent-Type: application/json\r\nContent-Length: 2\r\nConnection: close\r\n\r\n{}"
    );
    assert_eq!(response_body("HTTP/1.1 200 OK\r\nA: b\r\n\r\n{\"x\":1}"), "{\"x\":1}");
    assert_eq!(response_body("no blank line"), "");
    assert_eq!(bearer_frame("abc"), "Bearer abc");
}

#[test]
fn backoff_doubles_up_to_thirty_seconds() {
    assert_eq!(next_backoff_ms(500), 1000);
    assert_eq!(next_backoff_ms(14_999), 29_998);
    assert_eq!(next_backoff_ms(15_000), 30_000);
    assert_eq!(next_backoff_ms(30_000), 30_000);
}

#[test]
fn verifier_sees_the_pushed_config_and_its_error_is_reported() {
    let mut agent = make_agent();
    agent.set_current_for_test(sample_config(1));
    let seen = std::cell::RefCell::new(Vec::<(String, ConfigVersion)>::new());
    let verify = |c: &DeviceConfig| -> Result<(), String> {
        seen.borrow_mut().push((c.hostname.clone(), c.version));
        Err("link down".to_string())
    };
    let outcome = agent.apply_config(validated(sample_config(3)), Some(&verify));
    assert_eq!(*seen.borrow(), vec![("edge-3".to_string(), ConfigVersion::new(3))]);
    assert!(!outcome.verified);
    assert_eq!(outcome.error.as_deref(), Some("link down"));
    assert_eq!(outcome.active_version, ConfigVersion::new(1));
    assert_eq!(agent.current().hostname, "edge-1");
}
