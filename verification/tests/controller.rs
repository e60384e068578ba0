//! The controller: authentication, the device store, configuration pushes
//! and telemetry alerts.

use sdwanlite::agent::AgentError;
use sdwanlite::controller::{
    bool_eq, check_auth, flag_key_text, stream_authorized, ApplyRequest, DeviceStore, HealthFlag,
    RegisterRequest, TelemetryFrame,
};
use sdwanlite::device::{
    ConfigVersion, DeviceConfig, DeviceId, FirewallPolicy, OrgId, QosPolicy, SiteId,
};

const TOKEN: &str = "token";

#[test]
fn constant_time_compare() {
    assert!(bool_eq(b"Bearer abc", b"Bearer abc"));
    assert!(!bool_eq(b"Bearer abc", b"Bearer abd"));
    assert!(!bool_eq(b"Bearer abc", b"Bearer abc!"));
}

#[test]
fn bearer_header_is_required() {
    assert!(check_auth(Some("Bearer token"), TOKEN).is_ok());
    assert!(matches!(check_auth(Some("Bearer wrong"), TOKEN), Err(AgentError::Unauthorized)));
    assert!(matches!(check_auth(None, TOKEN), Err(AgentError::Unauthorized)));
    assert!(stream_authorized(None, Some("token"), TOKEN));
    assert!(stream_authorized(Some("Bearer token"), None, TOKEN));
    assert!(!stream_authorized(None, Some("nope"), TOKEN));
}

fn request(id: u128, org: u128, host: &str) -> RegisterRequest {
    RegisterRequest {
        device_id: DeviceId::from_uuid(id),
        org_id: OrgId::from_uuid(org),
        site_id: SiteId::from_uuid(7),
        hostname: host.into(),
        version: ConfigVersion::new(1),
    }
}

fn config(id: u128, org: u128, host: &str, version: u64) -> DeviceConfig {
    DeviceConfig {
        device_id: DeviceId::from_uuid(id),
        org_id: OrgId::from_uuid(org),
        site_id: SiteId::from_uuid(7),
        hostname: host.into(),
        interfaces: vec![],
        tunnels: vec![],
        routes: vec![],
        firewall: FirewallPolicy::default(),
        qos: QosPolicy::default(),
        path_labels: vec![],
        version: ConfigVersion::new(version),
    }
}

const AUTH: Option<&str> = Some("Bearer token");

#[test]
fn register_then_get_config() {
    let mut s = DeviceStore::new();
    let r = s.register(AUTH, TOKEN, request(1, 2, "edge-flow")).unwrap();
    assert_eq!(r.device_id, DeviceId::from_uuid(1));
    assert_eq!(r.current_version, ConfigVersion::new(1));
    let cfg = s.get_config(AUTH, TOKEN, DeviceId::from_uuid(1)).unwrap();
    assert_eq!(cfg.hostname, "edge-flow");
    assert_eq!(cfg.version, ConfigVersion::new(1));
    assert_eq!(s.list_devices(AUTH, TOKEN).unwrap().len(), 1);
}

#[test]
fn register_rejects_invalid_or_missing_token() {
    let mut s = DeviceStore::new();
    assert!(matches!(
        s.register(Some("Bearer wrong-token"), TOKEN, request(1, 2, "x")),
        Err(AgentError::Unauthorized)
    ));
    assert!(matches!(s.register(None, TOKEN, request(1, 2, "x")), Err(AgentError::Unauthorized)));
    assert!(s.list_devices(AUTH, TOKEN).unwrap().is_empty());
}

#[test]
fn unknown_device_is_not_found() {
    let s = DeviceStore::new();
    assert!(matches!(
        s.get_config(AUTH, TOKEN, DeviceId::from_uuid(9)),
        Err(AgentError::NotFound)
    ));
    assert!(matches!(
        s.get_device(AUTH, TOKEN, DeviceId::from_uuid(9)),
        Err(AgentError::NotFound)
    ));
}

#[test]
fn update_delete_and_put_config() {
    let mut s = DeviceStore::new();
    s.register(AUTH, TOKEN, request(1, 2, "edge-a")).unwrap();
    s.update_device(AUTH, TOKEN, DeviceId::from_uuid(1), None, None, Some("edge-renamed".into()))
        .unwrap();
    assert_eq!(s.get_device(AUTH, TOKEN, DeviceId::from_uuid(1)).unwrap().hostname, "edge-renamed");

    s.put_device_config(AUTH, TOKEN, DeviceId::from_uuid(1), config(1, 2, "edge-a", 5)).unwrap();
    assert_eq!(
        s.get_config(AUTH, TOKEN, DeviceId::from_uuid(1)).unwrap().version,
        ConfigVersion::new(5)
    );
    // the version must increase
    let stale = s
        .put_device_config(AUTH, TOKEN, DeviceId::from_uuid(1), config(1, 2, "edge-a", 5))
        .unwrap_err();
    assert_eq!(stale.response(), (409, "config_version_mismatch".to_string()));
    let other_org = s
        .put_device_config(AUTH, TOKEN, DeviceId::from_uuid(1), config(1, 3, "edge-a", 6))
        .unwrap_err();
    assert_eq!(other_org.response().0, 403);

    s.delete_device(AUTH, TOKEN, DeviceId::from_uuid(1)).unwrap();
    assert!(matches!(
        s.get_device(AUTH, TOKEN, DeviceId::from_uuid(1)),
        Err(AgentError::NotFound)
    ));
    assert!(matches!(
        s.delete_device(AUTH, TOKEN, DeviceId::from_uuid(1)),
        Err(AgentError::NotFound)
    ));
}

#[test]
fn apply_rejects_org_mismatch_and_stale_version() {
    let mut s = DeviceStore::new();
    s.register(AUTH, TOKEN, request(1, 2, "edge-routes")).unwrap();
    let wrong_org = ApplyRequest { config: config(1, 3, "edge-routes", 2) };
    let e = s.apply_config(AUTH, TOKEN, DeviceId::from_uuid(1), wrong_org).unwrap_err();
    assert_eq!(e.response().0, 403);
    let stale = ApplyRequest { config: config(1, 2, "edge-routes", 1) };
    let e = s.apply_config(AUTH, TOKEN, DeviceId::from_uuid(1), stale).unwrap_err();
    assert_eq!(e.response().0, 409);
    let ok = ApplyRequest { config: config(1, 2, "edge-routes", 2) };
    let r = s.apply_config(AUTH, TOKEN, DeviceId::from_uuid(1), ok).unwrap();
    assert_eq!(r.applied_version, ConfigVersion::new(2));
}

fn frame(id: u128, org: u128, flags: Vec<HealthFlag>) -> TelemetryFrame {
    TelemetryFrame {
        device_id: DeviceId::from_uuid(id),
        org_id: OrgId::from_uuid(org),
        uptime_secs: 60,
        links: vec![],
        flags,
    }
}

#[test]
fn telemetry_flags_create_alerts_once() {
    let mut s = DeviceStore::new();
    s.register(AUTH, TOKEN, request(1, 2, "edge-a")).unwrap();
    let flags = vec![
        HealthFlag::LinkDown { path_label: "internet".into() },
        HealthFlag::Degraded { subsystem: "bgp".into() },
    ];
    s.post_telemetry(AUTH, TOKEN, frame(1, 2, flags.clone()), 100).unwrap();
    let kinds: Vec<String> = s.get_alerts(AUTH, TOKEN).unwrap().iter().map(|a| a.kind.clone()).collect();
    assert_eq!(kinds, vec!["link_down".to_string(), "degraded".to_string()], "got {kinds:?}");
    // the same flags again raise nothing new
    s.post_telemetry(AUTH, TOKEN, frame(1, 2, flags), 200).unwrap();
    assert_eq!(s.get_alerts(AUTH, TOKEN).unwrap().len(), 2);
    assert_eq!(s.get_telemetry(AUTH, TOKEN).unwrap().len(), 1);
}

#[test]
fn telemetry_rejects_unknown_device() {
    let mut s = DeviceStore::new();
    assert!(s.post_telemetry(AUTH, TOKEN, frame(5, 2, vec![]), 1).is_err());
}

#[test]
fn flag_keys() {
    assert_eq!(
        flag_key_text(&HealthFlag::LinkDown { path_label: "lte".into() }),
        "link_down:lte"
    );
    assert_eq!(
        flag_key_text(&HealthFlag::Degraded { subsystem: "bgp".into() }),
        "degraded:bgp"
    );
}

#[test]
fn error_responses() {
    assert_eq!(AgentError::Unauthorized.response(), (401, "unauthorized".to_string()));
    assert_eq!(AgentError::NotFound.response(), (404, "not_found".to_string()));
    assert_eq!(
        AgentError::Internal("x".into()).response(),
        (500, "internal_error".to_string())
    );
}

#[test]
fn alert_log_keeps_the_newest_hundred() {
    let mut s = DeviceStore::new();
    for n in 0..105u32 {
        s.push_alert("offline", format!("alert {n}"), None, n.to_string());
    }
    let log = s.alerts();
    assert_eq!(log.len(), 100);
    assert_eq!(log[0].id, 6);
    assert_eq!(log[99].id, 105);
    assert!(log.windows(2).all(|w| w[0].id < w[1].id));
    assert_eq!(log[99].title, "alert 104");
}
