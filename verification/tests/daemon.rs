//! The daemon's API policy: bind safety, request authentication, pool
//! overrides and the label / policy checks.

use sdwanlite::config::{
    Algorithm, PathLabel, Policy, PolicyRule, RouteAction, RuleMatch, SelectionOrder, TcpPool,
};
use sdwanlite::daemon::{
    authorized, basic_header_text, check_labels, check_policies, ct_eq, dashboard_access,
    merge_override, parse_algorithm, put_pool_config, resolve_token, set_policy_installed,
    unknown_algorithm, validate_bind_auth, PoolConfigOverride, PoolConfigRefusal,
};
use sdwanlite::lb::TcpPoolState;

#[test]
fn non_loopback_bind_requires_auth_env() {
    assert!(validate_bind_auth("0.0.0.0", false).is_err());
    assert!(validate_bind_auth("192.168.1.5", false).is_err());
    assert!(validate_bind_auth("127.0.0.1", false).is_ok());
    assert!(validate_bind_auth("::1", false).is_ok());
    assert!(validate_bind_auth("localhost", false).is_ok());
    assert!(validate_bind_auth("0.0.0.0", true).is_ok());
    assert!(validate_bind_auth("192.168.1.5", true).is_ok());
}

#[test]
fn refused_bind_message_names_the_address() {
    assert_eq!(
        validate_bind_auth("0.0.0.0", false).unwrap_err(),
        "api_addr = 0.0.0.0 (non-loopback) but SDWANLITE_AUTH_USER/PASS are not set; refusing to expose an unauthenticated control API"
    );
}

#[test]
fn ct_eq_compares_bytes() {
    assert!(ct_eq(b"abc", b"abc"));
    assert!(!ct_eq(b"abc", b"abd"));
    assert!(!ct_eq(b"abc", b"abcd"));
    assert!(ct_eq(b"", b""));
}

#[test]
fn basic_header_is_base64_of_user_colon_pass() {
    assert_eq!(basic_header_text("admin", "s3cret"), "Basic YWRtaW46czNjcmV0");
    assert_eq!(basic_header_text("user", "nopw"), "Basic dXNlcjpub3B3");
}

#[test]
fn environment_token_overrides_configured_one() {
    let cfg = "cfg".to_string();
    assert_eq!(resolve_token(Some("env"), Some(&cfg)), Some("env".to_string()));
    assert_eq!(resolve_token(Some(""), Some(&cfg)), Some("cfg".to_string()));
    assert_eq!(resolve_token(None, Some(&cfg)), Some("cfg".to_string()));
    assert_eq!(resolve_token(None, None), None);
}

#[test]
fn dashboard_rejects_unauthenticated_and_accepts_valid_basic() {
    assert!(!dashboard_access(None, "admin", "s3cret"));
    assert!(!dashboard_access(Some("Basic dXNlcjpub3B3"), "admin", "s3cret"));
    assert!(dashboard_access(Some("Basic YWRtaW46czNjcmV0"), "admin", "s3cret"));
    // no credentials configured: open
    assert!(dashboard_access(None, "", ""));
    assert!(dashboard_access(None, "admin", ""));
}

#[test]
fn mutations_accept_bearer_or_browser_basic() {
    let tok = "tok".to_string();
    assert!(authorized(Some("Bearer tok"), Some(&tok), "", ""));
    assert!(!authorized(Some("Bearer wrong"), Some(&tok), "", ""));
    assert!(!authorized(None, Some(&tok), "admin", "s3cret"));
    assert!(authorized(Some("Basic YWRtaW46czNjcmV0"), Some(&tok), "admin", "s3cret"));
    assert!(!authorized(Some("Basic YWRtaW46czNjcmV0"), Some(&tok), "", ""));
    assert!(!authorized(Some("Bearer tok"), None, "", ""));
}

#[test]
fn algorithm_names() {
    assert_eq!(parse_algorithm("round_robin"), Some(Algorithm::RoundRobin));
    assert_eq!(parse_algorithm("round-robin"), Some(Algorithm::RoundRobin));
    assert_eq!(parse_algorithm("least-connections"), Some(Algorithm::LeastConnections));
    assert_eq!(parse_algorithm("random"), Some(Algorithm::Random));
    assert_eq!(parse_algorithm("failover"), Some(Algorithm::Failover));
    assert_eq!(parse_algorithm("fastest"), None);
}

fn tcp_pool(name: &str, backends: &[&str]) -> TcpPool {
    TcpPool {
        name: name.into(),
        listen: "127.0.0.1:9000".into(),
        algorithm: Algorithm::RoundRobin,
        health_interval_secs: 5,
        health_timeout_secs: 2,
        health_check_path: None,
        qos: None,
        backends: backends.iter().map(|s| s.to_string()).collect(),
    }
}

#[test]
fn pool_override_applies_live_and_merges() {
    let mut pools = vec![TcpPoolState::from_config(&tcp_pool("web", &["127.0.0.1:80"]))];
    let o = PoolConfigOverride {
        algorithm: Some("least_connections".into()),
        max_conns: Some(10),
        drain: Some(true),
        hc_interval_secs: None,
        hc_timeout_secs: Some(3),
    };
    assert!(!unknown_algorithm(&o));
    assert_eq!(put_pool_config(&mut pools, "web", &o), Ok(()));
    assert_eq!(pools[0].algorithm(), Algorithm::LeastConnections);
    assert_eq!(pools[0].max_conns(), 10);
    assert!(pools[0].is_drained_now());

    let mut entry = PoolConfigOverride {
        hc_interval_secs: Some(9),
        ..Default::default()
    };
    merge_override(&mut entry, &o);
    assert_eq!(entry.algorithm.as_deref(), Some("least_connections"));
    assert_eq!(entry.max_conns, Some(10));
    assert_eq!(entry.hc_interval_secs, Some(9));
    assert_eq!(entry.hc_timeout_secs, Some(3));
}

#[test]
fn pool_override_refusals() {
    let bad = PoolConfigOverride {
        algorithm: Some("fastest".into()),
        ..Default::default()
    };
    let mut pools = vec![TcpPoolState::from_config(&tcp_pool("web", &[]))];
    assert_eq!(
        put_pool_config(&mut pools, "web", &bad),
        Err(PoolConfigRefusal::UnknownAlgorithm)
    );
    let mut none: Vec<TcpPoolState> = Vec::new();
    assert_eq!(
        put_pool_config(&mut none, "web", &PoolConfigOverride::default()),
        Err(PoolConfigRefusal::NoTcpPools)
    );
    // unknown pool name while pools run: stored, nothing applied
    assert_eq!(put_pool_config(&mut pools, "other", &PoolConfigOverride::default()), Ok(()));
}

fn label(name: &str) -> PathLabel {
    PathLabel {
        name: name.into(),
        interfaces: vec![],
        tunnels: vec![],
        description: String::new(),
    }
}

#[test]
fn labels_must_be_named_and_unique() {
    assert!(check_labels(&vec![label("ISP1"), label("LTE")]).is_ok());
    assert_eq!(
        check_labels(&vec![label("ISP1"), label("  ")]).unwrap_err(),
        "label name must not be empty"
    );
    assert_eq!(
        check_labels(&vec![label("ISP1"), label(" ISP1 ")]).unwrap_err(),
        "duplicate label name:  ISP1 "
    );
}

fn policy(name: &str, rule_labels: &[&str], default_labels: &[&str]) -> Policy {
    Policy {
        name: name.into(),
        description: String::new(),
        rules: vec![PolicyRule {
            rule_match: RuleMatch {
                app: Some("voip".into()),
                ..Default::default()
            },
            action: RouteAction {
                labels: rule_labels.iter().map(|s| s.to_string()).collect(),
                order: SelectionOrder::PriorityFailover,
            },
        }],
        default_action: RouteAction {
            labels: default_labels.iter().map(|s| s.to_string()).collect(),
            order: SelectionOrder::LoadBalance,
        },
        installed: false,
    }
}

#[test]
fn policies_must_validate_and_reference_defined_labels() {
    let labels = vec![label("ISP1"), label("LTE")];
    assert!(check_policies(&vec![policy("p", &["ISP1"], &["LTE"])], &labels).is_ok());
    assert_eq!(
        check_policies(&vec![policy("p", &["MPLS"], &["LTE"])], &labels).unwrap_err(),
        "policy p: references undefined label MPLS"
    );
    assert_eq!(
        check_policies(&vec![policy("p", &["ISP1"], &["X"])], &labels).unwrap_err(),
        "policy p: references undefined label X"
    );
    // validation errors come first, whatever the labels
    assert_eq!(
        check_policies(
            &vec![policy("a", &["MPLS"], &["LTE"]), policy("b", &["ISP1"], &[])],
            &labels
        )
        .unwrap_err(),
        "policy b: default action routes via no labels"
    );
}

#[test]
fn install_flag_set_by_name() {
    let mut ps = vec![policy("a", &["ISP1"], &["LTE"]), policy("b", &["ISP1"], &["LTE"])];
    assert!(set_policy_installed(&mut ps, "b", true).is_ok());
    assert!(!ps[0].installed);
    assert!(ps[1].installed);
    assert_eq!(
        set_policy_installed(&mut ps, "zz", true).unwrap_err(),
        "policy zz not found"
    );
    assert!(set_policy_installed(&mut ps, "b", false).is_ok());
    assert!(!ps[1].installed);
}
