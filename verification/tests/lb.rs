//! Load balancer state: backends, latency percentiles, admission, backend
//! selection, health probes, the firewall and the alert log.

use sdwanlite::config::{Algorithm, FirewallRule, TcpPool};
use sdwanlite::lb::{
    firewall_check, percentile, probe_answer_healthy, probe_request, AlertLog, Backend,
    HealthCheck, LatencyRing, TcpPoolState,
};

fn backend() -> Backend {
    Backend::new("127.0.0.1:80".to_string())
}

#[test]
fn latency_percentiles_empty() {
    let b = backend();
    assert_eq!(b.latency_percentiles_us(), (None, None));
}

#[test]
fn latency_percentiles_p50_p95() {
    let mut b = backend();
    for us in [100u64, 200, 300, 400, 500, 600, 700, 800, 900, 1000] {
        b.record_latency_us(us);
    }
    let (p50, p95) = b.latency_percentiles_us();
    assert_eq!(p50, Some(500));
    assert_eq!(p95, Some(1000));
}

#[test]
fn latency_ring_overwrites() {
    let mut b = backend();
    for i in 0..70u64 {
        b.record_latency_us(i + 1);
    }
    let (p50, _) = b.latency_percentiles_us();
    assert!(p50.unwrap() >= 7 && p50.unwrap() <= 70);
}

#[test]
fn latency_ring_keeps_last_sixty_four() {
    let mut r = LatencyRing::new();
    for i in 0..70u64 {
        r.record(i + 1);
    }
    // samples 7..=70 remain: 64 of them, median rank 32 -> 38
    assert_eq!(r.percentiles(), (Some(38), Some(67)));
}

#[test]
fn health_failures_counted() {
    let mut b = backend();
    b.set_healthy(false);
    b.set_healthy(true);
    b.set_healthy(false);
    assert_eq!(b.health_failures(), 2);
}

#[test]
fn percentile_ignores_zero_samples() {
    assert_eq!(percentile(&[0, 0, 0], 50), None);
    assert_eq!(percentile(&[30, 0, 10, 20], 50), Some(20));
    assert_eq!(percentile(&[5], 95), Some(5));
    assert_eq!(percentile(&[3, 1, 2], 0), Some(1));
    assert_eq!(percentile(&[3, 1, 2], 100), Some(3));
}

#[test]
fn byte_counters_wrap() {
    let mut b = backend();
    b.add_bytes(u64::MAX, 5);
    b.add_bytes(2, 0);
    assert_eq!(b.tx_bytes(), 1);
    assert_eq!(b.rx_bytes(), 5);
}

fn pool(backends: &[&str], algorithm: Algorithm) -> TcpPool {
    TcpPool {
        name: "limit-test".into(),
        listen: "127.0.0.1:0".into(),
        algorithm,
        health_interval_secs: 5,
        health_timeout_secs: 2,
        health_check_path: None,
        qos: None,
        backends: backends.iter().map(|s| s.to_string()).collect(),
    }
}

#[test]
fn tcp_conn_limit_rejects() {
    let mut p = TcpPoolState::from_config(&pool(&["127.0.0.1:1"], Algorithm::RoundRobin));
    p.set_max_conns(1);
    assert!(p.accept_client());
    assert!(!p.accept_client());
    assert_eq!(p.rejected_conns(), 1);
    assert_eq!(p.active_conns(), 1);
    p.connection_closed();
    assert!(p.accept_client());
}

#[test]
fn invalid_backend_addresses_are_skipped() {
    let p = TcpPoolState::from_config(&pool(&["127.0.0.1:1", "nonsense", "[::1]:2"], Algorithm::RoundRobin));
    let addrs: Vec<String> = p.backends().iter().map(|b| b.addr().clone()).collect();
    assert_eq!(addrs, vec!["127.0.0.1:1".to_string(), "[::1]:2".to_string()]);
}

#[test]
fn round_robin_skips_unhealthy() {
    let mut p = TcpPoolState::from_config(&pool(
        &["127.0.0.1:1", "127.0.0.1:2", "127.0.0.1:3"],
        Algorithm::RoundRobin,
    ));
    let first = p.select().unwrap();
    let second = p.select().unwrap();
    assert_ne!(first, second);
    p.connect_failed(0);
    p.connect_failed(1);
    for _ in 0..4 {
        assert_eq!(p.select(), Some(2));
    }
    p.connect_failed(2);
    assert_eq!(p.select(), None);
}

#[test]
fn failover_prefers_first_healthy() {
    let mut p = TcpPoolState::from_config(&pool(&["127.0.0.1:1", "127.0.0.1:2"], Algorithm::Failover));
    assert_eq!(p.select(), Some(0));
    assert_eq!(p.select(), Some(0));
    p.connect_failed(0);
    assert_eq!(p.select(), Some(1));
}

#[test]
fn add_and_remove_backends() {
    let mut p = TcpPoolState::from_config(&pool(&["127.0.0.1:1"], Algorithm::RoundRobin));
    assert!(p.add_backend("127.0.0.1:2".into()));
    assert!(!p.add_backend("127.0.0.1:2".into()));
    assert_eq!(p.backends().len(), 2);
    assert!(p.remove_backend("127.0.0.1:1"));
    assert!(!p.remove_backend("127.0.0.1:1"));
    assert_eq!(p.backends().len(), 1);
    assert_eq!(p.max_tries(), 1);
}

#[test]
fn health_probe_answers() {
    assert!(probe_answer_healthy("HTTP/1.1 200 OK"));
    assert!(probe_answer_healthy("HTTP/1.1 302 Found"));
    assert!(!probe_answer_healthy("HTTP/1.1 404 Not Found"));
    assert!(!probe_answer_healthy("HTTP/1.1 500 Oops"));
    assert!(!probe_answer_healthy("garbage"));
    assert_eq!(
        probe_request("/healthz", "127.0.0.1:80"),
        "GET /healthz HTTP/1.1\r\nHost: 127.0.0.1:80\r\nConnection: close\r\n\r\n"
    );
    assert_eq!(HealthCheck::from_path(None), HealthCheck::Tcp);
    assert_eq!(
        HealthCheck::from_path(Some(&"/h".to_string())),
        HealthCheck::Http("/h".to_string())
    );
}

fn rule(action: &str, port: u16, protocol: &str, source: Option<&str>) -> FirewallRule {
    FirewallRule {
        action: action.into(),
        port,
        protocol: protocol.into(),
        source: source.map(|s| s.to_string()),
        comment: String::new(),
    }
}

#[test]
fn firewall_first_match_decides() {
    let rules = vec![
        rule("deny", 22, "tcp", Some("10.*")),
        rule("allow", 0, "any", Some("10.1.*")),
        rule("deny", 0, "any", None),
    ];
    assert!(!firewall_check(&rules, "10.1.2.3", 22, "tcp"));
    assert!(firewall_check(&rules, "10.1.2.3", 80, "tcp"));
    assert!(!firewall_check(&rules, "192.168.0.1", 80, "udp"));
    assert!(firewall_check(&[], "192.168.0.1", 80, "udp"));
}

#[test]
fn alert_log_keeps_newest() {
    let mut log = AlertLog::new(2);
    log.push("info", "lb", "one", 1);
    log.push("warn", "lb", "two", 2);
    log.push("critical", "lb", "three", 3);
    let msgs: Vec<&str> = log.list().iter().map(|e| e.message.as_str()).collect();
    assert_eq!(msgs, vec!["two", "three"]);
    assert_eq!(log.list()[1].timestamp, 3);
}

#[test]
fn backend_bookkeeping_through_the_pool() {
    let mut p = TcpPoolState::from_config(&pool(&["127.0.0.1:1", "127.0.0.1:2"], Algorithm::RoundRobin));
    p.backend_mut(1).connected(250);
    p.backend_mut(1).add_bytes(10, 20);
    assert_eq!(p.backends()[1].active_conns(), 1);
    assert_eq!(p.backends()[1].total_conns(), 1);
    assert_eq!(p.backends()[1].tx_bytes(), 10);
    assert_eq!(p.backends()[1].rx_bytes(), 20);
    assert_eq!(p.backends()[0].total_conns(), 0);
    p.backend_mut(1).release();
    assert_eq!(p.backends()[1].active_conns(), 0);
    assert!(p.backend_mut(0).set_healthy(false));
    assert_eq!(p.select(), Some(1));
    assert_eq!(p.name(), "limit-test");
}

#[test]
fn round_robin_rotates_and_fresh_backends_are_empty() {
    let mut p = TcpPoolState::from_config(&pool(
        &["127.0.0.1:1", "127.0.0.1:2", "127.0.0.1:3"],
        Algorithm::RoundRobin,
    ));
    for b in p.backends() {
        assert_eq!((b.rx_bytes(), b.tx_bytes(), b.active_conns(), b.total_conns()), (0, 0, 0, 0));
        assert_eq!(b.latency_percentiles_us(), (None, None));
    }
    let picks: Vec<usize> = (0..4).map(|_| p.select().unwrap()).collect();
    assert_eq!(picks, vec![0, 1, 2, 0]);
}

#[test]
fn each_connect_fills_the_next_latency_slot() {
    let mut b = backend();
    b.connected(300);
    b.connect_timed_out();
    b.record_latency_us(100);
    assert_eq!(b.latency_percentiles_us(), (Some(300), Some(5_000_000)));
}
