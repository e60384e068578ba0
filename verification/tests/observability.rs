//! Golden signals, the Prometheus page, the dashboard's derived views and the
//! live reload of pool backends.

use sdwanlite::config::{Algorithm, BackendProto, HttpPool, HttpRoute, TcpPool};
use sdwanlite::dashboard::{
    action_toast, add_action, bgp_sessions_html, build_topology, rib_table_html, BgpSessionView,
    RibRouteView, call_report, default_actions, fmt_uptime,
    http_status_error, lb_overview, lb_page_html, mesh_panel_html, next_theme, push_rib_history,
    remove_action, request_method, tab_title, topo_color, BackendView, HttpMethod,
    HttpPoolView, MeshStatus, NodeKind, WgPeerView, HttpRouteView, TcpPoolView,
};
use sdwanlite::metrics::{count_established, render_metrics};
use sdwanlite::bgp::SessionState;
use sdwanlite::lb::TcpPoolState;
use sdwanlite::proxy::HttpPoolState;
use sdwanlite::reload::{reload_tcp_pools, ReloadChange};
use sdwanlite::signals::golden_signals;

fn tcp_pool(name: &str, backends: &[&str]) -> TcpPool {
    TcpPool {
        name: name.into(),
        listen: "127.0.0.1:0".into(),
        algorithm: Algorithm::RoundRobin,
        health_interval_secs: 5,
        health_timeout_secs: 2,
        health_check_path: None,
        qos: None,
        backends: backends.iter().map(|s| s.to_string()).collect(),
    }
}

fn http_pool(name: &str, routes: Vec<(&str, &str, Vec<&str>)>) -> HttpPool {
    HttpPool {
        name: name.into(),
        listen: "127.0.0.1:0".into(),
        tls: None,
        health_interval_secs: 5,
        health_timeout_secs: 2,
        health_check_path: None,
        backend_proto: BackendProto::Http1,
        routes: routes
            .into_iter()
            .map(|(h, p, b)| HttpRoute {
                host: h.into(),
                path_prefix: p.into(),
                backends: b.into_iter().map(|s| s.to_string()).collect(),
            })
            .collect(),
    }
}

#[test]
fn signals_sum_pools_and_dedup_http_backends() {
    let mut t = TcpPoolState::from_config(&tcp_pool("db", &["127.0.0.1:1", "127.0.0.1:2"]));
    t.set_max_conns(4);
    t.accept_client();
    t.connect_failed(1);
    let h = HttpPoolState::from_config(&http_pool(
        "web",
        vec![("", "/", vec!["127.0.0.1:8", "127.0.0.1:9"]), ("", "/api", vec!["127.0.0.1:9"])],
    ));
    let s = golden_signals(&vec![t], &vec![h]);
    assert_eq!(s.pools.len(), 2);
    assert_eq!(s.pools[0].name, "db");
    assert_eq!(s.pools[0].total_backends, 2);
    assert_eq!(s.pools[0].unhealthy_backends, 1);
    assert_eq!(s.pools[0].health_failures, 1);
    assert_eq!(s.pools[0].active_conns, 1);
    assert_eq!(s.pools[0].max_conns, 4);
    assert_eq!(s.pools[1].total_backends, 2, "a backend serving two routes counts once");
    assert_eq!(s.pools[1].max_conns, 0);
    assert_eq!(s.totals.total_backends, 4);
    assert_eq!(s.totals.unhealthy_backends, 1);
    assert_eq!(s.totals.max_conns, 4);
    assert_eq!(s.totals.latency_p50_us, None);
}

#[test]
fn signals_latency_per_pool() {
    let mut a = TcpPoolState::from_config(&tcp_pool("a", &["127.0.0.1:9001"]));
    let mut b = TcpPoolState::from_config(&tcp_pool("b", &["127.0.0.1:9002"]));
    a.backend_mut(0).record_latency_us(100);
    b.backend_mut(0).record_latency_us(900);
    let s = golden_signals(&vec![a, b], &vec![]);
    assert_eq!(s.pools[0].latency_p50_us, Some(100));
    assert_eq!(s.pools[1].latency_p50_us, Some(900));
    assert_eq!(s.pools[1].latency_p95_us, Some(900));
    assert_eq!(s.totals.latency_p50_us, Some(100));
    assert_eq!(s.totals.latency_p95_us, Some(900));
    assert_eq!(s.totals.total_backends, 2);
}

#[test]
fn metrics_page_lines() {
    let mut t = TcpPoolState::from_config(&tcp_pool("db", &["127.0.0.1:1"]));
    t.accept_client();
    let h = HttpPoolState::from_config(&http_pool("web", vec![("a.example", "/", vec!["127.0.0.1:8"])]));
    let page = render_metrics(&vec![t], &vec![h], 3, 1, 42);
    assert!(page.starts_with("# HELP sdwanlite_backend_healthy Backend reachability (1 healthy, 0 down).\n"));
    assert!(page.contains("sdwanlite_backend_healthy{pool=\"tcp:db\",backend=\"127.0.0.1:1\"} 1\n"));
    assert!(page.contains("sdwanlite_backend_conns{pool=\"tcp:db\",backend=\"127.0.0.1:1\",kind=\"active\"} 0\n"));
    assert!(page.contains("sdwanlite_pool_active_conns{pool=\"tcp:db\"} 1\n"));
    assert!(page.contains("sdwanlite_pool_max_conns{pool=\"tcp:db\"} 0\n"));
    assert!(page.contains("sdwanlite_backend_conns{pool=\"http:web\",backend=\"127.0.0.1:8\",kind=\"total\"} 0\n"));
    assert!(!page.contains("latency_us{"));
    assert!(page.contains("sdwanlite_bgp_rib_routes 3\n"));
    assert!(page.contains("sdwanlite_bgp_sessions_established 1\n"));
    assert!(page.ends_with("sdwanlite_uptime_seconds 42\n"));
    assert_eq!(
        count_established(&vec![SessionState::Established, SessionState::Idle, SessionState::Established]),
        2
    );
}

#[test]
fn uptime_text() {
    assert_eq!(fmt_uptime(0), "0h 0m 0s");
    assert_eq!(fmt_uptime(3723), "1h 2m 3s");
    assert_eq!(fmt_uptime(90061), "25h 1m 1s");
}

fn summaries() -> (Vec<TcpPoolView>, Vec<HttpPoolView>) {
    (
        vec![TcpPoolView {
            name: "db".into(),
            algorithm: "round_robin".into(),
            active_conns: 1,
            rejected_conns: 2,
            backends: vec![
                BackendView { addr: "10.0.0.1:5432".into(), healthy: true, active_conns: 1, total_conns: 9 },
                BackendView { addr: "10.0.0.2:5432".into(), healthy: false, active_conns: 0, total_conns: 3 },
            ],
        }],
        vec![HttpPoolView {
            name: "web".into(),
            routes: vec![
                HttpRouteView { host: String::new(), path_prefix: "/".into(), backends: 2 },
                HttpRouteView { host: "api.example".into(), path_prefix: "/v1".into(), backends: 1 },
            ],
        }],
    )
}

#[test]
fn topology_graph() {
    let (t, h) = summaries();
    let (nodes, edges) = build_topology(&t, &h);
    assert_eq!(nodes.len(), 5);
    assert_eq!(edges.len(), 4);
    assert_eq!(nodes[0].id, "hub");
    assert_eq!(nodes[0].kind, NodeKind::Hub);
    assert_eq!(nodes[1].id, "tcp:db:10.0.0.1:5432");
    assert_eq!(nodes[2].kind, NodeKind::Down);
    assert_eq!(edges[1].color, "#f87171");
    assert_eq!(nodes[3].id, "http:web:/");
    assert_eq!(nodes[3].label, "*/");
    assert_eq!(nodes[4].label, "api.example/v1");
    assert_eq!(edges[3].from, "hub");
    assert_eq!(edges[3].to, "http:web:/v1");
    assert_eq!(edges[3].color, "#00d2ff");
    assert_eq!(topo_color(NodeKind::Healthy.as_str()), "#34d399");
    assert_eq!(topo_color("unknown"), "#8b98a5");
}

#[test]
fn lb_tab_html() {
    let (t, h) = summaries();
    let html = lb_page_html(&t, &h);
    assert!(html.contains("<tr><td>db</td><td>round_robin</td><td class='mono'>10.0.0.1:5432</td><td><span class='pill ok'>healthy</span></td><td>1</td><td>9</td><td>1</td><td>2</td></tr>"));
    assert!(html.contains("<span class='pill bad'>down</span>"));
    assert!(html.contains("<tr><td>web</td><td>*</td><td class='mono'>/</td><td>2</td></tr>"));
    assert!(html.ends_with("</tbody></table>"));
}

#[test]
fn mesh_panel() {
    let off = MeshStatus { available: false, peers: vec![], error: None };
    assert!(mesh_panel_html(&Ok(off)).contains("wg tools unavailable"));
    let none = MeshStatus { available: true, peers: vec![], error: None };
    assert_eq!(
        mesh_panel_html(&Ok(none)),
        "<div style='color:var(--muted);font-size:13px'>no peers</div>"
    );
    let one = MeshStatus {
        available: true,
        error: None,
        peers: vec![WgPeerView {
            public_key: "ABCDEFGHIJKLMNOPQRST".into(),
            endpoint: None,
            allowed_ips: vec![],
            latest_handshake_secs_ago: Some(5),
            rx_bytes: 1,
            tx_bytes: 2,
        }],
    };
    let html = mesh_panel_html(&Ok(one));
    assert!(html.contains("<td class='mono'>ABCDEFGHIJKLMN\u{2026}</td><td>\u{2014}</td><td>1 / 2</td><td>5s ago</td>"));
    assert_eq!(
        mesh_panel_html(&Err("boom".into())),
        "<div style='color:var(--red);font-size:13px'>boom</div>"
    );
}

#[test]
fn chrome_and_history() {
    assert_eq!(tab_title("bgp"), "BGP");
    assert_eq!(tab_title("nope"), "Dashboard Overview");
    assert_eq!(next_theme("dark"), "light");
    assert_eq!(next_theme("light"), "dark");
    let mut hist = Vec::new();
    for i in 0..61usize {
        push_rib_history(&mut hist, i);
    }
    assert_eq!(hist.len(), 60);
    assert_eq!(hist[0], 1);
    assert_eq!(hist[59], 60);
}

#[test]
fn quick_actions() {
    let mut acts = default_actions();
    assert_eq!(acts.len(), 3);
    assert_eq!(acts[0].url, "/api/reload");
    assert_eq!(
        add_action(&mut acts, "  ", "GET", "/x").unwrap_err(),
        "label and URL are required"
    );
    add_action(&mut acts, " Status ", "GET", " /api/status ").unwrap();
    assert_eq!(acts[3].label, "Status");
    assert_eq!(acts[3].url, "/api/status");
    remove_action(&mut acts, 0);
    assert_eq!(acts.len(), 3);
    assert_eq!(request_method("DELETE"), HttpMethod::Delete);
    assert_eq!(request_method("patch"), HttpMethod::Get);
    assert_eq!(call_report(200, "ok"), "HTTP 200 \u{2014} ok");
    assert_eq!(action_toast("Reload", &Ok("done".into())), "Reload \u{2192} done");
    assert_eq!(http_status_error(404), "HTTP 404");
}

#[test]
fn overview_of_running_pools() {
    let t = TcpPoolState::from_config(&tcp_pool("db", &["127.0.0.1:1"]));
    let h = HttpPoolState::from_config(&http_pool("web", vec![("A.Example", "/", vec!["127.0.0.1:8"])]));
    let lb = lb_overview(&vec![t], &vec![h]);
    let (ts, hs) = (lb.tcp, lb.http);
    assert_eq!(ts[0].algorithm, "round_robin");
    assert_eq!(ts[0].backends[0].addr, "127.0.0.1:1");
    assert!(ts[0].backends[0].healthy);
    assert_eq!(hs[0].routes[0].host, "a.example");
    assert_eq!(hs[0].routes[0].backends, 1);
}

#[test]
fn reload_adds_removes_and_reports_new_pools() {
    let mut pools = vec![TcpPoolState::from_config(&tcp_pool("db", &["127.0.0.1:1", "127.0.0.1:2"]))];
    let desired = vec![
        tcp_pool("db", &["127.0.0.1:2", "127.0.0.1:3", "bad addr"]),
        tcp_pool("new", &["127.0.0.1:9"]),
    ];
    let changes = reload_tcp_pools(&mut pools, &desired);
    let text: Vec<String> = changes
        .iter()
        .map(|c| match c {
            ReloadChange::Added(p, a) => format!("+{p} {a}"),
            ReloadChange::Removed(p, a) => format!("-{p} {a}"),
            ReloadChange::RestartRequired(p) => format!("!{p}"),
        })
        .collect();
    assert_eq!(text, vec!["+db 127.0.0.1:3", "-db 127.0.0.1:1", "!new"]);
    let addrs: Vec<String> = pools[0].backends().iter().map(|b| b.addr().clone()).collect();
    assert_eq!(addrs, vec!["127.0.0.1:2".to_string(), "127.0.0.1:3".to_string()]);
}

#[test]
fn bgp_tab_rows() {
    let sessions = vec![
        BgpSessionView {
            neighbor: "10.0.0.2".into(),
            state: "established".into(),
            remote_as: Some(65002),
            prefixes_received: 3,
            flaps: 1,
        },
        BgpSessionView { neighbor: "10.0.0.3".into(), state: "active".into(), remote_as: None, prefixes_received: 0, flaps: 0 },
    ];
    assert_eq!(
        bgp_sessions_html(&Ok(sessions)),
        "<tr><td class='mono'>10.0.0.2</td><td>AS65002</td><td><span class='pill ok'>established</span></td><td>3</td><td>1</td></tr>\
<tr><td class='mono'>10.0.0.3</td><td>\u{2014}</td><td><span class='pill bad'>active</span></td><td>0</td><td>0</td></tr>"
    );
    assert_eq!(
        bgp_sessions_html(&Ok(vec![])),
        "<tr><td colspan='5' style='color:var(--muted)'>no sessions</td></tr>"
    );
    assert_eq!(
        bgp_sessions_html(&Err("down".into())),
        "<tr><td colspan='5' style='color:var(--red)'>down</td></tr>"
    );
    let routes = vec![
        RibRouteView { prefix: "192.0.2.0/24".into(), neighbor: "10.0.0.2".into(), as_path_len: Some(1), best: true },
        RibRouteView { prefix: "198.51.100.0/24".into(), neighbor: "10.0.0.3".into(), as_path_len: None, best: false },
    ];
    assert_eq!(
        rib_table_html(&Ok(routes)),
        "<tr><td class='mono'>192.0.2.0/24</td><td>10.0.0.2</td><td>1</td><td><span class='pill ok'>best</span></td></tr>\
<tr><td class='mono'>198.51.100.0/24</td><td>10.0.0.3</td><td>\u{2014}</td><td></td></tr>"
    );
    assert_eq!(rib_table_html(&Ok(vec![])), "<tr><td colspan='4' style='color:var(--muted)'>empty</td></tr>");
}
