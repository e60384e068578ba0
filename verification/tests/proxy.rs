//! The HTTP load balancer's request handling: heads, forwarding headers,
//! error answers, HTTP/2 translation, chunked bodies and routing.

use sdwanlite::config::{BackendProto, HttpPool, HttpRoute};
use sdwanlite::proxy::{
    buffered_body_len, chunk_frame, content_length, find_head_end, h2_request_headers,
    h2_response_head, has_body, next_body_read, parse_head, parse_request_head,
    rewrite_head_with_headers, simple_response, HttpPoolState, RouteMiss,
};

#[test]
fn head_end_is_after_the_blank_line() {
    assert_eq!(find_head_end(b"GET / HTTP/1.1\r\nHost: a\r\n\r\nbody"), Some(27));
    assert_eq!(find_head_end(b"GET / HTTP/1.1\r\n"), None);
    assert_eq!(find_head_end(b""), None);
}

#[test]
fn request_head_path_and_host() {
    assert_eq!(
        parse_request_head("GET /api/x HTTP/1.1\r\nHost: Example.COM:8080\r\nAccept: */*\r\n\r\n"),
        Some(("/api/x".to_string(), "example.com".to_string()))
    );
    assert_eq!(
        parse_request_head("GET / HTTP/1.1\r\nAccept: */*\r\n\r\n"),
        Some(("/".to_string(), String::new()))
    );
    assert_eq!(parse_request_head("GARBAGE\r\n\r\n"), None);
}

#[test]
fn forwarded_for_is_inserted_before_the_blank_line() {
    let out = rewrite_head_with_headers(b"GET / HTTP/1.1\r\nHost: a\r\n\r\n".to_vec(), "10.0.0.9");
    assert_eq!(
        String::from_utf8(out).unwrap(),
        "GET / HTTP/1.1\r\nHost: a\r\nX-Forwarded-For: 10.0.0.9\r\n\r\n"
    );
    let partial = b"GET / HTTP/1.1\r\n".to_vec();
    assert_eq!(rewrite_head_with_headers(partial.clone(), "1.2.3.4"), partial);
}

#[test]
fn json_error_answer() {
    assert_eq!(
        simple_response(502, "bad gateway"),
        "HTTP/1.1 502 bad gateway\r\nContent-Type: application/json\r\nContent-Length: 23\r\nConnection: close\r\n\r\n{\"error\":\"bad gateway\"}"
    );
}

#[test]
fn h2_translation() {
    let head = parse_head(
        "POST /upload HTTP/1.1\r\nHost: files.example\r\nConnection: keep-alive\r\nContent-Length: 0\r\nX-Id: 7\r\n\r\n",
    )
    .unwrap();
    assert_eq!(head.method, "POST");
    assert_eq!(head.path, "/upload");
    assert_eq!(head.authority, "files.example");
    let cl = content_length(&head.headers);
    assert_eq!(cl, Some(0));
    assert!(!has_body(cl));
    assert!(has_body(None));
    let hs = h2_request_headers(&head, has_body(cl));
    let names: Vec<&str> = hs.iter().map(|(n, _)| n.as_str()).collect();
    assert_eq!(hs[0], ("host".to_string(), "files.example".to_string()));
    assert!(!names.iter().any(|n| n.eq_ignore_ascii_case("connection")));
    assert!(!names.iter().any(|n| n.eq_ignore_ascii_case("content-length")));
    assert!(names.iter().any(|n| n.eq_ignore_ascii_case("x-id")));
    let resp = h2_response_head(200, &vec![("content-type".to_string(), "text/plain".to_string())]);
    assert!(resp.starts_with("HTTP/1.1 200"));
    assert!(resp.contains("content-type: text/plain\r\n"));
}

#[test]
fn parse_head_drops_hop_by_hop_and_refuses_bad_methods() {
    let head = parse_head(
        "get /x HTTP/1.1\r\nHost: a.example\r\nCONNECTION: close\r\nKeep-Alive: 5\r\nProxy-Connection: x\r\nTransfer-Encoding: chunked\r\nUpgrade: h2c\r\nX-A: 1\r\n\r\n",
    )
    .unwrap();
    assert_eq!(head.method, "GET");
    assert_eq!(head.path, "/x");
    assert_eq!(head.authority, "a.example");
    assert_eq!(head.headers, vec![("X-A".to_string(), "1".to_string())]);
    assert!(parse_head("G3T / HTTP/1.1\r\n\r\n").is_none());
    assert!(parse_head("GET\r\n\r\n").is_none());
}

#[test]
fn chunks_and_body_sizes() {
    assert_eq!(chunk_frame(b"hello"), b"5\r\nhello\r\n".to_vec());
    assert_eq!(chunk_frame(&[0u8; 26]).len(), "1a\r\n".len() + 26 + 2);
    assert!(chunk_frame(b"").is_empty());
    assert_eq!(buffered_body_len(Some(3), 10), 3);
    assert_eq!(buffered_body_len(None, 10), 10);
    assert_eq!(next_body_read(100, 90, 64), 10);
    assert_eq!(next_body_read(100, 0, 64), 64);
    assert_eq!(next_body_read(100, 100, 64), 0);
}

fn pool() -> HttpPool {
    HttpPool {
        name: "web".into(),
        listen: "127.0.0.1:0".into(),
        tls: None,
        health_interval_secs: 5,
        health_timeout_secs: 2,
        health_check_path: None,
        backend_proto: BackendProto::Http1,
        routes: vec![
            HttpRoute { host: String::new(), path_prefix: String::new(), backends: vec!["127.0.0.1:1".into()] },
            HttpRoute { host: String::new(), path_prefix: "/api".into(), backends: vec!["127.0.0.1:2".into()] },
            HttpRoute { host: "Admin.Example".into(), path_prefix: "/".into(), backends: vec!["127.0.0.1:3".into(), "127.0.0.1:4".into()] },
        ],
    }
}

#[test]
fn longest_matching_prefix_wins() {
    let p = HttpPoolState::from_config(&pool());
    assert_eq!(p.select_route("x", "/api/users"), Some(1));
    assert_eq!(p.select_route("x", "/index.html"), Some(0));
    assert_eq!(p.select_route("admin.example", "/api"), Some(1));
    assert_eq!(p.select_route("admin.example", "/home"), Some(2));
    assert_eq!(p.routes()[2].host(), "admin.example");
}

#[test]
fn backend_selection_and_admission() {
    let mut p = HttpPoolState::from_config(&pool());
    // least connections: with no connection open the first backend is chosen
    assert_eq!(p.select_backend(2), Some(0));
    assert_eq!(p.select_backend(2), Some(0));
    p.set_max_conns(1);
    assert!(p.accept_client());
    assert!(!p.accept_client());
    assert_eq!(p.rejected_conns(), 1);
    p.connection_closed();
    assert_eq!(p.active_conns(), 0);
}

#[test]
fn route_backend_bookkeeping() {
    let mut p = HttpPoolState::from_config(&pool());
    let n = p.routes()[2].backends().len();
    assert!(n >= 2);
    // a connection open on the first backend moves least-connections on
    p.route_backend_mut(2, 0).connected(100);
    assert_eq!(p.routes()[2].backends()[0].active_conns(), 1);
    assert_eq!(p.select_backend(2), Some(1));
    p.route_backend_mut(2, 0).release();
    assert_eq!(p.routes()[2].backends()[0].active_conns(), 0);
    assert_eq!(p.routes()[0].backends()[0].total_conns(), 0);
}

#[test]
fn route_for_head_answers_400_and_404() {
    let mut one = pool();
    one.routes = vec![HttpRoute {
        host: "a.example".into(),
        path_prefix: "/api".into(),
        backends: vec!["127.0.0.1:1".into()],
    }];
    let p = HttpPoolState::from_config(&one);
    assert_eq!(p.route_for_head("GET /api/x HTTP/1.1\r\nHost: a.example\r\n\r\n"), Ok(0));
    assert_eq!(p.route_for_head("GET\r\n\r\n"), Err(RouteMiss::BadRequest));
    assert_eq!(p.route_for_head("GET /other HTTP/1.1\r\nHost: a.example\r\n\r\n"), Err(RouteMiss::NoRoute));
    assert_eq!(RouteMiss::BadRequest.response(), simple_response(400, "Bad Request"));
    assert_eq!(RouteMiss::NoRoute.response(), simple_response(404, "no route matched"));
    assert!(RouteMiss::NoRoute.response().starts_with("HTTP/1.1 404 no route matched\r\n"));
}

#[test]
fn retries_and_failed_backends() {
    let mut cfg = pool();
    cfg.routes.push(HttpRoute { host: String::new(), path_prefix: "/none".into(), backends: vec![] });
    let mut p = HttpPoolState::from_config(&cfg);
    assert_eq!(p.max_tries(2), 2);
    assert_eq!(p.max_tries(0), 1);
    assert_eq!(p.max_tries(3), 1, "a route without backends is still tried once");
    p.connect_failed(2, 0);
    assert!(!p.routes()[2].backends()[0].is_healthy());
    assert_eq!(p.routes()[2].backends()[0].health_failures(), 1);
    assert!(p.routes()[2].backends()[1].is_healthy());
    assert_eq!(p.select_backend(2), Some(1), "the failed backend is skipped");
    p.route_backend_mut(2, 1).connected(10);
    p.upload_failed(2, 1);
    assert_eq!(p.routes()[2].backends()[1].active_conns(), 0);
    assert!(!p.routes()[2].backends()[1].is_healthy());
}
