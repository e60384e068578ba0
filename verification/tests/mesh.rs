//! WireGuard mesh: keys, configuration rendering, validation and the status
//! dump.

use sdwanlite::config::{Mesh, Peer};
use sdwanlite::mesh::{
    decode_key, generate_keypair, parse_wg_dump, parse_wg_dump_at, public_from_private,
    render_wg_config, render_wg_setconf, validate, MeshError,
};

#[test]
fn keypair_is_valid_and_derivable() {
    let kp = generate_keypair();
    let derived = public_from_private(&kp.private_b64).unwrap();
    assert_eq!(derived, kp.public_b64);
}

#[test]
fn keypairs_differ_and_are_44_chars() {
    let a = generate_keypair();
    let b = generate_keypair();
    assert_ne!(a.private_b64, b.private_b64);
    assert_eq!(a.private_b64.len(), 44);
    assert_eq!(a.public_b64.len(), 44);
    assert_ne!(a.private_b64, a.public_b64);
}

#[test]
fn known_x25519_public_key() {
    // RFC 7748 section 6.1, Alice's key pair.
    let private = "dwdtCnMYpX08FsFyUbJmRd9ML4frwJkqsXf7pR25LCo=";
    let public = "hSDwCYkwp1R0i33ctD73Wg2/Og0mOBr066SpjqqbTmo=";
    assert_eq!(public_from_private(private).unwrap(), public);
}

#[test]
fn bad_keys_are_refused() {
    assert!(matches!(decode_key("not-base64!!"), Err(MeshError::BadKey)));
    assert!(matches!(decode_key("AAAA"), Err(MeshError::BadKey)));
    assert_eq!(decode_key("AAAAAAAAAAAAAAAAAAAAAAAAAAAAAAAAAAAAAAAAAAA=").unwrap().len(), 32);
    assert!(public_from_private("AAAA").is_err());
}

#[test]
fn renders_wg_quick_config() {
    let kp = generate_keypair();
    let mesh = Mesh {
        enabled: true,
        private_key: kp.private_b64.clone(),
        listen_port: 51820,
        peers: vec![Peer {
            name: "site-b".into(),
            public_key: "invalid".into(),
            endpoint: Some("203.0.113.2:51820".into()),
            allowed_ips: vec!["10.100.0.2/32".into()],
            keepalive_secs: 25,
        }],
    };
    let conf = render_wg_config("sdwanlite0", &mesh).unwrap();
    assert!(conf.contains(&format!("PrivateKey = {}", kp.private_b64)));
    assert!(conf.contains("ListenPort = 51820"));
    assert!(conf.contains("[Peer]"));
    assert!(conf.contains("AllowedIPs = 10.100.0.2/32"));
    assert!(conf.contains("PersistentKeepalive = 25"));
}

#[test]
fn rejects_empty_private_key() {
    let mesh = Mesh::default();
    assert!(render_wg_config("x", &mesh).is_err());
}

#[test]
fn validate_good_and_bad() {
    let kp = generate_keypair();
    let good = Mesh {
        enabled: true,
        private_key: kp.private_b64.clone(),
        listen_port: 51820,
        peers: vec![Peer {
            name: "b".into(),
            public_key: kp.public_b64.clone(),
            endpoint: Some("203.0.113.2:51820".into()),
            allowed_ips: vec!["10.100.0.2/32".into()],
            keepalive_secs: 0,
        }],
    };
    assert!(validate(&good).is_ok());

    let bad = Mesh {
        enabled: true,
        private_key: "not-base64!!".into(),
        listen_port: 51820,
        peers: vec![
            Peer {
                name: "dup".into(),
                public_key: kp.public_b64.clone(),
                endpoint: None,
                allowed_ips: vec!["garbage".into()],
                keepalive_secs: 0,
            },
            Peer {
                name: "dup".into(),
                public_key: kp.public_b64.clone(),
                endpoint: None,
                allowed_ips: vec![],
                keepalive_secs: 0,
            },
        ],
    };
    let problems = validate(&bad).unwrap_err();
    assert!(problems.iter().any(|p| p.contains("private_key")), "{problems:?}");
    assert!(problems.iter().any(|p| p.contains("duplicate")), "{problems:?}");
    assert!(problems.iter().any(|p| p.contains("allowed_ips")), "{problems:?}");
}

#[test]
fn setconf_render_differs_from_wg_quick() {
    let kp = generate_keypair();
    let mesh = Mesh {
        enabled: true,
        private_key: kp.private_b64.clone(),
        listen_port: 51820,
        peers: vec![],
    };
    let sc = render_wg_setconf(&mesh).unwrap();
    assert!(!sc.contains("[Interface]"));
    assert!(sc.starts_with("private_key"));
}

#[test]
fn setconf_has_no_port_or_address_line() {
    let k = "AAAAAAAAAAAAAAAAAAAAAAAAAAAAAAAAAAAAAAAAAAA=";
    let mesh = Mesh { enabled: true, private_key: k.into(), listen_port: 51820, peers: vec![] };
    let r = render_wg_setconf(&mesh).unwrap();
    assert!(r.starts_with(&format!("private_key = {k}")));
    assert!(!r.contains("[Interface]"));
    assert!(!r.lines().any(|l| {
        let l = l.to_ascii_lowercase();
        l.starts_with("listen_port") || l.starts_with("listenport") || l.starts_with("address")
    }));
    assert_eq!(r, format!("private_key = {k}\n"));
}

#[test]
fn parses_dump_with_never_handshaked_peer() {
    let dump = "interface\tpubkey\tpsk\tendpoint\tallowed\thandshake\trx\ttx\tka\nsdwanlite0\tKEYA\t(none)\t203.0.113.2:51820\t10.100.0.2/32\t1700000000\t1000\t2000\t25\nsdwanlite0\tKEYB\t(none)\t(none)\t10.100.0.3/32\t0\t0\t0\t0\n";
    let peers = parse_wg_dump(dump);
    assert_eq!(peers.len(), 2);
    assert_eq!(peers[0].rx_bytes, 1000);
    assert!(peers[0].latest_handshake_secs_ago.is_some());
    assert!(peers[1].latest_handshake_secs_ago.is_none());
}

#[test]
fn dump_fields_at_a_given_time() {
    let dump = "wg0\tPRIV\tPUB\t51820\toff\nwg0\tKEYA\t(none)\t203.0.113.2:51820\t10.0.0.2/32,10.0.0.3/32\t1000\t11\t22\t0\n";
    let peers = parse_wg_dump_at(dump, 1500);
    assert_eq!(peers.len(), 1);
    let p = &peers[0];
    assert_eq!(p.interface, "wg0");
    assert_eq!(p.public_key, "KEYA");
    assert_eq!(p.endpoint.as_deref(), Some("203.0.113.2:51820"));
    assert_eq!(p.allowed_ips, vec!["10.0.0.2/32".to_string(), "10.0.0.3/32".to_string()]);
    assert_eq!(p.latest_handshake_secs_ago, Some(500));
    assert_eq!(p.rx_bytes, 11);
    assert_eq!(p.tx_bytes, 22);
}

#[test]
fn keypair_display_shows_public_half_only() {
    let kp = generate_keypair();
    let shown = kp.to_text();
    assert_eq!(shown, format!("public={}", kp.public_b64));
    assert!(!shown.contains(&kp.private_b64));
}
