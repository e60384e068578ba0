//! Device configuration: link monitor defaults, validation of interfaces,
//! tunnels, firewall rules and QoS classes, WireGuard public keys, versions.

use sdwanlite::device::{
    validate_public_key, ConfigVersion, DeviceConfig, DeviceId, FirewallAction, FirewallPolicy,
    FirewallRule, HealthCheckConfig, Interface, OrgId, PathLabel, PathLabelKind, ProbeType,
    PublicKey, QosClass, QosPolicy, Route, SiteId, TunnelConfig, ValidatedConfig,
    ValidationError, WireGuardTunnel,
};
use sdwanlite::net::{parse_ip, IpAddress};

const VALID_KEY: &str = "AAAAAAAAAAAAAAAAAAAAAAAAAAAAAAAAAAAAAAAAAAA=";

fn sample_path_label(name: &str) -> PathLabel {
    PathLabel {
        id: 1,
        name: name.into(),
        kind: PathLabelKind::Mpls,
        sla: String::new(),
    }
}

fn sample_tunnel(public_key: &str) -> TunnelConfig {
    TunnelConfig::WireGuard(WireGuardTunnel {
        interface: "wg0".into(),
        path_label: "MPLS-Primary".into(),
        health_check: HealthCheckConfig::default(),
        endpoint: "203.0.113.7:51820".into(),
        allowed_ips: vec![parse_ip("198.51.100.10").unwrap()],
        public_key: public_key.into(),
    })
}

fn base(hostname: &str) -> DeviceConfig {
    DeviceConfig {
        device_id: DeviceId::new(),
        org_id: OrgId::new(),
        site_id: SiteId::new(),
        hostname: hostname.into(),
        interfaces: vec![],
        tunnels: vec![],
        routes: vec![],
        firewall: FirewallPolicy::default(),
        qos: QosPolicy::default(),
        path_labels: vec![],
        version: ConfigVersion::new(1),
    }
}

#[test]
fn health_check_default_values() {
    let hc = HealthCheckConfig::default();
    assert_eq!(hc.interval_ms, 1000);
    assert_eq!(hc.threshold, 3);
    assert_eq!(hc.timeout_ms, 500);
    assert_eq!(hc.probe_type, ProbeType::Icmp);
}

#[test]
fn validate_accepts_well_formed_config() {
    let mut c = base("edge-ok");
    c.interfaces = vec![Interface {
        name: "eth0".into(),
        addresses: vec![parse_ip("203.0.113.10").unwrap()],
        mtu: 0,
        path_label: None,
    }];
    c.tunnels = vec![sample_tunnel(VALID_KEY)];
    c.routes = vec![Route {
        destination: "0.0.0.0/0".into(),
        next_hop: "203.0.113.1".into(),
        metric: 100,
    }];
    c.path_labels = vec![sample_path_label("MPLS-Primary"), sample_path_label("MPLS-Primary")];
    c.validate().expect("valid config should pass");
}

#[test]
fn validate_rejects_bad_wg_public_key() {
    let mut c = base("edge-bad");
    c.interfaces = vec![Interface {
        name: "eth0".into(),
        addresses: vec![parse_ip("203.0.113.11").unwrap()],
        mtu: 0,
        path_label: None,
    }];
    c.tunnels = vec![sample_tunnel("not-a-valid-key")];
    c.path_labels = vec![sample_path_label("MPLS-Primary")];
    match c.validate().unwrap_err() {
        ValidationError::Tunnel { interface, source } => {
            assert_eq!(interface, "wg0");
            assert!(matches!(*source, ValidationError::PublicKeyLength { .. }));
        }
        other => panic!("expected Tunnel error, got {other:?}"),
    }
}

#[test]
fn validate_rejects_empty_interface_name() {
    let mut c = base("edge-bad");
    c.interfaces = vec![Interface {
        name: String::new(),
        addresses: vec![parse_ip("203.0.113.12").unwrap()],
        mtu: 0,
        path_label: None,
    }];
    c.tunnels = vec![sample_tunnel(VALID_KEY)];
    assert!(matches!(c.validate().unwrap_err(), ValidationError::Interface { .. }));
}

#[test]
fn validate_rejects_unspecified_interface_address() {
    let mut c = base("edge-bad");
    c.interfaces = vec![Interface {
        name: "eth0".into(),
        addresses: vec![parse_ip("0.0.0.0").unwrap()],
        mtu: 0,
        path_label: None,
    }];
    match c.validate().unwrap_err() {
        ValidationError::Interface { name, message } => {
            assert_eq!(name, "eth0");
            assert!(message.contains("0.0.0.0"), "{message}");
        }
        other => panic!("unexpected {other:?}"),
    }
}

#[test]
fn validate_rejects_firewall_port_zero() {
    let mut c = base("edge-bad");
    c.firewall = FirewallPolicy {
        rules: vec![FirewallRule {
            action: FirewallAction::Drop,
            source: None,
            destination: None,
            protocol: Some("tcp".into()),
            port: Some(0),
            comment: None,
        }],
    };
    assert!(matches!(
        c.validate().unwrap_err(),
        ValidationError::FirewallRule { index: 0, .. }
    ));
}

#[test]
fn validate_rejects_qos_dscp_out_of_range() {
    let mut c = base("edge-bad");
    c.qos = QosPolicy {
        classes: vec![QosClass {
            name: "voip".into(),
            dscp: 64,
            bandwidth_bps: 0,
        }],
    };
    assert!(matches!(
        c.validate().unwrap_err(),
        ValidationError::QosClass { index: 0, .. }
    ));
}

#[test]
fn device_config_rejects_empty_interface_name() {
    let mut bad = base("edge");
    bad.interfaces = vec![Interface {
        name: "".into(),
        addresses: vec![],
        mtu: 0,
        path_label: None,
    }];
    assert!(bad.validate().is_err());
}

#[test]
fn validated_config_only_from_valid() {
    assert!(ValidatedConfig::validate(base("edge")).is_ok());
    let mut bad = base("edge");
    bad.interfaces = vec![Interface {
        name: "".into(),
        addresses: vec![],
        mtu: 0,
        path_label: None,
    }];
    assert!(ValidatedConfig::validate(bad).is_err());
}

#[test]
fn accepts_real_32_byte_base64() {
    validate_public_key(VALID_KEY).expect("VALID_KEY should pass");
    let k = PublicKey::try_from_str(VALID_KEY).unwrap();
    assert_eq!(k.as_str(), VALID_KEY);
}

#[test]
fn rejects_short_key() {
    match validate_public_key("AAAA").unwrap_err() {
        ValidationError::PublicKeyLength { actual, expected } => {
            assert_eq!(actual, 4);
            assert_eq!(expected, 44);
        }
        e => panic!("expected length error, got {e:?}"),
    }
}

#[test]
fn rejects_long_key() {
    let s = "A".repeat(64);
    assert!(matches!(
        validate_public_key(&s).unwrap_err(),
        ValidationError::PublicKeyLength { actual: 64, expected: 44 }
    ));
}

#[test]
fn rejects_non_base64_charset() {
    let mut s: String = "A".repeat(43);
    s.push('!');
    match validate_public_key(&s).unwrap_err() {
        ValidationError::PublicKeyCharset { position, byte } => {
            assert_eq!(position, 43);
            assert_eq!(byte, b'!');
        }
        e => panic!("expected charset error, got {e:?}"),
    }
}

#[test]
fn rejects_decoded_length_mismatch() {
    let s = "A".repeat(44);
    match validate_public_key(&s).unwrap_err() {
        ValidationError::PublicKeyDecodedLength { len } => {
            assert_eq!(len, 33);
        }
        e => panic!("expected decoded-length error, got {e:?}"),
    }
}

#[test]
fn public_key_newtype_round_trip() {
    let k = PublicKey::try_from_str(VALID_KEY).unwrap();
    assert_eq!(k.as_str(), VALID_KEY);
}

#[test]
fn version_strictness() {
    let c = base("edge");
    let newer = DeviceConfig {
        version: ConfigVersion::new(2),
        ..c.clone()
    };
    assert!(newer.is_strictly_newer_than(&c));
    assert!(!c.is_strictly_newer_than(&newer));
    assert!(!c.is_strictly_newer_than(&c));
}

#[test]
fn bumped_version_is_strictly_newer() {
    let c = base("edge");
    let b = c.clone().with_bumped_version();
    assert_eq!(b.version, ConfigVersion::new(2));
    assert!(b.is_strictly_newer_than(&c));
    let mut top = base("edge");
    top.version = ConfigVersion::new(u64::MAX);
    assert_eq!(top.with_bumped_version().version, ConfigVersion::new(u64::MAX));
}

#[test]
fn identifiers_render_as_hyphenated_hex() {
    let id = DeviceId::from_uuid(0x550e8400_e29b_41d4_a716_446655440000);
    assert_eq!(id.to_text(), "550e8400-e29b-41d4-a716-446655440000");
}

#[test]
fn corrupted_first_key_character_fails_validation() {
    let mut c = base("edge");
    c.tunnels.push(sample_tunnel(VALID_KEY));
    assert!(c.validate().is_ok());
    let mut key = VALID_KEY.to_string();
    key.replace_range(0..1, "!");
    c.tunnels[0] = sample_tunnel(&key);
    assert!(c.validate().is_err());
}

#[test]
fn version_displays_as_its_number() {
    assert_eq!(ConfigVersion::new(42).to_text(), "42");
    assert_eq!(ConfigVersion::new(0).to_text(), "0");
}

#[test]
fn fresh_identifiers_are_version_4_uuids() {
    for text in [DeviceId::new().to_text(), OrgId::new().to_text(), SiteId::new().to_text()] {
        let chars: Vec<char> = text.chars().collect();
        assert_eq!(chars.len(), 36);
        assert_eq!(chars[14], '4');
        assert!("89ab".contains(chars[19]));
    }
    assert_ne!(DeviceId::new(), DeviceId::new());
}

#[test]
fn versions_order_by_number() {
    assert!(ConfigVersion::new(1) < ConfigVersion::new(2));
    assert!(ConfigVersion::new(2) > ConfigVersion::new(1));
    assert!(ConfigVersion::new(3) <= ConfigVersion::new(3));
    assert!(!(ConfigVersion::new(5) < ConfigVersion::new(5)));
    assert_eq!(ConfigVersion::new(9).max(ConfigVersion::new(4)), ConfigVersion::new(9));
}

#[test]
fn decode_failure_keeps_the_decoder_message() {
    let key = format!("A={}", "A".repeat(42));
    assert_eq!(key.len(), 44);
    match validate_public_key(&key) {
        Err(ValidationError::PublicKeyDecode(m)) => assert!(m.starts_with("Invalid"), "{m}"),
        other => panic!("unexpected: {other:?}"),
    }
}

#[test]
fn ipv6_with_embedded_ipv4_tail() {
    assert_eq!(parse_ip("::ffff:10.0.0.1"), Some(IpAddress::V6(0xffff_0a00_0001)));
    assert_eq!(parse_ip("1:2:3:4:5:6:1.2.3.4"), Some(IpAddress::V6(0x0001_0002_0003_0004_0005_0006_0102_0304)));
    assert_eq!(parse_ip("::1.2.3.4"), Some(IpAddress::V6(0x0102_0304)));
    assert_eq!(parse_ip("1.2.3.4::"), None);
    assert_eq!(parse_ip("::1.2.3.4:5"), None);
    assert_eq!(parse_ip("1:2:3:4:5:6:7:1.2.3.4"), None);
    assert_eq!(parse_ip("10.0.0.1"), Some(IpAddress::V4(0x0a00_0001)));
}
