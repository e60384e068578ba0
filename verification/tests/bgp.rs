//! BGP wire handling, the session state machine and RIB updates.

use sdwanlite::bgp::{
    encode_keepalive, encode_notification, encode_open, encode_update, parse_update,
    session_open, session_params, session_step, session_tick, take_message, Prefix, RawMessage,
    RibEntry, SessionPhase, SessionState, MSG_KEEPALIVE, MSG_NOTIFICATION, MSG_OPEN, MSG_UPDATE,
    should_dial, BGP_PORT,
};
use sdwanlite::config::{Bgp, BgpNeighbor};

fn cfg() -> Bgp {
    Bgp {
        enabled: true,
        router_id: "10.0.0.1".into(),
        local_as: 70000,
        listen_port: 179,
        hold_time_secs: 180,
        neighbors: vec![BgpNeighbor {
            ip: "192.0.2.2".into(),
            remote_as: 65002,
            import_allowlist: None,
            export_allowlist: None,
            local_pref: 100,
        }],
        networks: vec!["10.1.0.0/16".into(), "bogus".into()],
        import_allowlist: vec![],
        multipath: false,
        route_reflector: false,
        cluster_id: String::new(),
    }
}

#[test]
fn state_names() {
    assert_eq!(SessionState::OpenConfirm.as_str(), "open_confirm");
    assert_eq!(SessionState::Established.as_str(), "established");
}

#[test]
fn prefix_text_roundtrip() {
    let p = Prefix::parse("10.1.0.0/16").unwrap();
    assert_eq!(p.bits, 16);
    assert_eq!(p.octets, [10, 1, 0, 0]);
    assert_eq!(p.to_text(), "10.1.0.0/16");
    assert!(Prefix::parse("10.1.0.0").is_none());
    assert!(Prefix::parse("10.1.0.300/8").is_none());
}

#[test]
fn message_encodings() {
    let ka = encode_keepalive();
    assert_eq!(ka.len(), 19);
    assert!(ka[..16].iter().all(|b| *b == 0xff));
    assert_eq!(&ka[16..], &[0, 19, MSG_KEEPALIVE]);
    let n = encode_notification(2, 2);
    assert_eq!(&n[16..], &[0, 21, MSG_NOTIFICATION, 2, 2]);
    let o = encode_open(65001, 180, 0x0a000001);
    assert_eq!(&o[16..], &[0, 29, MSG_OPEN, 4, 0xfd, 0xe9, 0, 180, 10, 0, 0, 1, 0]);
}

#[test]
fn update_roundtrip() {
    let ps = vec![Prefix::parse("10.1.0.0/16").unwrap(), Prefix::parse("192.0.2.0/24").unwrap()];
    let m = encode_update(&ps, &[], 0x0a000001, 65001);
    let mut buf = m.clone();
    let msg = take_message(&mut buf).unwrap().unwrap();
    assert!(buf.is_empty());
    assert_eq!(msg.msg_type, MSG_UPDATE);
    let (announced, withdrawn) = parse_update(&msg.body);
    assert_eq!(announced, ps);
    assert!(withdrawn.is_empty());
}

#[test]
fn update_header_and_withdrawn_length_field() {
    let ps = vec![Prefix::parse("10.1.0.0/16").unwrap()];
    let m = encode_update(&ps, &[], 7, 65001);
    assert_eq!(&m[..16], &[0xffu8; 16]);
    assert_eq!(&m[16..18], &(m.len() as u16).to_be_bytes());
    assert_eq!(m[18], MSG_UPDATE);
    assert_eq!(parse_update(&m[19..]), (ps.clone(), vec![]));
    // Withdrawn prefixes are counted in the length field but not written.
    let w = vec![Prefix::parse("10.2.0.0/16").unwrap()];
    let only_withdrawn = encode_update(&[], &w, 7, 65001);
    assert_eq!(&only_withdrawn[19..21], &[0, 3]);
    assert_eq!(only_withdrawn.len(), 19 + 22);
    assert_eq!(parse_update(&only_withdrawn[19..]), (vec![], vec![]));
}

#[test]
fn framing_waits_for_whole_messages() {
    let ka = encode_keepalive();
    let mut buf = ka[..10].to_vec();
    assert!(take_message(&mut buf).unwrap().is_none());
    assert_eq!(buf.len(), 10);
    let mut bad = vec![0xffu8; 16];
    bad.extend_from_slice(&[0, 5, 4]);
    assert!(take_message(&mut bad).is_err());
}

#[test]
fn session_params_from_config() {
    let p = session_params(&cfg(), "192.0.2.2");
    assert_eq!(p.local_as, 65535);
    assert_eq!(p.router_id, 0x0a000001);
    assert_eq!(p.expected_remote_as, Some(65002));
    assert_eq!(p.networks.len(), 1);
    let q = session_params(&cfg(), "198.51.100.1");
    assert_eq!(q.expected_remote_as, None);
}

/// An OPEN body whose first two bytes hold `asn`: the session reads the
/// peer's AS from the body's first two bytes.
fn open_body(asn: u16) -> Vec<u8> {
    vec![(asn >> 8) as u8, asn as u8, 0, 180, 10, 0, 0, 2, 0, 0]
}

#[test]
fn session_reaches_established_and_learns_routes() {
    let p = session_params(&cfg(), "192.0.2.2");
    let (open, st, phase) = session_open(&p);
    assert_eq!(open, encode_open(65535, 180, 0x0a000001));
    assert_eq!(st, SessionState::OpenSent);
    let mut rib: Vec<RibEntry> = Vec::new();

    let s = session_step(&p, phase, &RawMessage { msg_type: MSG_OPEN, body: open_body(65002) }, &mut rib, "192.0.2.2");
    assert_eq!(s.send, Some(encode_keepalive()));
    assert_eq!(s.record, Some(SessionState::OpenConfirm));
    assert_eq!(s.next, SessionPhase::AwaitKeepalive);

    let s = session_step(&p, s.next, &RawMessage { msg_type: MSG_KEEPALIVE, body: vec![] }, &mut rib, "192.0.2.2");
    assert_eq!(s.record, Some(SessionState::Established));
    assert_eq!(s.send, Some(encode_update(&p.networks, &[], 0x0a000001, 65535)));
    assert_eq!(s.next, SessionPhase::Established);
    assert_eq!(session_tick(s.next), Some(encode_keepalive()));

    let upd = encode_update(&[Prefix::parse("203.0.113.0/24").unwrap()], &[], 1, 65002);
    let mut buf = upd;
    let msg = take_message(&mut buf).unwrap().unwrap();
    let s2 = session_step(&p, SessionPhase::Established, &msg, &mut rib, "192.0.2.2");
    assert_eq!(s2.next, SessionPhase::Established);
    assert_eq!(rib.len(), 1);
    assert_eq!(rib[0].neighbor, "192.0.2.2");
    assert_eq!(rib[0].prefix.to_text(), "203.0.113.0/24");

    let s3 = session_step(&p, SessionPhase::Established, &RawMessage { msg_type: MSG_NOTIFICATION, body: vec![6, 2] }, &mut rib, "192.0.2.2");
    assert_eq!(s3.record, Some(SessionState::Idle));
    assert_eq!(s3.next, SessionPhase::Closed);
    assert_eq!(session_tick(SessionPhase::Closed), None);
}

#[test]
fn session_refuses_wrong_as_and_unexpected_messages() {
    let p = session_params(&cfg(), "192.0.2.2");
    let mut rib: Vec<RibEntry> = Vec::new();
    let s = session_step(&p, SessionPhase::AwaitOpen, &RawMessage { msg_type: MSG_OPEN, body: open_body(65099) }, &mut rib, "192.0.2.2");
    assert_eq!(s.send, Some(encode_notification(2, 2)));
    assert_eq!(s.next, SessionPhase::Closed);
    // a body starting with the version byte reads as AS 0x04fd
    let v4 = vec![4u8, 0xfd, 0xea, 0, 180, 10, 0, 0, 2, 0];
    let s = session_step(&p, SessionPhase::AwaitOpen, &RawMessage { msg_type: MSG_OPEN, body: v4 }, &mut rib, "192.0.2.2");
    assert_eq!(s.send, Some(encode_notification(2, 2)));
    assert_eq!(s.next, SessionPhase::Closed);
    let s = session_step(&p, SessionPhase::AwaitOpen, &RawMessage { msg_type: MSG_KEEPALIVE, body: vec![] }, &mut rib, "192.0.2.2");
    assert_eq!(s.send, None);
    assert_eq!(s.next, SessionPhase::Closed);
    let s = session_step(&p, SessionPhase::AwaitOpen, &RawMessage { msg_type: MSG_OPEN, body: vec![4, 0] }, &mut rib, "192.0.2.2");
    assert_eq!(s.next, SessionPhase::Closed);
    let s = session_step(&p, SessionPhase::AwaitKeepalive, &RawMessage { msg_type: MSG_OPEN, body: open_body(65002) }, &mut rib, "192.0.2.2");
    assert_eq!(s.next, SessionPhase::Closed);
    // an unconfigured neighbor: any AS is accepted
    let q = session_params(&cfg(), "198.51.100.1");
    let s = session_step(&q, SessionPhase::AwaitOpen, &RawMessage { msg_type: MSG_OPEN, body: open_body(1) }, &mut rib, "198.51.100.1");
    assert_eq!(s.next, SessionPhase::AwaitKeepalive);
}

#[test]
fn dialer_waits_while_established() {
    assert!(!should_dial(SessionState::Established));
    assert!(should_dial(SessionState::Idle));
    assert!(should_dial(SessionState::Active));
    assert!(should_dial(SessionState::OpenSent));
    assert_eq!(BGP_PORT, 179);
}
