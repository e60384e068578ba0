//! The agent binary's command line.

use sdwanlite::cli::{
    choose_token, controller_bind, parse_agent_args, token_file_mode_ok, AgentMode, ArgsOutcome,
};
use sdwanlite::net::IpAddress;

fn args(v: &[&str]) -> Vec<String> {
    v.iter().map(|s| s.to_string()).collect()
}

fn run(v: &[&str]) -> sdwanlite::cli::AgentArgs {
    match parse_agent_args(&args(v)).unwrap() {
        ArgsOutcome::Run(a) => a,
        other => panic!("unexpected {other:?}"),
    }
}

#[test]
fn defaults() {
    let a = run(&[]);
    assert_eq!(a.mode, AgentMode::Agent);
    assert_eq!(a.controller_url, "http://127.0.0.1:8080");
    assert!(a.bootstrap_token.is_none());
    assert!(a.bind.is_none());
    assert!(!a.enable_live_actions);
}

#[test]
fn all_flags() {
    let a = run(&[
        "--mode",
        "controller",
        "--controller",
        "http://localhost:9000",
        "--bind",
        "127.0.0.1:8081",
        "--bootstrap-token",
        "t0k",
        "--bootstrap-token-file",
        "/etc/tok",
        "--device-id",
        "550e8400-e29b-41d4-a716-446655440000",
        "--org-id",
        "550e8400e29b41d4a716446655440001",
        "--site-id",
        "{550e8400-e29b-41d4-a716-446655440002}",
        "--hostname",
        "edge-1",
        "--enable-live-actions",
    ]);
    assert_eq!(a.mode, AgentMode::Controller);
    assert_eq!(a.controller_url, "http://localhost:9000");
    assert_eq!(a.bind, Some((IpAddress::V4(0x7f000001), 8081)));
    assert_eq!(a.bootstrap_token.as_deref(), Some("t0k"));
    assert_eq!(a.bootstrap_token_file.as_deref(), Some("/etc/tok"));
    assert_eq!(a.device_id, Some(0x550e8400_e29b_41d4_a716_446655440000));
    assert_eq!(a.org_id, Some(0x550e8400_e29b_41d4_a716_446655440001));
    assert_eq!(a.site_id, Some(0x550e8400_e29b_41d4_a716_446655440002));
    assert_eq!(a.hostname.as_deref(), Some("edge-1"));
    assert!(a.enable_live_actions);
}

#[test]
fn ipv6_bind() {
    let a = run(&["--bind", "[::1]:8080"]);
    assert_eq!(a.bind, Some((IpAddress::V6(1), 8080)));
}

#[test]
fn version_and_help_stop_the_scan() {
    assert!(matches!(parse_agent_args(&args(&["--version", "--bogus"])), Ok(ArgsOutcome::ShowVersion)));
    assert!(matches!(parse_agent_args(&args(&["-V"])), Ok(ArgsOutcome::ShowVersion)));
    assert!(matches!(parse_agent_args(&args(&["-h"])), Ok(ArgsOutcome::ShowHelp)));
    assert!(matches!(parse_agent_args(&args(&["--hostname", "x", "--help"])), Ok(ArgsOutcome::ShowHelp)));
}

#[test]
fn errors() {
    let e = |v: &[&str]| parse_agent_args(&args(v)).unwrap_err();
    assert_eq!(e(&["--mode"]), "--mode requires a value (agent|controller)");
    assert_eq!(e(&["--mode", "router"]), "unknown mode: router");
    assert_eq!(e(&["--controller"]), "--controller requires a URL");
    assert_eq!(e(&["--bind"]), "--bind requires host:port");
    assert_eq!(e(&["--bind", "nowhere"]), "invalid bind address");
    assert_eq!(e(&["--device-id"]), "--device-id requires a UUID");
    assert_eq!(e(&["--device-id", "xyz"]), "invalid device-id");
    assert_eq!(e(&["--org-id", "xyz"]), "invalid org-id");
    assert_eq!(e(&["--site-id", "xyz"]), "invalid site-id");
    assert_eq!(e(&["--hostname"]), "--hostname requires a value");
    assert_eq!(e(&["--frobnicate"]), "unknown flag: --frobnicate");
    // the first fault wins
    assert_eq!(e(&["--mode", "x", "--bogus"]), "unknown mode: x");
}

#[test]
fn token_sources() {
    assert_eq!(choose_token(Some("  secret\n"), Some("flag")).unwrap(), "secret");
    assert_eq!(choose_token(None, Some("flag")).unwrap(), "flag");
    assert_eq!(
        choose_token(None, None).unwrap_err(),
        "no bootstrap token provided (use --bootstrap-token or --bootstrap-token-file)"
    );
    assert!(token_file_mode_ok(0o100600));
    assert!(!token_file_mode_ok(0o100644));
}

#[test]
fn controller_bind_policy() {
    assert_eq!(controller_bind(None, false), Ok((IpAddress::V4(0x7f000001), 8080)));
    let public = (IpAddress::V4(0xc0a80105), 8080);
    assert_eq!(controller_bind(Some(public), false), Err(public));
    assert_eq!(controller_bind(Some(public), true), Ok(public));
    assert_eq!(
        controller_bind(Some((IpAddress::V6(1), 9)), false),
        Ok((IpAddress::V6(1), 9))
    );
}
