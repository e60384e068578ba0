//! Command-line arguments of the agent binary: the flag grammar, the values
//! each flag takes, and where the bootstrap token comes from.
use vstd::prelude::*;

use crate::codec::{parse_uuid, uuid_parse_result};
use crate::net::{parse_socket_addr, socket_addr_parse, IpAddress};
use crate::text::{append_str, str_eq, string_from, trim_spec, trim_str};

verus! {

broadcast use vstd::string::group_string_axioms;

/// Which side of the control plane the binary runs.
#[derive(Debug, Clone, Copy, PartialEq, Eq, Structural)]
pub enum AgentMode {
    Agent,
    Controller,
}

/// The parsed flags.
#[derive(Debug)]
pub struct AgentArgs {
    pub mode: AgentMode,
    pub controller_url: String,
    pub bootstrap_token: Option<String>,
    pub bootstrap_token_file: Option<String>,
    pub device_id: Option<u128>,
    pub org_id: Option<u128>,
    pub site_id: Option<u128>,
    pub hostname: Option<String>,
    pub bind: Option<(IpAddress, u16)>,
    pub enable_live_actions: bool,
}

/// The flags as mathematical values.
pub struct ArgsView {
    pub mode: AgentMode,
    pub controller_url: Seq<char>,
    pub bootstrap_token: Option<Seq<char>>,
    pub bootstrap_token_file: Option<Seq<char>>,
    pub device_id: Option<u128>,
    pub org_id: Option<u128>,
    pub site_id: Option<u128>,
    pub hostname: Option<Seq<char>>,
    pub bind: Option<(IpAddress, u16)>,
    pub enable_live_actions: bool,
}

pub open spec fn opt_text(o: Option<String>) -> Option<Seq<char>> {
    match o {
        Some(s) => Some(s@),
        None => None,
    }
}

impl View for AgentArgs {
    type V = ArgsView;

    open spec fn view(&self) -> ArgsView {
        ArgsView {
            mode: self.mode,
            controller_url: self.controller_url@,
            bootstrap_token: opt_text(self.bootstrap_token),
            bootstrap_token_file: opt_text(self.bootstrap_token_file),
            device_id: self.device_id,
            org_id: self.org_id,
            site_id: self.site_id,
            hostname: opt_text(self.hostname),
            bind: self.bind,
            enable_live_actions: self.enable_live_actions,
        }
    }
}

/// What a run of the binary asks for.
#[derive(Debug)]
pub enum ArgsOutcome {
    Run(AgentArgs),
    ShowVersion,
    ShowHelp,
}

pub enum ArgsOutcomeView {
    Run(ArgsView),
    ShowVersion,
    ShowHelp,
}

impl View for ArgsOutcome {
    type V = ArgsOutcomeView;

    open spec fn view(&self) -> ArgsOutcomeView {
        match self {
            ArgsOutcome::Run(a) => ArgsOutcomeView::Run(a@),
            ArgsOutcome::ShowVersion => ArgsOutcomeView::ShowVersion,
            ArgsOutcome::ShowHelp => ArgsOutcomeView::ShowHelp,
        }
    }
}

/// Agent mode, the loopback controller URL, nothing else set.
pub open spec fn default_args() -> ArgsView {
    ArgsView {
        mode: AgentMode::Agent,
        controller_url: "http://127.0.0.1:8080"@,
        bootstrap_token: None,
        bootstrap_token_file: None,
        device_id: None,
        org_id: None,
        site_id: None,
        hostname: None,
        bind: None,
        enable_live_actions: false,
    }
}

/// The identifier flags.
#[derive(Debug, Clone, Copy, PartialEq, Eq, Structural)]
pub enum IdFlag {
    Device,
    Org,
    Site,
}

pub open spec fn invalid_id_message(which: IdFlag) -> Seq<char> {
    match which {
        IdFlag::Device => "invalid device-id"@,
        IdFlag::Org => "invalid org-id"@,
        IdFlag::Site => "invalid site-id"@,
    }
}

pub open spec fn with_id(a: ArgsView, which: IdFlag, u: u128) -> ArgsView {
    match which {
        IdFlag::Device => ArgsView { device_id: Some(u), ..a },
        IdFlag::Org => ArgsView { org_id: Some(u), ..a },
        IdFlag::Site => ArgsView { site_id: Some(u), ..a },
    }
}

/// The value of an identifier flag after its text went through the UUID
/// parser: a parsed UUID is stored, anything else is refused.
pub open spec fn id_step(a: ArgsView, which: IdFlag, parsed: Option<u128>) -> Result<ArgsView, Seq<char>> {
    match parsed {
        Some(u) => Ok(with_id(a, which, u)),
        None => Err(invalid_id_message(which)),
    }
}

/// The arguments from position `i` on, applied to the flags `a` gathered so
/// far. A flag that takes a value consumes the next argument; `--version`
/// and `--help` end the scan; the first fault ends it with its message.
pub open spec fn args_from(args: Seq<Seq<char>>, i: int, a: ArgsView) -> Result<ArgsOutcomeView, Seq<char>>
    decreases args.len() - i,
{
    if i < 0 || i >= args.len() {
        Ok(ArgsOutcomeView::Run(a))
    } else {
        let f = args[i];
        let more = i + 1 < args.len();
        let v = args[i + 1];
        if f == "--mode"@ {
            if !more {
                Err("--mode requires a value (agent|controller)"@)
            } else if v == "agent"@ {
                args_from(args, i + 2, ArgsView { mode: AgentMode::Agent, ..a })
            } else if v == "controller"@ {
                args_from(args, i + 2, ArgsView { mode: AgentMode::Controller, ..a })
            } else {
                Err("unknown mode: "@ + v)
            }
        } else if f == "--controller"@ {
            if !more {
                Err("--controller requires a URL"@)
            } else {
                args_from(args, i + 2, ArgsView { controller_url: v, ..a })
            }
        } else if f == "--bind"@ {
            if !more {
                Err("--bind requires host:port"@)
            } else {
                match socket_addr_parse(v) {
                    Some(b) => args_from(args, i + 2, ArgsView { bind: Some(b), ..a }),
                    None => Err("invalid bind address"@),
                }
            }
        } else if f == "--bootstrap-token"@ {
            if !more {
                Err("--bootstrap-token requires a value"@)
            } else {
                args_from(args, i + 2, ArgsView { bootstrap_token: Some(v), ..a })
            }
        } else if f == "--bootstrap-token-file"@ {
            if !more {
                Err("--bootstrap-token-file requires a path"@)
            } else {
                args_from(args, i + 2, ArgsView { bootstrap_token_file: Some(v), ..a })
            }
        } else if f == "--device-id"@ || f == "--org-id"@ || f == "--site-id"@ {
            let which = if f == "--device-id"@ {
                IdFlag::Device
            } else if f == "--org-id"@ {
                IdFlag::Org
            } else {
                IdFlag::Site
            };
            if !more {
                Err(
                    if f == "--device-id"@ {
                        "--device-id requires a UUID"@
                    } else if f == "--org-id"@ {
                        "--org-id requires a UUID"@
                    } else {
                        "--site-id requires a UUID"@
                    },
                )
            } else {
                match id_step(a, which, uuid_parse_result(v)) {
                    Ok(b) => args_from(args, i + 2, b),
                    Err(m) => Err(m),
                }
            }
        } else if f == "--hostname"@ {
            if !more {
                Err("--hostname requires a value"@)
            } else {
                args_from(args, i + 2, ArgsView { hostname: Some(v), ..a })
            }
        } else if f == "--enable-live-actions"@ {
            args_from(args, i + 1, ArgsView { enable_live_actions: true, ..a })
        } else if f == "--version"@ || f == "-V"@ {
            Ok(ArgsOutcomeView::ShowVersion)
        } else if f == "--help"@ || f == "-h"@ {
            Ok(ArgsOutcomeView::ShowHelp)
        } else {
            Err("unknown flag: "@ + f)
        }
    }
}

pub open spec fn texts(args: Seq<String>) -> Seq<Seq<char>> {
    args.map_values(|s: String| s@)
}

/// The arguments after the program name, read as the agent's flags.
pub open spec fn parse_args_spec(args: Seq<String>) -> Result<ArgsOutcomeView, Seq<char>> {
    args_from(texts(args), 0, default_args())
}

fn joined(prefix: &str, tail: &str) -> (r: String)
    ensures
        r@ == prefix@ + tail@,
{
    let mut m: Vec<char> = Vec::new();
    append_str(&mut m, prefix);
    append_str(&mut m, tail);
    string_from(&m)
}

/// Stores the UUID that an identifier flag's text parsed to, or refuses the
/// flag when the text was no UUID.
pub fn apply_id(a: &mut AgentArgs, which: IdFlag, parsed: Option<u128>) -> (r: Result<(), String>)
    ensures
        match id_step(old(a)@, which, parsed) {
            Ok(b) => r is Ok && final(a)@ == b,
            Err(m) => r matches Err(e) && e@ == m && final(a)@ == old(a)@,
        },
{
    match parsed {
        Some(u) => {
            match which {
                IdFlag::Device => a.device_id = Some(u),
                IdFlag::Org => a.org_id = Some(u),
                IdFlag::Site => a.site_id = Some(u),
            }
            Ok(())
        },
        None => Err(
            match which {
                IdFlag::Device => String::from_str("invalid device-id"),
                IdFlag::Org => String::from_str("invalid org-id"),
                IdFlag::Site => String::from_str("invalid site-id"),
            },
        ),
    }
}

fn default_agent_args() -> (r: AgentArgs)
    ensures
        r@ == default_args(),
{
    AgentArgs {
        mode: AgentMode::Agent,
        controller_url: String::from_str("http://127.0.0.1:8080"),
        bootstrap_token: None,
        bootstrap_token_file: None,
        device_id: None,
        org_id: None,
        site_id: None,
        hostname: None,
        bind: None,
        enable_live_actions: false,
    }
}

/// Reads the arguments that follow the program name. `ShowVersion` and
/// `ShowHelp` stand for the flags that print and exit.
pub fn parse_agent_args(args: &Vec<String>) -> (r: Result<ArgsOutcome, String>)
    ensures
        match r {
            Ok(o) => parse_args_spec(args@) == Ok::<ArgsOutcomeView, Seq<char>>(o@),
            Err(m) => parse_args_spec(args@) == Err::<ArgsOutcomeView, Seq<char>>(m@),
        },
{
    let ghost t = texts(args@);
    let mut a = default_agent_args();
    let mut i: usize = 0;
    while i < args.len()
        invariant
            i <= args.len(),
            t == texts(args@),
            t.len() == args.len(),
            parse_args_spec(args@) == args_from(t, i as int, a@),
        decreases args.len() - i,
    {
        let f = args[i].as_str();
        let more = i + 1 < args.len();
        assert(f@ == t[i as int]);
        proof {
            if more {
                assert(args@[i + 1]@ == t[i + 1]);
            }
        }
        if str_eq(f, "--mode") {
            if !more {
                return Err(String::from_str("--mode requires a value (agent|controller)"));
            }
            let v = args[i + 1].as_str();
            if str_eq(v, "agent") {
                a.mode = AgentMode::Agent;
            } else if str_eq(v, "controller") {
                a.mode = AgentMode::Controller;
            } else {
                return Err(joined("unknown mode: ", v));
            }
            i = i + 2;
        } else if str_eq(f, "--controller") {
            if !more {
                return Err(String::from_str("--controller requires a URL"));
            }
            a.controller_url = args[i + 1].clone();
            i = i + 2;
        } else if str_eq(f, "--bind") {
            if !more {
                return Err(String::from_str("--bind requires host:port"));
            }
            match parse_socket_addr(args[i + 1].as_str()) {
                Some(b) => {
                    a.bind = Some(b);
                },
                None => {
                    return Err(String::from_str("invalid bind address"));
                },
            }
            i = i + 2;
        } else if str_eq(f, "--bootstrap-token") {
            if !more {
                return Err(String::from_str("--bootstrap-token requires a value"));
            }
            a.bootstrap_token = Some(args[i + 1].clone());
            i = i + 2;
        } else if str_eq(f, "--bootstrap-token-file") {
            if !more {
                return Err(String::from_str("--bootstrap-token-file requires a path"));
            }
            a.bootstrap_token_file = Some(args[i + 1].clone());
            i = i + 2;
        } else if str_eq(f, "--device-id") || str_eq(f, "--org-id") || str_eq(f, "--site-id") {
            let which = if str_eq(f, "--device-id") {
                IdFlag::Device
            } else if str_eq(f, "--org-id") {
                IdFlag::Org
            } else {
                IdFlag::Site
            };
            if !more {
                return Err(
                    match which {
                        IdFlag::Device => String::from_str("--device-id requires a UUID"),
                        IdFlag::Org => String::from_str("--org-id requires a UUID"),
                        IdFlag::Site => String::from_str("--site-id requires a UUID"),
                    },
                );
            }
            let parsed = parse_uuid(args[i + 1].as_str());
            match apply_id(&mut a, which, parsed) {
                Ok(()) => {},
                Err(m) => {
                    return Err(m);
                },
            }
            i = i + 2;
        } else if str_eq(f, "--hostname") {
            if !more {
                return Err(String::from_str("--hostname requires a value"));
            }
            a.hostname = Some(args[i + 1].clone());
            i = i + 2;
        } else if str_eq(f, "--enable-live-actions") {
            a.enable_live_actions = true;
            i = i + 1;
        } else if str_eq(f, "--version") || str_eq(f, "-V") {
            return Ok(ArgsOutcome::ShowVersion);
        } else if str_eq(f, "--help") || str_eq(f, "-h") {
            return Ok(ArgsOutcome::ShowHelp);
        } else {
            return Err(joined("unknown flag: ", f));
        }
    }
    Ok(ArgsOutcome::Run(a))
}

// ---------------------------------------------------------------------------
// Bootstrap token and bind address
// ---------------------------------------------------------------------------

/// A token file is accepted only with permission bits `0600`.
pub open spec fn token_file_mode_ok_spec(mode: u32) -> bool {
    mode % 512 == 384
}

pub fn token_file_mode_ok(mode: u32) -> (r: bool)
    ensures
        r == token_file_mode_ok_spec(mode),
{
    mode % 512 == 384
}

pub open spec fn no_token_message() -> Seq<char> {
    "no bootstrap token provided (use --bootstrap-token or --bootstrap-token-file)"@
}

/// The bootstrap token: the trimmed contents of the token file where one was
/// given, else the token passed on the command line.
pub fn choose_token(file_contents: Option<&str>, flag_token: Option<&str>) -> (r: Result<String, String>)
    ensures
        match file_contents {
            Some(c) => r matches Ok(t) && t@ == trim_spec(c@),
            None => match flag_token {
                Some(t) => r matches Ok(x) && x@ == t@,
                None => r matches Err(m) && m@ == no_token_message(),
            },
        },
{
    match file_contents {
        Some(c) => Ok(string_from(&trim_str(c))),
        None => match flag_token {
            Some(t) => Ok(String::from_str(t)),
            None => Err(String::from_str(
                "no bootstrap token provided (use --bootstrap-token or --bootstrap-token-file)",
            )),
        },
    }
}

/// The controller listens on the address given, or on 127.0.0.1:8080; an
/// address off loopback needs `--enable-live-actions`. `Err` carries the
/// refused address.
pub fn controller_bind(bind: Option<(IpAddress, u16)>, enable_live_actions: bool) -> (r: Result<
    (IpAddress, u16),
    (IpAddress, u16),
>)
    ensures
        ({
            let b = match bind {
                Some(b) => b,
                None => (IpAddress::V4(0x7f000001), 8080u16),
            };
            if b.0.spec_is_loopback() || enable_live_actions {
                r == Ok::<(IpAddress, u16), (IpAddress, u16)>(b)
            } else {
                r == Err::<(IpAddress, u16), (IpAddress, u16)>(b)
            }
        }),
{
    let b = match bind {
        Some(b) => b,
        None => (IpAddress::V4(0x7f000001), 8080u16),
    };
    if b.0.is_loopback() || enable_live_actions {
        Ok(b)
    } else {
        Err(b)
    }
}

} // verus!
