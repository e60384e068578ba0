//! On-device agent: its configuration, the transactional apply of pushed
//! configurations, and the text it exchanges with the controller.
use vstd::prelude::*;

use crate::codec::{uuid_text, uuid_to_text};
use crate::device::{
    ConfigVersion, DeviceConfig, DeviceId, FirewallPolicy, OrgId, QosPolicy, SiteId,
    ValidatedConfig,
};
use crate::text::{
    append_chars, append_str, chars_of, dec, find_substr, has_prefix, push_dec, slice_chars,
    split_once, split_once_spec, starts_with, string_from, find_sub, lemma_find_sub_bound,
};

verus! {

broadcast use vstd::string::group_string_axioms;

// ---------------------------------------------------------------------------
// Errors
// ---------------------------------------------------------------------------

/// Errors of the agent and of the controller it talks to.
#[derive(Debug)]
pub enum AgentError {
    ConfigVersion { incoming: ConfigVersion, current: ConfigVersion },
    OrgMismatch { incoming: String, current: String },
    VerifyFailed(String),
    Unauthorized,
    AlreadyRegistered,
    NotFound,
    Storage(String),
    Websocket(String),
    Http(String),
    Internal(String),
}

/// HTTP status and machine-readable code an error is answered with.
pub open spec fn error_response(e: AgentError) -> (u16, Seq<char>) {
    match e {
        AgentError::ConfigVersion { .. } => (409, "config_version_mismatch"@),
        AgentError::OrgMismatch { .. } => (403, "org_mismatch"@),
        AgentError::VerifyFailed(_) => (409, "verify_failed"@),
        AgentError::Unauthorized => (401, "unauthorized"@),
        AgentError::AlreadyRegistered => (409, "already_registered"@),
        AgentError::NotFound => (404, "not_found"@),
        AgentError::Storage(_) => (500, "storage_error"@),
        AgentError::Websocket(_) => (502, "websocket_error"@),
        AgentError::Http(_) => (502, "upstream_error"@),
        AgentError::Internal(_) => (500, "internal_error"@),
    }
}

impl AgentError {
    /// The status and code the controller answers this error with; the error's
    /// own text is never echoed to the client.
    pub fn response(&self) -> (r: (u16, String))
        ensures
            (r.0, r.1@) == error_response(*self),
    {
        let (status, code) = match self {
            AgentError::ConfigVersion { .. } => (409u16, "config_version_mismatch"),
            AgentError::OrgMismatch { .. } => (403u16, "org_mismatch"),
            AgentError::VerifyFailed(_) => (409u16, "verify_failed"),
            AgentError::Unauthorized => (401u16, "unauthorized"),
            AgentError::AlreadyRegistered => (409u16, "already_registered"),
            AgentError::NotFound => (404u16, "not_found"),
            AgentError::Storage(_) => (500u16, "storage_error"),
            AgentError::Websocket(_) => (502u16, "websocket_error"),
            AgentError::Http(_) => (502u16, "upstream_error"),
            AgentError::Internal(_) => (500u16, "internal_error"),
        };
        (status, String::from_str(code))
    }
}

// ---------------------------------------------------------------------------
// Controller URLs
// ---------------------------------------------------------------------------

/// What follows the scheme separator `://` (the whole URL when there is none).
pub open spec fn after_scheme(url: Seq<char>) -> Seq<char> {
    let i = find_sub(url, "://"@);
    if i >= 0 {
        url.subrange(i + 3, url.len() as int)
    } else {
        url
    }
}

pub fn after_scheme_chars(url: &Vec<char>) -> (r: Vec<char>)
    ensures
        r@ == after_scheme(url@),
{
    let sep = chars_of("://");
    proof {
        reveal_strlit("://");
        lemma_find_sub_bound(url@, sep@);
    }
    let found = find_substr(url, &sep);
    if let Some(i) = found {
        assert(sep@.len() == 3);
        assert(find_sub(url@, sep@) == i as int);
        assert(find_sub(url@, sep@) + sep@.len() <= url@.len());
        assert(i + 3 <= url.len());
        let start: usize = i + 3;
        slice_chars(url, start, url.len())
    } else {
        slice_chars(url, 0, url.len())
    }
}

/// `host:port` of `scheme://host:port/path`: the authority up to the first
/// `/`, or `127.0.0.1:8080` when it is empty.
pub open spec fn url_addr_spec(url: Seq<char>) -> Seq<char> {
    let rest = after_scheme(url);
    let auth = match split_once_spec(rest, '/') {
        Some(p) => p.0,
        None => rest,
    };
    if auth.len() == 0 {
        "127.0.0.1:8080"@
    } else {
        auth
    }
}

pub fn url_addr(url: &str) -> (r: String)
    ensures
        r@ == url_addr_spec(url@),
{
    let u = chars_of(url);
    let rest = after_scheme_chars(&u);
    let auth = match split_once(&rest, '/') {
        Some(p) => p.0,
        None => rest,
    };
    if auth.len() == 0 {
        String::from_str("127.0.0.1:8080")
    } else {
        string_from(&auth)
    }
}

/// Path of `scheme://host:port/path`, with its leading `/` (`/` when absent).
pub open spec fn url_path_spec(url: Seq<char>) -> Seq<char> {
    match split_once_spec(after_scheme(url), '/') {
        Some(p) => "/"@ + p.1,
        None => "/"@,
    }
}

pub fn url_path(url: &str) -> (r: String)
    ensures
        r@ == url_path_spec(url@),
{
    let u = chars_of(url);
    let rest = after_scheme_chars(&u);
    let mut out: Vec<char> = Vec::new();
    append_str(&mut out, "/");
    match split_once(&rest, '/') {
        Some(p) => {
            append_chars(&mut out, &p.1);
        },
        None => {},
    }
    string_from(&out)
}

/// Host of `scheme://host:port/path`: what precedes the first `:` after the
/// scheme.
pub open spec fn url_host_spec(url: Seq<char>) -> Seq<char> {
    let rest = after_scheme(url);
    match split_once_spec(rest, ':') {
        Some(p) => p.0,
        None => rest,
    }
}

pub fn url_host(url: &str) -> (r: String)
    ensures
        r@ == url_host_spec(url@),
{
    let u = chars_of(url);
    let rest = after_scheme_chars(&u);
    match split_once(&rest, ':') {
        Some(p) => string_from(&p.0),
        None => string_from(&rest),
    }
}

/// `scheme://rest` turned into the controller's configuration stream URL.
pub open spec fn ws_url_spec(url: Seq<char>) -> Seq<char> {
    "ws://"@ + after_scheme(url) + "/stream/config"@
}

pub fn ws_url(http_url: &str) -> (r: String)
    ensures
        r@ == ws_url_spec(http_url@),
{
    let u = chars_of(http_url);
    let rest = after_scheme_chars(&u);
    let mut out: Vec<char> = Vec::new();
    append_str(&mut out, "ws://");
    append_chars(&mut out, &rest);
    append_str(&mut out, "/stream/config");
    string_from(&out)
}

// ---------------------------------------------------------------------------
// Agent configuration
// ---------------------------------------------------------------------------

/// The controller URLs an agent accepts without an explicit opt-in.
pub open spec fn loopback_url(url: Seq<char>) -> bool {
    has_prefix(url, "http://127.0.0.1"@) || has_prefix(url, "http://localhost"@) || has_prefix(
        url,
        "http://[::1]"@,
    )
}

pub open spec fn non_loopback_message(url: Seq<char>) -> Seq<char> {
    "controller_url must be loopback (got "@ + url
        + ") \u{2014} pass --enable-live-actions to allow non-loopback"@
}

/// Settings the agent starts with.
#[derive(Debug)]
pub struct AgentConfig {
    /// Controller base URL.
    pub controller_url: String,
    /// Bootstrap token; never echoed.
    pub bootstrap_token: String,
    pub device_id: DeviceId,
    pub org_id: OrgId,
    pub site_id: SiteId,
    /// Hostname reported at registration.
    pub hostname: String,
    /// Telemetry push cadence in seconds.
    pub telemetry_interval_secs: u64,
}

impl AgentConfig {
    /// Settings for a loopback controller; any other URL is refused.
    pub fn new(
        controller_url: &str,
        bootstrap_token: &str,
        device_id: DeviceId,
        org_id: OrgId,
        site_id: SiteId,
        hostname: &str,
    ) -> (r: Result<Self, AgentError>)
        ensures
            match r {
                Ok(c) => {
                    &&& loopback_url(controller_url@)
                    &&& c.controller_url@ == controller_url@
                    &&& c.bootstrap_token@ == bootstrap_token@
                    &&& c.device_id == device_id
                    &&& c.org_id == org_id
                    &&& c.site_id == site_id
                    &&& c.hostname@ == hostname@
                    &&& c.telemetry_interval_secs == 10
                },
                Err(e) => !loopback_url(controller_url@) && (e matches AgentError::Internal(m)
                    && m@ == non_loopback_message(controller_url@)),
            },
    {
        let url = chars_of(controller_url);
        let p1 = chars_of("http://127.0.0.1");
        let p2 = chars_of("http://localhost");
        let p3 = chars_of("http://[::1]");
        if !(starts_with(&url, &p1) || starts_with(&url, &p2) || starts_with(&url, &p3)) {
            let mut m: Vec<char> = Vec::new();
            append_str(&mut m, "controller_url must be loopback (got ");
            append_chars(&mut m, &url);
            append_str(&mut m, ") \u{2014} pass --enable-live-actions to allow non-loopback");
            return Err(AgentError::Internal(string_from(&m)));
        }
        Ok(
            AgentConfig {
                controller_url: String::from_str(controller_url),
                bootstrap_token: String::from_str(bootstrap_token),
                device_id,
                org_id,
                site_id,
                hostname: String::from_str(hostname),
                telemetry_interval_secs: 10,
            },
        )
    }
}

// ---------------------------------------------------------------------------
// Requests to the controller
// ---------------------------------------------------------------------------

pub open spec fn post_request_text(url: Seq<char>, token: Seq<char>, payload: Seq<char>) -> Seq<char> {
    "POST "@ + url_path_spec(url) + " HTTP/1.1\r\nHost: "@ + url_host_spec(url)
        + "\r\nAuthorization: Bearer "@ + token
        + "\r\nContent-Type: application/json\r\nContent-Length: "@ + dec(
        vstd::utf8::encode_utf8(payload).len(),
    ) + "\r\nConnection: close\r\n\r\n"@ + payload
}

/// The HTTP/1.1 request that posts the JSON `payload` to `url`.
pub fn post_request(url: &str, token: &str, payload: &str) -> (r: String)
    ensures
        r@ == post_request_text(url@, token@, payload@),
{
    let path = url_path(url);
    let host = url_host(url);
    let mut out: Vec<char> = Vec::new();
    append_str(&mut out, "POST ");
    append_str(&mut out, path.as_str());
    append_str(&mut out, " HTTP/1.1\r\nHost: ");
    append_str(&mut out, host.as_str());
    append_str(&mut out, "\r\nAuthorization: Bearer ");
    append_str(&mut out, token);
    append_str(&mut out, "\r\nContent-Type: application/json\r\nContent-Length: ");
    let bytes = payload.as_bytes();
    let n = bytes.len();
    assert(bytes@ == vstd::utf8::encode_utf8(payload@));
    push_dec(&mut out, n as u64);
    append_str(&mut out, "\r\nConnection: close\r\n\r\n");
    append_str(&mut out, payload);
    string_from(&out)
}

pub open spec fn get_request_text(url: Seq<char>, token: Seq<char>) -> Seq<char> {
    "GET "@ + url_path_spec(url) + " HTTP/1.1\r\nHost: "@ + url_host_spec(url)
        + "\r\nAuthorization: Bearer "@ + token + "\r\nConnection: close\r\n\r\n"@
}

/// The HTTP/1.1 request that fetches `url`.
pub fn get_request(url: &str, token: &str) -> (r: String)
    ensures
        r@ == get_request_text(url@, token@),
{
    let path = url_path(url);
    let host = url_host(url);
    let mut out: Vec<char> = Vec::new();
    append_str(&mut out, "GET ");
    append_str(&mut out, path.as_str());
    append_str(&mut out, " HTTP/1.1\r\nHost: ");
    append_str(&mut out, host.as_str());
    append_str(&mut out, "\r\nAuthorization: Bearer ");
    append_str(&mut out, token);
    append_str(&mut out, "\r\nConnection: close\r\n\r\n");
    string_from(&out)
}

/// Body of a raw HTTP response: what lies between the first blank line and
/// the next one (empty when there is no blank line).
pub open spec fn response_body_spec(text: Seq<char>) -> Seq<char> {
    let i = find_sub(text, "\r\n\r\n"@);
    if i < 0 {
        Seq::empty()
    } else {
        let rest = text.subrange(i + 4, text.len() as int);
        let j = find_sub(rest, "\r\n\r\n"@);
        if j < 0 {
            rest
        } else {
            rest.subrange(0, j)
        }
    }
}

pub fn response_body(text: &str) -> (r: String)
    ensures
        r@ == response_body_spec(text@),
{
    let t = chars_of(text);
    let sep = chars_of("\r\n\r\n");
    proof {
        reveal_strlit("\r\n\r\n");
        lemma_find_sub_bound(t@, sep@);
    }
    let found = find_substr(&t, &sep);
    if let Some(i) = found {
        assert(sep@.len() == 4);
        assert(find_sub(t@, sep@) == i as int);
        assert(find_sub(t@, sep@) + sep@.len() <= t@.len());
        assert(i + 4 <= t.len());
        let rest = slice_chars(&t, i + 4, t.len());
        proof {
            lemma_find_sub_bound(rest@, sep@);
        }
        let found2 = find_substr(&rest, &sep);
        if let Some(j) = found2 {
            assert(find_sub(rest@, sep@) == j as int);
            let body = slice_chars(&rest, 0, j);
            string_from(&body)
        } else {
            string_from(&rest)
        }
    } else {
        String::new()
    }
}

/// First frame the agent sends on the configuration stream.
pub fn bearer_frame(token: &str) -> (r: String)
    ensures
        r@ == "Bearer "@ + token@,
{
    let mut out: Vec<char> = Vec::new();
    append_str(&mut out, "Bearer ");
    append_str(&mut out, token);
    string_from(&out)
}

/// Reconnect delay after a failed stream: doubled, capped at 30 s.
pub fn next_backoff_ms(current_ms: u64) -> (r: u64)
    ensures
        r == if current_ms * 2 < 30000 {
            current_ms * 2
        } else {
            30000
        },
{
    if current_ms < 15000 {
        current_ms * 2
    } else {
        30000
    }
}

// ---------------------------------------------------------------------------
// Transactional apply
// ---------------------------------------------------------------------------

/// Result of an apply.
#[derive(Debug, PartialEq, Eq)]
pub struct ApplyOutcome {
    /// Version of the pushed configuration.
    pub new_version: ConfigVersion,
    pub verified: bool,
    /// Version active after the call (the pushed one if verified, else unchanged).
    pub active_version: ConfigVersion,
    /// Why the configuration was not committed.
    pub error: Option<String>,
}

pub open spec fn stale_message(incoming: u64, active: u64) -> Seq<char> {
    "stale: incoming v"@ + dec(incoming as nat) + " <= active v"@ + dec(active as nat)
}

/// Whether a pushed configuration becomes active: it must be strictly newer
/// than the active one, and the verifier (when there is one) must accept it.
pub open spec fn commits(cur: DeviceConfig, new: DeviceConfig, verdict: Option<Result<(), String>>) -> bool {
    new.version.0 > cur.version.0 && !(verdict matches Some(Err(_)))
}

/// The active configuration after an apply.
pub open spec fn apply_transition(
    cur: DeviceConfig,
    new: DeviceConfig,
    verdict: Option<Result<(), String>>,
) -> DeviceConfig {
    if commits(cur, new, verdict) {
        new
    } else {
        cur
    }
}

/// The configuration an agent starts from before registering.
pub open spec fn is_placeholder(c: DeviceConfig, cfg: AgentConfig) -> bool {
    &&& c.device_id == cfg.device_id
    &&& c.org_id == cfg.org_id
    &&& c.site_id == cfg.site_id
    &&& c.hostname@ == cfg.hostname@
    &&& c.interfaces@.len() == 0
    &&& c.tunnels@.len() == 0
    &&& c.routes@.len() == 0
    &&& c.firewall.rules@.len() == 0
    &&& c.qos.classes@.len() == 0
    &&& c.path_labels@.len() == 0
    &&& c.version.0 == 0
}

/// The on-device agent: its settings and the active configuration.
pub struct Agent {
    cfg: AgentConfig,
    current: DeviceConfig,
}

impl Agent {
    pub closed spec fn settings(&self) -> AgentConfig {
        self.cfg
    }

    pub closed spec fn active(&self) -> DeviceConfig {
        self.current
    }

    /// An agent whose active configuration is the empty version-0 placeholder.
    pub fn new(cfg: AgentConfig) -> (r: Result<Self, AgentError>)
        ensures
            r matches Ok(a) && a.settings() == cfg && is_placeholder(a.active(), cfg),
    {
        let placeholder = DeviceConfig {
            device_id: cfg.device_id,
            org_id: cfg.org_id,
            site_id: cfg.site_id,
            hostname: cfg.hostname.clone(),
            interfaces: Vec::new(),
            tunnels: Vec::new(),
            routes: Vec::new(),
            firewall: FirewallPolicy { rules: Vec::new() },
            qos: QosPolicy { classes: Vec::new() },
            path_labels: Vec::new(),
            version: ConfigVersion(0),
        };
        Ok(Agent { cfg, current: placeholder })
    }

    pub fn settings_ref(&self) -> (r: &AgentConfig)
        ensures
            *r == self.settings(),
    {
        &self.cfg
    }

    /// The active configuration.
    pub fn current(&self) -> (r: &DeviceConfig)
        ensures
            *r == self.active(),
    {
        &self.current
    }

    /// Makes `cfg` the active configuration directly (staging for tests and
    /// for a configuration fetched at registration).
    pub fn set_current_for_test(&mut self, cfg: DeviceConfig)
        ensures
            final(self).active() == cfg,
            final(self).settings() == old(self).settings(),
    {
        self.current = cfg;
    }

    /// Completes an apply once the verifier's verdict is known (`None` when no
    /// verifier is installed): a configuration that is not strictly newer is
    /// refused; a rejected one leaves the active configuration in place; any
    /// other becomes active at its own pushed version.
    pub fn finish_apply(&mut self, new: ValidatedConfig, verdict: Option<Result<(), String>>) -> (r:
        ApplyOutcome)
        ensures
            final(self).active() == apply_transition(old(self).active(), new.inner(), verdict),
            final(self).settings() == old(self).settings(),
            r.verified == commits(old(self).active(), new.inner(), verdict),
            r.new_version == new.inner().version,
            r.active_version == final(self).active().version,
            new.inner().version.0 <= old(self).active().version.0 ==> (r.error matches Some(m)
                && m@ == stale_message(new.inner().version.0, old(self).active().version.0)),
            new.inner().version.0 > old(self).active().version.0 ==> match verdict {
                Some(Err(m)) => r.error == Some(m),
                _ => r.error is None,
            },
    {
        let new_version = new.version();
        let active_version = self.current.version;
        if !(new_version.0 > active_version.0) {
            let mut m: Vec<char> = Vec::new();
            append_str(&mut m, "stale: incoming v");
            push_dec(&mut m, new_version.0);
            append_str(&mut m, " <= active v");
            push_dec(&mut m, active_version.0);
            return ApplyOutcome {
                new_version,
                verified: false,
                active_version,
                error: Some(string_from(&m)),
            };
        }
        match verdict {
            Some(Err(msg)) => ApplyOutcome {
                new_version,
                verified: false,
                active_version,
                error: Some(msg),
            },
            _ => {
                self.current = new.into_inner();
                ApplyOutcome {
                    new_version,
                    verified: true,
                    active_version: new_version,
                    error: None,
                }
            },
        }
    }

    /// Transactional apply: a configuration that is not strictly newer than
    /// the active one is refused before `verify` is consulted; otherwise
    /// `verify` (when given) is called once with the pushed configuration and
    /// its answer decides: `Ok` commits it at its own version, `Err` rolls
    /// back and is reported.
    pub fn apply_config<F: Fn(&DeviceConfig) -> Result<(), String>>(
        &mut self,
        new: ValidatedConfig,
        verify: Option<&F>,
    ) -> (r: ApplyOutcome)
        requires
            match verify {
                Some(f) => f.requires((&new.inner(),)),
                None => true,
            },
        ensures
            final(self).settings() == old(self).settings(),
            r.new_version == new.inner().version,
            r.active_version == final(self).active().version,
            new.inner().version.0 <= old(self).active().version.0 ==> {
                &&& !r.verified
                &&& final(self).active() == old(self).active()
                &&& r.error matches Some(m) && m@ == stale_message(
                    new.inner().version.0,
                    old(self).active().version.0,
                )
            },
            verify is None ==> final(self).active() == apply_transition(
                old(self).active(),
                new.inner(),
                None,
            ) && r.verified == commits(old(self).active(), new.inner(), None) && (r.verified
                ==> r.error is None),
            match verify {
                Some(f) => new.inner().version.0 > old(self).active().version.0 ==> exists|
                    v: Result<(), String>,
                |
                    #[trigger] f.ensures((&new.inner(),), v) && final(self).active()
                        == apply_transition(old(self).active(), new.inner(), Some(v))
                        && r.verified == commits(old(self).active(), new.inner(), Some(v))
                        && r.error == (match v {
                        Ok(_) => None,
                        Err(m) => Some(m),
                    }),
                None => true,
            },
            r.verified ==> final(self).active() == new.inner() && r.error is None,
            !r.verified ==> final(self).active() == old(self).active() && r.error is Some,
    {
        if !(new.version().0 > self.current.version.0) {
            return self.finish_apply(new, None);
        }
        let verdict = match verify {
            Some(f) => Some(f(new.as_ref())),
            None => None,
        };
        self.finish_apply(new, verdict)
    }

    /// Prometheus exposition of the active version and liveness.
    pub fn metrics(&self) -> (r: String)
        ensures
            r@ == metrics_text(self.active().device_id.0, self.active().version.0),
    {
        let id = uuid_to_text(self.current.device_id.0);
        let mut out: Vec<char> = Vec::new();
        append_str(
            &mut out,
            "# HELP sdwan_agent_config_version Active config version.\n# TYPE sdwan_agent_config_version gauge\nsdwan_agent_config_version {device_id=\"",
        );
        append_str(&mut out, id.as_str());
        append_str(&mut out, "\"} ");
        push_dec(&mut out, self.current.version.0);
        append_str(
            &mut out,
            "\n# HELP sdwan_agent_up Agent liveness.\n# TYPE sdwan_agent_up gauge\nsdwan_agent_up{device_id=\"",
        );
        append_str(&mut out, id.as_str());
        append_str(&mut out, "\"} 1\n");
        string_from(&out)
    }
}

pub open spec fn metrics_text(device_id: u128, version: u64) -> Seq<char> {
    "# HELP sdwan_agent_config_version Active config version.\n# TYPE sdwan_agent_config_version gauge\nsdwan_agent_config_version {device_id=\""@
        + uuid_text(device_id) + "\"} "@ + dec(version as nat)
        + "\n# HELP sdwan_agent_up Agent liveness.\n# TYPE sdwan_agent_up gauge\nsdwan_agent_up{device_id=\""@
        + uuid_text(device_id) + "\"} 1\n"@
}

// ---------------------------------------------------------------------------
// Laws of the transactional apply
// ---------------------------------------------------------------------------

/// An apply never lowers the active version; a committed one makes the pushed
/// configuration active at its own, strictly newer, revision.
pub proof fn law_apply_version_monotonic(
    cur: DeviceConfig,
    new: DeviceConfig,
    verdict: Option<Result<(), String>>,
)
    ensures
        apply_transition(cur, new, verdict).version.0 >= cur.version.0,
        commits(cur, new, verdict) ==> apply_transition(cur, new, verdict) == new
            && apply_transition(cur, new, verdict).version.0 > cur.version.0,
{
}

/// A refused apply (stale, or rejected by the verifier) leaves the active
/// configuration untouched.
pub proof fn law_refused_apply_keeps_state(
    cur: DeviceConfig,
    new: DeviceConfig,
    verdict: Option<Result<(), String>>,
)
    requires
        !commits(cur, new, verdict),
    ensures
        apply_transition(cur, new, verdict) == cur,
{
}

/// Re-applying the active revision is refused whatever the verifier says.
pub proof fn law_reapply_same_version_refused(
    cur: DeviceConfig,
    new: DeviceConfig,
    verdict: Option<Result<(), String>>,
)
    requires
        new.version == cur.version,
    ensures
        !commits(cur, new, verdict),
        apply_transition(cur, new, verdict) == cur,
{
}

/// A verifier that rejects rolls the apply back.
pub proof fn law_rejected_apply_rolls_back(cur: DeviceConfig, new: DeviceConfig, msg: String)
    ensures
        apply_transition(cur, new, Some(Err(msg))) == cur,
{
}

/// Applying strictly increasing revisions that the verifier accepts commits
/// each of them in turn, so the active version strictly increases.
pub proof fn law_sequential_applies_monotonic(
    c0: DeviceConfig,
    n1: DeviceConfig,
    n2: DeviceConfig,
)
    requires
        c0.version.0 < n1.version.0 < n2.version.0,
    ensures
        apply_transition(c0, n1, Some(Ok(()))) == n1,
        apply_transition(apply_transition(c0, n1, Some(Ok(()))), n2, Some(Ok(()))) == n2,
{
}

} // verus!
