//! Node configuration model (general, mesh, BGP, ACME, firewall, QoS, load
//! balancers), its defaults and checks.
use vstd::prelude::*;

use crate::net::{ip_parse, parse_ip_chars, IpAddress};
use crate::text::{
    append_chars, append_str, chars_of, dec, parse_uint, parse_uint_spec, push_dec, split_once,
    split_once_spec, str_eq, string_from,
};

verus! {

broadcast use vstd::string::group_string_axioms;

#[derive(Debug, Clone, PartialEq, Eq)]
pub struct General {
    pub name: String,
    pub api_addr: String,
    pub api_port: u16,
    /// Optional bearer token protecting mutating API endpoints.
    pub api_token: Option<String>,
}

impl Default for General {
    fn default() -> (r: Self)
        ensures
            r.name@ == "sdwanlite-node"@,
            r.api_addr@ == "127.0.0.1"@,
            r.api_port == 8080,
            r.api_token is None,
    {
        General {
            name: String::from_str("sdwanlite-node"),
            api_addr: default_api_addr(),
            api_port: default_api_port(),
            api_token: None,
        }
    }
}

#[derive(Debug, Clone, PartialEq, Eq)]
pub struct TlsConfig {
    pub cert_file: String,
    pub key_file: String,
}

/// Let's Encrypt automation settings.
#[derive(Debug, Clone, Default, PartialEq, Eq)]
pub struct Acme {
    pub enabled: bool,
    pub directory_url: String,
    pub email: String,
    /// DNS names to include in the certificate.
    pub domains: Vec<String>,
    pub http01_port: u16,
    pub cert_file: String,
    pub key_file: String,
    /// Renew when less than this many days remain.
    pub renew_days: u32,
    /// Use the DNS-01 challenge instead of HTTP-01.
    pub dns01: bool,
    pub cloudflare_api_token: Option<String>,
}

pub fn default_acme_directory() -> (r: String)
    ensures
        r@ == "https://acme-staging-v2.api.letsencrypt.org/directory"@,
{
    String::from_str("https://acme-staging-v2.api.letsencrypt.org/directory")
}

pub fn default_http01_port() -> (r: u16)
    ensures
        r == 80,
{
    80
}

pub fn default_renew_days() -> (r: u32)
    ensures
        r == 30,
{
    30
}

/// Firewall rule: allow or deny traffic matching port/protocol.
#[derive(Clone, Debug, PartialEq, Eq)]
pub struct FirewallRule {
    /// `"allow"` or `"deny"`.
    pub action: String,
    pub port: u16,
    /// `"tcp"`, `"udp"` or `"any"`.
    pub protocol: String,
    /// CIDR or IP (a trailing `*` is a prefix wildcard).
    pub source: Option<String>,
    pub comment: String,
}

/// QoS limits per pool (0 = unlimited).
#[derive(Clone, Debug, Default, PartialEq, Eq)]
pub struct QosLimit {
    pub max_conns: u32,
    pub max_bps: u64,
}

/// Alert event.
#[derive(Clone, Debug, PartialEq, Eq)]
pub struct AlertEvent {
    pub timestamp: u64,
    /// `"info"`, `"warn"` or `"critical"`.
    pub severity: String,
    pub source: String,
    pub message: String,
}

/// Upstream protocol for HTTP pools.
#[derive(Debug, Clone, Copy, PartialEq, Eq, Default)]
pub enum BackendProto {
    #[default]
    Http1,
    H2,
}

pub fn default_api_addr() -> (r: String)
    ensures
        r@ == "127.0.0.1"@,
{
    String::from_str("127.0.0.1")
}

pub fn default_api_port() -> (r: u16)
    ensures
        r == 8080,
{
    8080
}

#[derive(Debug, Clone, Default, PartialEq, Eq)]
pub struct Mesh {
    pub enabled: bool,
    /// Base64 private key (32 bytes).
    pub private_key: String,
    pub listen_port: u16,
    pub peers: Vec<Peer>,
}

pub fn default_wg_port() -> (r: u16)
    ensures
        r == 51820,
{
    51820
}

#[derive(Debug, Clone, PartialEq, Eq)]
pub struct Peer {
    pub name: String,
    pub public_key: String,
    pub endpoint: Option<String>,
    pub allowed_ips: Vec<String>,
    /// Persistent keepalive interval in seconds (0 = disabled).
    pub keepalive_secs: u32,
}

#[derive(Debug, Clone, Default, PartialEq, Eq)]
pub struct Bgp {
    pub enabled: bool,
    pub router_id: String,
    pub local_as: u32,
    pub listen_port: u16,
    /// Hold time proposal in seconds.
    pub hold_time_secs: u16,
    pub neighbors: Vec<BgpNeighbor>,
    /// IPv4 prefixes this node originates.
    pub networks: Vec<String>,
    /// Global import filter: only accept prefixes in this list (exact match).
    pub import_allowlist: Vec<String>,
    pub multipath: bool,
    pub route_reflector: bool,
    pub cluster_id: String,
}

pub fn default_asn() -> (r: u32)
    ensures
        r == 65000,
{
    65000
}

pub fn default_hold_time() -> (r: u16)
    ensures
        r == 180,
{
    180
}

pub fn default_bgp_port() -> (r: u16)
    ensures
        r == 179,
{
    179
}

#[derive(Debug, Clone, PartialEq, Eq)]
pub struct BgpNeighbor {
    pub ip: String,
    pub remote_as: u32,
    /// Per-neighbor import override; `None` falls back to the global list.
    pub import_allowlist: Option<Vec<String>>,
    /// Prefixes advertised to this neighbor; `None` falls back to the global list.
    pub export_allowlist: Option<Vec<String>>,
    /// LOCAL_PREF attached to routes learned from this neighbor.
    pub local_pref: u32,
}

pub fn default_local_pref() -> (r: u32)
    ensures
        r == 100,
{
    100
}

impl BgpNeighbor {
    pub fn effective_import<'a>(&'a self, global: &'a [String]) -> (r: &'a [String])
        ensures
            r@ == (match &self.import_allowlist {
                Some(v) => v@,
                None => global@,
            }),
    {
        match &self.import_allowlist {
            Some(v) => v.as_slice(),
            None => global,
        }
    }

    pub fn effective_export<'a>(&'a self, global: &'a [String]) -> (r: &'a [String])
        ensures
            r@ == (match &self.export_allowlist {
                Some(v) => v@,
                None => global@,
            }),
    {
        match &self.export_allowlist {
            Some(v) => v.as_slice(),
            None => global,
        }
    }
}

#[derive(Debug, Clone, Default, PartialEq, Eq)]
pub struct LoadBalancers {
    pub tcp_pools: Vec<TcpPool>,
    pub http_pools: Vec<HttpPool>,
}

#[derive(Debug, Clone, PartialEq, Eq)]
pub struct TcpPool {
    pub name: String,
    pub listen: String,
    pub algorithm: Algorithm,
    pub health_interval_secs: u64,
    pub health_timeout_secs: u64,
    /// When set, health checks send `GET <path>` and require a 2xx/3xx answer.
    pub health_check_path: Option<String>,
    pub qos: Option<QosLimit>,
    pub backends: Vec<String>,
}

#[derive(Debug, Clone, Copy, PartialEq, Eq, Structural)]
pub enum Algorithm {
    RoundRobin,
    LeastConnections,
    Random,
    /// Always use the first healthy backend.
    Failover,
}

pub open spec fn algorithm_name(a: Algorithm) -> Seq<char> {
    match a {
        Algorithm::RoundRobin => "round_robin"@,
        Algorithm::LeastConnections => "least_connections"@,
        Algorithm::Random => "random"@,
        Algorithm::Failover => "failover"@,
    }
}

impl Algorithm {
    pub fn as_str(&self) -> (r: &'static str)
        ensures
            r@ == algorithm_name(*self),
    {
        match self {
            Algorithm::RoundRobin => "round_robin",
            Algorithm::LeastConnections => "least_connections",
            Algorithm::Random => "random",
            Algorithm::Failover => "failover",
        }
    }
}

pub fn default_algo() -> (r: Algorithm)
    ensures
        r == Algorithm::RoundRobin,
{
    Algorithm::RoundRobin
}

pub fn default_hc_interval() -> (r: u64)
    ensures
        r == 5,
{
    5
}

pub fn default_hc_timeout() -> (r: u64)
    ensures
        r == 2,
{
    2
}

#[derive(Debug, Clone, PartialEq, Eq)]
pub struct HttpPool {
    pub name: String,
    pub listen: String,
    pub tls: Option<TlsConfig>,
    pub health_interval_secs: u64,
    pub health_timeout_secs: u64,
    pub health_check_path: Option<String>,
    pub backend_proto: BackendProto,
    pub routes: Vec<HttpRoute>,
}

#[derive(Debug, Clone, PartialEq, Eq)]
pub struct HttpRoute {
    /// Host header to match (without port); empty matches any host.
    pub host: String,
    /// Longest matching path prefix wins; empty matches everything.
    pub path_prefix: String,
    pub backends: Vec<String>,
}

#[derive(Debug, Clone, Default, PartialEq, Eq)]
pub struct Config {
    pub general: General,
    pub mesh: Mesh,
    pub bgp: Bgp,
    pub acme: Acme,
    pub firewall: Vec<FirewallRule>,
    pub qos: QosLimit,
    pub lb: LoadBalancers,
}

fn owned(s: &str) -> (r: String)
    ensures
        r@ == s@,
{
    String::from_str(s)
}

impl Config {
    /// A small demo configuration used when no file is provided: one TCP pool
    /// and one HTTP pool on loopback.
    pub fn sample() -> (r: Self)
        ensures
            r.general.name@ == "sdwanlite-node"@,
            r.firewall@.len() == 0,
            r.mesh.peers@.len() == 0,
            r.bgp.neighbors@.len() == 0,
            r.lb.tcp_pools@.len() == 1,
            r.lb.tcp_pools@[0].name@ == "demo-tcp"@,
            r.lb.tcp_pools@[0].listen@ == "127.0.0.1:9000"@,
            r.lb.tcp_pools@[0].algorithm == Algorithm::LeastConnections,
            r.lb.tcp_pools@[0].health_interval_secs == 5,
            r.lb.tcp_pools@[0].health_timeout_secs == 2,
            r.lb.tcp_pools@[0].backends@.len() == 2,
            r.lb.tcp_pools@[0].backends@[0]@ == "127.0.0.1:9101"@,
            r.lb.tcp_pools@[0].backends@[1]@ == "127.0.0.1:9102"@,
            r.lb.http_pools@.len() == 1,
            r.lb.http_pools@[0].name@ == "demo-http"@,
            r.lb.http_pools@[0].listen@ == "127.0.0.1:9090"@,
            r.lb.http_pools@[0].tls is None,
            r.lb.http_pools@[0].backend_proto == BackendProto::Http1,
            r.lb.http_pools@[0].routes@.len() == 1,
            r.lb.http_pools@[0].routes@[0].host@.len() == 0,
            r.lb.http_pools@[0].routes@[0].path_prefix@ == "/"@,
            r.lb.http_pools@[0].routes@[0].backends@.len() == 1,
            r.lb.http_pools@[0].routes@[0].backends@[0]@ == "127.0.0.1:9201"@,
    {
        let mut tcp_backends: Vec<String> = Vec::new();
        tcp_backends.push(owned("127.0.0.1:9101"));
        tcp_backends.push(owned("127.0.0.1:9102"));
        let mut tcp_pools: Vec<TcpPool> = Vec::new();
        tcp_pools.push(
            TcpPool {
                name: owned("demo-tcp"),
                listen: owned("127.0.0.1:9000"),
                algorithm: Algorithm::LeastConnections,
                health_check_path: None,
                qos: None,
                health_interval_secs: 5,
                health_timeout_secs: 2,
                backends: tcp_backends,
            },
        );
        let mut route_backends: Vec<String> = Vec::new();
        route_backends.push(owned("127.0.0.1:9201"));
        let mut routes: Vec<HttpRoute> = Vec::new();
        routes.push(
            HttpRoute { host: String::new(), path_prefix: owned("/"), backends: route_backends },
        );
        let mut http_pools: Vec<HttpPool> = Vec::new();
        http_pools.push(
            HttpPool {
                name: owned("demo-http"),
                listen: owned("127.0.0.1:9090"),
                tls: None,
                health_check_path: None,
                backend_proto: BackendProto::Http1,
                health_interval_secs: 5,
                health_timeout_secs: 2,
                routes,
            },
        );
        Config {
            general: General::default(),
            mesh: Mesh {
                enabled: false,
                private_key: String::new(),
                listen_port: 0,
                peers: Vec::new(),
            },
            bgp: Bgp {
                enabled: false,
                router_id: String::new(),
                local_as: 0,
                listen_port: 0,
                hold_time_secs: 0,
                neighbors: Vec::new(),
                networks: Vec::new(),
                import_allowlist: Vec::new(),
                multipath: false,
                route_reflector: false,
                cluster_id: String::new(),
            },
            acme: Acme {
                enabled: false,
                directory_url: String::new(),
                email: String::new(),
                domains: Vec::new(),
                http01_port: 0,
                cert_file: String::new(),
                key_file: String::new(),
                renew_days: 0,
                dns01: false,
                cloudflare_api_token: None,
            },
            firewall: Vec::new(),
            qos: QosLimit { max_conns: 0, max_bps: 0 },
            lb: LoadBalancers { tcp_pools, http_pools },
        }
    }
}

// ---------------------------------------------------------------------------
// Tunnel lifecycle + config checks
// ---------------------------------------------------------------------------

#[derive(Clone, Debug, PartialEq, Eq)]
pub enum TunnelState {
    Created,
    Connecting,
    Established,
    Down,
    Deleted,
}

#[derive(Clone, Debug)]
pub struct TunnelPeer {
    pub name: String,
    pub public_key: String,
    pub endpoint: Option<String>,
    pub allowed_ips: Vec<String>,
    pub state: TunnelState,
    pub created_at: u64,
}

pub open spec fn no_backends_message(name: Seq<char>) -> Seq<char> {
    "tcp pool '"@ + name + "': no backends"@
}

pub open spec fn bad_action_message(action: Seq<char>) -> Seq<char> {
    "firewall: invalid action '"@ + action + "'"@
}

pub open spec fn pool_errors(pools: Seq<TcpPool>) -> Seq<Seq<char>>
    decreases pools.len(),
{
    if pools.len() == 0 {
        Seq::empty()
    } else {
        let rest = pool_errors(pools.drop_last());
        if pools.last().backends@.len() == 0 {
            rest.push(no_backends_message(pools.last().name@))
        } else {
            rest
        }
    }
}

pub open spec fn firewall_errors(rules: Seq<FirewallRule>) -> Seq<Seq<char>>
    decreases rules.len(),
{
    if rules.len() == 0 {
        Seq::empty()
    } else {
        let rest = firewall_errors(rules.drop_last());
        let a = rules.last().action@;
        if a != "allow"@ && a != "deny"@ {
            rest.push(bad_action_message(a))
        } else {
            rest
        }
    }
}

/// All problems found in a configuration, in this order: TCP pools without
/// backends, firewall rules with an unknown action, BGP enabled without a router id.
pub open spec fn config_errors(cfg: Config) -> Seq<Seq<char>> {
    pool_errors(cfg.lb.tcp_pools@) + firewall_errors(cfg.firewall@) + if cfg.bgp.enabled
        && cfg.bgp.router_id@.len() == 0 {
        seq!["bgp: router_id is empty"@]
    } else {
        Seq::empty()
    }
}

pub open spec fn string_views(v: Seq<String>) -> Seq<Seq<char>> {
    v.map_values(|s: String| s@)
}

pub fn validate_config(cfg: &Config) -> (r: Vec<String>)
    ensures
        string_views(r@) == config_errors(*cfg),
{
    let mut errors: Vec<String> = Vec::new();
    let mut i: usize = 0;
    while i < cfg.lb.tcp_pools.len()
        invariant
            i <= cfg.lb.tcp_pools@.len(),
            string_views(errors@) == pool_errors(cfg.lb.tcp_pools@.subrange(0, i as int)),
        decreases cfg.lb.tcp_pools.len() - i,
    {
        let pool = &cfg.lb.tcp_pools[i];
        let ghost pre = cfg.lb.tcp_pools@.subrange(0, i as int);
        assert(cfg.lb.tcp_pools@.subrange(0, i + 1).drop_last() =~= pre);
        if pool.backends.len() == 0 {
            let mut m: Vec<char> = Vec::new();
            append_str(&mut m, "tcp pool '");
            append_str(&mut m, pool.name.as_str());
            append_str(&mut m, "': no backends");
            let ghost before = string_views(errors@);
            errors.push(string_from(&m));
            assert(string_views(errors@) =~= before.push(no_backends_message(pool.name@)));
        }
        i += 1;
    }
    assert(cfg.lb.tcp_pools@.subrange(0, cfg.lb.tcp_pools@.len() as int) =~= cfg.lb.tcp_pools@);
    let ghost pools_done = string_views(errors@);
    let mut j: usize = 0;
    while j < cfg.firewall.len()
        invariant
            j <= cfg.firewall@.len(),
            pools_done == pool_errors(cfg.lb.tcp_pools@),
            string_views(errors@) == pools_done + firewall_errors(
                cfg.firewall@.subrange(0, j as int),
            ),
        decreases cfg.firewall.len() - j,
    {
        let rule = &cfg.firewall[j];
        let ghost pre = cfg.firewall@.subrange(0, j as int);
        assert(cfg.firewall@.subrange(0, j + 1).drop_last() =~= pre);
        let a = chars_of(rule.action.as_str());
        let allow = chars_of("allow");
        let deny = chars_of("deny");
        if !crate::text::seq_eq(&a, &allow) && !crate::text::seq_eq(&a, &deny) {
            let mut m: Vec<char> = Vec::new();
            append_str(&mut m, "firewall: invalid action '");
            append_chars(&mut m, &a);
            append_str(&mut m, "'");
            let ghost before = string_views(errors@);
            errors.push(string_from(&m));
            assert(string_views(errors@) =~= before.push(bad_action_message(rule.action@)));
            assert(pools_done + firewall_errors(cfg.firewall@.subrange(0, j + 1)) =~= (pools_done
                + firewall_errors(pre)).push(bad_action_message(rule.action@)));
        }
        j += 1;
    }
    assert(cfg.firewall@.subrange(0, cfg.firewall@.len() as int) =~= cfg.firewall@);
    let ghost fw_done = string_views(errors@);
    if cfg.bgp.enabled && cfg.bgp.router_id.as_str().is_empty() {
        errors.push(owned("bgp: router_id is empty"));
        assert(string_views(errors@) =~= fw_done.push("bgp: router_id is empty"@));
    } else {
        assert(fw_done + Seq::<Seq<char>>::empty() =~= fw_done);
    }
    errors
}

// ---------------------------------------------------------------------------
// Path labels + policy engine
// ---------------------------------------------------------------------------

/// How a set of labeled paths is selected.
#[derive(Debug, Clone, Copy, PartialEq, Eq)]
pub enum SelectionOrder {
    /// First healthy label wins; fail over to the next.
    PriorityFailover,
    /// Spread traffic across healthy labeled paths.
    LoadBalance,
    /// Prefer paths meeting quality thresholds.
    QualityBased,
}

/// A logical label (ISP1, LTE, MPLS, ...) bound to WAN interfaces/tunnels.
#[derive(Debug, Clone, PartialEq, Eq)]
pub struct PathLabel {
    pub name: String,
    pub interfaces: Vec<String>,
    pub tunnels: Vec<String>,
    pub description: String,
}

/// L3/L4/app match for a policy rule; `None` fields match anything.
#[derive(Debug, Clone, Default, PartialEq, Eq)]
pub struct RuleMatch {
    pub app: Option<String>,
    pub protocol: Option<String>,
    pub src_prefix: Option<String>,
    pub dst_prefix: Option<String>,
    pub dst_port: Option<u16>,
}

pub open spec fn match_all(m: RuleMatch) -> bool {
    m.app is None && m.protocol is None && m.src_prefix is None && m.dst_prefix is None
        && m.dst_port is None
}

impl RuleMatch {
    /// True when no condition is set, so the rule matches all traffic.
    pub fn is_match_all(&self) -> (r: bool)
        ensures
            r == match_all(*self),
    {
        self.app.is_none() && self.protocol.is_none() && self.src_prefix.is_none()
            && self.dst_prefix.is_none() && self.dst_port.is_none()
    }
}

/// Route matching traffic via labeled paths in the given order.
#[derive(Debug, Clone, PartialEq, Eq)]
pub struct RouteAction {
    pub labels: Vec<String>,
    pub order: SelectionOrder,
}

/// One rule inside a policy.
#[derive(Debug, Clone, PartialEq, Eq)]
pub struct PolicyRule {
    pub rule_match: RuleMatch,
    pub action: RouteAction,
}

/// Ordered policy: rules evaluated top-down; implicit match-all default last.
#[derive(Debug, Clone, PartialEq, Eq)]
pub struct Policy {
    pub name: String,
    pub description: String,
    pub rules: Vec<PolicyRule>,
    /// Final catch-all action when no rule matches.
    pub default_action: RouteAction,
    /// Installed on this device.
    pub installed: bool,
}

/// Persisted path-label + policy store.
#[derive(Debug, Clone, Default, PartialEq, Eq)]
pub struct PathPolicyStore {
    pub labels: Vec<PathLabel>,
    pub policies: Vec<Policy>,
}

/// `n` and `i` agree in their top `len` bits out of `width`.
pub open spec fn same_prefix_v4(n: u32, i: u32, len: nat) -> bool {
    len == 0 || (n >> ((32 - len) as u32)) == (i >> ((32 - len) as u32))
}

pub open spec fn same_prefix_v6(n: u128, i: u128, len: nat) -> bool {
    len == 0 || (n >> ((128 - len) as u32)) == (i >> ((128 - len) as u32))
}

/// `ip` lies inside the `net/len` network, both of the same address family.
pub open spec fn cidr_contains_spec(cidr: Seq<char>, ip: Seq<char>) -> bool {
    match split_once_spec(cidr, '/') {
        None => false,
        Some((net, plen)) => match (ip_parse(net), ip_parse(ip), parse_uint_spec(
            plen,
            0xffff_ffff,
        )) {
            (Some(IpAddress::V4(n)), Some(IpAddress::V4(a)), Some(l)) => l <= 32
                && same_prefix_v4(n, a, l),
            (Some(IpAddress::V6(n)), Some(IpAddress::V6(a)), Some(l)) => l <= 128
                && same_prefix_v6(n, a, l),
            _ => false,
        },
    }
}

pub open spec fn opt_eq(pat: Option<String>, v: Option<&str>) -> bool {
    match pat {
        None => true,
        Some(p) => match v {
            Some(x) => p@ == x@,
            None => false,
        },
    }
}

pub open spec fn opt_in_net(pat: Option<String>, v: Option<&str>) -> bool {
    match pat {
        None => true,
        Some(c) => match v {
            Some(x) => cidr_contains_spec(c@, x@),
            None => false,
        },
    }
}

pub open spec fn rule_matches(
    m: RuleMatch,
    app: Option<&str>,
    protocol: Option<&str>,
    src: Option<&str>,
    dst: Option<&str>,
    port: Option<u16>,
) -> bool {
    &&& opt_eq(m.app, app)
    &&& opt_eq(m.protocol, protocol)
    &&& opt_in_net(m.src_prefix, src)
    &&& opt_in_net(m.dst_prefix, dst)
    &&& (m.dst_port matches Some(p) ==> port == Some(p))
}

/// Index of the first rule whose match accepts the traffic (`-1` when none does).
pub open spec fn first_match(
    rules: Seq<PolicyRule>,
    app: Option<&str>,
    protocol: Option<&str>,
    src: Option<&str>,
    dst: Option<&str>,
    port: Option<u16>,
) -> int
    decreases rules.len(),
{
    if rules.len() == 0 {
        -1
    } else if rule_matches(rules[0].rule_match, app, protocol, src, dst, port) {
        0
    } else {
        let r = first_match(rules.drop_first(), app, protocol, src, dst, port);
        if r < 0 {
            -1
        } else {
            r + 1
        }
    }
}

pub open spec fn rule_error_message(i: nat, m: RuleMatch, a: RouteAction) -> Option<Seq<char>> {
    if match_all(m) {
        Some("rule "@ + dec(i) + " is match-all; only the implicit default may match all"@)
    } else if a.labels@.len() == 0 {
        Some("rule "@ + dec(i) + " routes via no labels"@)
    } else {
        None
    }
}

/// The first problem among `rules`, numbering them from `base`.
pub open spec fn rules_error(rules: Seq<PolicyRule>, base: nat) -> Option<Seq<char>>
    decreases rules.len(),
{
    if rules.len() == 0 {
        None
    } else {
        match rule_error_message(base, rules[0].rule_match, rules[0].action) {
            Some(e) => Some(e),
            None => rules_error(rules.drop_first(), base + 1),
        }
    }
}

pub open spec fn policy_error(p: Policy) -> Option<Seq<char>> {
    match rules_error(p.rules@, 0) {
        Some(e) => Some(e),
        None => if p.default_action.labels@.len() == 0 {
            Some("default action routes via no labels"@)
        } else {
            None
        },
    }
}

pub fn opt_str_matches(pat: &Option<String>, v: Option<&str>) -> (r: bool)
    ensures
        r == opt_eq(*pat, v),
{
    match pat {
        None => true,
        Some(p) => match v {
            Some(x) => str_eq(p.as_str(), x),
            None => false,
        },
    }
}

pub fn opt_net_matches(pat: &Option<String>, v: Option<&str>) -> (r: bool)
    ensures
        r == opt_in_net(*pat, v),
{
    match pat {
        None => true,
        Some(c) => match v {
            Some(x) => Policy::cidr_contains(c.as_str(), x),
            None => false,
        },
    }
}

impl Policy {
    /// True when `ip` falls inside the `cidr` network (same address family).
    pub fn cidr_contains(cidr: &str, ip: &str) -> (r: bool)
        ensures
            r == cidr_contains_spec(cidr@, ip@),
    {
        let cs = chars_of(cidr);
        let (net, plen) = match split_once(&cs, '/') {
            Some(x) => x,
            None => return false,
        };
        let ipc = chars_of(ip);
        let n = parse_ip_chars(&net);
        let a = parse_ip_chars(&ipc);
        let l = parse_uint(&plen, 0xffff_ffff);
        match (n, a, l) {
            (Some(IpAddress::V4(n)), Some(IpAddress::V4(a)), Some(l)) => {
                if l > 32 {
                    false
                } else if l == 0 {
                    true
                } else {
                    let sh = (32 - l) as u32;
                    (n >> sh) == (a >> sh)
                }
            },
            (Some(IpAddress::V6(n)), Some(IpAddress::V6(a)), Some(l)) => {
                if l > 128 {
                    false
                } else if l == 0 {
                    true
                } else {
                    let sh = (128 - l) as u32;
                    (n >> sh) == (a >> sh)
                }
            },
            _ => false,
        }
    }

    /// First matching rule's action, else the default action.
    pub fn evaluate(
        &self,
        app: Option<&str>,
        protocol: Option<&str>,
        src_prefix: Option<&str>,
        dst_prefix: Option<&str>,
        dst_port: Option<u16>,
    ) -> (r: &RouteAction)
        ensures
            ({
                let k = first_match(self.rules@, app, protocol, src_prefix, dst_prefix, dst_port);
                if k >= 0 {
                    0 <= k < self.rules@.len() && *r == self.rules@[k].action
                } else {
                    *r == self.default_action
                }
            }),
    {
        let mut i: usize = 0;
        assert(self.rules@.subrange(0, self.rules@.len() as int) =~= self.rules@);
        while i < self.rules.len()
            invariant
                i <= self.rules@.len(),
                first_match(self.rules@, app, protocol, src_prefix, dst_prefix, dst_port) == ({
                    let r = first_match(
                        self.rules@.subrange(i as int, self.rules@.len() as int),
                        app,
                        protocol,
                        src_prefix,
                        dst_prefix,
                        dst_port,
                    );
                    if r < 0 {
                        -1
                    } else {
                        r + i
                    }
                }),
            decreases self.rules.len() - i,
        {
            let r = &self.rules[i];
            let m = &r.rule_match;
            let ghost rest = self.rules@.subrange(i as int, self.rules@.len() as int);
            assert(rest[0] == self.rules@[i as int]);
            assert(rest.drop_first() =~= self.rules@.subrange(i + 1, self.rules@.len() as int));
            let hit = opt_str_matches(&m.app, app) && opt_str_matches(&m.protocol, protocol)
                && opt_net_matches(&m.src_prefix, src_prefix) && opt_net_matches(
                &m.dst_prefix,
                dst_prefix,
            ) && match m.dst_port {
                Some(p) => match dst_port {
                    Some(q) => p == q,
                    None => false,
                },
                None => true,
            };
            if hit {
                return &r.action;
            }
            proof {
                let t = first_match(rest.drop_first(), app, protocol, src_prefix, dst_prefix, dst_port);
                assert(first_match(rest, app, protocol, src_prefix, dst_prefix, dst_port) == (if t
                    < 0 {
                    -1
                } else {
                    t + 1
                }));
                if t >= 0 {
                    lemma_first_match_bound(rest.drop_first(), app, protocol, src_prefix, dst_prefix, dst_port);
                }
            }
            i += 1;
        }
        &self.default_action
    }

    /// Only the implicit default may match all traffic, and every action must
    /// route via at least one label.
    pub fn validate(&self) -> (r: Result<(), String>)
        ensures
            match r {
                Ok(()) => policy_error(*self) is None,
                Err(e) => policy_error(*self) == Some(e@),
            },
    {
        let mut i: usize = 0;
        assert(self.rules@.subrange(0, self.rules@.len() as int) =~= self.rules@);
        while i < self.rules.len()
            invariant
                i <= self.rules@.len(),
                rules_error(self.rules@, 0) == rules_error(
                    self.rules@.subrange(i as int, self.rules@.len() as int),
                    i as nat,
                ),
            decreases self.rules.len() - i,
        {
            let r = &self.rules[i];
            let ghost rest = self.rules@.subrange(i as int, self.rules@.len() as int);
            assert(rest[0] == self.rules@[i as int]);
            assert(rest.drop_first() =~= self.rules@.subrange(i + 1, self.rules@.len() as int));
            if r.rule_match.is_match_all() {
                let mut m: Vec<char> = Vec::new();
                append_str(&mut m, "rule ");
                push_dec(&mut m, i as u64);
                append_str(&mut m, " is match-all; only the implicit default may match all");
                return Err(string_from(&m));
            }
            if r.action.labels.len() == 0 {
                let mut m: Vec<char> = Vec::new();
                append_str(&mut m, "rule ");
                push_dec(&mut m, i as u64);
                append_str(&mut m, " routes via no labels");
                return Err(string_from(&m));
            }
            i += 1;
        }
        if self.default_action.labels.len() == 0 {
            return Err(owned("default action routes via no labels"));
        }
        Ok(())
    }
}

pub proof fn lemma_first_match_bound(
    rules: Seq<PolicyRule>,
    app: Option<&str>,
    protocol: Option<&str>,
    src: Option<&str>,
    dst: Option<&str>,
    port: Option<u16>,
)
    ensures
        -1 <= first_match(rules, app, protocol, src, dst, port) < rules.len(),
        first_match(rules, app, protocol, src, dst, port) >= 0 ==> rule_matches(
            rules[first_match(rules, app, protocol, src, dst, port)].rule_match,
            app,
            protocol,
            src,
            dst,
            port,
        ),
        forall|j: int|
            0 <= j < rules.len() && (j < first_match(rules, app, protocol, src, dst, port)
                || first_match(rules, app, protocol, src, dst, port) < 0) ==> !rule_matches(
                #[trigger] rules[j].rule_match,
                app,
                protocol,
                src,
                dst,
                port,
            ),
    decreases rules.len(),
{
    if rules.len() > 0 && !rule_matches(rules[0].rule_match, app, protocol, src, dst, port) {
        lemma_first_match_bound(rules.drop_first(), app, protocol, src, dst, port);
        assert forall|j: int|
            0 <= j < rules.len() && (j < first_match(rules, app, protocol, src, dst, port)
                || first_match(rules, app, protocol, src, dst, port) < 0) implies !rule_matches(
            #[trigger] rules[j].rule_match,
            app,
            protocol,
            src,
            dst,
            port,
        ) by {
            if j > 0 {
                assert(rules[j] == rules.drop_first()[j - 1]);
            }
        }
    }
}

/// The policy engine answers with the action of the first rule that matches
/// the traffic, no earlier rule matches it, and the default answers only
/// traffic that no rule matches.
pub proof fn law_first_match_wins(
    p: Policy,
    app: Option<&str>,
    protocol: Option<&str>,
    src: Option<&str>,
    dst: Option<&str>,
    port: Option<u16>,
)
    ensures
        ({
            let k = first_match(p.rules@, app, protocol, src, dst, port);
            &&& k >= 0 ==> rule_matches(p.rules@[k].rule_match, app, protocol, src, dst, port)
            &&& forall|j: int|
                0 <= j < p.rules@.len() && (j < k || k < 0) ==> !rule_matches(
                    #[trigger] p.rules@[j].rule_match,
                    app,
                    protocol,
                    src,
                    dst,
                    port,
                )
        }),
{
    lemma_first_match_bound(p.rules@, app, protocol, src, dst, port);
}

proof fn lemma_rules_error_none(rules: Seq<PolicyRule>, base: nat)
    requires
        rules_error(rules, base) is None,
    ensures
        forall|j: int|
            0 <= j < rules.len() ==> !match_all(#[trigger] rules[j].rule_match) && rules[j].action.labels@.len()
                > 0,
    decreases rules.len(),
{
    if rules.len() > 0 {
        lemma_rules_error_none(rules.drop_first(), base + 1);
        assert forall|j: int| 0 <= j < rules.len() implies !match_all(
            #[trigger] rules[j].rule_match,
        ) && rules[j].action.labels@.len() > 0 by {
            if j > 0 {
                assert(rules[j] == rules.drop_first()[j - 1]);
            }
        }
    }
}

/// A policy that validates has no match-all rule of its own and every one of
/// its actions, the default included, names at least one label.
pub proof fn law_valid_policy_shape(p: Policy)
    requires
        policy_error(p) is None,
    ensures
        forall|j: int|
            0 <= j < p.rules@.len() ==> !match_all(#[trigger] p.rules@[j].rule_match)
                && p.rules@[j].action.labels@.len() > 0,
        p.default_action.labels@.len() > 0,
{
    lemma_rules_error_none(p.rules@, 0);
}

} // verus!
