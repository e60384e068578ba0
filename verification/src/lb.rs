//! Load-balancer logic: firewall admission, backend health and latency
//! statistics, backend selection, connection limits, the alert log, and the
//! HTTP head handling of the reverse proxy.
use vstd::prelude::*;
use vstd::relations::{sorted_by, total_ordering};

use crate::config::{AlertEvent, Algorithm, BackendProto, FirewallRule, HttpPool, TcpPool};
use crate::net::{parse_socket_addr, socket_addr_parse};
use crate::text::{
    append_chars, append_str, chars_of, has_prefix, is_ascii_alpha, parse_uint, split_words,
    starts_with, string_from, words,
};

verus! {

broadcast use vstd::string::group_string_axioms;

// ---------------------------------------------------------------------------
// Stop flag
// ---------------------------------------------------------------------------

/// Cooperative stop flag shared with the serve loops. Another task may set it
/// at any time, so nothing is stated of what a read returns.
#[derive(Default)]
pub struct StopFlag(pub std::sync::atomic::AtomicBool);

impl StopFlag {
    pub fn stop(&self) {
        self.0.store(true, std::sync::atomic::Ordering::Relaxed);
    }

    pub fn is_stopped(&self) -> bool {
        self.0.load(std::sync::atomic::Ordering::Relaxed)
    }
}

// ---------------------------------------------------------------------------
// Health checks
// ---------------------------------------------------------------------------

/// Health check mode.
#[derive(Clone, Debug, PartialEq, Eq)]
pub enum HealthCheck {
    /// Bare TCP connect.
    Tcp,
    /// HTTP GET to the path; a 2xx or 3xx status counts as healthy.
    Http(String),
}

impl HealthCheck {
    pub fn from_path(path: Option<&String>) -> (r: Self)
        ensures
            match path {
                Some(p) => r == HealthCheck::Http(*p),
                None => r == HealthCheck::Tcp,
            },
    {
        match path {
            Some(p) => HealthCheck::Http(p.clone()),
            None => HealthCheck::Tcp,
        }
    }
}

/// Whether an HTTP probe answer reports health: its second word is a status
/// code from 200 to 399.
pub open spec fn probe_healthy(head: Seq<char>) -> bool {
    let w = words(head);
    w.len() >= 2 && match crate::text::parse_uint_spec(w[1], 65535) {
        Some(code) => 200 <= code < 400,
        None => false,
    }
}

pub fn probe_answer_healthy(head: &str) -> (r: bool)
    ensures
        r == probe_healthy(head@),
{
    let h = chars_of(head);
    let w = split_words(&h);
    if w.len() < 2 {
        return false;
    }
    match parse_uint(&w[1], 65535) {
        Some(code) => 200 <= code && code < 400,
        None => false,
    }
}

/// The request an HTTP probe sends.
pub fn probe_request(path: &str, addr: &str) -> (r: String)
    ensures
        r@ == "GET "@ + path@ + " HTTP/1.1\r\nHost: "@ + addr@ + "\r\nConnection: close\r\n\r\n"@,
{
    let mut out: Vec<char> = Vec::new();
    append_str(&mut out, "GET ");
    append_str(&mut out, path);
    append_str(&mut out, " HTTP/1.1\r\nHost: ");
    append_str(&mut out, addr);
    append_str(&mut out, "\r\nConnection: close\r\n\r\n");
    string_from(&out)
}

// ---------------------------------------------------------------------------
// Firewall
// ---------------------------------------------------------------------------

/// `s` without its trailing `*` characters.
pub open spec fn trim_end_stars(s: Seq<char>) -> Seq<char>
    decreases s.len(),
{
    if s.len() > 0 && s.last() == '*' {
        trim_end_stars(s.drop_last())
    } else {
        s
    }
}

pub fn trim_end_stars_chars(s: &Vec<char>) -> (r: Vec<char>)
    ensures
        r@ == trim_end_stars(s@),
{
    let mut n = s.len();
    assert(s@.subrange(0, n as int) =~= s@);
    while n > 0 && s[n - 1] == '*'
        invariant
            n <= s.len(),
            trim_end_stars(s@) == trim_end_stars(s@.subrange(0, n as int)),
        decreases n,
    {
        assert(s@.subrange(0, n - 1) =~= s@.subrange(0, n as int).drop_last());
        n -= 1;
    }
    crate::text::slice_chars(s, 0, n)
}

/// Whether a rule matches a connection from `ip` to `port` over `proto`.
pub open spec fn rule_applies(r: FirewallRule, ip: Seq<char>, port: u16, proto: Seq<char>) -> bool {
    &&& (r.port == port || r.port == 0)
    &&& (r.protocol@ == "any"@ || r.protocol@ == proto)
    &&& match r.source {
        Some(src) => src@.len() == 0 || has_prefix(ip, trim_end_stars(src@)),
        None => true,
    }
}

/// First matching rule decides (`"allow"` admits); no match admits.
pub open spec fn firewall_verdict(
    rules: Seq<FirewallRule>,
    ip: Seq<char>,
    port: u16,
    proto: Seq<char>,
) -> bool
    decreases rules.len(),
{
    if rules.len() == 0 {
        true
    } else if rule_applies(rules[0], ip, port, proto) {
        rules[0].action@ == "allow"@
    } else {
        firewall_verdict(rules.drop_first(), ip, port, proto)
    }
}

/// A rule for another protocol (neither `"any"` nor the connection's) never
/// decides: the verdict is that of the rules after it.
pub proof fn law_firewall_other_protocol_skipped(
    rules: Seq<FirewallRule>,
    ip: Seq<char>,
    port: u16,
    proto: Seq<char>,
)
    requires
        rules.len() > 0,
        rules[0].protocol@ != "any"@,
        rules[0].protocol@ != proto,
    ensures
        firewall_verdict(rules, ip, port, proto) == firewall_verdict(rules.drop_first(), ip, port, proto),
{
}

/// A rule for another port (neither 0 nor the connection's) never decides:
/// the verdict is that of the rules after it.
pub proof fn law_firewall_other_port_skipped(
    rules: Seq<FirewallRule>,
    ip: Seq<char>,
    port: u16,
    proto: Seq<char>,
)
    requires
        rules.len() > 0,
        rules[0].port != 0,
        rules[0].port != port,
    ensures
        firewall_verdict(rules, ip, port, proto) == firewall_verdict(rules.drop_first(), ip, port, proto),
{
}

/// When no rule names the connection's protocol or `"any"`, the connection
/// is admitted, whatever the rules say otherwise.
pub proof fn law_firewall_only_matching_protocols_deny(
    rules: Seq<FirewallRule>,
    ip: Seq<char>,
    port: u16,
    proto: Seq<char>,
)
    requires
        forall|i: int|
            0 <= i < rules.len() ==> (#[trigger] rules[i]).protocol@ != "any"@ && rules[i].protocol@ != proto,
    ensures
        firewall_verdict(rules, ip, port, proto),
    decreases rules.len(),
{
    if rules.len() > 0 {
        let t = rules.drop_first();
        assert forall|i: int| 0 <= i < t.len() implies (#[trigger] t[i]).protocol@ != "any"@ && t[i].protocol@
            != proto by {
            assert(t[i] == rules[i + 1]);
        }
        assert(rules[0].protocol@ != "any"@ && rules[0].protocol@ != proto);
        law_firewall_only_matching_protocols_deny(t, ip, port, proto);
    }
}

/// A first rule for the connection's port (or 0) and protocol (or `"any"`)
/// with no source restriction decides: the connection is admitted exactly
/// when that rule allows.
pub proof fn law_firewall_first_matching_rule_decides(
    rules: Seq<FirewallRule>,
    ip: Seq<char>,
    port: u16,
    proto: Seq<char>,
)
    requires
        rules.len() > 0,
        rules[0].port == port || rules[0].port == 0,
        rules[0].protocol@ == "any"@ || rules[0].protocol@ == proto,
        rules[0].source is None,
    ensures
        firewall_verdict(rules, ip, port, proto) == (rules[0].action@ == "allow"@),
{
}

/// With no rules every connection is admitted.
pub proof fn law_firewall_default_allow(ip: Seq<char>, port: u16, proto: Seq<char>)
    ensures
        firewall_verdict(Seq::empty(), ip, port, proto),
{
}

fn rule_applies_exec(r: &FirewallRule, ip: &Vec<char>, port: u16, proto: &str) -> (b: bool)
    ensures
        b == rule_applies(*r, ip@, port, proto@),
{
    if r.port != port && r.port != 0 {
        return false;
    }
    if !crate::text::str_eq(r.protocol.as_str(), "any") && !crate::text::str_eq(
        r.protocol.as_str(),
        proto,
    ) {
        return false;
    }
    match &r.source {
        Some(src) => {
            let s = chars_of(src.as_str());
            if s.len() == 0 {
                true
            } else {
                let t = trim_end_stars_chars(&s);
                starts_with(ip, &t)
            }
        },
        None => true,
    }
}

/// Whether the rules admit a connection from `source_ip` on `port` over
/// `protocol`. Rules are evaluated in order; the first match wins; no match
/// admits.
pub fn firewall_check(rules: &[FirewallRule], source_ip: &str, port: u16, protocol: &str) -> (r:
    bool)
    ensures
        r == firewall_verdict(rules@, source_ip@, port, protocol@),
{
    let ip = chars_of(source_ip);
    let mut i: usize = 0;
    assert(rules@.skip(0) =~= rules@);
    while i < rules.len()
        invariant
            i <= rules.len(),
            ip@ == source_ip@,
            firewall_verdict(rules@, source_ip@, port, protocol@) == firewall_verdict(
                rules@.skip(i as int),
                source_ip@,
                port,
                protocol@,
            ),
        decreases rules.len() - i,
    {
        let ghost rest = rules@.skip(i as int);
        assert(rest[0] == rules@[i as int]);
        if rule_applies_exec(&rules[i], &ip, port, protocol) {
            return crate::text::str_eq(rules[i].action.as_str(), "allow");
        }
        assert(rest.drop_first() =~= rules@.skip(i + 1));
        i += 1;
    }
    true
}

// ---------------------------------------------------------------------------
// Alert log
// ---------------------------------------------------------------------------

/// Log of recent alerts keeping the newest `max`.
pub struct AlertLog {
    events: Vec<AlertEvent>,
    max: usize,
}

impl AlertLog {
    pub closed spec fn events(&self) -> Seq<AlertEvent> {
        self.events@
    }

    pub closed spec fn capacity(&self) -> usize {
        self.max
    }

    pub fn new(max: usize) -> (r: Self)
        ensures
            r.events() == Seq::<AlertEvent>::empty(),
            r.capacity() == max,
    {
        let r = AlertLog { events: Vec::new(), max };
        assert(r.events@ =~= Seq::<AlertEvent>::empty());
        r
    }

    /// Appends an alert stamped `now` and drops the oldest one when the log
    /// then holds more than its capacity; a log within its capacity stays
    /// within it.
    pub fn push(&mut self, severity: &str, source: &str, message: &str, now: u64)
        ensures
            final(self).capacity() == old(self).capacity(),
            exists|e: AlertEvent|
                {
                    &&& e.timestamp == now
                    &&& e.severity@ == severity@
                    &&& e.source@ == source@
                    &&& e.message@ == message@
                    &&& final(self).events() == if old(self).events().len() + 1 > old(
                        self,
                    ).capacity() {
                        old(self).events().push(e).drop_first()
                    } else {
                        old(self).events().push(e)
                    }
                },
            old(self).events().len() <= old(self).capacity() ==> final(self).events().len()
                <= final(self).capacity(),
    {
        let ghost before = self.events@;
        let e = AlertEvent {
            timestamp: now,
            severity: String::from_str(severity),
            source: String::from_str(source),
            message: String::from_str(message),
        };
        let ghost ge = e;
        self.events.push(e);
        if self.events.len() > self.max {
            self.events.remove(0);
            assert(self.events@ =~= before.push(ge).drop_first());
        } else {
            assert(self.events@ =~= before.push(ge));
        }
        assert(ge.timestamp == now && ge.severity@ == severity@ && ge.source@ == source@
            && ge.message@ == message@);
    }

    /// The alerts, oldest first.
    pub fn list(&self) -> (r: &Vec<AlertEvent>)
        ensures
            r@ == self.events(),
    {
        &self.events
    }
}

// ---------------------------------------------------------------------------
// Latency percentiles
// ---------------------------------------------------------------------------

/// The recorded samples of a list: its non-zero entries, in order.
pub open spec fn nonzero(s: Seq<u64>) -> Seq<u64>
    decreases s.len(),
{
    if s.len() == 0 {
        Seq::empty()
    } else {
        let r = nonzero(s.drop_last());
        if s.last() > 0 {
            r.push(s.last())
        } else {
            r
        }
    }
}

/// Ascending order on samples.
pub open spec fn u64_leq() -> spec_fn(u64, u64) -> bool {
    |a: u64, b: u64| a <= b
}

/// The samples in ascending order.
pub open spec fn ascending(s: Seq<u64>) -> Seq<u64> {
    s.sort_by(u64_leq())
}

/// 1-based nearest rank of the `q`-th percentile among `n` samples.
pub open spec fn nearest_rank(n: nat, q: nat) -> nat {
    let k = (n * q + 99) / 100;
    if k < 1 {
        1
    } else {
        k as nat
    }
}

/// Nearest-rank `q`-th percentile of the non-zero samples (`None` when there
/// are none).
pub open spec fn percentile_spec(samples: Seq<u64>, q: nat) -> Option<u64> {
    let v = ascending(nonzero(samples));
    if v.len() == 0 {
        None
    } else {
        Some(v[nearest_rank(v.len(), q) - 1])
    }
}

pub proof fn lemma_u64_leq_total()
    ensures
        total_ordering(u64_leq()),
{
    let f = u64_leq();
    assert(vstd::relations::reflexive(f));
    assert(vstd::relations::antisymmetric(f));
    assert(vstd::relations::transitive(f));
    assert(vstd::relations::strongly_connected(f));
}

/// The non-zero samples in ascending order.
pub fn sorted_nonzero(samples: &[u64]) -> (r: Vec<u64>)
    ensures
        r@ == ascending(nonzero(samples@)),
{
    broadcast use vstd::seq_lib::group_to_multiset_ensures;

    let mut out: Vec<u64> = Vec::new();
    let mut i: usize = 0;
    while i < samples.len()
        invariant
            i <= samples.len(),
            sorted_by(out@, u64_leq()),
            out@.to_multiset() == nonzero(samples@.take(i as int)).to_multiset(),
        decreases samples.len() - i,
    {
        let x = samples[i];
        let ghost pre = samples@.take(i as int);
        assert(samples@.take(i + 1).drop_last() =~= pre);
        assert(samples@.take(i + 1).last() == x);
        assert(nonzero(samples@.take(i + 1)) == if x > 0 {
            nonzero(pre).push(x)
        } else {
            nonzero(pre)
        });
        if x > 0 {
            let mut p: usize = 0;
            while p < out.len() && out[p] <= x
                invariant
                    p <= out.len(),
                    forall|j: int| 0 <= j < p ==> out@[j] <= x,
                decreases out.len() - p,
            {
                p += 1;
            }
            let ghost before = out@;
            out.insert(p, x);
            assert(out@ == before.insert(p as int, x));
            proof {
                vstd::seq_lib::to_multiset_insert(before, p as int, x);
                vstd::seq_lib::to_multiset_build(nonzero(pre), x);
            }
            assert forall|a: int, b: int| 0 <= a < b < out@.len() implies (u64_leq())(
                out@[a],
                out@[b],
            ) by {
                assert(sorted_by(before, u64_leq()));
                if b < p {
                    assert(out@[a] == before[a] && out@[b] == before[b]);
                    assert((u64_leq())(before[a], before[b]));
                } else if b == p {
                    assert(out@[a] == before[a]);
                } else if a < p {
                    assert(out@[a] == before[a] && out@[b] == before[b - 1]);
                    if p < before.len() {
                        assert((u64_leq())(before[p as int], before[b - 1]));
                    }
                } else if a == p {
                    assert(out@[b] == before[b - 1]);
                    assert((u64_leq())(before[p as int], before[b - 1]));
                } else {
                    assert(out@[a] == before[a - 1] && out@[b] == before[b - 1]);
                    assert((u64_leq())(before[a - 1], before[b - 1]));
                }
            }
        }
        i += 1;
    }
    proof {
        assert(samples@.take(samples.len() as int) =~= samples@);
        let v = nonzero(samples@);
        lemma_u64_leq_total();
        v.lemma_sort_by_ensures(u64_leq());
        vstd::seq_lib::lemma_sorted_unique(out@, v.sort_by(u64_leq()), u64_leq());
    }
    out
}

/// Nearest-rank `q`-th percentile of the non-zero samples.
pub fn percentile(samples: &[u64], q: usize) -> (r: Option<u64>)
    requires
        q <= 100,
    ensures
        r == percentile_spec(samples@, q as nat),
{
    let v = sorted_nonzero(samples);
    if v.len() == 0 {
        return None;
    }
    let n = v.len() as u128;
    assert(n * (q as u128) + 99 <= 100 * 0x1_0000_0000_0000_0000u128) by (nonlinear_arith)
        requires
            n <= 0xffff_ffff_ffff_ffffu128,
            q <= 100,
    ;
    let k = (n * (q as u128) + 99) / 100;
    let k = if k < 1 {
        1
    } else {
        k
    };
    assert(k <= n) by (nonlinear_arith)
        requires
            k == 1 || k == (n * (q as u128) + 99) / 100,
            q <= 100,
            n >= 1,
    ;
    Some(v[(k - 1) as usize])
}

/// The ring cursor after one more sample (wrapping).
pub open spec fn next_cursor(c: usize) -> usize {
    if c == usize::MAX {
        0
    } else {
        (c + 1) as usize
    }
}

/// Ring of the last 64 connect latencies in microseconds (0: empty slot).
pub struct LatencyRing {
    slots: [u64; 64],
    next: usize,
}

impl LatencyRing {
    pub closed spec fn slots(&self) -> Seq<u64> {
        self.slots@
    }

    /// Number of samples recorded so far (wrapping).
    pub closed spec fn cursor(&self) -> usize {
        self.next
    }

    pub fn new() -> (r: Self)
        ensures
            r.slots() == Seq::new(64, |i: int| 0u64),
            r.cursor() == 0,
    {
        let r = LatencyRing { slots: [0u64; 64], next: 0 };
        assert(r.slots@ =~= Seq::new(64, |i: int| 0u64));
        r
    }

    /// Overwrites the oldest slot with `us`.
    pub fn record(&mut self, us: u64)
        ensures
            final(self).slots() == old(self).slots().update((old(self).cursor() % 64) as int, us),
            final(self).cursor() == next_cursor(old(self).cursor()),
    {
        let idx = self.next % 64;
        self.slots[idx] = us;
        self.next = if self.next == usize::MAX {
            0
        } else {
            self.next + 1
        };
    }

    /// Median and 95th percentile of the recorded samples.
    pub fn percentiles(&self) -> (r: (Option<u64>, Option<u64>))
        ensures
            r == (percentile_spec(self.slots(), 50), percentile_spec(self.slots(), 95)),
    {
        let s = self.slots.as_slice();
        (percentile(s, 50), percentile(s, 95))
    }
}

// ---------------------------------------------------------------------------
// Backends
// ---------------------------------------------------------------------------

pub open spec fn wadd(x: u64, y: u64) -> u64 {
    vstd::wrapping::u64_specs::wrapping_add(x, y)
}

pub open spec fn wsub(x: u64, y: u64) -> u64 {
    vstd::wrapping::u64_specs::wrapping_sub(x, y)
}

/// Latency recorded for a connect that timed out: the 5 s timeout.
pub const CONNECT_TIMEOUT_US: u64 = 5000000;

/// One upstream server: health, connection and byte counters (wrapping, like
/// the atomic counters they stand for) and its latency ring.
pub struct Backend {
    addr: String,
    healthy: bool,
    active_conns: u64,
    total_conns: u64,
    rx_bytes: u64,
    tx_bytes: u64,
    health_failures: u64,
    latencies: LatencyRing,
}

impl Backend {
    pub closed spec fn address(&self) -> String {
        self.addr
    }

    pub closed spec fn up(&self) -> bool {
        self.healthy
    }

    pub closed spec fn active(&self) -> u64 {
        self.active_conns
    }

    pub closed spec fn total(&self) -> u64 {
        self.total_conns
    }

    pub closed spec fn rx(&self) -> u64 {
        self.rx_bytes
    }

    pub closed spec fn tx(&self) -> u64 {
        self.tx_bytes
    }

    pub closed spec fn failures(&self) -> u64 {
        self.health_failures
    }

    pub closed spec fn ring(&self) -> LatencyRing {
        self.latencies
    }

    /// A healthy backend with zeroed counters and no latency samples.
    pub fn new(addr: String) -> (r: Self)
        ensures
            r.address() == addr,
            r.up(),
            r.active() == 0 && r.total() == 0 && r.rx() == 0 && r.tx() == 0 && r.failures() == 0,
            r.ring().slots() == Seq::new(64, |i: int| 0u64),
            r.ring().cursor() == 0,
    {
        Backend {
            addr,
            healthy: true,
            active_conns: 0,
            total_conns: 0,
            rx_bytes: 0,
            tx_bytes: 0,
            health_failures: 0,
            latencies: LatencyRing::new(),
        }
    }

    /// The backend's address.
    pub fn addr(&self) -> (r: &String)
        ensures
            *r == self.address(),
    {
        &self.addr
    }

    pub fn is_healthy(&self) -> (r: bool)
        ensures
            r == self.up(),
    {
        self.healthy
    }

    /// Records a health verdict; a failed one is counted. Returns whether the
    /// health changed.
    pub fn set_healthy(&mut self, ok: bool) -> (changed: bool)
        ensures
            final(self).up() == ok,
            changed == (old(self).up() != ok),
            final(self).failures() == if ok {
                old(self).failures()
            } else {
                wadd(old(self).failures(), 1)
            },
            final(self).address() == old(self).address(),
            final(self).active() == old(self).active(),
            final(self).total() == old(self).total(),
            final(self).rx() == old(self).rx(),
            final(self).tx() == old(self).tx(),
            final(self).ring() == old(self).ring(),
    {
        if !ok {
            self.health_failures = self.health_failures.wrapping_add(1);
        }
        let was = self.healthy;
        self.healthy = ok;
        was != ok
    }

    pub fn active_conns(&self) -> (r: u64)
        ensures
            r == self.active(),
    {
        self.active_conns
    }

    pub fn total_conns(&self) -> (r: u64)
        ensures
            r == self.total(),
    {
        self.total_conns
    }

    pub fn rx_bytes(&self) -> (r: u64)
        ensures
            r == self.rx(),
    {
        self.rx_bytes
    }

    pub fn tx_bytes(&self) -> (r: u64)
        ensures
            r == self.tx(),
    {
        self.tx_bytes
    }

    pub fn health_failures(&self) -> (r: u64)
        ensures
            r == self.failures(),
    {
        self.health_failures
    }

    pub fn bump_health_failures(&mut self)
        ensures
            final(self).failures() == wadd(old(self).failures(), 1),
            final(self).up() == old(self).up(),
            final(self).address() == old(self).address(),
            final(self).active() == old(self).active(),
            final(self).total() == old(self).total(),
            final(self).rx() == old(self).rx(),
            final(self).tx() == old(self).tx(),
            final(self).ring() == old(self).ring(),
    {
        self.health_failures = self.health_failures.wrapping_add(1);
    }

    pub fn record_latency_us(&mut self, us: u64)
        ensures
            final(self).ring().slots() == old(self).ring().slots().update(
                (old(self).ring().cursor() % 64) as int,
                us,
            ),
            final(self).ring().cursor() == next_cursor(old(self).ring().cursor()),
            final(self).up() == old(self).up(),
            final(self).address() == old(self).address(),
            final(self).active() == old(self).active(),
            final(self).total() == old(self).total(),
            final(self).rx() == old(self).rx(),
            final(self).tx() == old(self).tx(),
            final(self).failures() == old(self).failures(),
    {
        self.latencies.record(us);
    }

    /// Median and 95th-percentile connect latency in microseconds.
    pub fn latency_percentiles_us(&self) -> (r: (Option<u64>, Option<u64>))
        ensures
            r == (percentile_spec(self.ring().slots(), 50), percentile_spec(
                self.ring().slots(),
                95,
            )),
    {
        self.latencies.percentiles()
    }

    /// Counts bytes sent to (`up`) and received from (`down`) the backend.
    pub fn add_bytes(&mut self, up: u64, down: u64)
        ensures
            final(self).tx() == wadd(old(self).tx(), up),
            final(self).rx() == wadd(old(self).rx(), down),
            final(self).up() == old(self).up(),
            final(self).address() == old(self).address(),
            final(self).active() == old(self).active(),
            final(self).total() == old(self).total(),
            final(self).failures() == old(self).failures(),
            final(self).ring() == old(self).ring(),
    {
        if up > 0 {
            self.tx_bytes = self.tx_bytes.wrapping_add(up);
        }
        if down > 0 {
            self.rx_bytes = self.rx_bytes.wrapping_add(down);
        }
    }

    /// Bookkeeping of a successful connect that took `latency_us`.
    pub fn connected(&mut self, latency_us: u64)
        ensures
            final(self).ring().slots() == old(self).ring().slots().update(
                (old(self).ring().cursor() % 64) as int,
                latency_us,
            ),
            final(self).ring().cursor() == next_cursor(old(self).ring().cursor()),
            final(self).active() == wadd(old(self).active(), 1),
            final(self).total() == wadd(old(self).total(), 1),
            final(self).up() == old(self).up(),
            final(self).address() == old(self).address(),
            final(self).rx() == old(self).rx(),
            final(self).tx() == old(self).tx(),
            final(self).failures() == old(self).failures(),
    {
        self.latencies.record(latency_us);
        self.active_conns = self.active_conns.wrapping_add(1);
        self.total_conns = self.total_conns.wrapping_add(1);
    }

    /// Bookkeeping of a connect that timed out: the timeout is recorded as its
    /// latency.
    pub fn connect_timed_out(&mut self)
        ensures
            final(self).ring().slots() == old(self).ring().slots().update(
                (old(self).ring().cursor() % 64) as int,
                CONNECT_TIMEOUT_US,
            ),
            final(self).ring().cursor() == next_cursor(old(self).ring().cursor()),
            final(self).active() == old(self).active(),
            final(self).total() == old(self).total(),
            final(self).up() == old(self).up(),
            final(self).address() == old(self).address(),
            final(self).rx() == old(self).rx(),
            final(self).tx() == old(self).tx(),
            final(self).failures() == old(self).failures(),
    {
        self.latencies.record(CONNECT_TIMEOUT_US);
    }

    /// A connection to the backend ended.
    pub fn release(&mut self)
        ensures
            final(self).active() == wsub(old(self).active(), 1),
            final(self).total() == old(self).total(),
            final(self).up() == old(self).up(),
            final(self).address() == old(self).address(),
            final(self).rx() == old(self).rx(),
            final(self).tx() == old(self).tx(),
            final(self).failures() == old(self).failures(),
            final(self).ring() == old(self).ring(),
    {
        self.active_conns = self.active_conns.wrapping_sub(1);
    }
}

// ---------------------------------------------------------------------------
// Backend selection
// ---------------------------------------------------------------------------

/// Positions of the healthy backends, in list order.
pub open spec fn healthy_positions(b: Seq<Backend>) -> Seq<int>
    decreases b.len(),
{
    if b.len() == 0 {
        Seq::empty()
    } else {
        let r = healthy_positions(b.drop_last());
        if b.last().up() {
            r.push(b.len() - 1)
        } else {
            r
        }
    }
}

/// Position (in `h`) of the first healthy backend with the fewest active
/// connections.
pub open spec fn least_loaded(b: Seq<Backend>, h: Seq<int>) -> int
    decreases h.len(),
{
    if h.len() <= 1 {
        0
    } else {
        let k = least_loaded(b, h.drop_last());
        if b[h.last()].active() < b[h[k]].active() {
            h.len() - 1
        } else {
            k
        }
    }
}

/// The backend the algorithm picks, given the round-robin counter and, for
/// random selection, the drawn position among the healthy backends.
pub open spec fn pick_spec(b: Seq<Backend>, algo: Algorithm, counter: u64, drawn: usize) -> Option<int> {
    let h = healthy_positions(b);
    if h.len() == 0 {
        None
    } else {
        match algo {
            Algorithm::RoundRobin => Some(h[(counter % (h.len() as u64)) as int]),
            Algorithm::LeastConnections => Some(h[least_loaded(b, h)]),
            Algorithm::Random => Some(h[drawn as int]),
            Algorithm::Failover => Some(h[0]),
        }
    }
}

proof fn lemma_healthy_positions_complete(b: Seq<Backend>, j: int)
    requires
        0 <= j < b.len(),
        b[j].up(),
    ensures
        exists|k: int| 0 <= k < healthy_positions(b).len() && #[trigger] healthy_positions(b)[k] == j,
    decreases b.len(),
{
    let r = healthy_positions(b.drop_last());
    if j == b.len() - 1 {
        assert(healthy_positions(b)[r.len() as int] == j);
    } else {
        assert(b.drop_last()[j] == b[j]);
        lemma_healthy_positions_complete(b.drop_last(), j);
        let k = choose|k: int| 0 <= k < r.len() && #[trigger] r[k] == j;
        assert(healthy_positions(b)[k] == j);
    }
}

proof fn lemma_least_loaded_min(b: Seq<Backend>, h: Seq<int>)
    requires
        h.len() > 0,
    ensures
        0 <= least_loaded(b, h) < h.len(),
        forall|k: int| 0 <= k < h.len() ==> b[h[least_loaded(b, h)]].active() <= #[trigger] b[h[k]].active(),
    decreases h.len(),
{
    if h.len() > 1 {
        let init = h.drop_last();
        lemma_least_loaded_min(b, init);
        let m0 = least_loaded(b, init);
        let m = least_loaded(b, h);
        assert(init[m0] == h[m0]);
        assert forall|k: int| 0 <= k < h.len() implies b[h[m]].active() <= #[trigger] b[h[k]].active() by {
            if k < init.len() {
                assert(init[k] == h[k]);
                assert(b[init[m0]].active() <= b[init[k]].active());
            }
        }
    }
}

/// Least connections picks a healthy backend whose active connection count
/// is at most that of every healthy backend, and picks nothing only when no
/// backend is healthy.
pub proof fn law_least_connections_picks_minimum(b: Seq<Backend>, counter: u64, drawn: usize)
    ensures
        pick_spec(b, Algorithm::LeastConnections, counter, drawn) is None <==> forall|j: int|
            0 <= j < b.len() ==> !(#[trigger] b[j]).up(),
        pick_spec(b, Algorithm::LeastConnections, counter, drawn) matches Some(i) ==> {
            &&& 0 <= i < b.len()
            &&& b[i].up()
            &&& forall|j: int| 0 <= j < b.len() && (#[trigger] b[j]).up() ==> b[i].active() <= b[j].active()
        },
{
    let h = healthy_positions(b);
    lemma_healthy_positions(b);
    if h.len() == 0 {
        assert forall|j: int| 0 <= j < b.len() implies !(#[trigger] b[j]).up() by {
            if b[j].up() {
                lemma_healthy_positions_complete(b, j);
            }
        }
    } else {
        lemma_least_loaded_min(b, h);
        let m = least_loaded(b, h);
        assert(b[h[0]].up());
        assert forall|j: int| 0 <= j < b.len() && (#[trigger] b[j]).up() implies b[h[m]].active() <= b[j].active() by {
            lemma_healthy_positions_complete(b, j);
            let k = choose|k: int| 0 <= k < h.len() && #[trigger] h[k] == j;
            assert(b[h[m]].active() <= b[h[k]].active());
        }
    }
}

/// Every algorithm picks a healthy backend, and picks none only when no
/// backend is healthy; failover picks the first healthy backend, every
/// backend before it being down.
pub proof fn law_pick_is_healthy(b: Seq<Backend>, algo: Algorithm, counter: u64, drawn: usize)
    requires
        b.len() <= u64::MAX,
        algo == Algorithm::Random ==> drawn < healthy_positions(b).len() || healthy_positions(b).len() == 0,
    ensures
        pick_spec(b, algo, counter, drawn) is None <==> forall|j: int| 0 <= j < b.len() ==> !(#[trigger] b[j]).up(),
        pick_spec(b, algo, counter, drawn) matches Some(i) ==> 0 <= i < b.len() && b[i].up(),
        algo == Algorithm::Failover ==> (pick_spec(b, algo, counter, drawn) matches Some(i) ==> forall|j: int|
            0 <= j < i ==> !(#[trigger] b[j]).up()),
{
    let h = healthy_positions(b);
    lemma_healthy_positions(b);
    if h.len() == 0 {
        assert forall|j: int| 0 <= j < b.len() implies !(#[trigger] b[j]).up() by {
            if b[j].up() {
                lemma_healthy_positions_complete(b, j);
            }
        }
    } else {
        assert(b[h[0]].up());
        if algo == Algorithm::RoundRobin {
            let n = h.len() as u64;
            assert(n as int == h.len());
            assert(counter % n < n) by (nonlinear_arith)
                requires
                    n > 0,
            ;
            let k = (counter % n) as int;
            assert(0 <= k < h.len());
            assert(b[h[k]].up());
        } else if algo == Algorithm::LeastConnections {
            lemma_least_loaded_min(b, h);
            assert(b[h[least_loaded(b, h)]].up());
        } else if algo == Algorithm::Random {
            assert(b[h[drawn as int]].up());
        }
        if algo == Algorithm::Failover {
            assert forall|j: int| 0 <= j < h[0] implies !(#[trigger] b[j]).up() by {
                if b[j].up() {
                    lemma_healthy_positions_complete(b, j);
                    let k = choose|k: int| 0 <= k < h.len() && #[trigger] h[k] == j;
                    if k > 0 {
                        assert(h[0] < h[k]);
                    }
                }
            }
        }
    }
}

pub proof fn lemma_healthy_positions(b: Seq<Backend>)
    ensures
        healthy_positions(b).len() <= b.len(),
        forall|i: int|
            0 <= i < healthy_positions(b).len() ==> 0 <= #[trigger] healthy_positions(b)[i] < b.len()
                && b[healthy_positions(b)[i]].up(),
        forall|i: int, j: int|
            0 <= i < j < healthy_positions(b).len() ==> healthy_positions(b)[i]
                < healthy_positions(b)[j],
    decreases b.len(),
{
    if b.len() > 0 {
        lemma_healthy_positions(b.drop_last());
        let r = healthy_positions(b.drop_last());
        assert forall|i: int| 0 <= i < r.len() implies b[r[i]] == b.drop_last()[r[i]] by {}
    }
}

pub proof fn lemma_least_loaded(b: Seq<Backend>, h: Seq<int>)
    requires
        h.len() > 0,
        forall|i: int| 0 <= i < h.len() ==> 0 <= #[trigger] h[i] < b.len(),
    ensures
        0 <= least_loaded(b, h) < h.len(),
        forall|i: int| 0 <= i < h.len() ==> b[h[least_loaded(b, h)]].active() <= #[trigger] b[h[i]].active(),
        forall|i: int| 0 <= i < least_loaded(b, h) ==> b[h[least_loaded(b, h)]].active() < #[trigger] b[h[i]].active(),
    decreases h.len(),
{
    if h.len() > 1 {
        let d = h.drop_last();
        assert forall|i: int| 0 <= i < d.len() implies 0 <= #[trigger] d[i] < b.len() by {
            assert(d[i] == h[i]);
        }
        lemma_least_loaded(b, d);
        assert forall|i: int| 0 <= i < d.len() implies d[i] == h[i] by {}
    }
}

/// The healthy backends' positions, computed.
fn healthy_list(backends: &Vec<Backend>) -> (r: Vec<usize>)
    ensures
        r@.len() == healthy_positions(backends@).len(),
        forall|i: int| 0 <= i < r@.len() ==> r@[i] as int == healthy_positions(backends@)[i],
{
    let mut out: Vec<usize> = Vec::new();
    let mut i: usize = 0;
    while i < backends.len()
        invariant
            i <= backends.len(),
            out@.len() == healthy_positions(backends@.take(i as int)).len(),
            forall|j: int| 0 <= j < out@.len() ==> out@[j] as int == healthy_positions(backends@.take(i as int))[j],
        decreases backends.len() - i,
    {
        let ghost pre = backends@.take(i as int);
        assert(backends@.take(i + 1).drop_last() =~= pre);
        assert(backends@.take(i + 1).last() == backends@[i as int]);
        if backends[i].is_healthy() {
            out.push(i);
        }
        i += 1;
    }
    assert(backends@.take(backends.len() as int) =~= backends@);
    out
}

/// Picks a backend (its position) by the algorithm; `drawn` is the random
/// draw used by random selection. The round-robin counter advances (wrapping)
/// when round robin is used.
pub fn pick_backend(backends: &Vec<Backend>, algo: Algorithm, counter: &mut u64, drawn: usize) -> (r:
    Option<usize>)
    requires
        algo == Algorithm::Random ==> drawn < healthy_positions(backends@).len(),
    ensures
        r == match pick_spec(backends@, algo, *old(counter), drawn) {
            Some(i) => Some(i as usize),
            None => None,
        },
        *final(counter) == if algo == Algorithm::RoundRobin && healthy_positions(backends@).len() > 0 {
            wadd(*old(counter), 1)
        } else {
            *old(counter)
        },
        r matches Some(i) ==> i < backends@.len() && backends@[i as int].up(),
{
    proof {
        lemma_healthy_positions(backends@);
    }
    let h = healthy_list(backends);
    if h.len() == 0 {
        return None;
    }
    match algo {
        Algorithm::RoundRobin => {
            let c = *counter;
            *counter = c.wrapping_add(1);
            let k = (c % (h.len() as u64)) as usize;
            Some(h[k])
        },
        Algorithm::LeastConnections => {
            proof {
                lemma_least_loaded(backends@, healthy_positions(backends@));
            }
            let mut best: usize = 0;
            let mut j: usize = 1;
            while j < h.len()
                invariant
                    1 <= j <= h.len(),
                    h@.len() == healthy_positions(backends@).len(),
                    forall|t: int| 0 <= t < h@.len() ==> h@[t] as int == healthy_positions(backends@)[t],
                    forall|t: int| 0 <= t < h@.len() ==> 0 <= #[trigger] healthy_positions(backends@)[t] < backends@.len(),
                    best as int == least_loaded(backends@, healthy_positions(backends@).take(j as int)),
                    best < j,
                decreases h.len() - j,
            {
                let ghost hp = healthy_positions(backends@);
                assert(hp.take(j + 1).drop_last() =~= hp.take(j as int));
                assert(hp.take(j + 1).last() == hp[j as int]);
                assert(hp.take(j as int)[best as int] == hp[best as int]);
                if backends[h[j]].active_conns() < backends[h[best]].active_conns() {
                    best = j;
                }
                j += 1;
            }
            assert(healthy_positions(backends@).take(h.len() as int) =~= healthy_positions(backends@));
            Some(h[best])
        },
        Algorithm::Random => Some(h[drawn]),
        Algorithm::Failover => Some(h[0]),
    }
}

/// `rand::Rng::gen_range(0..n)` on the thread's generator: some position
/// below `n`, drawn at random.
#[verifier::external_body]
fn random_below(n: usize) -> (r: usize)
    requires
        n > 0,
    ensures
        r < n,
{
    rand::Rng::gen_range(&mut rand::thread_rng(), 0..n)
}

/// Selects a backend by the algorithm; `None` when none is healthy. Random
/// selection draws a healthy backend at random; the other algorithms are
/// exactly [`pick_backend`].
pub fn select_backend(backends: &Vec<Backend>, algo: Algorithm, counter: &mut u64) -> (r: Option<
    usize,
>)
    ensures
        algo != Algorithm::Random ==> r == match pick_spec(backends@, algo, *old(counter), 0) {
            Some(i) => Some(i as usize),
            None => None,
        },
        algo == Algorithm::Random ==> (r is None <==> healthy_positions(backends@).len() == 0),
        *final(counter) == if algo == Algorithm::RoundRobin && healthy_positions(backends@).len() > 0 {
            wadd(*old(counter), 1)
        } else {
            *old(counter)
        },
        r matches Some(i) ==> i < backends@.len() && backends@[i as int].up(),
{
    let drawn = if algo == Algorithm::Random {
        let h = healthy_list(backends);
        if h.len() == 0 {
            0
        } else {
            random_below(h.len())
        }
    } else {
        0
    };
    if algo == Algorithm::Random && drawn >= healthy_list(backends).len() {
        return None;
    }
    pick_backend(backends, algo, counter, drawn)
}

// ---------------------------------------------------------------------------
// Pools
// ---------------------------------------------------------------------------

/// Addresses of a configured backend list that parse as socket addresses.
pub open spec fn valid_addrs(addrs: Seq<String>) -> Seq<String>
    decreases addrs.len(),
{
    if addrs.len() == 0 {
        Seq::empty()
    } else {
        let r = valid_addrs(addrs.drop_last());
        if socket_addr_parse(addrs.last()@) is Some {
            r.push(addrs.last())
        } else {
            r
        }
    }
}

/// A backend as it starts: at address `a`, healthy, with zeroed counters
/// and an empty latency window.
pub open spec fn fresh_backend(b: Backend, a: String) -> bool {
    &&& b.address() == a
    &&& b.up()
    &&& b.active() == 0
    &&& b.total() == 0
    &&& b.rx() == 0
    &&& b.tx() == 0
    &&& b.failures() == 0
    &&& b.ring().slots() == Seq::new(64, |i: int| 0u64)
    &&& b.ring().cursor() == 0
}

/// One fresh backend per valid address of `addrs`, in order.
pub open spec fn fresh_backends(bs: Seq<Backend>, addrs: Seq<String>) -> bool {
    &&& bs.len() == valid_addrs(addrs).len()
    &&& forall|i: int| 0 <= i < bs.len() ==> fresh_backend(#[trigger] bs[i], valid_addrs(addrs)[i])
}

/// Fresh backends for the valid configured addresses, in order.
pub fn backends_from(addrs: &Vec<String>) -> (r: Vec<Backend>)
    ensures
        fresh_backends(r@, addrs@),
{
    let mut out: Vec<Backend> = Vec::new();
    let mut i: usize = 0;
    while i < addrs.len()
        invariant
            i <= addrs.len(),
            fresh_backends(out@, addrs@.take(i as int)),
        decreases addrs.len() - i,
    {
        let ghost pre = addrs@.take(i as int);
        assert(addrs@.take(i + 1).drop_last() =~= pre);
        assert(addrs@.take(i + 1).last() == addrs@[i as int]);
        if parse_socket_addr(addrs[i].as_str()).is_some() {
            out.push(Backend::new(addrs[i].clone()));
        }
        i += 1;
    }
    assert(addrs@.take(addrs.len() as int) =~= addrs@);
    out
}

/// Whether a new connection is admitted under the limit `max` (0: none).
pub open spec fn admits(max: usize, active: usize) -> bool {
    !(max > 0 && active >= max)
}

/// Runtime state of a TCP pool: its backends, selection algorithm and
/// connection accounting.
pub struct TcpPoolState {
    name: String,
    algo: Algorithm,
    backends: Vec<Backend>,
    counter: u64,
    max_conns: usize,
    active_conns: usize,
    rejected_conns: u64,
    drained: bool,
}

/// The backends without those at address `a`.
pub open spec fn without_addr(b: Seq<Backend>, a: Seq<char>) -> Seq<Backend>
    decreases b.len(),
{
    if b.len() == 0 {
        Seq::empty()
    } else {
        let r = without_addr(b.drop_last(), a);
        if b.last().address()@ == a {
            r
        } else {
            r.push(b.last())
        }
    }
}

pub open spec fn has_addr(b: Seq<Backend>, a: Seq<char>) -> bool {
    exists|i: int| 0 <= i < b.len() && #[trigger] b[i].address()@ == a
}

pub proof fn lemma_without_addr(b: Seq<Backend>, a: Seq<char>)
    ensures
        without_addr(b, a).len() <= b.len(),
        without_addr(b, a).len() == b.len() <==> !has_addr(b, a),
    decreases b.len(),
{
    if b.len() > 0 {
        lemma_without_addr(b.drop_last(), a);
        if has_addr(b.drop_last(), a) {
            let i = choose|i: int| 0 <= i < b.drop_last().len() && #[trigger] b.drop_last()[i].address()@ == a;
            assert(b[i].address()@ == a);
        }
        if has_addr(b, a) && b.last().address()@ != a {
            let i = choose|i: int| 0 <= i < b.len() && #[trigger] b[i].address()@ == a;
            assert(b.drop_last()[i].address()@ == a);
        }
        if b.last().address()@ == a {
            assert(b[b.len() - 1].address()@ == a);
        }
    }
}

impl TcpPoolState {
    pub closed spec fn pool_name(&self) -> String {
        self.name
    }

    pub closed spec fn algo(&self) -> Algorithm {
        self.algo
    }

    pub closed spec fn members(&self) -> Seq<Backend> {
        self.backends@
    }

    pub closed spec fn rr_counter(&self) -> u64 {
        self.counter
    }

    pub closed spec fn limit(&self) -> usize {
        self.max_conns
    }

    pub closed spec fn active(&self) -> usize {
        self.active_conns
    }

    pub closed spec fn rejected(&self) -> u64 {
        self.rejected_conns
    }

    pub closed spec fn is_drained(&self) -> bool {
        self.drained
    }

    /// State of a configured pool: its valid backends, all healthy, no limit.
    pub fn from_config(pool: &TcpPool) -> (r: Self)
        ensures
            r.pool_name() == pool.name,
            r.algo() == pool.algorithm,
            fresh_backends(r.members(), pool.backends@),
            r.rr_counter() == 0,
            r.limit() == 0,
            r.active() == 0,
            r.rejected() == 0,
            !r.is_drained(),
    {
        let backends = backends_from(&pool.backends);
        TcpPoolState {
            name: pool.name.clone(),
            algo: pool.algorithm,
            backends,
            counter: 0,
            max_conns: 0,
            active_conns: 0,
            rejected_conns: 0,
            drained: false,
        }
    }

    pub fn backends(&self) -> (r: &Vec<Backend>)
        ensures
            r@ == self.members(),
    {
        &self.backends
    }

    /// Adds a backend unless one with the same address exists; returns
    /// whether it was added.
    pub fn add_backend(&mut self, addr: String) -> (added: bool)
        ensures
            final(self).pool_name() == old(self).pool_name(),
            final(self).rejected() == old(self).rejected(),
            added == !has_addr(old(self).members(), addr@),
            added ==> final(self).members().len() == old(self).members().len() + 1
                && final(self).members().drop_last() == old(self).members()
                && final(self).members().last().address() == addr
                && final(self).members().last().up()
                && final(self).members().last().active() == 0,
            !added ==> final(self).members() == old(self).members(),
            final(self).algo() == old(self).algo(),
            final(self).limit() == old(self).limit(),
            final(self).active() == old(self).active(),
    {
        let mut i: usize = 0;
        while i < self.backends.len()
            invariant
                i <= self.backends.len(),
                forall|j: int| 0 <= j < i ==> self.backends@[j].address()@ != addr@,
            decreases self.backends.len() - i,
        {
            if crate::text::str_eq(self.backends[i].addr().as_str(), addr.as_str()) {
                assert(self.backends@[i as int].address()@ == addr@);
                return false;
            }
            i += 1;
        }
        let ghost before = self.backends@;
        self.backends.push(Backend::new(addr));
        assert(self.backends@.drop_last() =~= before);
        true
    }

    /// Removes every backend at `addr`; returns whether one was removed.
    pub fn remove_backend(&mut self, addr: &str) -> (removed: bool)
        ensures
            final(self).pool_name() == old(self).pool_name(),
            final(self).rejected() == old(self).rejected(),
            final(self).members() == without_addr(old(self).members(), addr@),
            removed == has_addr(old(self).members(), addr@),
            final(self).algo() == old(self).algo(),
            final(self).limit() == old(self).limit(),
            final(self).active() == old(self).active(),
    {
        let mut taken: Vec<Backend> = Vec::new();
        std::mem::swap(&mut taken, &mut self.backends);
        let ghost orig = taken@;
        let n0 = taken.len();
        let mut kept_rev: Vec<Backend> = Vec::new();
        while taken.len() > 0
            invariant
                without_addr(orig, addr@) == without_addr(taken@, addr@) + kept_rev@.reverse(),
            decreases taken.len(),
        {
            let ghost t = taken@;
            let b = taken.pop().unwrap();
            assert(t.drop_last() =~= taken@);
            assert(t.last() == b);
            if !crate::text::str_eq(b.addr().as_str(), addr) {
                let ghost k = kept_rev@;
                kept_rev.push(b);
                assert(kept_rev@.reverse() =~= seq![b] + k.reverse());
                assert(without_addr(t, addr@) == without_addr(taken@, addr@).push(b));
                assert(without_addr(taken@, addr@).push(b) + k.reverse() =~= without_addr(
                    taken@,
                    addr@,
                ) + (seq![b] + k.reverse()));
            }
        }
        assert(without_addr(taken@, addr@) =~= Seq::<Backend>::empty());
        let mut out: Vec<Backend> = Vec::new();
        while kept_rev.len() > 0
            invariant
                without_addr(orig, addr@) =~= out@ + kept_rev@.reverse(),
            decreases kept_rev.len(),
        {
            let ghost k = kept_rev@;
            let x = kept_rev.pop().unwrap();
            assert(k =~= kept_rev@.push(x));
            assert(k.reverse() =~= seq![x] + kept_rev@.reverse());
            out.push(x);
        }
        assert(out@ =~= without_addr(orig, addr@));
        proof {
            lemma_without_addr(orig, addr@);
        }
        let removed = out.len() != n0;
        self.backends = out;
        removed
    }
}

impl TcpPoolState {
    pub fn name(&self) -> (r: &String)
        ensures
            *r == self.pool_name(),
    {
        &self.name
    }

    pub fn algorithm(&self) -> (r: Algorithm)
        ensures
            r == self.algo(),
    {
        self.algo
    }

    pub fn set_algorithm(&mut self, algo: Algorithm)
        ensures
            final(self).pool_name() == old(self).pool_name(),
            final(self).algo() == algo,
            final(self).members() == old(self).members(),
            final(self).limit() == old(self).limit(),
            final(self).active() == old(self).active(),
            final(self).rejected() == old(self).rejected(),
            final(self).is_drained() == old(self).is_drained(),
            final(self).rr_counter() == old(self).rr_counter(),
    {
        self.algo = algo;
    }

    pub fn max_conns(&self) -> (r: usize)
        ensures
            r == self.limit(),
    {
        self.max_conns
    }

    /// Sets the connection limit (0: unlimited).
    pub fn set_max_conns(&mut self, max: usize)
        ensures
            final(self).pool_name() == old(self).pool_name(),
            final(self).limit() == max,
            final(self).algo() == old(self).algo(),
            final(self).members() == old(self).members(),
            final(self).active() == old(self).active(),
            final(self).rejected() == old(self).rejected(),
            final(self).is_drained() == old(self).is_drained(),
            final(self).rr_counter() == old(self).rr_counter(),
    {
        self.max_conns = max;
    }

    pub fn set_drained(&mut self, drained: bool)
        ensures
            final(self).pool_name() == old(self).pool_name(),
            final(self).is_drained() == drained,
            final(self).algo() == old(self).algo(),
            final(self).members() == old(self).members(),
            final(self).limit() == old(self).limit(),
            final(self).active() == old(self).active(),
            final(self).rejected() == old(self).rejected(),
            final(self).rr_counter() == old(self).rr_counter(),
    {
        self.drained = drained;
    }

    pub fn is_drained_now(&self) -> (r: bool)
        ensures
            r == self.is_drained(),
    {
        self.drained
    }

    pub fn active_conns(&self) -> (r: usize)
        ensures
            r == self.active(),
    {
        self.active_conns
    }

    pub fn rejected_conns(&self) -> (r: u64)
        ensures
            r == self.rejected(),
    {
        self.rejected_conns
    }

    /// Admission of an accepted client: refused (and counted) at the limit,
    /// otherwise counted as active.
    pub fn accept_client(&mut self) -> (admitted: bool)
        ensures
            admitted == admits(old(self).limit(), old(self).active()),
            admitted ==> final(self).active() == (if old(self).active() == usize::MAX {
                0
            } else {
                old(self).active() + 1
            }) && final(self).rejected() == old(self).rejected(),
            !admitted ==> final(self).active() == old(self).active() && final(self).rejected()
                == wadd(old(self).rejected(), 1),
            final(self).members() == old(self).members(),
            final(self).algo() == old(self).algo(),
            final(self).limit() == old(self).limit(),
            final(self).is_drained() == old(self).is_drained(),
    {
        if self.max_conns > 0 && self.active_conns >= self.max_conns {
            self.rejected_conns = self.rejected_conns.wrapping_add(1);
            return false;
        }
        self.active_conns = if self.active_conns == usize::MAX {
            0
        } else {
            self.active_conns + 1
        };
        true
    }

    /// A client connection ended.
    pub fn connection_closed(&mut self)
        ensures
            final(self).active() == (if old(self).active() == 0 {
                usize::MAX
            } else {
                (old(self).active() - 1) as usize
            }),
            final(self).rejected() == old(self).rejected(),
            final(self).members() == old(self).members(),
            final(self).algo() == old(self).algo(),
            final(self).limit() == old(self).limit(),
            final(self).is_drained() == old(self).is_drained(),
    {
        self.active_conns = if self.active_conns == 0 {
            usize::MAX
        } else {
            self.active_conns - 1
        };
    }

    /// Selects the backend for the next connection attempt.
    pub fn select(&mut self) -> (r: Option<usize>)
        ensures
            old(self).algo() != Algorithm::Random ==> r == match pick_spec(
                old(self).members(),
                old(self).algo(),
                old(self).rr_counter(),
                0,
            ) {
                Some(i) => Some(i as usize),
                None => None,
            },
            r is None <==> healthy_positions(old(self).members()).len() == 0,
            r matches Some(i) ==> i < old(self).members().len() && old(self).members()[i as int].up(),
            final(self).rr_counter() == if old(self).algo() == Algorithm::RoundRobin
                && healthy_positions(old(self).members()).len() > 0 {
                wadd(old(self).rr_counter(), 1)
            } else {
                old(self).rr_counter()
            },
            final(self).members() == old(self).members(),
            final(self).pool_name() == old(self).pool_name(),
            final(self).algo() == old(self).algo(),
            final(self).limit() == old(self).limit(),
            final(self).active() == old(self).active(),
            final(self).rejected() == old(self).rejected(),
            final(self).is_drained() == old(self).is_drained(),
    {
        proof {
            lemma_healthy_positions(self.backends@);
        }
        select_backend(&self.backends, self.algo, &mut self.counter)
    }

    /// Connection attempts a client gets: one per backend, at least one.
    pub fn max_tries(&self) -> (r: usize)
        ensures
            r == if self.members().len() > 1 {
                self.members().len()
            } else {
                1
            },
    {
        if self.backends.len() > 1 {
            self.backends.len()
        } else {
            1
        }
    }

    /// Backend `i`, to record what a connection or a health probe found; the
    /// rest of the pool is left as it was.
    pub fn backend_mut(&mut self, i: usize) -> (r: &mut Backend)
        requires
            i < old(self).members().len(),
        ensures
            *r == old(self).members()[i as int],
            final(self).members() == old(self).members().update(i as int, *final(r)),
            final(self).pool_name() == old(self).pool_name(),
            final(self).algo() == old(self).algo(),
            final(self).rr_counter() == old(self).rr_counter(),
            final(self).limit() == old(self).limit(),
            final(self).active() == old(self).active(),
            final(self).rejected() == old(self).rejected(),
            final(self).is_drained() == old(self).is_drained(),
    {
        &mut self.backends[i]
    }

    /// A connect to backend `i` failed: it is marked unhealthy so the health
    /// checker re-validates it.
    pub fn connect_failed(&mut self, i: usize)
        requires
            i < old(self).members().len(),
        ensures
            final(self).members().len() == old(self).members().len(),
            !final(self).members()[i as int].up(),
            final(self).members()[i as int].failures() == wadd(old(self).members()[i as int].failures(), 1),
            forall|j: int| 0 <= j < old(self).members().len() && j != i ==> final(self).members()[j]
                == old(self).members()[j],
            final(self).algo() == old(self).algo(),
            final(self).limit() == old(self).limit(),
            final(self).active() == old(self).active(),
            final(self).rejected() == old(self).rejected(),
    {
        let mut b = self.backends.remove(i);
        b.set_healthy(false);
        self.backends.insert(i, b);
    }
}

} // verus!
