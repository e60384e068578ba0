//! Policy of the daemon's control API: bind safety, authentication of
//! requests, pool overrides applied at run time, and the label and policy
//! checks of the path-policy API.
use vstd::prelude::*;

use crate::codec::{b64_encode, base64_standard_encode};
use crate::config::{policy_error, Algorithm, PathLabel, Policy, PolicyRule};
use crate::controller::{bool_eq, text_eq_ct};
use crate::lb::TcpPoolState;
use crate::text::{append_str, chars_of, str_eq, string_from, trim_chars, trim_spec};

verus! {

broadcast use vstd::string::group_string_axioms;

// ---------------------------------------------------------------------------
// Bind safety
// ---------------------------------------------------------------------------

pub open spec fn loopback_addr(a: Seq<char>) -> bool {
    a == "127.0.0.1"@ || a == "::1"@ || a == "localhost"@
}

pub open spec fn unauthenticated_bind_message(a: Seq<char>) -> Seq<char> {
    "api_addr = "@ + a
        + " (non-loopback) but SDWANLITE_AUTH_USER/PASS are not set; refusing to expose an unauthenticated control API"@
}

/// The daemon refuses to expose its API beyond loopback unless dashboard
/// credentials are configured.
pub fn validate_bind_auth(api_addr: &str, auth_env_set: bool) -> (r: Result<(), String>)
    ensures
        match r {
            Ok(()) => auth_env_set || loopback_addr(api_addr@),
            Err(m) => !auth_env_set && !loopback_addr(api_addr@) && m@
                == unauthenticated_bind_message(api_addr@),
        },
{
    if auth_env_set {
        return Ok(());
    }
    if str_eq(api_addr, "127.0.0.1") || str_eq(api_addr, "::1") || str_eq(api_addr, "localhost") {
        Ok(())
    } else {
        let mut m: Vec<char> = Vec::new();
        append_str(&mut m, "api_addr = ");
        append_str(&mut m, api_addr);
        append_str(
            &mut m,
            " (non-loopback) but SDWANLITE_AUTH_USER/PASS are not set; refusing to expose an unauthenticated control API",
        );
        Err(string_from(&m))
    }
}

// ---------------------------------------------------------------------------
// Authentication
// ---------------------------------------------------------------------------

/// Constant-time comparison of two byte strings.
pub fn ct_eq(a: &[u8], b: &[u8]) -> (r: bool)
    ensures
        r == (a@ == b@),
{
    bool_eq(a, b)
}

/// `Basic` credentials header value for `user:pass`.
pub open spec fn basic_header(user: Seq<char>, pass: Seq<char>) -> Seq<char> {
    "Basic "@ + b64_encode(vstd::utf8::encode_utf8(user + ":"@ + pass), false, true)
}

pub fn basic_header_text(user: &str, pass: &str) -> (r: String)
    ensures
        r@ == basic_header(user@, pass@),
{
    let mut up: Vec<char> = Vec::new();
    append_str(&mut up, user);
    append_str(&mut up, ":");
    append_str(&mut up, pass);
    let up = string_from(&up);
    let enc = base64_standard_encode(up.as_str().as_bytes());
    let mut out: Vec<char> = Vec::new();
    append_str(&mut out, "Basic ");
    append_str(&mut out, enc.as_str());
    string_from(&out)
}

/// The API token in force: a non-empty one from the environment, else the
/// configured one.
pub fn resolve_token(env_token: Option<&str>, config_token: Option<&String>) -> (r: Option<String>)
    ensures
        match env_token {
            Some(t) if t@.len() > 0 => r matches Some(x) && x@ == t@,
            _ => match config_token {
                Some(c) => r matches Some(x) && x@ == c@,
                None => r is None,
            },
        },
{
    match env_token {
        Some(t) => {
            let tc = chars_of(t);
            if tc.len() > 0 {
                return Some(String::from_str(t));
            }
        },
        None => {},
    }
    match config_token {
        Some(c) => Some(c.clone()),
        None => None,
    }
}

/// Whether a mutating request is authorized: a bearer header with the API
/// token, or the dashboard's basic credentials when both are set.
pub open spec fn request_authorized(
    header: Option<&str>,
    token: Option<Seq<char>>,
    user: Seq<char>,
    pass: Seq<char>,
) -> bool {
    match header {
        None => false,
        Some(h) => {
            ||| (token matches Some(t) && h@ == "Bearer "@ + t)
            ||| (user.len() > 0 && pass.len() > 0 && h@ == basic_header(user, pass))
        },
    }
}

pub fn authorized(header: Option<&str>, token: Option<&String>, user: &str, pass: &str) -> (r: bool)
    ensures
        r == request_authorized(
            header,
            match token {
                Some(t) => Some(t@),
                None => None,
            },
            user@,
            pass@,
        ),
{
    let provided = match header {
        Some(h) => h,
        None => return false,
    };
    match token {
        Some(t) => {
            let expected = crate::agent::bearer_frame(t.as_str());
            if text_eq_ct(provided, expected.as_str()) {
                return true;
            }
        },
        None => {},
    }
    let uc = chars_of(user);
    let pc = chars_of(pass);
    if uc.len() > 0 && pc.len() > 0 {
        let expected = basic_header_text(user, pass);
        if text_eq_ct(provided, expected.as_str()) {
            return true;
        }
    }
    false
}

/// Whether the dashboard lets a request through: open when no credentials
/// are configured, else only with the basic credentials.
pub open spec fn dashboard_open(header: Option<&str>, user: Seq<char>, pass: Seq<char>) -> bool {
    if user.len() == 0 || pass.len() == 0 {
        true
    } else {
        header matches Some(h) && h@ == basic_header(user, pass)
    }
}

pub fn dashboard_access(header: Option<&str>, user: &str, pass: &str) -> (r: bool)
    ensures
        r == dashboard_open(header, user@, pass@),
{
    let uc = chars_of(user);
    let pc = chars_of(pass);
    if uc.len() == 0 || pc.len() == 0 {
        return true;
    }
    let expected = basic_header_text(user, pass);
    match header {
        Some(h) => text_eq_ct(h, expected.as_str()),
        None => false,
    }
}

// ---------------------------------------------------------------------------
// Pool overrides
// ---------------------------------------------------------------------------

/// Algorithm named in snake case (or with hyphens).
pub open spec fn algorithm_named(s: Seq<char>) -> Option<Algorithm> {
    if s == "round_robin"@ || s == "round-robin"@ {
        Some(Algorithm::RoundRobin)
    } else if s == "least_connections"@ || s == "least-connections"@ {
        Some(Algorithm::LeastConnections)
    } else if s == "random"@ {
        Some(Algorithm::Random)
    } else if s == "failover"@ {
        Some(Algorithm::Failover)
    } else {
        None
    }
}

pub fn parse_algorithm(s: &str) -> (r: Option<Algorithm>)
    ensures
        r == algorithm_named(s@),
{
    if str_eq(s, "round_robin") || str_eq(s, "round-robin") {
        Some(Algorithm::RoundRobin)
    } else if str_eq(s, "least_connections") || str_eq(s, "least-connections") {
        Some(Algorithm::LeastConnections)
    } else if str_eq(s, "random") {
        Some(Algorithm::Random)
    } else if str_eq(s, "failover") {
        Some(Algorithm::Failover)
    } else {
        None
    }
}

/// Persisted per-pool overrides; the health-check ones apply on restart, the
/// others at once.
#[derive(Debug, Clone, Default)]
pub struct PoolConfigOverride {
    pub algorithm: Option<String>,
    pub max_conns: Option<usize>,
    pub drain: Option<bool>,
    pub hc_interval_secs: Option<u64>,
    pub hc_timeout_secs: Option<u64>,
}

/// Whether an override names an algorithm that is not known.
pub fn unknown_algorithm(o: &PoolConfigOverride) -> (r: bool)
    ensures
        r == (o.algorithm matches Some(a) && algorithm_named(a@) is None),
{
    match &o.algorithm {
        Some(a) => parse_algorithm(a.as_str()).is_none(),
        None => false,
    }
}

/// Applies an override to a running pool: a known algorithm, the connection
/// limit and the drain flag, each only when given.
pub fn apply_override_live(pool: &mut TcpPoolState, o: &PoolConfigOverride)
    ensures
        final(pool).algo() == match o.algorithm {
            Some(a) => match algorithm_named(a@) {
                Some(x) => x,
                None => old(pool).algo(),
            },
            None => old(pool).algo(),
        },
        final(pool).limit() == match o.max_conns {
            Some(m) => m,
            None => old(pool).limit(),
        },
        final(pool).is_drained() == match o.drain {
            Some(d) => d,
            None => old(pool).is_drained(),
        },
        final(pool).members() == old(pool).members(),
        final(pool).active() == old(pool).active(),
        final(pool).rejected() == old(pool).rejected(),
        final(pool).pool_name() == old(pool).pool_name(),
        final(pool).rr_counter() == old(pool).rr_counter(),
{
    match &o.algorithm {
        Some(a) => match parse_algorithm(a.as_str()) {
            Some(algo) => pool.set_algorithm(algo),
            None => {},
        },
        None => {},
    }
    match o.max_conns {
        Some(m) => pool.set_max_conns(m),
        None => {},
    }
    match o.drain {
        Some(d) => pool.set_drained(d),
        None => {},
    }
}

/// Stores the fields an override update gives, keeping the others.
pub fn merge_override(entry: &mut PoolConfigOverride, o: &PoolConfigOverride)
    ensures
        final(entry).algorithm == if o.algorithm is Some {
            o.algorithm
        } else {
            old(entry).algorithm
        },
        final(entry).max_conns == if o.max_conns is Some {
            o.max_conns
        } else {
            old(entry).max_conns
        },
        final(entry).drain == if o.drain is Some {
            o.drain
        } else {
            old(entry).drain
        },
        final(entry).hc_interval_secs == if o.hc_interval_secs is Some {
            o.hc_interval_secs
        } else {
            old(entry).hc_interval_secs
        },
        final(entry).hc_timeout_secs == if o.hc_timeout_secs is Some {
            o.hc_timeout_secs
        } else {
            old(entry).hc_timeout_secs
        },
{
    match &o.algorithm {
        Some(a) => {
            entry.algorithm = Some(a.clone());
        },
        None => {},
    }
    if o.max_conns.is_some() {
        entry.max_conns = o.max_conns;
    }
    if o.drain.is_some() {
        entry.drain = o.drain;
    }
    if o.hc_interval_secs.is_some() {
        entry.hc_interval_secs = o.hc_interval_secs;
    }
    if o.hc_timeout_secs.is_some() {
        entry.hc_timeout_secs = o.hc_timeout_secs;
    }
}

// ---------------------------------------------------------------------------
// Path labels and policies
// ---------------------------------------------------------------------------

/// Why a label list is refused: an empty (after trimming) name, or a trimmed
/// name that repeats an earlier one.
pub open spec fn labels_problem(labels: Seq<PathLabel>) -> Option<Seq<char>>
    decreases labels.len(),
{
    if labels.len() == 0 {
        None
    } else {
        match labels_problem(labels.drop_last()) {
            Some(m) => Some(m),
            None => {
                let l = labels.last();
                let t = trim_spec(l.name@);
                if t.len() == 0 {
                    Some("label name must not be empty"@)
                } else if exists|j: int|
                    0 <= j < labels.len() - 1 && trim_spec((#[trigger] labels[j]).name@) == t {
                    Some("duplicate label name: "@ + l.name@)
                } else {
                    None
                }
            },
        }
    }
}

pub fn check_labels(labels: &Vec<PathLabel>) -> (r: Result<(), String>)
    ensures
        match r {
            Ok(()) => labels_problem(labels@) is None,
            Err(m) => labels_problem(labels@) == Some(m@),
        },
{
    let mut seen: Vec<Vec<char>> = Vec::new();
    let mut i: usize = 0;
    while i < labels.len()
        invariant
            i <= labels.len(),
            labels_problem(labels@.take(i as int)) is None,
            seen@.len() == i,
            forall|j: int| 0 <= j < i ==> (#[trigger] seen@[j])@ == trim_spec(labels@[j].name@),
        decreases labels.len() - i,
    {
        let ghost pre = labels@.take(i as int);
        let ghost nxt = labels@.take(i + 1);
        assert(nxt.drop_last() =~= pre);
        assert(nxt.last() == labels@[i as int]);
        let t = trim_chars(&chars_of(labels[i].name.as_str()));
        if t.len() == 0 {
            proof {
                assert(labels_problem(nxt) == Some("label name must not be empty"@));
                lemma_labels_problem_prefix(labels@, i + 1);
            }
            return Err(String::from_str("label name must not be empty"));
        }
        let mut k: usize = 0;
        let mut dup = false;
        while k < seen.len()
            invariant_except_break
                !dup,
            invariant
                k <= seen.len(),
                forall|j: int| 0 <= j < k ==> seen@[j]@ != t@,
            ensures
                dup ==> k < seen.len() && seen@[k as int]@ == t@,
                !dup ==> forall|j: int| 0 <= j < seen.len() ==> seen@[j]@ != t@,
            decreases seen.len() - k,
        {
            if crate::text::seq_eq(&seen[k], &t) {
                dup = true;
                break;
            }
            k += 1;
        }
        if dup {
            proof {
                assert(nxt[k as int] == labels@[k as int]);
                assert(trim_spec((nxt[k as int]).name@) == t@);
                assert(labels_problem(nxt) == Some("duplicate label name: "@ + labels@[i as int].name@));
                lemma_labels_problem_prefix(labels@, i + 1);
            }
            let mut m: Vec<char> = Vec::new();
            append_str(&mut m, "duplicate label name: ");
            append_str(&mut m, labels[i].name.as_str());
            return Err(string_from(&m));
        }
        proof {
            assert forall|j: int| 0 <= j < nxt.len() - 1 implies trim_spec((#[trigger] nxt[j]).name@) != t@ by {
                assert(nxt[j] == labels@[j]);
                assert(seen@[j]@ == trim_spec(labels@[j].name@));
            }
        }
        seen.push(t);
        i += 1;
    }
    assert(labels@.take(labels.len() as int) =~= labels@);
    Ok(())
}

/// Once a prefix of the labels has a problem, the whole list has that problem.
pub proof fn lemma_labels_problem_prefix(labels: Seq<PathLabel>, k: int)
    requires
        0 <= k <= labels.len(),
        labels_problem(labels.take(k)) is Some,
    ensures
        labels_problem(labels) == labels_problem(labels.take(k)),
    decreases labels.len() - k,
{
    if k < labels.len() {
        assert(labels.take(k + 1).drop_last() =~= labels.take(k));
        lemma_labels_problem_prefix(labels, k + 1);
    } else {
        assert(labels.take(k) =~= labels);
    }
}


/// Some label of the list is named `n` (exactly).
pub open spec fn label_defined(labels: Seq<PathLabel>, n: Seq<char>) -> bool {
    exists|i: int| 0 <= i < labels.len() && (#[trigger] labels[i]).name@ == n
}

/// The first name of the list that no label carries.
pub open spec fn first_undefined(names: Seq<String>, labels: Seq<PathLabel>) -> Option<Seq<char>>
    decreases names.len(),
{
    if names.len() == 0 {
        None
    } else if !label_defined(labels, names[0]@) {
        Some(names[0]@)
    } else {
        first_undefined(names.drop_first(), labels)
    }
}

/// The first undefined label named by the rules' actions, in rule order.
pub open spec fn rules_undefined(rules: Seq<PolicyRule>, labels: Seq<PathLabel>) -> Option<Seq<char>>
    decreases rules.len(),
{
    if rules.len() == 0 {
        None
    } else {
        match first_undefined(rules[0].action.labels@, labels) {
            Some(l) => Some(l),
            None => rules_undefined(rules.drop_first(), labels),
        }
    }
}

/// The first undefined label a policy routes through: its rules' actions,
/// then its default action.
pub open spec fn policy_undefined(p: Policy, labels: Seq<PathLabel>) -> Option<Seq<char>> {
    match rules_undefined(p.rules@, labels) {
        Some(l) => Some(l),
        None => first_undefined(p.default_action.labels@, labels),
    }
}

/// The message for the first policy that fails its own validation.
pub open spec fn policies_invalid(ps: Seq<Policy>) -> Option<Seq<char>>
    decreases ps.len(),
{
    if ps.len() == 0 {
        None
    } else {
        match policy_error(ps[0]) {
            Some(e) => Some("policy "@ + ps[0].name@ + ": "@ + e),
            None => policies_invalid(ps.drop_first()),
        }
    }
}

/// The message for the first policy that routes through an undefined label.
pub open spec fn policies_undefined(ps: Seq<Policy>, labels: Seq<PathLabel>) -> Option<Seq<char>>
    decreases ps.len(),
{
    if ps.len() == 0 {
        None
    } else {
        match policy_undefined(ps[0], labels) {
            Some(l) => Some("policy "@ + ps[0].name@ + ": references undefined label "@ + l),
            None => policies_undefined(ps.drop_first(), labels),
        }
    }
}

/// Why a new policy list is refused: every policy is validated first, then
/// every label it routes through must be defined.
pub open spec fn policies_problem(ps: Seq<Policy>, labels: Seq<PathLabel>) -> Option<Seq<char>> {
    match policies_invalid(ps) {
        Some(m) => Some(m),
        None => policies_undefined(ps, labels),
    }
}

pub fn label_exists(labels: &Vec<PathLabel>, n: &String) -> (r: bool)
    ensures
        r == label_defined(labels@, n@),
{
    let mut i: usize = 0;
    while i < labels.len()
        invariant
            i <= labels@.len(),
            forall|j: int| 0 <= j < i ==> (#[trigger] labels@[j]).name@ != n@,
        decreases labels.len() - i,
    {
        if str_eq(labels[i].name.as_str(), n.as_str()) {
            assert(labels@[i as int].name@ == n@);
            return true;
        }
        i += 1;
    }
    false
}

fn find_undefined(names: &Vec<String>, labels: &Vec<PathLabel>) -> (r: Option<usize>)
    ensures
        match r {
            Some(k) => k < names@.len() && first_undefined(names@, labels@) == Some(names@[k as int]@),
            None => first_undefined(names@, labels@) is None,
        },
{
    let mut i: usize = 0;
    assert(names@.subrange(0, names@.len() as int) =~= names@);
    while i < names.len()
        invariant
            i <= names@.len(),
            first_undefined(names@, labels@) == first_undefined(
                names@.subrange(i as int, names@.len() as int),
                labels@,
            ),
        decreases names.len() - i,
    {
        let ghost rest = names@.subrange(i as int, names@.len() as int);
        assert(rest[0] == names@[i as int]);
        assert(rest.drop_first() =~= names@.subrange(i + 1, names@.len() as int));
        if !label_exists(labels, &names[i]) {
            return Some(i);
        }
        i += 1;
    }
    None
}

fn undefined_in_policy(p: &Policy, labels: &Vec<PathLabel>) -> (r: Option<String>)
    ensures
        match r {
            Some(l) => policy_undefined(*p, labels@) == Some(l@),
            None => policy_undefined(*p, labels@) is None,
        },
{
    let mut j: usize = 0;
    assert(p.rules@.subrange(0, p.rules@.len() as int) =~= p.rules@);
    while j < p.rules.len()
        invariant
            j <= p.rules@.len(),
            rules_undefined(p.rules@, labels@) == rules_undefined(
                p.rules@.subrange(j as int, p.rules@.len() as int),
                labels@,
            ),
        decreases p.rules.len() - j,
    {
        let ghost rest = p.rules@.subrange(j as int, p.rules@.len() as int);
        assert(rest[0] == p.rules@[j as int]);
        assert(rest.drop_first() =~= p.rules@.subrange(j + 1, p.rules@.len() as int));
        match find_undefined(&p.rules[j].action.labels, labels) {
            Some(k) => {
                return Some(p.rules[j].action.labels[k].clone());
            },
            None => {},
        }
        j += 1;
    }
    match find_undefined(&p.default_action.labels, labels) {
        Some(k) => Some(p.default_action.labels[k].clone()),
        None => None,
    }
}

/// The check of a new policy list against the defined labels.
pub fn check_policies(policies: &Vec<Policy>, labels: &Vec<PathLabel>) -> (r: Result<(), String>)
    ensures
        match r {
            Ok(()) => policies_problem(policies@, labels@) is None,
            Err(m) => policies_problem(policies@, labels@) == Some(m@),
        },
{
    let n = policies.len();
    let mut i: usize = 0;
    assert(policies@.subrange(0, n as int) =~= policies@);
    while i < n
        invariant
            n == policies@.len(),
            i <= n,
            policies_invalid(policies@) == policies_invalid(policies@.subrange(i as int, n as int)),
        decreases n - i,
    {
        let ghost rest = policies@.subrange(i as int, n as int);
        assert(rest[0] == policies@[i as int]);
        assert(rest.drop_first() =~= policies@.subrange(i + 1, n as int));
        match policies[i].validate() {
            Err(e) => {
                let mut m: Vec<char> = Vec::new();
                append_str(&mut m, "policy ");
                append_str(&mut m, policies[i].name.as_str());
                append_str(&mut m, ": ");
                append_str(&mut m, e.as_str());
                return Err(string_from(&m));
            },
            Ok(()) => {},
        }
        i += 1;
    }
    assert(policies_invalid(policies@) is None);
    let mut k: usize = 0;
    while k < n
        invariant
            n == policies@.len(),
            k <= n,
            policies_invalid(policies@) is None,
            policies_undefined(policies@, labels@) == policies_undefined(
                policies@.subrange(k as int, n as int),
                labels@,
            ),
        decreases n - k,
    {
        let ghost rest = policies@.subrange(k as int, n as int);
        assert(rest[0] == policies@[k as int]);
        assert(rest.drop_first() =~= policies@.subrange(k + 1, n as int));
        match undefined_in_policy(&policies[k], labels) {
            Some(l) => {
                let mut m: Vec<char> = Vec::new();
                append_str(&mut m, "policy ");
                append_str(&mut m, policies[k].name.as_str());
                append_str(&mut m, ": references undefined label ");
                append_str(&mut m, l.as_str());
                return Err(string_from(&m));
            },
            None => {},
        }
        k += 1;
    }
    Ok(())
}

/// Index of the first policy with this name.
pub open spec fn policy_index(ps: Seq<Policy>, name: Seq<char>) -> Option<int>
    decreases ps.len(),
{
    if ps.len() == 0 {
        None
    } else {
        match policy_index(ps.drop_last(), name) {
            Some(i) => Some(i),
            None => if ps.last().name@ == name {
                Some(ps.len() - 1)
            } else {
                None
            },
        }
    }
}

pub proof fn lemma_policy_index(ps: Seq<Policy>, name: Seq<char>)
    ensures
        match policy_index(ps, name) {
            Some(i) => 0 <= i < ps.len() && ps[i].name@ == name && forall|j: int|
                0 <= j < i ==> (#[trigger] ps[j]).name@ != name,
            None => forall|j: int| 0 <= j < ps.len() ==> (#[trigger] ps[j]).name@ != name,
        },
    decreases ps.len(),
{
    if ps.len() > 0 {
        lemma_policy_index(ps.drop_last(), name);
        assert forall|j: int| 0 <= j < ps.len() - 1 implies ps[j] == ps.drop_last()[j] by {}
    }
}

/// Marks the first policy named `name` as installed or not.
pub fn set_policy_installed(policies: &mut Vec<Policy>, name: &str, installed: bool) -> (r: Result<
    (),
    String,
>)
    ensures
        match policy_index(old(policies)@, name@) {
            Some(i) => r is Ok && final(policies)@ == old(policies)@.update(
                i,
                Policy { installed, ..old(policies)@[i] },
            ),
            None => final(policies)@ == old(policies)@ && (r matches Err(m) && m@ == "policy "@
                + name@ + " not found"@),
        },
{
    proof {
        lemma_policy_index(policies@, name@);
    }
    let mut i: usize = 0;
    while i < policies.len()
        invariant
            i <= policies@.len(),
            policies@ == old(policies)@,
            forall|j: int| 0 <= j < i ==> (#[trigger] policies@[j]).name@ != name@,
        decreases policies.len() - i,
    {
        if str_eq(policies[i].name.as_str(), name) {
            proof {
                lemma_policy_index(policies@, name@);
                let k = policy_index(policies@, name@);
                assert(k == Some(i as int)) by {
                    match k {
                        Some(x) => {
                            if x < i {
                                assert(policies@[x].name@ != name@);
                            } else if x > i {
                                assert(policies@[i as int].name@ != name@);
                            }
                        },
                        None => {
                            assert(policies@[i as int].name@ != name@);
                        },
                    }
                }
            }
            let ghost before = policies@;
            let mut p = policies.remove(i);
            p.installed = installed;
            policies.insert(i, p);
            assert(policies@ =~= before.update(i as int, Policy { installed, ..before[i as int] }));
            return Ok(());
        }
        i += 1;
    }
    let mut m: Vec<char> = Vec::new();
    append_str(&mut m, "policy ");
    append_str(&mut m, name);
    append_str(&mut m, " not found");
    Err(string_from(&m))
}


/// A running pool after an override: what [`apply_override_live`] states.
pub open spec fn override_applied(before: TcpPoolState, after: TcpPoolState, o: PoolConfigOverride) -> bool {
    &&& after.algo() == match o.algorithm {
        Some(a) => match algorithm_named(a@) {
            Some(x) => x,
            None => before.algo(),
        },
        None => before.algo(),
    }
    &&& after.limit() == match o.max_conns {
        Some(m) => m,
        None => before.limit(),
    }
    &&& after.is_drained() == match o.drain {
        Some(d) => d,
        None => before.is_drained(),
    }
    &&& after.members() == before.members()
    &&& after.active() == before.active()
    &&& after.rejected() == before.rejected()
    &&& after.pool_name() == before.pool_name()
}

/// Index of the first running TCP pool with this name.
pub open spec fn tcp_pool_index(ps: Seq<TcpPoolState>, name: Seq<char>) -> Option<int>
    decreases ps.len(),
{
    if ps.len() == 0 {
        None
    } else {
        match tcp_pool_index(ps.drop_last(), name) {
            Some(i) => Some(i),
            None => if ps.last().pool_name()@ == name {
                Some(ps.len() - 1)
            } else {
                None
            },
        }
    }
}

pub proof fn lemma_tcp_pool_index(ps: Seq<TcpPoolState>, name: Seq<char>)
    ensures
        match tcp_pool_index(ps, name) {
            Some(i) => 0 <= i < ps.len() && ps[i].pool_name()@ == name && forall|j: int|
                0 <= j < i ==> (#[trigger] ps[j]).pool_name()@ != name,
            None => forall|j: int| 0 <= j < ps.len() ==> (#[trigger] ps[j]).pool_name()@ != name,
        },
    decreases ps.len(),
{
    if ps.len() > 0 {
        lemma_tcp_pool_index(ps.drop_last(), name);
        assert forall|j: int| 0 <= j < ps.len() - 1 implies ps[j] == ps.drop_last()[j] by {}
    }
}

/// Why a pool override is refused.
#[derive(Debug, Clone, Copy, PartialEq, Eq, Structural)]
pub enum PoolConfigRefusal {
    /// The override names an algorithm that is not known (400).
    UnknownAlgorithm,
    /// A pool was named but no TCP pool runs (404).
    NoTcpPools,
}

/// The live part of a pool override update: refused for an unknown
/// algorithm; applied to the first running TCP pool of that name; refused
/// when a name is given and no TCP pool runs. `Ok` means the override is to
/// be stored.
pub fn put_pool_config(pools: &mut Vec<TcpPoolState>, name: &str, o: &PoolConfigOverride) -> (r:
    Result<(), PoolConfigRefusal>)
    ensures
        (o.algorithm matches Some(a) && algorithm_named(a@) is None) ==> r == Err::<
            (),
            PoolConfigRefusal,
        >(PoolConfigRefusal::UnknownAlgorithm) && final(pools)@ == old(pools)@,
        !(o.algorithm matches Some(a) && algorithm_named(a@) is None) ==> match tcp_pool_index(
            old(pools)@,
            name@,
        ) {
            Some(i) => r is Ok && final(pools)@.len() == old(pools)@.len() && (forall|j: int|
                0 <= j < old(pools)@.len() && j != i ==> final(pools)@[j] == old(pools)@[j])
                && override_applied(old(pools)@[i], final(pools)@[i], *o),
            None => final(pools)@ == old(pools)@ && if name@.len() > 0 && old(pools)@.len() == 0 {
                r == Err::<(), PoolConfigRefusal>(PoolConfigRefusal::NoTcpPools)
            } else {
                r is Ok
            },
        },
{
    if unknown_algorithm(o) {
        return Err(PoolConfigRefusal::UnknownAlgorithm);
    }
    proof {
        lemma_tcp_pool_index(pools@, name@);
    }
    let mut i: usize = 0;
    while i < pools.len()
        invariant
            i <= pools@.len(),
            pools@ == old(pools)@,
            !(o.algorithm matches Some(a) && algorithm_named(a@) is None),
            forall|j: int| 0 <= j < i ==> (#[trigger] pools@[j]).pool_name()@ != name@,
        decreases pools.len() - i,
    {
        if str_eq(pools[i].name().as_str(), name) {
            proof {
                lemma_tcp_pool_index(pools@, name@);
                let k = tcp_pool_index(pools@, name@);
                assert(k == Some(i as int)) by {
                    match k {
                        Some(x) => {
                            if x < i {
                                assert(pools@[x].pool_name()@ != name@);
                            } else if x > i {
                                assert(pools@[i as int].pool_name()@ != name@);
                            }
                        },
                        None => {
                            assert(pools@[i as int].pool_name()@ != name@);
                        },
                    }
                }
            }
            let ghost before = pools@;
            let mut p = pools.remove(i);
            apply_override_live(&mut p, o);
            pools.insert(i, p);
            assert forall|j: int| 0 <= j < before.len() && j != i implies pools@[j] == before[j] by {
                if j < i {
                    assert(pools@[j] == before[j]);
                } else {
                    assert(pools@[j] == before[j]);
                }
            }
            return Ok(());
        }
        i += 1;
    }
    if !name.is_empty() && pools.len() == 0 {
        return Err(PoolConfigRefusal::NoTcpPools);
    }
    Ok(())
}


// ---------------------------------------------------------------------------
// Certificate status
// ---------------------------------------------------------------------------

/// Whole days from `now` until `not_after` (Unix seconds), rounded down, and
/// 0 for a certificate that has expired.
pub open spec fn days_left_spec(not_after: int, now: int) -> int {
    let d = (not_after - now) / 86400;
    if d < 0 {
        0
    } else {
        d
    }
}

pub fn cert_days_left(not_after: i64, now: i64) -> (r: i64)
    ensures
        r == days_left_spec(not_after as int, now as int),
{
    let diff: i128 = not_after as i128 - now as i128;
    if diff < 0 {
        assert((not_after - now) / 86400 < 0) by (nonlinear_arith)
            requires
                not_after - now < 0,
        ;
        return 0;
    }
    let q: i128 = diff / 86400;
    assert(q <= 0x1_0000_0000_0000) by (nonlinear_arith)
        requires
            q == diff / 86400,
            0 <= diff <= 0x1_0000_0000_0000_0000,
    ;
    q as i64
}

} // verus!
