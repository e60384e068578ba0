//! Certificate automation: DNS-01 record naming and values, DNS provider
//! records, the HTTP-01 challenge responder's answers, the decisions of the
//! issuance protocol, and the renewal schedule.
use vstd::prelude::*;

use crate::codec::{b64_encode, base64_url_nopad_encode, sha256_digest, spec_sha256};
use crate::config::Acme;
use crate::text::{
    append_chars, append_str, chars_of, dec, ends_with, has_prefix, has_suffix, parse_uint,
    parse_uint_spec, push_dec, slice_chars, split_by, split_seq, split_words, str_eq, string_from,
    trim_chars, trim_spec, words,
};

verus! {

broadcast use vstd::string::group_string_axioms;

// ---------------------------------------------------------------------------
// Errors
// ---------------------------------------------------------------------------

#[derive(Debug)]
pub enum AcmeError {
    /// ACME protocol error.
    Protocol(String),
    /// I/O error, by its message.
    Io(String),
    /// Key or certificate generation error.
    Rcgen(String),
    /// The challenge server port could not be bound.
    Bind(u16),
    /// The order did not become ready in time.
    Timeout,
}

pub open spec fn acme_error_text(e: AcmeError) -> Seq<char> {
    match e {
        AcmeError::Protocol(m) => "ACME protocol error: "@ + m@,
        AcmeError::Io(m) => "io error: "@ + m@,
        AcmeError::Rcgen(m) => "key/cert generation error: "@ + m@,
        AcmeError::Bind(p) => "challenge server port "@ + dec(p as nat) + " could not be bound"@,
        AcmeError::Timeout => "order did not become ready in time"@,
    }
}

impl AcmeError {
    /// The error's message.
    pub fn message(&self) -> (r: String)
        ensures
            r@ == acme_error_text(*self),
    {
        let mut out: Vec<char> = Vec::new();
        match self {
            AcmeError::Protocol(m) => {
                append_str(&mut out, "ACME protocol error: ");
                append_str(&mut out, m.as_str());
            },
            AcmeError::Io(m) => {
                append_str(&mut out, "io error: ");
                append_str(&mut out, m.as_str());
            },
            AcmeError::Rcgen(m) => {
                append_str(&mut out, "key/cert generation error: ");
                append_str(&mut out, m.as_str());
            },
            AcmeError::Bind(p) => {
                append_str(&mut out, "challenge server port ");
                push_dec(&mut out, *p as u64);
                append_str(&mut out, " could not be bound");
            },
            AcmeError::Timeout => {
                append_str(&mut out, "order did not become ready in time");
            },
        }
        string_from(&out)
    }
}

// ---------------------------------------------------------------------------
// DNS-01
// ---------------------------------------------------------------------------

/// TXT record name of a challenge: `_acme-challenge.<domain>`.
pub fn txt_record_name(domain: &str) -> (r: String)
    ensures
        r@ == "_acme-challenge."@ + domain@,
{
    let mut out: Vec<char> = Vec::new();
    append_str(&mut out, "_acme-challenge.");
    append_str(&mut out, domain);
    string_from(&out)
}

/// TXT record value: unpadded URL-safe base64 of the SHA-256 of the key
/// authorization (RFC 8555 §8.4).
pub fn txt_value(key_authorization: &str) -> (r: String)
    ensures
        r@ == b64_encode(spec_sha256(vstd::utf8::encode_utf8(key_authorization@)), true, false),
{
    let digest = sha256_digest(key_authorization.as_bytes());
    base64_url_nopad_encode(digest.as_slice())
}

/// `s` without every leading repetition of `p` (`str::trim_start_matches`).
pub open spec fn strip_prefixes(s: Seq<char>, p: Seq<char>) -> Seq<char>
    decreases s.len(),
{
    if p.len() > 0 && has_prefix(s, p) {
        strip_prefixes(s.subrange(p.len() as int, s.len() as int), p)
    } else {
        s
    }
}

/// `s` without every trailing repetition of `p` (`str::trim_end_matches`).
pub open spec fn strip_suffixes(s: Seq<char>, p: Seq<char>) -> Seq<char>
    decreases s.len(),
{
    if p.len() > 0 && has_suffix(s, p) {
        strip_suffixes(s.subrange(0, s.len() - p.len()), p)
    } else {
        s
    }
}

pub fn strip_prefixes_chars(s: &Vec<char>, p: &Vec<char>) -> (r: Vec<char>)
    ensures
        r@ == strip_prefixes(s@, p@),
{
    if p.len() == 0 {
        return slice_chars(s, 0, s.len());
    }
    let mut lo: usize = 0;
    assert(s@.subrange(0, s@.len() as int) =~= s@);
    loop
        invariant
            p.len() > 0,
            lo <= s.len(),
            strip_prefixes(s@, p@) == strip_prefixes(s@.subrange(lo as int, s@.len() as int), p@),
        decreases s.len() - lo,
    {
        let rest = slice_chars(s, lo, s.len());
        if crate::text::starts_with(&rest, p) {
            assert(rest@.subrange(p@.len() as int, rest@.len() as int) =~= s@.subrange(
                lo + p@.len(),
                s@.len() as int,
            ));
            lo = lo + p.len();
        } else {
            return rest;
        }
    }
}

pub fn strip_suffixes_chars(s: &Vec<char>, p: &Vec<char>) -> (r: Vec<char>)
    ensures
        r@ == strip_suffixes(s@, p@),
{
    if p.len() == 0 {
        return slice_chars(s, 0, s.len());
    }
    let mut hi: usize = s.len();
    assert(s@.subrange(0, s@.len() as int) =~= s@);
    loop
        invariant
            p.len() > 0,
            hi <= s.len(),
            strip_suffixes(s@, p@) == strip_suffixes(s@.subrange(0, hi as int), p@),
        decreases hi,
    {
        let rest = slice_chars(s, 0, hi);
        if crate::text::ends_with(&rest, p) {
            assert(rest@.subrange(0, rest@.len() - p@.len()) =~= s@.subrange(0, hi - p@.len()));
            hi = hi - p.len();
        } else {
            return rest;
        }
    }
}

/// The non-empty dot-separated labels.
pub open spec fn labels(s: Seq<char>) -> Seq<Seq<char>>
    decreases s.len(),
{
    nonempty(split_seq(s, seq!['.']))
}

pub open spec fn nonempty(v: Seq<Seq<char>>) -> Seq<Seq<char>>
    decreases v.len(),
{
    if v.len() == 0 {
        Seq::empty()
    } else {
        let r = nonempty(v.drop_last());
        if v.last().len() > 0 {
            r.push(v.last())
        } else {
            r
        }
    }
}

/// Guess of the zone apex of a domain: its last two labels (after stripping
/// leading `*.`), or the stripped domain when it has fewer.
pub open spec fn zone_apex_spec(domain: Seq<char>) -> Seq<char> {
    let d = strip_prefixes(domain, "*."@);
    let l = labels(d);
    if l.len() >= 2 {
        l[l.len() - 2] + "."@ + l[l.len() - 1]
    } else {
        d
    }
}

pub fn zone_apex(domain: &str) -> (r: String)
    ensures
        r@ == zone_apex_spec(domain@),
{
    let dc = chars_of(domain);
    let star = chars_of("*.");
    let d = strip_prefixes_chars(&dc, &star);
    let mut dot: Vec<char> = Vec::new();
    dot.push('.');
    assert(dot@ =~= seq!['.']);
    let parts = split_by(&d, &dot);
    let ghost pv = parts@.map_values(|v: Vec<char>| v@);
    let mut kept: Vec<Vec<char>> = Vec::new();
    let mut i: usize = 0;
    while i < parts.len()
        invariant
            i <= parts.len(),
            pv == parts@.map_values(|v: Vec<char>| v@),
            kept@.map_values(|v: Vec<char>| v@) == nonempty(pv.take(i as int)),
        decreases parts.len() - i,
    {
        assert(pv.take(i + 1).drop_last() =~= pv.take(i as int));
        assert(pv.take(i + 1).last() == parts@[i as int]@);
        if parts[i].len() > 0 {
            let ghost old_k = kept@;
            let c = slice_chars(&parts[i], 0, parts[i].len());
            assert(c@ =~= parts@[i as int]@);
            kept.push(c);
            proof {
                crate::mesh::lemma_map_push(old_k, c, |v: Vec<char>| v@);
            }
        }
        i += 1;
    }
    assert(pv.take(parts.len() as int) =~= pv);
    let ghost kv = kept@.map_values(|v: Vec<char>| v@);
    if kept.len() >= 2 {
        let n = kept.len();
        let mut out: Vec<char> = Vec::new();
        append_chars(&mut out, &kept[n - 2]);
        out.push('.');
        append_chars(&mut out, &kept[n - 1]);
        assert(kv[n - 2] == kept@[n - 2]@ && kv[n - 1] == kept@[n - 1]@);
        assert(out@ =~= kv[n - 2] + "."@ + kv[n - 1]) by {
            reveal_strlit(".");
        }
        string_from(&out)
    } else {
        string_from(&d)
    }
}

/// One DNS-01 challenge to publish as a TXT record.
#[derive(Debug, Clone)]
pub struct TxtChallenge {
    /// FQDN of the record.
    pub name: String,
    /// Base64url(SHA-256(key authorization)).
    pub value: String,
}

/// A DNS provider able to publish TXT records; the record calls themselves
/// go over the network and are made by the daemon.
pub trait DnsProvider {
    fn name(&self) -> &'static str;
}

pub struct CloudflareProvider {
    pub api_token: String,
    /// Registrable domain used for zone lookup.
    pub zone: String,
}

impl DnsProvider for CloudflareProvider {
    fn name(&self) -> (r: &'static str)
        ensures
            r@ == "cloudflare"@,
    {
        "cloudflare"
    }
}

pub struct DigitalOceanProvider {
    pub api_token: String,
    /// Bare domain managed by the account.
    pub domain: String,
}

impl DnsProvider for DigitalOceanProvider {
    fn name(&self) -> (r: &'static str)
        ensures
            r@ == "digitalocean"@,
    {
        "digitalocean"
    }
}

/// The full record name DigitalOcean stores: the challenge name with the
/// domain appended unless it already ends with `.<domain>`.
pub open spec fn do_full_name_spec(name: Seq<char>, domain: Seq<char>) -> Seq<char> {
    if has_suffix(name, "."@ + domain) {
        name
    } else {
        name + "."@ + domain
    }
}

/// Cloudflare API base.
pub open spec fn cf_api() -> Seq<char> {
    "https://api.cloudflare.com/client/v4"@
}

/// DigitalOcean API base.
pub open spec fn do_api() -> Seq<char> {
    "https://api.digitalocean.com/v2"@
}

fn joined3(a: &str, b: &str, c: &str) -> (r: String)
    ensures
        r@ == a@ + b@ + c@,
{
    let mut out: Vec<char> = Vec::new();
    append_str(&mut out, a);
    append_str(&mut out, b);
    append_str(&mut out, c);
    string_from(&out)
}

/// The zone lookup of the zone apex covering `domain`.
pub fn cf_zones_url(domain: &str) -> (r: String)
    ensures
        r@ == cf_api() + "/zones?name="@ + zone_apex_spec(domain@),
{
    let z = zone_apex(domain);
    joined3("https://api.cloudflare.com/client/v4", "/zones?name=", z.as_str())
}

/// The TXT record collection of a zone, by the zone's id.
pub fn cf_records_url(zone_id: &str) -> (r: String)
    ensures
        r@ == cf_api() + "/zones/"@ + zone_id@ + "/dns_records"@,
{
    let mut out: Vec<char> = Vec::new();
    append_str(&mut out, "https://api.cloudflare.com/client/v4");
    append_str(&mut out, "/zones/");
    append_str(&mut out, zone_id);
    append_str(&mut out, "/dns_records");
    assert(out@ =~= cf_api() + "/zones/"@ + zone_id@ + "/dns_records"@);
    string_from(&out)
}

/// The record deleted after a challenge: addressed under the zone apex name
/// of `domain`.
pub fn cf_record_url(domain: &str, record_id: &str) -> (r: String)
    ensures
        r@ == cf_api() + "/zones/"@ + zone_apex_spec(domain@) + "/dns_records/"@ + record_id@,
{
    let z = zone_apex(domain);
    let mut out: Vec<char> = Vec::new();
    append_str(&mut out, "https://api.cloudflare.com/client/v4");
    append_str(&mut out, "/zones/");
    append_str(&mut out, z.as_str());
    append_str(&mut out, "/dns_records/");
    append_str(&mut out, record_id);
    assert(out@ =~= cf_api() + "/zones/"@ + zone_apex_spec(domain@) + "/dns_records/"@ + record_id@);
    string_from(&out)
}

/// The record collection of a DigitalOcean domain.
pub fn do_records_url(domain: &str) -> (r: String)
    ensures
        r@ == do_api() + "/domains/"@ + domain@ + "/records"@,
{
    let mut out: Vec<char> = Vec::new();
    append_str(&mut out, "https://api.digitalocean.com/v2");
    append_str(&mut out, "/domains/");
    append_str(&mut out, domain);
    append_str(&mut out, "/records");
    assert(out@ =~= do_api() + "/domains/"@ + domain@ + "/records"@);
    string_from(&out)
}

/// One record of a DigitalOcean domain.
pub fn do_record_url(domain: &str, record_id: &str) -> (r: String)
    ensures
        r@ == do_api() + "/domains/"@ + domain@ + "/records/"@ + record_id@,
{
    let mut out: Vec<char> = Vec::new();
    append_str(&mut out, "https://api.digitalocean.com/v2");
    append_str(&mut out, "/domains/");
    append_str(&mut out, domain);
    append_str(&mut out, "/records/");
    append_str(&mut out, record_id);
    assert(out@ =~= do_api() + "/domains/"@ + domain@ + "/records/"@ + record_id@);
    string_from(&out)
}

pub fn do_full_name(ch: &TxtChallenge, domain: &str) -> (r: String)
    ensures
        r@ == do_full_name_spec(ch.name@, domain@),
{
    let mut base: Vec<char> = Vec::new();
    append_str(&mut base, ".");
    append_str(&mut base, domain);
    let name = chars_of(ch.name.as_str());
    if ends_with(&name, &base) {
        ch.name.clone()
    } else {
        let mut out = name;
        append_str(&mut out, ".");
        append_str(&mut out, domain);
        string_from(&out)
    }
}

// ---------------------------------------------------------------------------
// HTTP-01 responder
// ---------------------------------------------------------------------------

/// The challenge token a request asks for: the request target without the
/// well-known prefix (and without a trailing ` HTTP/1.1`).
pub open spec fn challenge_token(head: Seq<char>) -> Seq<char> {
    let w = words(head);
    let target = if w.len() >= 2 {
        w[1]
    } else {
        Seq::empty()
    };
    strip_suffixes(strip_prefixes(target, "/.well-known/acme-challenge/"@), " HTTP/1.1"@)
}

/// The answer registered last for `token`.
pub open spec fn answer_for(answers: Seq<(Seq<char>, Seq<char>)>, token: Seq<char>) -> Option<Seq<char>>
    decreases answers.len(),
{
    if answers.len() == 0 {
        None
    } else if answers.last().0 == token {
        Some(answers.last().1)
    } else {
        answer_for(answers.drop_last(), token)
    }
}

pub open spec fn challenge_response_text(answers: Seq<(Seq<char>, Seq<char>)>, head: Seq<char>) -> Seq<
    char,
> {
    match answer_for(answers, challenge_token(head)) {
        Some(key_auth) => "HTTP/1.1 200 OK\r\nContent-Type: text/plain\r\nContent-Length: "@
            + dec(vstd::utf8::encode_utf8(key_auth).len())
            + "\r\nConnection: close\r\n\r\n"@ + key_auth,
        None => "HTTP/1.1 404 Not Found\r\nContent-Length: 0\r\nConnection: close\r\n\r\n"@,
    }
}

/// The responder's answer to a request head: the key authorization of the
/// requested token, or 404.
pub fn challenge_response(answers: &Vec<(String, String)>, head: &str) -> (r: String)
    ensures
        r@ == challenge_response_text(crate::proxy::pair_views(answers@), head@),
{
    let h = chars_of(head);
    let w = split_words(&h);
    let target = if w.len() >= 2 {
        assert(w@.map_values(|v: Vec<char>| v@)[1] == w@[1]@);
        slice_chars(&w[1], 0, w[1].len())
    } else {
        Vec::new()
    };
    assert(w@.len() >= 2 ==> target@ =~= w@[1]@);
    let pre = chars_of("/.well-known/acme-challenge/");
    let suf = chars_of(" HTTP/1.1");
    let t1 = strip_prefixes_chars(&target, &pre);
    let token = strip_suffixes_chars(&t1, &suf);
    assert(token@ == challenge_token(head@));
    let ghost av = crate::proxy::pair_views(answers@);
    let mut i: usize = answers.len();
    assert(av.take(answers.len() as int) =~= av);
    while i > 0
        invariant
            i <= answers.len(),
            av == crate::proxy::pair_views(answers@),
            token@ == challenge_token(head@),
            answer_for(av, token@) == answer_for(av.take(i as int), token@),
        decreases i,
    {
        let ghost t = av.take(i as int);
        assert(t.drop_last() =~= av.take(i - 1));
        assert(t.last() == (answers@[i - 1].0@, answers@[i - 1].1@));
        let k = chars_of(answers[i - 1].0.as_str());
        if crate::text::seq_eq(&k, &token) {
            let body = answers[i - 1].1.as_str();
            let n = body.as_bytes().len();
            let mut out: Vec<char> = Vec::new();
            append_str(&mut out, "HTTP/1.1 200 OK\r\nContent-Type: text/plain\r\nContent-Length: ");
            push_dec(&mut out, n as u64);
            append_str(&mut out, "\r\nConnection: close\r\n\r\n");
            append_str(&mut out, body);
            return string_from(&out);
        }
        i -= 1;
    }
    String::from_str("HTTP/1.1 404 Not Found\r\nContent-Length: 0\r\nConnection: close\r\n\r\n")
}

// ---------------------------------------------------------------------------
// Issuance protocol decisions
// ---------------------------------------------------------------------------

/// Account contact of the configured e-mail.
pub fn acme_contact(email: &str) -> (r: String)
    ensures
        r@ == "mailto:"@ + email@,
{
    let mut out: Vec<char> = Vec::new();
    append_str(&mut out, "mailto:");
    append_str(&mut out, email);
    string_from(&out)
}

/// Status of an ACME order.
#[derive(Debug, Clone, Copy, PartialEq, Eq)]
pub enum OrderPhase {
    Pending,
    Ready,
    Processing,
    Valid,
    Invalid,
}

/// What to do after refreshing an order.
#[derive(Debug)]
pub enum PollStep {
    /// The order is ready: go on to finalize.
    Proceed,
    /// Still pending: wait and poll again.
    Wait,
    /// Give up with this error.
    Fail(AcmeError),
}

pub open spec fn phase_name(p: OrderPhase) -> Seq<char> {
    match p {
        OrderPhase::Pending => "Pending"@,
        OrderPhase::Ready => "Ready"@,
        OrderPhase::Processing => "Processing"@,
        OrderPhase::Valid => "Valid"@,
        OrderPhase::Invalid => "Invalid"@,
    }
}

/// Order polling: ready or valid proceeds, pending waits until the deadline
/// (then times out), any other state fails.
pub fn order_poll_step(phase: OrderPhase, now_ms: u64, deadline_ms: u64) -> (r: PollStep)
    ensures
        match phase {
            OrderPhase::Ready | OrderPhase::Valid => r is Proceed,
            OrderPhase::Pending => if now_ms > deadline_ms {
                r matches PollStep::Fail(e) && e is Timeout
            } else {
                r is Wait
            },
            _ => r matches PollStep::Fail(e) && (e matches AcmeError::Protocol(m) && m@
                == "order entered state "@ + phase_name(phase)),
        },
{
    match phase {
        OrderPhase::Ready | OrderPhase::Valid => PollStep::Proceed,
        OrderPhase::Pending => if now_ms > deadline_ms {
            PollStep::Fail(AcmeError::Timeout)
        } else {
            PollStep::Wait
        },
        _ => {
            let mut m: Vec<char> = Vec::new();
            append_str(&mut m, "order entered state ");
            match phase {
                OrderPhase::Processing => append_str(&mut m, "Processing"),
                _ => append_str(&mut m, "Invalid"),
            }
            PollStep::Fail(AcmeError::Protocol(string_from(&m)))
        },
    }
}

/// Certificate polling: a delivered certificate ends the wait; otherwise wait
/// until the deadline, then time out.
pub fn certificate_poll_step(delivered: bool, now_ms: u64, deadline_ms: u64) -> (r: PollStep)
    ensures
        delivered ==> r is Proceed,
        !delivered ==> if now_ms > deadline_ms {
            r matches PollStep::Fail(e) && e is Timeout
        } else {
            r is Wait
        },
{
    if delivered {
        PollStep::Proceed
    } else if now_ms > deadline_ms {
        PollStep::Fail(AcmeError::Timeout)
    } else {
        PollStep::Wait
    }
}

/// An issuance needs at least one domain.
pub fn check_domains(cfg: &Acme) -> (r: Result<(), AcmeError>)
    ensures
        match r {
            Ok(()) => cfg.domains@.len() > 0,
            Err(e) => cfg.domains@.len() == 0 && (e matches AcmeError::Protocol(m) && m@
                == "no domains configured"@),
        },
{
    if cfg.domains.len() == 0 {
        Err(AcmeError::Protocol(String::from_str("no domains configured")))
    } else {
        Ok(())
    }
}

/// An issuance needs at least one HTTP-01 challenge to answer.
pub fn check_challenges(answers: &Vec<(String, String)>) -> (r: Result<(), AcmeError>)
    ensures
        match r {
            Ok(()) => answers@.len() > 0,
            Err(e) => answers@.len() == 0 && (e matches AcmeError::Protocol(m) && m@
                == "no HTTP-01 challenges offered"@),
        },
{
    if answers.len() == 0 {
        Err(AcmeError::Protocol(String::from_str("no HTTP-01 challenges offered")))
    } else {
        Ok(())
    }
}

// ---------------------------------------------------------------------------
// Renewal
// ---------------------------------------------------------------------------

/// Seconds in a day.
// ---------------------------------------------------------------------------
// Finalization material
// ---------------------------------------------------------------------------

/// Every character is ASCII, the character set of a certificate's DNS names.
pub open spec fn ascii_text(s: Seq<char>) -> bool {
    forall|i: int| 0 <= i < s.len() ==> (s[i] as u32) < 128
}

pub open spec fn all_ascii(v: Seq<String>) -> bool {
    forall|i: int| 0 <= i < v.len() ==> ascii_text(#[trigger] v[i]@)
}

/// Whether every domain can be a DNS name of a certificate.
pub fn domains_ascii(domains: &Vec<String>) -> (r: bool)
    ensures
        r == all_ascii(domains@),
{
    let mut i: usize = 0;
    while i < domains.len()
        invariant
            i <= domains.len(),
            forall|k: int| 0 <= k < i ==> ascii_text(#[trigger] domains@[k]@),
        decreases domains.len() - i,
    {
        let cs = chars_of(domains[i].as_str());
        let mut j: usize = 0;
        while j < cs.len()
            invariant
                i < domains.len(),
                j <= cs.len(),
                cs@ == domains@[i as int]@,
                forall|k: int| 0 <= k < j ==> (cs@[k] as u32) < 128,
            decreases cs.len() - j,
        {
            if !((cs[j] as u32) < 128) {
                assert(domains@[i as int]@[j as int] == cs@[j as int]);
                assert(!all_ascii(domains@)) by {
                    assert(!ascii_text(domains@[i as int]@));
                }
                return false;
            }
            j += 1;
        }
        i += 1;
    }
    true
}

/// `rcgen::KeyPair::generate()` (a fresh random P-256 key), then
/// `CertificateParams` with an empty distinguished name and each domain as a
/// DNS subject alternative name, signed by that key (`self_signed`): the
/// certificate's DER and the key's PEM. The key is random, so nothing is
/// stated of either; an rcgen error comes back as its message.
#[verifier::external_body]
fn self_signed_for(domains: &Vec<String>) -> (r: Result<(Vec<u8>, String), String>) {
    let key = rcgen::KeyPair::generate().map_err(|e| e.to_string())?;
    let mut params = rcgen::CertificateParams::default();
    params.distinguished_name = rcgen::DistinguishedName::new();
    for d in domains {
        let name: rcgen::Ia5String = d.clone().try_into().map_err(|e: rcgen::Error| e.to_string())?;
        params.subject_alt_names.push(rcgen::SanType::DnsName(name));
    }
    let cert = params.self_signed(&key).map_err(|e| e.to_string())?;
    Ok((cert.der().to_vec(), key.serialize_pem()))
}

/// What the order is finalized with, and the key kept for the certificate:
/// a fresh key and a certificate for every configured domain, signed by it.
/// The key is random; a failure of the generation is a `Rcgen` error.
pub fn finalize_material(cfg: &Acme) -> (r: Result<(Vec<u8>, String), AcmeError>)
    requires
        all_ascii(cfg.domains@),
    ensures
        r matches Err(e) ==> e is Rcgen,
{
    match self_signed_for(&cfg.domains) {
        Ok(m) => Ok(m),
        Err(m) => Err(AcmeError::Rcgen(m)),
    }
}

pub const SECS_PER_DAY: u64 = 86400;

/// Whether the certificate must be (re)issued: a file is missing, the
/// issuance record is missing or unreadable, or it is at least the renewal
/// period (at least one day) old.
pub open spec fn renewal_due(
    cert_exists: bool,
    key_exists: bool,
    issued: Option<Seq<char>>,
    now: u64,
    renew_days: u32,
) -> bool {
    if !cert_exists || !key_exists {
        true
    } else {
        match issued {
            None => true,
            Some(raw) => match parse_uint_spec(trim_spec(raw), u64::MAX as nat) {
                Some(t) => {
                    let age = if now >= t {
                        now - t
                    } else {
                        0
                    };
                    age / 86400 >= if renew_days > 1 {
                        renew_days as int
                    } else {
                        1
                    }
                },
                None => true,
            },
        }
    }
}

/// Renewal decision from what the daemon found on disk: whether the files
/// exist and the text of the `.issued` record, if it could be read.
pub fn needs_renewal(cfg: &Acme, cert_exists: bool, key_exists: bool, issued: Option<&str>, now: u64) -> (r:
    bool)
    ensures
        r == renewal_due(
            cert_exists,
            key_exists,
            match issued {
                Some(s) => Some(s@),
                None => None,
            },
            now,
            cfg.renew_days,
        ),
{
    if !cert_exists || !key_exists {
        return true;
    }
    match issued {
        None => true,
        Some(raw) => {
            let t = trim_chars(&chars_of(raw));
            match parse_uint(&t, u64::MAX) {
                Some(issued_at) => {
                    let age = if now >= issued_at {
                        now - issued_at
                    } else {
                        0
                    };
                    let min_days: u64 = if cfg.renew_days > 1 {
                        cfg.renew_days as u64
                    } else {
                        1
                    };
                    age / SECS_PER_DAY >= min_days
                },
                None => true,
            }
        },
    }
}

/// Path of the issuance record kept beside the key.
pub fn issued_path(key_file: &str) -> (r: String)
    ensures
        r@ == key_file@ + ".issued"@,
{
    let mut out: Vec<char> = Vec::new();
    append_str(&mut out, key_file);
    append_str(&mut out, ".issued");
    string_from(&out)
}

/// Path a file is first written to before it is renamed into place.
pub fn temp_path(file: &str) -> (r: String)
    ensures
        r@ == file@ + ".tmp"@,
{
    let mut out: Vec<char> = Vec::new();
    append_str(&mut out, file);
    append_str(&mut out, ".tmp");
    string_from(&out)
}

} // verus!
