//! Certificate status for the TLS management view: what the PEM file's first
//! certificate states and how many days it has left.
use vstd::prelude::*;
use x509_parser::extensions::GeneralName;
use x509_parser::prelude::FromDer;

use crate::daemon::{cert_days_left, days_left_spec};

verus! {

broadcast use vstd::string::group_string_axioms;

// ---------------------------------------------------------------------------
// What x509-parser reads
// ---------------------------------------------------------------------------

/// A subject alternative name: a DNS name, or a name of another kind.
#[derive(Debug, Clone, PartialEq, Eq)]
pub enum AltName {
    Dns(String),
    Other,
}

pub enum AltNameView {
    Dns(Seq<char>),
    Other,
}

impl View for AltName {
    type V = AltNameView;

    open spec fn view(&self) -> AltNameView {
        match self {
            AltName::Dns(n) => AltNameView::Dns(n@),
            AltName::Other => AltNameView::Other,
        }
    }
}

pub open spec fn alt_name_views(v: Seq<AltName>) -> Seq<AltNameView> {
    v.map_values(|a: AltName| a@)
}

/// The decoded contents of the first PEM block of `data`, as
/// `x509_parser::pem::parse_x509_pem` returns them (`None` when it fails).
pub uninterp spec fn pem_first_block(data: Seq<u8>) -> Option<Seq<u8>>;

/// Subject, issuer, and validity bounds (Unix seconds) of a DER certificate,
/// as `X509Certificate::from_der` reads them (`None` when it fails).
pub uninterp spec fn der_certificate_fields(der: Seq<u8>) -> Option<(Seq<char>, Seq<char>, i64, i64)>;

/// The names of the subject alternative name extension of a DER certificate,
/// in order; empty when the certificate, or the extension, cannot be read or
/// is absent.
pub uninterp spec fn der_certificate_alt_names(der: Seq<u8>) -> Seq<AltNameView>;

/// `x509_parser::pem::parse_x509_pem`: the contents of the first PEM block.
/// The contract only names the result.
#[verifier::external_body]
fn pem_contents(data: &[u8]) -> (r: Option<Vec<u8>>)
    ensures
        match r {
            Some(v) => pem_first_block(data@) == Some(v@),
            None => pem_first_block(data@) is None,
        },
{
    x509_parser::pem::parse_x509_pem(data).ok().map(|(_, pem)| pem.contents)
}

/// `X509Certificate::from_der`, then the subject and issuer names as their
/// `Display` text and the `timestamp()` of the validity bounds. The contract
/// only names the result.
#[verifier::external_body]
fn der_fields(der: &[u8]) -> (r: Option<(String, String, i64, i64)>)
    ensures
        match r {
            Some(f) => der_certificate_fields(der@) == Some((f.0@, f.1@, f.2, f.3)),
            None => der_certificate_fields(der@) is None,
        },
{
    let (_, c) = x509_parser::prelude::X509Certificate::from_der(der).ok()?;
    let v = c.validity();
    Some((c.subject().to_string(), c.issuer().to_string(), v.not_before.timestamp(), v.not_after.timestamp()))
}

/// `X509Certificate::from_der`, then `subject_alternative_name()`: each
/// general name, a DNS name kept by its text. A certificate or extension that
/// cannot be read gives no names. The contract only names the result.
#[verifier::external_body]
fn der_alt_names(der: &[u8]) -> (r: Vec<AltName>)
    ensures
        alt_name_views(r@) == der_certificate_alt_names(der@),
{
    let Ok((_, c)) = x509_parser::prelude::X509Certificate::from_der(der) else { return Vec::new() };
    let Ok(Some(san)) = c.subject_alternative_name() else { return Vec::new() };
    san.value.general_names.iter().map(|g| match g {
        GeneralName::DNSName(n) => AltName::Dns(n.to_string()),
        _ => AltName::Other,
    }).collect()
}

// ---------------------------------------------------------------------------
// The status
// ---------------------------------------------------------------------------

/// The DNS names among the alternative names, in order.
pub open spec fn dns_names(v: Seq<AltNameView>) -> Seq<Seq<char>>
    decreases v.len(),
{
    if v.len() == 0 {
        Seq::empty()
    } else {
        let r = dns_names(v.drop_last());
        match v.last() {
            AltNameView::Dns(n) => r.push(n),
            AltNameView::Other => r,
        }
    }
}

pub open spec fn string_views(v: Seq<String>) -> Seq<Seq<char>> {
    v.map_values(|s: String| s@)
}

/// The DNS names of `names`, in order.
pub fn dns_alt_names(names: &Vec<AltName>) -> (r: Vec<String>)
    ensures
        string_views(r@) == dns_names(alt_name_views(names@)),
{
    let mut out: Vec<String> = Vec::new();
    let mut i: usize = 0;
    while i < names.len()
        invariant
            i <= names.len(),
            string_views(out@) == dns_names(alt_name_views(names@.take(i as int))),
        decreases names.len() - i,
    {
        let ghost before = out@;
        assert(alt_name_views(names@.take(i + 1)).drop_last() =~= alt_name_views(names@.take(i as int)));
        assert(alt_name_views(names@.take(i + 1)).last() == names@[i as int]@);
        match &names[i] {
            AltName::Dns(n) => {
                out.push(n.clone());
                assert(string_views(out@) =~= string_views(before).push(n@));
            },
            AltName::Other => {},
        }
        i += 1;
    }
    assert(names@.take(names.len() as int) =~= names@);
    out
}

/// What the TLS view shows of the configured certificate file.
#[derive(Debug)]
pub enum CertStatus {
    /// The first PEM block holds a certificate.
    Parsed {
        subject: String,
        issuer: String,
        not_before: i64,
        not_after: i64,
        days_left: i64,
        sans: Vec<String>,
    },
    /// "not a valid PEM certificate"
    Invalid,
}

/// The status built from what the certificate states: its fields (`None`
/// when it could not be read) and its alternative names, at Unix time `now`.
pub fn status_from(fields: Option<(String, String, i64, i64)>, names: &Vec<AltName>, now: i64) -> (r:
    CertStatus)
    ensures
        match fields {
            None => r is Invalid,
            Some(f) => match r {
                CertStatus::Parsed { subject, issuer, not_before, not_after, days_left, sans } => {
                    &&& subject@ == f.0@
                    &&& issuer@ == f.1@
                    &&& not_before == f.2
                    &&& not_after == f.3
                    &&& days_left == days_left_spec(f.3 as int, now as int)
                    &&& string_views(sans@) == dns_names(alt_name_views(names@))
                },
                CertStatus::Invalid => false,
            },
        },
{
    match fields {
        None => CertStatus::Invalid,
        Some((subject, issuer, not_before, not_after)) => {
            let sans = dns_alt_names(names);
            let days_left = cert_days_left(not_after, now);
            CertStatus::Parsed { subject, issuer, not_before, not_after, days_left, sans }
        },
    }
}

/// The status of the certificate in `pem` at Unix time `now`: its names,
/// validity, whole days left (0 once expired) and DNS alternative names;
/// `Invalid` when the first PEM block cannot be decoded or is no
/// certificate.
pub fn cert_status(pem: &[u8], now: i64) -> (r: CertStatus)
    ensures
        match pem_first_block(pem@) {
            None => r is Invalid,
            Some(der) => match der_certificate_fields(der) {
                None => r is Invalid,
                Some(f) => match r {
                    CertStatus::Parsed { subject, issuer, not_before, not_after, days_left, sans } => {
                        &&& subject@ == f.0
                        &&& issuer@ == f.1
                        &&& not_before == f.2
                        &&& not_after == f.3
                        &&& days_left == days_left_spec(f.3 as int, now as int)
                        &&& string_views(sans@) == dns_names(der_certificate_alt_names(der))
                    },
                    CertStatus::Invalid => false,
                },
            },
        },
{
    let der = match pem_contents(pem) {
        Some(d) => d,
        None => return CertStatus::Invalid,
    };
    let fields = der_fields(der.as_slice());
    let names = if fields.is_some() {
        der_alt_names(der.as_slice())
    } else {
        Vec::new()
    };
    status_from(fields, &names, now)
}

} // verus!
