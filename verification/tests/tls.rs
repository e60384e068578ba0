//! Certificate status of the TLS view: what the PEM file's certificate
//! states and how many days it has left.

use sdwanlite::daemon::cert_days_left;
use sdwanlite::tls::{cert_status, dns_alt_names, status_from, AltName, CertStatus};

/// Self-signed, CN=example.test, SANs DNS:example.test, IP:192.0.2.1,
/// DNS:www.example.test; valid from 1794935432 to 2110295432.
const CERT: &str = "-----BEGIN CERTIFICATE-----\n\
MIICKjCCAZOgAwIBAgIBBzANBgkqhkiG9w0BAQsFADAXMRUwEwYDVQQDDAxleGFt\n\
cGxlLnRlc3QwHhcNMjYxMTE3MTcxMDMyWhcNMzYxMTE0MTcxMDMyWjAXMRUwEwYD\n\
VQQDDAxleGFtcGxlLnRlc3QwgZ8wDQYJKoZIhvcNAQEBBQADgY0AMIGJAoGBANmp\n\
u+NgRfsnHNqPHkQMkqfOpqYnBuIm/Hmne/kCB+UuH7kJS7YfBWZzuT0NtPRGYoas\n\
wQ9SwfMa+Avsw/q5YbdhcdgRl8RZobZij1T1Gr/zlF6rOR38QOVY4IbxGc+9VcIz\n\
R8cvttp+3cSQUDoddDtOAE1I3vniTdqjccrQb5dJAgMBAAGjgYUwgYIwHQYDVR0O\n\
BBYEFHPFcxuADGCHiczGZE3n3Ti2MArRMB8GA1UdIwQYMBaAFHPFcxuADGCHiczG\n\
ZE3n3Ti2MArRMA8GA1UdEwEB/wQFMAMBAf8wLwYDVR0RBCgwJoIMZXhhbXBsZS50\n\
ZXN0hwTAAAIBghB3d3cuZXhhbXBsZS50ZXN0MA0GCSqGSIb3DQEBCwUAA4GBALgV\n\
SLpLWVbWeTYKOb4bIIaML95iiGVDTMvJ2nOa1ECT82KZtU/dJ+Hmrr97FnwPgvOv\n\
J42skIVgTBKLV6cQ1PWIceIi8DL4uz8nZSJzpqx9XtAvE0Re/dyKQrBfYoKkFLPo\n\
zLmhiy2Q4OZpJBs7M+hHawRhQGpeY3G20+iHhPTb\n\
-----END CERTIFICATE-----\n";

const NOT_BEFORE: i64 = 1794935432;
const NOT_AFTER: i64 = 2110295432;

#[test]
fn certificate_fields_and_days_left() {
    match cert_status(CERT.as_bytes(), NOT_AFTER - 10 * 86400 - 5) {
        CertStatus::Parsed { subject, issuer, not_before, not_after, days_left, sans } => {
            assert_eq!(subject, "CN=example.test");
            assert_eq!(issuer, "CN=example.test");
            assert_eq!(not_before, NOT_BEFORE);
            assert_eq!(not_after, NOT_AFTER);
            assert_eq!(days_left, 10);
            assert_eq!(sans, vec!["example.test".to_string(), "www.example.test".to_string()]);
        }
        CertStatus::Invalid => panic!("certificate not read"),
    }
}

#[test]
fn expired_certificate_has_no_days_left() {
    match cert_status(CERT.as_bytes(), NOT_AFTER + 3 * 86400) {
        CertStatus::Parsed { days_left, .. } => assert_eq!(days_left, 0),
        CertStatus::Invalid => panic!("certificate not read"),
    }
}

#[test]
fn garbage_is_not_a_certificate() {
    assert!(matches!(cert_status(b"not a pem file", 0), CertStatus::Invalid));
    let bad_der = "-----BEGIN CERTIFICATE-----\nAAECAwQ=\n-----END CERTIFICATE-----\n";
    assert!(matches!(cert_status(bad_der.as_bytes(), 0), CertStatus::Invalid));
}

#[test]
fn status_from_read_fields() {
    let names = vec![AltName::Other, AltName::Dns("a.test".into()), AltName::Dns("b.test".into())];
    assert_eq!(dns_alt_names(&names), vec!["a.test".to_string(), "b.test".to_string()]);
    let fields = Some(("CN=a".to_string(), "CN=ca".to_string(), 0i64, 86400 * 3));
    match status_from(fields, &names, 86400 - 1) {
        CertStatus::Parsed { days_left, sans, subject, .. } => {
            assert_eq!(days_left, 2);
            assert_eq!(sans.len(), 2);
            assert_eq!(subject, "CN=a");
        }
        CertStatus::Invalid => panic!("fields were given"),
    }
    assert!(matches!(status_from(None, &names, 0), CertStatus::Invalid));
}

#[test]
fn days_left_rounds_down_and_stops_at_zero() {
    assert_eq!(cert_days_left(86400 * 2 + 1, 0), 2);
    assert_eq!(cert_days_left(86400 * 2 - 1, 0), 1);
    assert_eq!(cert_days_left(0, 1), 0);
    assert_eq!(cert_days_left(i64::MAX, i64::MIN), (u64::MAX / 86400) as i64);
}
