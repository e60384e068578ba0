//! Control-plane data model exchanged between controller and agent: typed
//! identifiers, device configuration, its validation and versioning.
use vstd::prelude::*;

use crate::codec::{base64_standard_decode, is_uuid_v4, random_uuid, spec_base64_standard_decode};
use crate::net::IpAddress;
use crate::text::{append_str, dec, push_dec, string_from};
use vstd::string::StringSliceAdditionalSpecFns;
use vstd::std_specs::cmp::{PartialOrdSpec, PartialOrdSpecImpl};
use std::cmp::Ordering;

verus! {

broadcast use vstd::string::group_string_axioms;

// ---------------------------------------------------------------------------
// Identifiers
// ---------------------------------------------------------------------------

/// Device identity (a 128-bit UUID value).
#[derive(Clone, Copy, Debug, PartialEq, Eq, Hash)]
pub struct DeviceId(pub u128);

/// Tenant identity; the multi-tenancy isolation boundary.
#[derive(Clone, Copy, Debug, PartialEq, Eq, Hash)]
pub struct OrgId(pub u128);

/// Site identity within an org.
#[derive(Clone, Copy, Debug, PartialEq, Eq, Hash)]
pub struct SiteId(pub u128);

/// Tunnel identity.
#[derive(Clone, Copy, Debug, PartialEq, Eq, Hash)]
pub struct TunnelId(pub u128);

/// Logical interface identity.
#[derive(Clone, Copy, Debug, PartialEq, Eq, Hash)]
pub struct InterfaceId(pub u128);

impl DeviceId {
    /// A fresh random identifier (UUIDv4).
    pub fn new() -> (r: Self)
        ensures
            is_uuid_v4(r.0),
    {
        DeviceId(random_uuid())
    }

    pub fn from_uuid(u: u128) -> (r: Self)
        ensures
            r.0 == u,
    {
        DeviceId(u)
    }

    pub fn as_uuid(self) -> (r: u128)
        ensures
            r == self.0,
    {
        self.0
    }

    /// Hyphenated lowercase hex form.
    pub fn to_text(&self) -> (r: String)
        ensures
            r@ == crate::codec::uuid_text(self.0),
    {
        crate::codec::uuid_to_text(self.0)
    }
}

impl OrgId {
    pub fn new() -> (r: Self)
        ensures
            is_uuid_v4(r.0),
    {
        OrgId(random_uuid())
    }

    pub fn from_uuid(u: u128) -> (r: Self)
        ensures
            r.0 == u,
    {
        OrgId(u)
    }

    pub fn as_uuid(self) -> (r: u128)
        ensures
            r == self.0,
    {
        self.0
    }

    pub fn to_text(&self) -> (r: String)
        ensures
            r@ == crate::codec::uuid_text(self.0),
    {
        crate::codec::uuid_to_text(self.0)
    }
}

impl SiteId {
    pub fn new() -> (r: Self)
        ensures
            is_uuid_v4(r.0),
    {
        SiteId(random_uuid())
    }

    pub fn from_uuid(u: u128) -> (r: Self)
        ensures
            r.0 == u,
    {
        SiteId(u)
    }

    pub fn as_uuid(self) -> (r: u128)
        ensures
            r == self.0,
    {
        self.0
    }

    pub fn to_text(&self) -> (r: String)
        ensures
            r@ == crate::codec::uuid_text(self.0),
    {
        crate::codec::uuid_to_text(self.0)
    }
}

impl TunnelId {
    pub fn new() -> (r: Self)
        ensures
            is_uuid_v4(r.0),
    {
        TunnelId(random_uuid())
    }

    pub fn from_uuid(u: u128) -> (r: Self)
        ensures
            r.0 == u,
    {
        TunnelId(u)
    }

    pub fn as_uuid(self) -> (r: u128)
        ensures
            r == self.0,
    {
        self.0
    }
}

impl InterfaceId {
    pub fn new() -> (r: Self)
        ensures
            is_uuid_v4(r.0),
    {
        InterfaceId(random_uuid())
    }

    pub fn from_uuid(u: u128) -> (r: Self)
        ensures
            r.0 == u,
    {
        InterfaceId(u)
    }

    pub fn as_uuid(self) -> (r: u128)
        ensures
            r == self.0,
    {
        self.0
    }
}

/// Device lifecycle state.
#[derive(Clone, Copy, Debug, PartialEq, Eq)]
pub enum DeviceState {
    Provisioned,
    Connected,
    Degraded,
    Disconnected,
}

/// Monotonic per-device configuration version, ordered by its number.
#[derive(Clone, Copy, Debug, Default, PartialEq, Eq, Ord, Hash)]
pub struct ConfigVersion(pub u64);

impl ConfigVersion {
    pub fn new(v: u64) -> (r: Self)
        ensures
            r.0 == v,
    {
        ConfigVersion(v)
    }

    pub fn as_u64(self) -> (r: u64)
        ensures
            r == self.0,
    {
        self.0
    }

    /// The version number in decimal, as it is displayed.
    pub fn to_text(&self) -> (r: String)
        ensures
            r@ == dec(self.0 as nat),
    {
        let mut out: Vec<char> = Vec::new();
        push_dec(&mut out, self.0);
        string_from(&out)
    }
}

impl PartialOrd for ConfigVersion {
    fn partial_cmp(&self, other: &ConfigVersion) -> (r: Option<Ordering>) {
        self.0.partial_cmp(&other.0)
    }
}

impl PartialOrdSpecImpl for ConfigVersion {
    open spec fn obeys_partial_cmp_spec() -> bool {
        true
    }

    open spec fn partial_cmp_spec(&self, other: &ConfigVersion) -> Option<Ordering> {
        if self.0 < other.0 {
            Some(Ordering::Less)
        } else if self.0 > other.0 {
            Some(Ordering::Greater)
        } else {
            Some(Ordering::Equal)
        }
    }
}

/// Versions compare as their numbers do: `ConfigVersion::new(a) <
/// ConfigVersion::new(b)` exactly when `a < b`, and likewise for `<=`, `>`
/// and `>=`.
pub proof fn law_version_order(a: u64, b: u64)
    ensures
        PartialOrdSpec::partial_cmp_spec(&ConfigVersion(a), &ConfigVersion(b)) == Some(Ordering::Less) <==> a < b,
        PartialOrdSpec::partial_cmp_spec(&ConfigVersion(a), &ConfigVersion(b)) == Some(Ordering::Greater) <==> a > b,
        PartialOrdSpec::partial_cmp_spec(&ConfigVersion(a), &ConfigVersion(b)) == Some(Ordering::Equal) <==> a == b,
{
}

/// Bootstrap token the agent presents to the controller. Read only through
/// [`BootstrapToken::as_str`].
#[derive(Clone, Debug, PartialEq, Eq)]
pub struct BootstrapToken(String);

impl BootstrapToken {
    pub closed spec fn text(&self) -> Seq<char> {
        self.0@
    }

    pub fn new(t: String) -> (r: Self)
        ensures
            r.text() == t@,
    {
        BootstrapToken(t)
    }

    pub fn as_str(&self) -> (r: &str)
        ensures
            r@ == self.text(),
    {
        self.0.as_str()
    }
}

/// Physical/transport category of a path label.
#[derive(Clone, Copy, Debug, PartialEq, Eq)]
pub enum PathLabelKind {
    Mpls,
    Internet,
    FiveG,
    Starlink,
    Lte,
    Other,
}

/// Logical underlay/overlay link class.
#[derive(Clone, Debug, PartialEq, Eq)]
pub struct PathLabel {
    pub id: u128,
    /// Unique within the org.
    pub name: String,
    pub kind: PathLabelKind,
    /// SLA expectations; empty means best effort.
    pub sla: String,
}

/// Top-level tenant.
#[derive(Clone, Debug, PartialEq, Eq)]
pub struct Org {
    pub id: OrgId,
    pub name: String,
    pub created_at: u64,
}

/// Site within an org.
#[derive(Clone, Debug, PartialEq, Eq)]
pub struct Site {
    pub id: SiteId,
    pub org_id: OrgId,
    pub name: String,
    pub created_at: u64,
}

/// Device record.
#[derive(Clone, Debug, PartialEq, Eq)]
pub struct Device {
    pub id: DeviceId,
    pub org_id: OrgId,
    pub site_id: SiteId,
    pub hostname: String,
    pub last_seen: u64,
    pub state: DeviceState,
}

/// Access role.
#[derive(Clone, Copy, Debug, PartialEq, Eq)]
pub enum Role {
    Owner,
    Admin,
    Operator,
    Viewer,
}

// ---------------------------------------------------------------------------
// Validation errors
// ---------------------------------------------------------------------------

/// Structured validation error.
#[derive(Debug)]
pub enum ValidationError {
    /// The public key string is not exactly 44 bytes.
    PublicKeyLength { actual: usize, expected: usize },
    /// The public key contains a byte outside the base64 alphabet.
    PublicKeyCharset { position: usize, byte: u8 },
    /// The public key decoded to a payload that is not 32 bytes.
    PublicKeyDecodedLength { len: usize },
    /// The public key failed base64 decoding.
    PublicKeyDecode(String),
    /// A tunnel failed validation.
    Tunnel { interface: String, source: Box<ValidationError> },
    /// An interface failed validation.
    Interface { name: String, message: String },
    /// A firewall rule failed validation.
    FirewallRule { index: usize, message: String },
    /// A QoS class failed validation.
    QosClass { index: usize, message: String },
}

/// What a validation error says.
pub enum ValidationErrorView {
    PublicKeyLength { actual: nat, expected: nat },
    PublicKeyCharset { position: nat, byte: u8 },
    PublicKeyDecodedLength { len: nat },
    PublicKeyDecode(Seq<char>),
    Tunnel { interface: Seq<char>, source: Box<ValidationErrorView> },
    Interface { name: Seq<char>, message: Seq<char> },
    FirewallRule { index: nat, message: Seq<char> },
    QosClass { index: nat, message: Seq<char> },
}

impl View for ValidationError {
    type V = ValidationErrorView;

    open spec fn view(&self) -> ValidationErrorView
        decreases self,
    {
        match self {
            ValidationError::PublicKeyLength { actual, expected } =>
                ValidationErrorView::PublicKeyLength { actual: *actual as nat, expected: *expected as nat },
            ValidationError::PublicKeyCharset { position, byte } =>
                ValidationErrorView::PublicKeyCharset { position: *position as nat, byte: *byte },
            ValidationError::PublicKeyDecodedLength { len } =>
                ValidationErrorView::PublicKeyDecodedLength { len: *len as nat },
            ValidationError::PublicKeyDecode(m) => ValidationErrorView::PublicKeyDecode(m@),
            ValidationError::Tunnel { interface, source } => ValidationErrorView::Tunnel {
                interface: interface@,
                source: Box::new((**source).view()),
            },
            ValidationError::Interface { name, message } => ValidationErrorView::Interface {
                name: name@,
                message: message@,
            },
            ValidationError::FirewallRule { index, message } => ValidationErrorView::FirewallRule {
                index: *index as nat,
                message: message@,
            },
            ValidationError::QosClass { index, message } => ValidationErrorView::QosClass {
                index: *index as nat,
                message: message@,
            },
        }
    }
}

// ---------------------------------------------------------------------------
// WireGuard public keys
// ---------------------------------------------------------------------------

pub open spec fn key_byte_ok(b: u8) -> bool {
    (48 <= b && b <= 57) || (65 <= b && b <= 90) || (97 <= b && b <= 122) || b == 43 || b == 47
        || b == 61
}

/// Number of leading bytes inside the base64 alphabet (with `=`).
pub open spec fn key_ok_prefix(b: Seq<u8>) -> nat
    decreases b.len(),
{
    if b.len() > 0 && key_byte_ok(b[0]) {
        1 + key_ok_prefix(b.drop_first())
    } else {
        0
    }
}

/// Outcome of looking at base64-decoded key material.
pub open spec fn decoded_key_check(d: Result<Seq<u8>, Seq<char>>) -> Result<(), ValidationErrorView> {
    match d {
        Ok(v) => if v.len() == 32 {
            Ok(())
        } else {
            Err(ValidationErrorView::PublicKeyDecodedLength { len: v.len() })
        },
        Err(m) => Err(ValidationErrorView::PublicKeyDecode(m)),
    }
}

/// Checks on a base64 X25519 public key: exactly 44 bytes, all in the base64
/// alphabet, decoding to exactly 32 bytes.
pub open spec fn public_key_check(s: Seq<char>) -> Result<(), ValidationErrorView> {
    let b = vstd::utf8::encode_utf8(s);
    if b.len() != 44 {
        Err(ValidationErrorView::PublicKeyLength { actual: b.len(), expected: 44 })
    } else if key_ok_prefix(b) < 44 {
        Err(
            ValidationErrorView::PublicKeyCharset {
                position: key_ok_prefix(b),
                byte: b[key_ok_prefix(b) as int],
            },
        )
    } else {
        decoded_key_check(spec_base64_standard_decode(s))
    }
}

pub proof fn lemma_key_ok_prefix(b: Seq<u8>)
    ensures
        key_ok_prefix(b) <= b.len(),
        key_ok_prefix(b) < b.len() ==> !key_byte_ok(b[key_ok_prefix(b) as int]),
    decreases b.len(),
{
    if b.len() > 0 && key_byte_ok(b[0]) {
        lemma_key_ok_prefix(b.drop_first());
    }
}

/// What follows the decode: 32 bytes are accepted, any other length or a
/// decode failure is refused.
pub fn check_decoded_key(decoded: Result<Vec<u8>, String>) -> (r: Result<(), ValidationError>)
    ensures
        match r {
            Ok(()) => decoded matches Ok(v) && v@.len() == 32,
            Err(e) => match decoded {
                Ok(v) => v@.len() != 32 && e@ == ValidationErrorView::PublicKeyDecodedLength {
                    len: v@.len(),
                },
                Err(m) => e == ValidationError::PublicKeyDecode(m),
            },
        },
{
    match decoded {
        Ok(bytes) => {
            if bytes.len() == 32 {
                Ok(())
            } else {
                Err(ValidationError::PublicKeyDecodedLength { len: bytes.len() })
            }
        },
        Err(m) => Err(ValidationError::PublicKeyDecode(m)),
    }
}

/// Validate a base64-encoded X25519 public key.
pub fn validate_public_key(s: &str) -> (r: Result<(), ValidationError>)
    ensures
        match r {
            Ok(()) => public_key_check(s@) is Ok,
            Err(e) => public_key_check(s@) == Err::<(), ValidationErrorView>(e@),
        },
{
    let bytes = s.as_bytes();
    if bytes.len() != 44 {
        return Err(ValidationError::PublicKeyLength { actual: bytes.len(), expected: 44 });
    }
    let mut i: usize = 0;
    assert(bytes@.subrange(0, bytes@.len() as int) =~= bytes@);
    while i < bytes.len()
        invariant
            i <= bytes@.len(),
            bytes@.len() == 44,
            bytes@ == s.spec_bytes(),
            key_ok_prefix(bytes@) == i + key_ok_prefix(
                bytes@.subrange(i as int, bytes@.len() as int),
            ),
        decreases bytes.len() - i,
    {
        let b = bytes[i];
        let ok = (48 <= b && b <= 57) || (65 <= b && b <= 90) || (97 <= b && b <= 122) || b == 43
            || b == 47 || b == 61;
        assert(bytes@.subrange(i as int, bytes@.len() as int)[0] == b);
        if !ok {
            assert(key_ok_prefix(bytes@.subrange(i as int, bytes@.len() as int)) == 0);
            assert(bytes@ == vstd::utf8::encode_utf8(s@));
            return Err(ValidationError::PublicKeyCharset { position: i, byte: b });
        }
        assert(bytes@.subrange(i as int, bytes@.len() as int).drop_first() =~= bytes@.subrange(
            i + 1,
            bytes@.len() as int,
        ));
        i += 1;
    }
    proof {
        lemma_key_ok_prefix(bytes@);
        assert(bytes@.subrange(44, 44) =~= Seq::<u8>::empty());
    }
    let decoded = base64_standard_decode(s);
    check_decoded_key(decoded)
}

/// WireGuard X25519 public key that passed [`validate_public_key`].
#[derive(Clone, Debug, PartialEq, Eq)]
pub struct PublicKey(String);

impl PublicKey {
    pub closed spec fn text(&self) -> Seq<char> {
        self.0@
    }

    pub fn try_from_str(s: &str) -> (r: Result<Self, ValidationError>)
        ensures
            match r {
                Ok(k) => public_key_check(s@) is Ok && k.text() == s@,
                Err(e) => public_key_check(s@) == Err::<(), ValidationErrorView>(e@),
            },
    {
        validate_public_key(s)?;
        Ok(PublicKey(String::from_str(s)))
    }

    pub fn as_str(&self) -> (r: &str)
        ensures
            r@ == self.text(),
    {
        self.0.as_str()
    }
}

// ---------------------------------------------------------------------------
// Device configuration
// ---------------------------------------------------------------------------

/// Probing policy for a link.
#[derive(Clone, Debug, PartialEq, Eq)]
pub struct HealthCheckConfig {
    /// Probe cadence in milliseconds.
    pub interval_ms: u32,
    pub probe_type: ProbeType,
    /// Consecutive failures before the link is marked down.
    pub threshold: u32,
    /// Per-probe timeout in milliseconds.
    pub timeout_ms: u32,
}

impl Default for HealthCheckConfig {
    fn default() -> (r: Self)
        ensures
            r.interval_ms == 1000,
            r.probe_type == ProbeType::Icmp,
            r.threshold == 3,
            r.timeout_ms == 500,
    {
        HealthCheckConfig {
            interval_ms: default_hc_interval_ms(),
            probe_type: ProbeType::Icmp,
            threshold: default_hc_threshold(),
            timeout_ms: default_hc_timeout_ms(),
        }
    }
}

pub fn default_hc_interval_ms() -> (r: u32)
    ensures
        r == 1000,
{
    1000
}

pub fn default_hc_threshold() -> (r: u32)
    ensures
        r == 3,
{
    3
}

pub fn default_hc_timeout_ms() -> (r: u32)
    ensures
        r == 500,
{
    500
}

/// Probe transport used by the link monitor.
#[derive(Clone, Copy, Debug, Default, PartialEq, Eq)]
pub enum ProbeType {
    #[default]
    Icmp,
    Http,
    Dns,
    Tcp,
}

/// On-device logical interface declaration.
#[derive(Clone, Debug, PartialEq, Eq)]
pub struct Interface {
    pub name: String,
    pub addresses: Vec<IpAddress>,
    /// MTU in bytes (0 means kernel default).
    pub mtu: u16,
    pub path_label: Option<String>,
}

/// Tunnel configuration.
#[derive(Clone, Debug, PartialEq, Eq)]
pub enum TunnelConfig {
    WireGuard(WireGuardTunnel),
}

/// WireGuard-specific tunnel config; `public_key` is the peer's public key.
#[derive(Clone, Debug, PartialEq, Eq)]
pub struct WireGuardTunnel {
    pub interface: String,
    pub path_label: String,
    pub health_check: HealthCheckConfig,
    pub endpoint: String,
    pub allowed_ips: Vec<IpAddress>,
    pub public_key: String,
}

impl WireGuardTunnel {
    /// The public key check, reported in the tunnel's context.
    pub fn validate(&self) -> (r: Result<(), ValidationError>)
        ensures
            match r {
                Ok(()) => public_key_check(self.public_key@) is Ok,
                Err(e) => public_key_check(self.public_key@) matches Err(inner) && e@
                    == ValidationErrorView::Tunnel {
                    interface: self.interface@,
                    source: Box::new(inner),
                },
            },
    {
        match validate_public_key(self.public_key.as_str()) {
            Ok(()) => Ok(()),
            Err(e) => Err(
                ValidationError::Tunnel {
                    interface: String::from_str(self.interface.as_str()),
                    source: Box::new(e),
                },
            ),
        }
    }
}

/// Static route entry.
#[derive(Clone, Debug, PartialEq, Eq)]
pub struct Route {
    pub destination: String,
    pub next_hop: String,
    /// Administrative distance (lower wins).
    pub metric: u32,
}

pub fn default_metric() -> (r: u32)
    ensures
        r == 100,
{
    100
}

/// Firewall policy: ordered rules, first match wins.
#[derive(Clone, Debug, PartialEq, Eq, Default)]
pub struct FirewallPolicy {
    pub rules: Vec<FirewallRule>,
}

/// Single firewall rule.
#[derive(Clone, Debug, PartialEq, Eq)]
pub struct FirewallRule {
    pub action: FirewallAction,
    pub source: Option<String>,
    pub destination: Option<String>,
    pub protocol: Option<String>,
    pub port: Option<u16>,
    pub comment: Option<String>,
}

/// Firewall verdict.
#[derive(Clone, Copy, Debug, PartialEq, Eq)]
pub enum FirewallAction {
    Accept,
    Drop,
    Reject,
}

/// QoS policy: ordered classes, top match wins.
#[derive(Clone, Debug, PartialEq, Eq, Default)]
pub struct QosPolicy {
    pub classes: Vec<QosClass>,
}

/// QoS class.
#[derive(Clone, Debug, PartialEq, Eq)]
pub struct QosClass {
    pub name: String,
    /// DSCP value 0-63.
    pub dscp: u8,
    /// Bandwidth ceiling in bits/second (0 = unlimited).
    pub bandwidth_bps: u64,
}

/// Full device configuration the controller pushes.
#[derive(Clone, Debug, PartialEq, Eq)]
pub struct DeviceConfig {
    pub device_id: DeviceId,
    pub org_id: OrgId,
    pub site_id: SiteId,
    pub hostname: String,
    pub interfaces: Vec<Interface>,
    pub tunnels: Vec<TunnelConfig>,
    pub routes: Vec<Route>,
    pub firewall: FirewallPolicy,
    pub qos: QosPolicy,
    pub path_labels: Vec<PathLabel>,
    /// Monotonic version issued by the controller on every push.
    pub version: ConfigVersion,
}

/// Text of the unspecified address of a family, as `Display` renders it.
pub open spec fn unspecified_text(a: IpAddress) -> Seq<char> {
    match a {
        IpAddress::V4(_) => "0.0.0.0"@,
        IpAddress::V6(_) => "::"@,
    }
}

/// First unspecified address among `addrs`, if any.
pub open spec fn first_unspecified(addrs: Seq<IpAddress>) -> Option<IpAddress>
    decreases addrs.len(),
{
    if addrs.len() == 0 {
        None
    } else if addrs[0].spec_is_unspecified() {
        Some(addrs[0])
    } else {
        first_unspecified(addrs.drop_first())
    }
}

pub open spec fn interfaces_error(ifs: Seq<Interface>) -> Option<ValidationErrorView>
    decreases ifs.len(),
{
    if ifs.len() == 0 {
        None
    } else if ifs[0].name@.len() == 0 {
        Some(
            ValidationErrorView::Interface {
                name: ifs[0].name@,
                message: "interface name must not be empty"@,
            },
        )
    } else {
        match first_unspecified(ifs[0].addresses@) {
            Some(a) => Some(
                ValidationErrorView::Interface {
                    name: ifs[0].name@,
                    message: "address "@ + unspecified_text(a) + " is unspecified"@,
                },
            ),
            None => interfaces_error(ifs.drop_first()),
        }
    }
}

pub open spec fn tunnels_error(ts: Seq<TunnelConfig>) -> Option<ValidationErrorView>
    decreases ts.len(),
{
    if ts.len() == 0 {
        None
    } else {
        match ts[0] {
            TunnelConfig::WireGuard(w) => match public_key_check(w.public_key@) {
                Err(inner) => Some(
                    ValidationErrorView::Tunnel { interface: w.interface@, source: Box::new(inner) },
                ),
                Ok(()) => tunnels_error(ts.drop_first()),
            },
        }
    }
}

pub open spec fn firewall_error(rules: Seq<FirewallRule>, base: nat) -> Option<ValidationErrorView>
    decreases rules.len(),
{
    if rules.len() == 0 {
        None
    } else if rules[0].port == Some(0u16) {
        Some(ValidationErrorView::FirewallRule { index: base, message: "port must be > 0"@ })
    } else {
        firewall_error(rules.drop_first(), base + 1)
    }
}

pub open spec fn qos_error(classes: Seq<QosClass>, base: nat) -> Option<ValidationErrorView>
    decreases classes.len(),
{
    if classes.len() == 0 {
        None
    } else if classes[0].dscp > 63 {
        Some(
            ValidationErrorView::QosClass {
                index: base,
                message: "dscp "@ + dec(classes[0].dscp as nat) + " exceeds 63"@,
            },
        )
    } else {
        qos_error(classes.drop_first(), base + 1)
    }
}

/// The first problem of a configuration, checked in this order: interfaces,
/// tunnel public keys, firewall rule ports, QoS DSCP values.
pub open spec fn config_error(c: DeviceConfig) -> Option<ValidationErrorView> {
    match interfaces_error(c.interfaces@) {
        Some(e) => Some(e),
        None => match tunnels_error(c.tunnels@) {
            Some(e) => Some(e),
            None => match firewall_error(c.firewall.rules@, 0) {
                Some(e) => Some(e),
                None => qos_error(c.qos.classes@, 0),
            },
        },
    }
}

fn owned(s: &str) -> (r: String)
    ensures
        r@ == s@,
{
    String::from_str(s)
}

impl DeviceConfig {
    /// Validate what the controller cannot trust on the wire: interface names
    /// and addresses, tunnel public keys, firewall ports, QoS DSCP range.
    pub fn validate(&self) -> (r: Result<(), ValidationError>)
        ensures
            match r {
                Ok(()) => config_error(*self) is None,
                Err(e) => config_error(*self) == Some(e@),
            },
            r is Ok <==> config_valid(*self),
    {
        proof {
            law_validate_iff(*self);
        }
        self.first_error()
    }

    /// The first problem found, in the order of [`config_error`].
    fn first_error(&self) -> (r: Result<(), ValidationError>)
        ensures
            match r {
                Ok(()) => config_error(*self) is None,
                Err(e) => config_error(*self) == Some(e@),
            },
    {
        let mut i: usize = 0;
        assert(self.interfaces@.subrange(0, self.interfaces@.len() as int) =~= self.interfaces@);
        while i < self.interfaces.len()
            invariant
                i <= self.interfaces@.len(),
                interfaces_error(self.interfaces@) == interfaces_error(
                    self.interfaces@.subrange(i as int, self.interfaces@.len() as int),
                ),
            decreases self.interfaces.len() - i,
        {
            let iface = &self.interfaces[i];
            let ghost rest = self.interfaces@.subrange(i as int, self.interfaces@.len() as int);
            assert(rest[0] == *iface);
            assert(rest.drop_first() =~= self.interfaces@.subrange(
                i + 1,
                self.interfaces@.len() as int,
            ));
            if iface.name.as_str().is_empty() {
                return Err(
                    ValidationError::Interface {
                        name: String::from_str(iface.name.as_str()),
                        message: owned("interface name must not be empty"),
                    },
                );
            }
            let mut j: usize = 0;
            assert(iface.addresses@.subrange(0, iface.addresses@.len() as int)
                =~= iface.addresses@);
            while j < iface.addresses.len()
                invariant
                    j <= iface.addresses@.len(),
                    i < self.interfaces@.len(),
                    *iface == self.interfaces@[i as int],
                    iface.name@.len() > 0,
                    interfaces_error(self.interfaces@) == interfaces_error(
                        self.interfaces@.subrange(i as int, self.interfaces@.len() as int),
                    ),
                    self.interfaces@.subrange(i as int, self.interfaces@.len() as int)[0] == *iface,
                    first_unspecified(iface.addresses@) == first_unspecified(
                        iface.addresses@.subrange(j as int, iface.addresses@.len() as int),
                    ),
                decreases iface.addresses.len() - j,
            {
                let a = iface.addresses[j];
                let ghost ar = iface.addresses@.subrange(j as int, iface.addresses@.len() as int);
                assert(ar[0] == a);
                assert(ar.drop_first() =~= iface.addresses@.subrange(
                    j + 1,
                    iface.addresses@.len() as int,
                ));
                if a.is_unspecified() {
                    let mut m: Vec<char> = Vec::new();
                    append_str(&mut m, "address ");
                    match a {
                        IpAddress::V4(_) => append_str(&mut m, "0.0.0.0"),
                        IpAddress::V6(_) => append_str(&mut m, "::"),
                    }
                    append_str(&mut m, " is unspecified");
                    return Err(
                        ValidationError::Interface {
                            name: String::from_str(iface.name.as_str()),
                            message: string_from(&m),
                        },
                    );
                }
                j += 1;
            }
            i += 1;
        }
        let mut t: usize = 0;
        assert(self.tunnels@.subrange(0, self.tunnels@.len() as int) =~= self.tunnels@);
        while t < self.tunnels.len()
            invariant
                t <= self.tunnels@.len(),
                interfaces_error(self.interfaces@) is None,
                tunnels_error(self.tunnels@) == tunnels_error(
                    self.tunnels@.subrange(t as int, self.tunnels@.len() as int),
                ),
            decreases self.tunnels.len() - t,
        {
            let ghost rest = self.tunnels@.subrange(t as int, self.tunnels@.len() as int);
            assert(rest[0] == self.tunnels@[t as int]);
            assert(rest.drop_first() =~= self.tunnels@.subrange(t + 1, self.tunnels@.len() as int));
            match &self.tunnels[t] {
                TunnelConfig::WireGuard(w) => {
                    w.validate()?;
                },
            }
            t += 1;
        }
        let mut f: usize = 0;
        assert(self.firewall.rules@.subrange(0, self.firewall.rules@.len() as int)
            =~= self.firewall.rules@);
        while f < self.firewall.rules.len()
            invariant
                f <= self.firewall.rules@.len(),
                interfaces_error(self.interfaces@) is None,
                tunnels_error(self.tunnels@) is None,
                firewall_error(self.firewall.rules@, 0) == firewall_error(
                    self.firewall.rules@.subrange(f as int, self.firewall.rules@.len() as int),
                    f as nat,
                ),
            decreases self.firewall.rules.len() - f,
        {
            let r = &self.firewall.rules[f];
            let ghost rest = self.firewall.rules@.subrange(
                f as int,
                self.firewall.rules@.len() as int,
            );
            assert(rest[0] == *r);
            assert(rest.drop_first() =~= self.firewall.rules@.subrange(
                f + 1,
                self.firewall.rules@.len() as int,
            ));
            match r.port {
                Some(p) => {
                    if p == 0 {
                        return Err(
                            ValidationError::FirewallRule {
                                index: f,
                                message: owned("port must be > 0"),
                            },
                        );
                    }
                },
                None => {},
            }
            f += 1;
        }
        let mut q: usize = 0;
        assert(self.qos.classes@.subrange(0, self.qos.classes@.len() as int)
            =~= self.qos.classes@);
        while q < self.qos.classes.len()
            invariant
                q <= self.qos.classes@.len(),
                interfaces_error(self.interfaces@) is None,
                tunnels_error(self.tunnels@) is None,
                firewall_error(self.firewall.rules@, 0) is None,
                qos_error(self.qos.classes@, 0) == qos_error(
                    self.qos.classes@.subrange(q as int, self.qos.classes@.len() as int),
                    q as nat,
                ),
            decreases self.qos.classes.len() - q,
        {
            let c = &self.qos.classes[q];
            let ghost rest = self.qos.classes@.subrange(q as int, self.qos.classes@.len() as int);
            assert(rest[0] == *c);
            assert(rest.drop_first() =~= self.qos.classes@.subrange(
                q + 1,
                self.qos.classes@.len() as int,
            ));
            if c.dscp > 63 {
                let mut m: Vec<char> = Vec::new();
                append_str(&mut m, "dscp ");
                push_dec(&mut m, c.dscp as u64);
                append_str(&mut m, " exceeds 63");
                return Err(ValidationError::QosClass { index: q, message: string_from(&m) });
            }
            q += 1;
        }
        Ok(())
    }

    /// True iff `self.version > other.version`.
    pub fn is_strictly_newer_than(&self, other: &Self) -> (r: bool)
        ensures
            r == (self.version.0 > other.version.0),
    {
        self.version.0 > other.version.0
    }

    /// The same configuration with the next version (saturating at `u64::MAX`).
    pub fn with_bumped_version(self) -> (r: Self)
        ensures
            r == bumped(self),
    {
        let v = if self.version.0 == u64::MAX {
            u64::MAX
        } else {
            self.version.0 + 1
        };
        DeviceConfig { version: ConfigVersion(v), ..self }
    }
}

/// The configuration with the next version, saturating at `u64::MAX`.
pub open spec fn bumped(c: DeviceConfig) -> DeviceConfig {
    DeviceConfig {
        version: ConfigVersion(
            if c.version.0 == u64::MAX {
                u64::MAX
            } else {
                (c.version.0 + 1) as u64
            },
        ),
        ..c
    }
}

/// Version bumps never go backwards, saturate at `u64::MAX`, give a strictly
/// newer revision below it, and change nothing but the version.
pub proof fn law_version_bump_saturates(c: DeviceConfig)
    ensures
        bumped(c).version.0 >= c.version.0,
        bumped(bumped(c)).version.0 >= bumped(c).version.0,
        bumped(c).version.0 == (if c.version.0 + 1 > u64::MAX {
            u64::MAX as int
        } else {
            c.version.0 + 1
        }),
        c.version.0 < u64::MAX ==> bumped(c).version.0 > c.version.0,
        bumped(c) == (DeviceConfig { version: bumped(c).version, ..c }),
{
}

/// An ASCII character that is no base64 digit and no `=`.
pub open spec fn ascii_outside_base64(ch: char) -> bool {
    let v = ch as u32;
    &&& v < 128
    &&& !(48 <= v <= 57 || 65 <= v <= 90 || 97 <= v <= 122 || v == 43 || v == 47 || v == 61)
}

/// An interface passes validation: it is named and none of its addresses is
/// unspecified.
pub open spec fn interface_ok(i: Interface) -> bool {
    &&& i.name@.len() > 0
    &&& forall|k: int| 0 <= k < i.addresses@.len() ==> !(#[trigger] i.addresses@[k]).spec_is_unspecified()
}

/// A tunnel passes validation: its public key is well-formed.
pub open spec fn tunnel_ok(t: TunnelConfig) -> bool {
    match t {
        TunnelConfig::WireGuard(w) => public_key_check(w.public_key@) is Ok,
    }
}

/// Every interface, tunnel key, firewall port and DSCP value is valid.
pub open spec fn config_valid(c: DeviceConfig) -> bool {
    &&& forall|i: int| 0 <= i < c.interfaces@.len() ==> interface_ok(#[trigger] c.interfaces@[i])
    &&& forall|i: int| 0 <= i < c.tunnels@.len() ==> tunnel_ok(#[trigger] c.tunnels@[i])
    &&& forall|i: int| 0 <= i < c.firewall.rules@.len() ==> (#[trigger] c.firewall.rules@[i]).port != Some(0u16)
    &&& forall|i: int| 0 <= i < c.qos.classes@.len() ==> (#[trigger] c.qos.classes@[i]).dscp <= 63
}

proof fn lemma_first_unspecified_none(a: Seq<IpAddress>)
    ensures
        first_unspecified(a) is None <==> forall|k: int| 0 <= k < a.len() ==> !(#[trigger] a[k]).spec_is_unspecified(),
    decreases a.len(),
{
    if a.len() > 0 {
        let t = a.drop_first();
        lemma_first_unspecified_none(t);
        if forall|k: int| 0 <= k < a.len() ==> !(#[trigger] a[k]).spec_is_unspecified() {
            assert(!a[0].spec_is_unspecified());
            assert forall|k: int| 0 <= k < t.len() implies !(#[trigger] t[k]).spec_is_unspecified() by {
                assert(t[k] == a[k + 1]);
            }
        }
        if first_unspecified(a) is None {
            assert forall|k: int| 0 <= k < a.len() implies !(#[trigger] a[k]).spec_is_unspecified() by {
                if k > 0 {
                    assert(a[k] == t[k - 1]);
                }
            }
        }
    }
}

proof fn lemma_interfaces_error_none(ifs: Seq<Interface>)
    ensures
        interfaces_error(ifs) is None <==> forall|i: int| 0 <= i < ifs.len() ==> interface_ok(#[trigger] ifs[i]),
    decreases ifs.len(),
{
    if ifs.len() > 0 {
        let t = ifs.drop_first();
        lemma_interfaces_error_none(t);
        lemma_first_unspecified_none(ifs[0].addresses@);
        if forall|i: int| 0 <= i < ifs.len() ==> interface_ok(#[trigger] ifs[i]) {
            assert(interface_ok(ifs[0]));
            assert forall|i: int| 0 <= i < t.len() implies interface_ok(#[trigger] t[i]) by {
                assert(t[i] == ifs[i + 1]);
            }
        }
        if interfaces_error(ifs) is None {
            assert forall|i: int| 0 <= i < ifs.len() implies interface_ok(#[trigger] ifs[i]) by {
                if i > 0 {
                    assert(ifs[i] == t[i - 1]);
                }
            }
        }
    }
}

proof fn lemma_tunnels_error_none(ts: Seq<TunnelConfig>)
    ensures
        tunnels_error(ts) is None <==> forall|i: int| 0 <= i < ts.len() ==> tunnel_ok(#[trigger] ts[i]),
    decreases ts.len(),
{
    if ts.len() > 0 {
        let t = ts.drop_first();
        lemma_tunnels_error_none(t);
        if forall|i: int| 0 <= i < ts.len() ==> tunnel_ok(#[trigger] ts[i]) {
            assert(tunnel_ok(ts[0]));
            assert forall|i: int| 0 <= i < t.len() implies tunnel_ok(#[trigger] t[i]) by {
                assert(t[i] == ts[i + 1]);
            }
        }
        if tunnels_error(ts) is None {
            assert forall|i: int| 0 <= i < ts.len() implies tunnel_ok(#[trigger] ts[i]) by {
                if i > 0 {
                    assert(ts[i] == t[i - 1]);
                }
            }
        }
    }
}

proof fn lemma_firewall_error_none(rules: Seq<FirewallRule>, base: nat)
    ensures
        firewall_error(rules, base) is None <==> forall|i: int| 0 <= i < rules.len() ==> (#[trigger] rules[i]).port != Some(0u16),
    decreases rules.len(),
{
    if rules.len() > 0 {
        let t = rules.drop_first();
        lemma_firewall_error_none(t, base + 1);
        if forall|i: int| 0 <= i < rules.len() ==> (#[trigger] rules[i]).port != Some(0u16) {
            assert(rules[0].port != Some(0u16));
            assert forall|i: int| 0 <= i < t.len() implies (#[trigger] t[i]).port != Some(0u16) by {
                assert(t[i] == rules[i + 1]);
            }
        }
        if firewall_error(rules, base) is None {
            assert forall|i: int| 0 <= i < rules.len() implies (#[trigger] rules[i]).port != Some(0u16) by {
                if i > 0 {
                    assert(rules[i] == t[i - 1]);
                }
            }
        }
    }
}

proof fn lemma_qos_error_none(classes: Seq<QosClass>, base: nat)
    ensures
        qos_error(classes, base) is None <==> forall|i: int| 0 <= i < classes.len() ==> (#[trigger] classes[i]).dscp <= 63,
    decreases classes.len(),
{
    if classes.len() > 0 {
        let t = classes.drop_first();
        lemma_qos_error_none(t, base + 1);
        if forall|i: int| 0 <= i < classes.len() ==> (#[trigger] classes[i]).dscp <= 63 {
            assert(classes[0].dscp <= 63);
            assert forall|i: int| 0 <= i < t.len() implies (#[trigger] t[i]).dscp <= 63 by {
                assert(t[i] == classes[i + 1]);
            }
        }
        if qos_error(classes, base) is None {
            assert forall|i: int| 0 <= i < classes.len() implies (#[trigger] classes[i]).dscp <= 63 by {
                if i > 0 {
                    assert(classes[i] == t[i - 1]);
                }
            }
        }
    }
}

/// `DeviceConfig::validate` succeeds exactly when every interface is named
/// and has no unspecified address, every tunnel's public key is well-formed,
/// no firewall rule has port 0 and no QoS class has a DSCP value above 63.
pub proof fn law_validate_iff(c: DeviceConfig)
    ensures
        config_error(c) is None <==> config_valid(c),
{
    lemma_interfaces_error_none(c.interfaces@);
    lemma_tunnels_error_none(c.tunnels@);
    lemma_firewall_error_none(c.firewall.rules@, 0);
    lemma_qos_error_none(c.qos.classes@, 0);
}

/// A tunnel key whose first character is ASCII but outside the base64
/// alphabet is refused, and no configuration whose first tunnel carries such
/// a key validates.
pub proof fn law_bad_key_fails_validation(c: DeviceConfig)
    requires
        c.tunnels@.len() > 0,
        c.tunnels@[0] matches TunnelConfig::WireGuard(w) && w.public_key@.len() > 0
            && ascii_outside_base64(w.public_key@[0]),
    ensures
        c.tunnels@[0] matches TunnelConfig::WireGuard(w) && public_key_check(w.public_key@) is Err,
        config_error(c) is Some,
{
    let w = match c.tunnels@[0] {
        TunnelConfig::WireGuard(w) => w,
    };
    let s = w.public_key@;
    let b = vstd::utf8::encode_utf8(s);
    let x = s[0] as u32;
    assert(vstd::utf8::encode_utf8(s) == vstd::utf8::encode_scalar(x) + vstd::utf8::encode_utf8(
        s.drop_first(),
    ));
    assert(vstd::utf8::leading_byte_width_1(x) == x as u8) by (bit_vector)
        requires
            x < 128,
    ;
    assert(b[0] == x as u8);
    assert(x as u8 == x) by (bit_vector)
        requires
            x < 128,
    ;
    assert(!key_byte_ok(b[0]));
    if b.len() == 44 {
        assert(key_ok_prefix(b) == 0);
    }
    assert(public_key_check(s) is Err);
}

/// A configuration that passed [`DeviceConfig::validate`].
#[derive(Clone, Debug, PartialEq, Eq)]
pub struct ValidatedConfig(DeviceConfig);

impl ValidatedConfig {
    pub closed spec fn inner(&self) -> DeviceConfig {
        self.0
    }

    /// Every value of this type passed validation when it was made.
    pub open spec fn checked(&self) -> bool {
        config_error(self.inner()) is None
    }

    pub fn validate(cfg: DeviceConfig) -> (r: Result<Self, ValidationError>)
        ensures
            match r {
                Ok(v) => v.inner() == cfg && v.checked(),
                Err(e) => config_error(cfg) == Some(e@),
            },
    {
        cfg.validate()?;
        Ok(ValidatedConfig(cfg))
    }

    pub fn into_inner(self) -> (r: DeviceConfig)
        ensures
            r == self.inner(),
    {
        self.0
    }

    pub fn as_ref(&self) -> (r: &DeviceConfig)
        ensures
            *r == self.inner(),
    {
        &self.0
    }

    pub fn as_mut(&mut self) -> (r: &mut DeviceConfig)
        ensures
            *r == old(self).inner(),
            final(self).inner() == *final(r),
    {
        &mut self.0
    }

    pub fn version(&self) -> (r: ConfigVersion)
        ensures
            r == self.inner().version,
    {
        self.0.version
    }
}

} // verus!
