//! The controller side of the control plane: the device store, telemetry and
//! alerting, request authentication, and the decisions behind each endpoint.
use vstd::prelude::*;

use std::collections::HashMap;
use vstd::std_specs::iter::IteratorSpec;

use crate::agent::{bearer_frame, AgentError};
use crate::codec::{uuid_text, uuid_to_text};
use crate::device::{
    ConfigVersion, DeviceConfig, DeviceId, DeviceState, FirewallPolicy, OrgId, QosPolicy, SiteId,
};
use crate::text::{
    append_chars, append_str, chars_of, dec, push_dec, seq_eq, split_once, split_once_spec, str_eq,
    string_from,
};

verus! {

broadcast use {vstd::std_specs::hash::group_hash_axioms, vstd::string::group_string_axioms};

// ---------------------------------------------------------------------------
// Telemetry
// ---------------------------------------------------------------------------

/// Load sample for one logical link.
#[derive(Clone, Debug, PartialEq, Eq)]
pub struct LinkSample {
    pub path_label: String,
    pub interface: String,
    pub local_endpoint: String,
    /// Bytes sent since the last reset.
    pub tx_bytes: u64,
    /// Bytes received since the last reset.
    pub rx_bytes: u64,
    pub peer_endpoint: Option<String>,
}

/// Health flag raised by the data plane.
#[derive(Clone, Debug, PartialEq, Eq)]
pub enum HealthFlag {
    /// The link is down.
    LinkDown { path_label: String },
    /// A subsystem runs degraded.
    Degraded { subsystem: String },
}

/// Telemetry frame an agent posts to the controller.
#[derive(Clone, Debug, PartialEq, Eq)]
pub struct TelemetryFrame {
    pub device_id: DeviceId,
    pub org_id: OrgId,
    pub uptime_secs: u64,
    pub links: Vec<LinkSample>,
    pub flags: Vec<HealthFlag>,
}

/// A frame with no uptime, links or flags.
pub fn empty_frame(device_id: DeviceId, org_id: OrgId) -> (r: TelemetryFrame)
    ensures
        r.device_id == device_id,
        r.org_id == org_id,
        r.uptime_secs == 0,
        r.links@.len() == 0,
        r.flags@.len() == 0,
{
    TelemetryFrame { device_id, org_id, uptime_secs: 0, links: Vec::new(), flags: Vec::new() }
}

/// Alert key of a flag: its kind and its subject, joined by `:`.
pub open spec fn flag_key(f: HealthFlag) -> Seq<char> {
    match f {
        HealthFlag::LinkDown { path_label } => "link_down:"@ + path_label@,
        HealthFlag::Degraded { subsystem } => "degraded:"@ + subsystem@,
    }
}

pub fn flag_key_text(f: &HealthFlag) -> (r: String)
    ensures
        r@ == flag_key(*f),
{
    let mut out: Vec<char> = Vec::new();
    match f {
        HealthFlag::LinkDown { path_label } => {
            append_str(&mut out, "link_down:");
            append_str(&mut out, path_label.as_str());
        },
        HealthFlag::Degraded { subsystem } => {
            append_str(&mut out, "degraded:");
            append_str(&mut out, subsystem.as_str());
        },
    }
    string_from(&out)
}

// ---------------------------------------------------------------------------
// Store
// ---------------------------------------------------------------------------

/// Device record kept by the controller.
#[derive(Debug)]
pub struct DeviceRecord {
    pub org_id: OrgId,
    pub device_id: DeviceId,
    pub site_id: SiteId,
    pub hostname: String,
    pub state: DeviceState,
    pub current: DeviceConfig,
}

/// One controller alert; the log is kept oldest first.
#[derive(Clone, Debug, PartialEq, Eq)]
pub struct AlertEvent {
    pub id: u64,
    pub kind: String,
    pub title: String,
    pub detail: Option<String>,
    pub at: String,
}

/// Alerts kept: the newest this many.
pub const ALERT_CAPACITY: usize = 100;

/// The views of a list of strings.
pub open spec fn views(s: Seq<String>) -> Seq<Seq<char>> {
    s.map_values(|x: String| x@)
}

/// Controller state: devices keyed by id, the latest telemetry frame of each
/// device, the alert log and, per device, the flags alerted on last.
pub struct DeviceStore {
    devices: HashMap<u128, DeviceRecord>,
    telemetry: HashMap<u128, TelemetryFrame>,
    alerts: Vec<AlertEvent>,
    alerted_flags: HashMap<u128, Vec<String>>,
}

/// Alert ids grow strictly along the log.
pub open spec fn ids_increasing(a: Seq<AlertEvent>) -> bool {
    forall|i: int, j: int| 0 <= i < j < a.len() ==> a[i].id < a[j].id
}

impl DeviceStore {
    pub closed spec fn devices(&self) -> Map<u128, DeviceRecord> {
        self.devices@
    }

    pub closed spec fn frames(&self) -> Map<u128, TelemetryFrame> {
        self.telemetry@
    }

    pub closed spec fn alert_log(&self) -> Seq<AlertEvent> {
        self.alerts@
    }

    /// Flags alerted on at the device's last frame.
    pub closed spec fn seen_flags(&self, id: u128) -> Seq<Seq<char>> {
        if self.alerted_flags@.contains_key(id) {
            views(self.alerted_flags@[id]@)
        } else {
            Seq::empty()
        }
    }

    pub closed spec fn wf(&self) -> bool {
        &&& self.alerts@.len() <= ALERT_CAPACITY
        &&& ids_increasing(self.alerts@)
    }

    pub fn new() -> (r: Self)
        ensures
            r.wf(),
            r.devices() == Map::<u128, DeviceRecord>::empty(),
            r.frames() == Map::<u128, TelemetryFrame>::empty(),
            r.alert_log() == Seq::<AlertEvent>::empty(),
            forall|id: u128| r.seen_flags(id) == Seq::<Seq<char>>::empty(),
    {
        let r = DeviceStore {
            devices: HashMap::new(),
            telemetry: HashMap::new(),
            alerts: Vec::new(),
            alerted_flags: HashMap::new(),
        };
        assert(r.alerts@ =~= Seq::<AlertEvent>::empty());
        r
    }

    /// Stores `rec` under its configuration's device id, replacing any record
    /// there.
    pub fn insert(&mut self, rec: DeviceRecord) -> (r: Result<(), AgentError>)
        requires
            old(self).wf(),
        ensures
            final(self).wf(),
            r is Ok,
            final(self).devices() == old(self).devices().insert(rec.current.device_id.0, rec),
            final(self).frames() == old(self).frames(),
            final(self).alert_log() == old(self).alert_log(),
            forall|id: u128| final(self).seen_flags(id) == old(self).seen_flags(id),
    {
        let key = rec.current.device_id.0;
        self.devices.insert(key, rec);
        Ok(())
    }

    /// The record stored under `id`.
    pub fn get(&self, id: DeviceId) -> (r: Result<&DeviceRecord, AgentError>)
        ensures
            match r {
                Ok(rec) => self.devices().contains_key(id.0) && *rec == self.devices()[id.0],
                Err(e) => !self.devices().contains_key(id.0) && e is NotFound,
            },
    {
        match self.devices.get(&id.0) {
            Some(rec) => Ok(rec),
            None => Err(AgentError::NotFound),
        }
    }

    /// Replaces the configuration of the record stored under `id`.
    pub fn replace_config(&mut self, id: DeviceId, new_config: DeviceConfig) -> (r: Result<
        (),
        AgentError,
    >)
        requires
            old(self).wf(),
        ensures
            final(self).wf(),
            final(self).frames() == old(self).frames(),
            final(self).alert_log() == old(self).alert_log(),
            forall|k: u128| final(self).seen_flags(k) == old(self).seen_flags(k),
            match r {
                Ok(()) => old(self).devices().contains_key(id.0) && final(self).devices()
                    == old(self).devices().insert(
                    id.0,
                    DeviceRecord { current: new_config, ..old(self).devices()[id.0] },
                ),
                Err(e) => !old(self).devices().contains_key(id.0) && e is NotFound
                    && final(self).devices() == old(self).devices(),
            },
    {
        match self.devices.remove(&id.0) {
            Some(rec) => {
                let updated = DeviceRecord { current: new_config, ..rec };
                self.devices.insert(id.0, updated);
                Ok(())
            },
            None => Err(AgentError::NotFound),
        }
    }

    /// Changes the metadata fields that are given; a new hostname also
    /// becomes the hostname of the record's configuration.
    pub fn update_meta(
        &mut self,
        id: DeviceId,
        org_id: Option<OrgId>,
        site_id: Option<SiteId>,
        hostname: Option<String>,
    ) -> (r: Result<(), AgentError>)
        requires
            old(self).wf(),
        ensures
            final(self).wf(),
            final(self).frames() == old(self).frames(),
            final(self).alert_log() == old(self).alert_log(),
            forall|k: u128| final(self).seen_flags(k) == old(self).seen_flags(k),
            match r {
                Ok(()) => {
                    let o = old(self).devices()[id.0];
                    &&& old(self).devices().contains_key(id.0)
                    &&& final(self).devices() == old(self).devices().insert(
                        id.0,
                        meta_updated(o, org_id, site_id, hostname),
                    )
                },
                Err(e) => !old(self).devices().contains_key(id.0) && e is NotFound
                    && final(self).devices() == old(self).devices(),
            },
    {
        match self.devices.remove(&id.0) {
            Some(rec) => {
                let mut rec = rec;
                if let Some(org) = org_id {
                    rec.org_id = org;
                }
                if let Some(site) = site_id {
                    rec.site_id = site;
                }
                if let Some(name) = hostname {
                    rec.hostname = name.clone();
                    rec.current.hostname = name;
                }
                self.devices.insert(id.0, rec);
                Ok(())
            },
            None => Err(AgentError::NotFound),
        }
    }

    /// Removes the device with its telemetry and alert state.
    pub fn delete(&mut self, id: DeviceId) -> (r: Result<(), AgentError>)
        requires
            old(self).wf(),
        ensures
            final(self).wf(),
            final(self).alert_log() == old(self).alert_log(),
            match r {
                Ok(()) => {
                    &&& old(self).devices().contains_key(id.0)
                    &&& final(self).devices() == old(self).devices().remove(id.0)
                    &&& final(self).frames() == old(self).frames().remove(id.0)
                    &&& final(self).seen_flags(id.0) == Seq::<Seq<char>>::empty()
                    &&& forall|k: u128| k != id.0 ==> final(self).seen_flags(k) == old(self).seen_flags(k)
                },
                Err(e) => {
                    &&& !old(self).devices().contains_key(id.0)
                    &&& e is NotFound
                    &&& final(self).devices() == old(self).devices()
                    &&& final(self).frames() == old(self).frames()
                    &&& forall|k: u128| final(self).seen_flags(k) == old(self).seen_flags(k)
                },
            },
    {
        match self.devices.remove(&id.0) {
            Some(_) => {
                self.telemetry.remove(&id.0);
                self.alerted_flags.remove(&id.0);
                Ok(())
            },
            None => Err(AgentError::NotFound),
        }
    }
}

impl DeviceStore {
    /// Every stored record, each once, in no particular order.
    pub fn list(&self) -> (r: Vec<&DeviceRecord>)
        ensures
            r@.len() == self.devices().len(),
            forall|i: int| 0 <= i < r@.len() ==> self.devices().values().contains(*r@[i]),
            forall|v: DeviceRecord| self.devices().values().contains(v) ==> exists|i: int|
                0 <= i < r@.len() && *r@[i] == v,
    {
        let mut out: Vec<&DeviceRecord> = Vec::new();
        let ghost all = vstd::std_specs::hash::spec_values_iter(&self.devices).remaining();
        for v in it: self.devices.values()
            invariant
                out@ == it.seq().take(it.index() as int),
                it.seq() == all,
        {
            out.push(v);
        }
        proof {
            assert(out@ =~= all);
            let s = out@.unref();
            assert(s.to_set() == self.devices@.values());
            assert forall|i: int| 0 <= i < out@.len() implies self.devices@.values().contains(
                *out@[i],
            ) by {
                assert(s[i] == *out@[i]);
                assert(s.to_set().contains(s[i]));
            }
            assert forall|v: DeviceRecord| self.devices@.values().contains(v) implies exists|i: int|
                0 <= i < out@.len() && *out@[i] == v by {
                assert(s.to_set().contains(v));
                let i = choose|i: int| 0 <= i < s.len() && s[i] == v;
                assert(*out@[i] == v);
            }
            vstd::std_specs::hash::axiom_spec_hash_map_len(&self.devices);
        }
        out
    }

    /// Records `frame` as the device's latest telemetry.
    pub fn insert_telemetry(&mut self, frame: TelemetryFrame) -> (r: Result<(), AgentError>)
        requires
            old(self).wf(),
        ensures
            final(self).wf(),
            r is Ok,
            final(self).frames() == old(self).frames().insert(frame.device_id.0, frame),
            final(self).devices() == old(self).devices(),
            final(self).alert_log() == old(self).alert_log(),
            forall|k: u128| final(self).seen_flags(k) == old(self).seen_flags(k),
    {
        let key = frame.device_id.0;
        self.telemetry.insert(key, frame);
        Ok(())
    }

    /// The latest frame of each device, in no particular order.
    pub fn latest_telemetry(&self) -> (r: Vec<&TelemetryFrame>)
        ensures
            r@.len() == self.frames().len(),
            forall|i: int| 0 <= i < r@.len() ==> self.frames().values().contains(*r@[i]),
            forall|v: TelemetryFrame| self.frames().values().contains(v) ==> exists|i: int|
                0 <= i < r@.len() && *r@[i] == v,
    {
        let mut out: Vec<&TelemetryFrame> = Vec::new();
        let ghost all = vstd::std_specs::hash::spec_values_iter(&self.telemetry).remaining();
        for v in it: self.telemetry.values()
            invariant
                out@ == it.seq().take(it.index() as int),
                it.seq() == all,
        {
            out.push(v);
        }
        proof {
            assert(out@ =~= all);
            let s = out@.unref();
            assert(s.to_set() == self.telemetry@.values());
            assert forall|i: int| 0 <= i < out@.len() implies self.telemetry@.values().contains(
                *out@[i],
            ) by {
                assert(s[i] == *out@[i]);
                assert(s.to_set().contains(s[i]));
            }
            assert forall|v: TelemetryFrame| self.telemetry@.values().contains(v) implies exists|i: int|
                0 <= i < out@.len() && *out@[i] == v by {
                assert(s.to_set().contains(v));
                let i = choose|i: int| 0 <= i < s.len() && s[i] == v;
                assert(*out@[i] == v);
            }
            vstd::std_specs::hash::axiom_spec_hash_map_len(&self.telemetry);
        }
        out
    }

    /// All alerts, oldest first: at most [`ALERT_CAPACITY`] of them, their
    /// ids increasing.
    pub fn alerts(&self) -> (r: &Vec<AlertEvent>)
        ensures
            r@ == self.alert_log(),
            self.wf() ==> r@.len() <= ALERT_CAPACITY && ids_increasing(r@),
    {
        &self.alerts
    }

    /// Id the next alert receives.
    pub fn next_alert_id(&self) -> (r: Option<u64>)
        ensures
            match r {
                Some(n) => n == next_alert_id_spec(self.alert_log()),
                None => self.alert_log().len() > 0 && self.alert_log().last().id == u64::MAX,
            },
    {
        if self.alerts.len() == 0 {
            Some(1)
        } else {
            let last = self.alerts[self.alerts.len() - 1].id;
            if last == u64::MAX {
                None
            } else {
                Some(last + 1)
            }
        }
    }

    /// Appends an alert with the next id, keeping the newest
    /// [`ALERT_CAPACITY`] alerts.
    pub fn push_alert(&mut self, kind: &str, title: String, detail: Option<String>, at: String)
        requires
            old(self).wf(),
            old(self).alert_log().len() > 0 ==> old(self).alert_log().last().id < u64::MAX,
        ensures
            final(self).wf(),
            final(self).alert_log().len() <= ALERT_CAPACITY,
            ids_increasing(final(self).alert_log()),
            final(self).devices() == old(self).devices(),
            final(self).frames() == old(self).frames(),
            forall|k: u128| final(self).seen_flags(k) == old(self).seen_flags(k),
            final(self).alert_log().len() > 0,
            final(self).alert_log().len() == if old(self).alert_log().len() >= ALERT_CAPACITY {
                ALERT_CAPACITY as nat
            } else {
                old(self).alert_log().len() + 1
            },
            final(self).alert_log().drop_last() == kept_alerts(old(self).alert_log()),
            final(self).alert_log().last().id == next_alert_id_spec(old(self).alert_log()),
            final(self).alert_log().last().kind@ == kind@,
            final(self).alert_log().last().title == title,
            final(self).alert_log().last().detail == detail,
            final(self).alert_log().last().at == at,
            alert_views(final(self).alert_log()) == append_alert_view(
                alert_views(old(self).alert_log()),
                kind@,
                title@,
                match detail {
                    Some(d) => Some(d@),
                    None => None,
                },
                at@,
            ),
    {
        let ghost old_log = self.alerts@;
        let id: u64 = if self.alerts.len() == 0 {
            1
        } else {
            self.alerts[self.alerts.len() - 1].id + 1
        };
        let ghost before = self.alerts@;
        self.alerts.push(AlertEvent { id, kind: String::from_str(kind), title, detail, at });
        if self.alerts.len() > ALERT_CAPACITY {
            self.alerts.remove(0);
            assert(self.alerts@.drop_last() =~= before.drop_first());
        } else {
            assert(self.alerts@.drop_last() =~= before);
        }
        assert forall|i: int, j: int| 0 <= i < j < self.alerts@.len() implies self.alerts@[i].id
            < self.alerts@[j].id by {
            if j == self.alerts@.len() - 1 {
                assert(before.len() > 0 ==> before[before.len() - 1].id < id);
                if before.len() > ALERT_CAPACITY - 1 {
                    assert(self.alerts@[i] == before[i + 1]);
                } else {
                    assert(self.alerts@[i] == before[i]);
                }
            } else {
                assert(self.alerts@[j] == self.alerts@.drop_last()[j]);
                assert(self.alerts@[i] == self.alerts@.drop_last()[i]);
            }
        }
        proof {
            let fin = self.alerts@;
            assert(fin.drop_last() == kept_alerts(old_log));
            assert(alert_views(fin) =~= append_alert_view(
                alert_views(old_log),
                kind@,
                title@,
                match detail {
                    Some(d) => Some(d@),
                    None => None,
                },
                at@,
            )) by {
                let v = alert_views(fin);
                let w = append_alert_view(alert_views(old_log), kind@, title@, match detail {
                    Some(d) => Some(d@),
                    None => None,
                }, at@);
                assert(v.len() == w.len());
                assert forall|i: int| 0 <= i < v.len() implies v[i] == w[i] by {
                    if i < v.len() - 1 {
                        assert(fin[i] == fin.drop_last()[i]);
                        if old_log.len() >= ALERT_CAPACITY {
                            assert(kept_alerts(old_log)[i] == old_log[i + 1]);
                        }
                    }
                }
            }
        }
    }
}

/// What an alert says, its strings taken by their text.
pub open spec fn alert_view(e: AlertEvent) -> (u64, Seq<char>, Seq<char>, Option<Seq<char>>, Seq<char>) {
    (
        e.id,
        e.kind@,
        e.title@,
        match e.detail {
            Some(d) => Some(d@),
            None => None,
        },
        e.at@,
    )
}

pub open spec fn alert_views(log: Seq<AlertEvent>) -> Seq<
    (u64, Seq<char>, Seq<char>, Option<Seq<char>>, Seq<char>),
> {
    log.map_values(|e: AlertEvent| alert_view(e))
}

/// The log after one more alert: the newest [`ALERT_CAPACITY`] kept, the new
/// one numbered after the last.
pub open spec fn append_alert_view(
    log: Seq<(u64, Seq<char>, Seq<char>, Option<Seq<char>>, Seq<char>)>,
    kind: Seq<char>,
    title: Seq<char>,
    detail: Option<Seq<char>>,
    at: Seq<char>,
) -> Seq<(u64, Seq<char>, Seq<char>, Option<Seq<char>>, Seq<char>)> {
    let next: u64 = if log.len() == 0 {
        1
    } else {
        (log.last().0 + 1) as u64
    };
    let kept = if log.len() >= ALERT_CAPACITY {
        log.drop_first()
    } else {
        log
    };
    kept.push((next, kind, title, detail, at))
}

/// Id of the next alert after `log`.
pub open spec fn next_alert_id_spec(log: Seq<AlertEvent>) -> u64 {
    if log.len() == 0 {
        1
    } else {
        (log.last().id + 1) as u64
    }
}

/// The alerts that stay when one more is appended to a full log.
pub open spec fn kept_alerts(log: Seq<AlertEvent>) -> Seq<AlertEvent> {
    if log.len() >= ALERT_CAPACITY {
        log.drop_first()
    } else {
        log
    }
}

/// A record with the given metadata fields replaced.
pub open spec fn meta_updated(
    o: DeviceRecord,
    org_id: Option<OrgId>,
    site_id: Option<SiteId>,
    hostname: Option<String>,
) -> DeviceRecord {
    DeviceRecord {
        org_id: match org_id {
            Some(x) => x,
            None => o.org_id,
        },
        site_id: match site_id {
            Some(x) => x,
            None => o.site_id,
        },
        hostname: match hostname {
            Some(x) => x,
            None => o.hostname,
        },
        current: match hostname {
            Some(x) => DeviceConfig { hostname: x, ..o.current },
            None => o.current,
        },
        ..o
    }
}

/// Whether some string of `v` reads `s`.
pub fn contains_text(v: &Vec<String>, s: &str) -> (r: bool)
    ensures
        r == views(v@).contains(s@),
{
    let mut i: usize = 0;
    while i < v.len()
        invariant
            i <= v.len(),
            forall|j: int| 0 <= j < i ==> v@[j]@ != s@,
        decreases v.len() - i,
    {
        if str_eq(v[i].as_str(), s) {
            assert(views(v@)[i as int] == s@);
            return true;
        }
        i += 1;
    }
    assert forall|j: int| 0 <= j < views(v@).len() implies views(v@)[j] != s@ by {
        assert(views(v@)[j] == v@[j]@);
    }
    false
}

/// The keys of `keys` that `prev` does not hold, in order.
pub open spec fn fresh_flags(prev: Seq<Seq<char>>, keys: Seq<Seq<char>>) -> Seq<Seq<char>>
    decreases keys.len(),
{
    if keys.len() == 0 {
        Seq::empty()
    } else {
        let rest = fresh_flags(prev, keys.drop_last());
        if prev.contains(keys.last()) {
            rest
        } else {
            rest.push(keys.last())
        }
    }
}

/// A frame alerts on exactly the flags that the previous frame did not
/// raise, in the frame's order: the fresh keys are the frame's keys filtered
/// by absence from `prev`; each of them is a key of the frame not in `prev`,
/// and every key of the frame not in `prev` is among them.
pub proof fn law_fresh_flags_exact(prev: Seq<Seq<char>>, keys: Seq<Seq<char>>)
    ensures
        fresh_flags(prev, keys) == keys.filter(|k: Seq<char>| !prev.contains(k)),
        forall|i: int|
            0 <= i < fresh_flags(prev, keys).len() ==> keys.contains(#[trigger] fresh_flags(prev, keys)[i])
                && !prev.contains(fresh_flags(prev, keys)[i]),
        forall|i: int|
            0 <= i < keys.len() && !prev.contains(#[trigger] keys[i]) ==> fresh_flags(prev, keys).contains(
                keys[i],
            ),
        fresh_flags(prev, keys).len() <= keys.len(),
    decreases keys.len(),
{
    reveal(Seq::filter);
    let f = fresh_flags(prev, keys);
    if keys.len() > 0 {
        let init = keys.drop_last();
        let last = keys.last();
        law_fresh_flags_exact(prev, init);
        let r = fresh_flags(prev, init);
        assert forall|i: int| 0 <= i < f.len() implies keys.contains(#[trigger] f[i]) && !prev.contains(f[i]) by {
            if i < r.len() {
                assert(f[i] == r[i]);
                let j = choose|j: int| 0 <= j < init.len() && init[j] == r[i];
                assert(keys[j] == init[j]);
            } else {
                assert(f[i] == last);
                assert(keys[keys.len() - 1] == last);
            }
        }
        assert forall|i: int| 0 <= i < keys.len() && !prev.contains(#[trigger] keys[i]) implies f.contains(keys[i]) by {
            if i < init.len() {
                assert(init[i] == keys[i]);
                assert(r.contains(init[i]));
                let j = choose|j: int| 0 <= j < r.len() && r[j] == init[i];
                assert(f[j] == r[j]);
            } else {
                assert(f[f.len() - 1] == last);
            }
        }
    }
}

impl DeviceStore {
    /// Flag keys that were not raised at the device's previous frame; the
    /// keys of this frame are remembered for the next one. Alerts thus fire on
    /// transitions only.
    pub fn new_alert_flags(&mut self, device_id: DeviceId, keys: Vec<String>) -> (r: Vec<String>)
        requires
            old(self).wf(),
        ensures
            final(self).wf(),
            views(r@) == fresh_flags(old(self).seen_flags(device_id.0), views(keys@)),
            final(self).seen_flags(device_id.0) == views(keys@),
            forall|k: u128| k != device_id.0 ==> final(self).seen_flags(k) == old(self).seen_flags(k),
            final(self).devices() == old(self).devices(),
            final(self).frames() == old(self).frames(),
            final(self).alert_log() == old(self).alert_log(),
    {
        let empty: Vec<String> = Vec::new();
        let mut fresh: Vec<String> = Vec::new();
        {
            let prev: &Vec<String> = match self.alerted_flags.get(&device_id.0) {
                Some(p) => p,
                None => &empty,
            };
            assert(views(prev@) == self.seen_flags(device_id.0)) by {
                if !self.alerted_flags@.contains_key(device_id.0) {
                    assert(views(prev@) =~= Seq::<Seq<char>>::empty());
                }
            }
            let mut i: usize = 0;
            while i < keys.len()
                invariant
                    i <= keys.len(),
                    views(prev@) == self.seen_flags(device_id.0),
                    views(fresh@) == fresh_flags(views(prev@), views(keys@).take(i as int)),
                decreases keys.len() - i,
            {
                let ghost pre = views(keys@).take(i as int);
                let ghost nxt = views(keys@).take(i + 1);
                assert(nxt.drop_last() =~= pre);
                assert(nxt.last() == keys@[i as int]@);
                if !contains_text(prev, keys[i].as_str()) {
                    let k = keys[i].clone();
                    fresh.push(k);
                    assert(views(fresh@) =~= fresh_flags(views(prev@), pre).push(keys@[i as int]@));
                }
                i += 1;
            }
            assert(views(keys@).take(keys.len() as int) =~= views(keys@));
        }
        self.alerted_flags.insert(device_id.0, keys);
        fresh
    }
}

// ---------------------------------------------------------------------------
// Authentication
// ---------------------------------------------------------------------------

/// Constant-time comparison: whether the two byte strings are equal. Every
/// byte pair is examined whatever the outcome.
pub fn bool_eq(a: &[u8], b: &[u8]) -> (r: bool)
    ensures
        r == (a@ == b@),
{
    if a.len() != b.len() {
        return false;
    }
    let mut diff: u8 = 0;
    let mut i: usize = 0;
    while i < a.len()
        invariant
            a.len() == b.len(),
            i <= a.len(),
            (diff == 0) == (forall|j: int| 0 <= j < i ==> a@[j] == b@[j]),
        decreases a.len() - i,
    {
        let x = a[i];
        let y = b[i];
        assert(((diff | (x ^ y)) == 0) == (diff == 0 && x == y)) by (bit_vector);
        diff = diff | (x ^ y);
        i += 1;
    }
    if diff == 0 {
        assert(a@ =~= b@);
    }
    diff == 0
}

/// Whether `text` reads `expected`, compared over their UTF-8 bytes in
/// constant time.
pub fn text_eq_ct(text: &str, expected: &str) -> (r: bool)
    ensures
        r == (text@ == expected@),
{
    let r = bool_eq(text.as_bytes(), expected.as_bytes());
    proof {
        vstd::utf8::encode_utf8_decode_utf8(text@);
        vstd::utf8::encode_utf8_decode_utf8(expected@);
    }
    r
}

/// Whether an `Authorization` header carries the bootstrap token.
pub open spec fn bearer_ok(header: Option<&str>, token: Seq<char>) -> bool {
    header matches Some(h) && h@ == "Bearer "@ + token
}

/// Requires `Authorization: Bearer <token>`.
pub fn check_auth(header: Option<&str>, token: &str) -> (r: Result<(), AgentError>)
    ensures
        match r {
            Ok(()) => bearer_ok(header, token@),
            Err(e) => !bearer_ok(header, token@) && e is Unauthorized,
        },
{
    match header {
        None => Err(AgentError::Unauthorized),
        Some(h) => {
            let expected = bearer_frame(token);
            if text_eq_ct(h, expected.as_str()) {
                Ok(())
            } else {
                Err(AgentError::Unauthorized)
            }
        },
    }
}

/// The configuration stream accepts the bearer header, or the token as a
/// query parameter (browsers cannot set headers on WebSockets).
pub fn stream_authorized(header: Option<&str>, query_token: Option<&str>, token: &str) -> (r: bool)
    ensures
        r == (bearer_ok(header, token@) || (query_token matches Some(t) && t@ == token@)),
{
    let header_ok = check_auth(header, token).is_ok();
    let query_ok = match query_token {
        Some(t) => text_eq_ct(t, token),
        None => false,
    };
    header_ok || query_ok
}

// ---------------------------------------------------------------------------
// Endpoints
// ---------------------------------------------------------------------------

/// Body of a registration.
#[derive(Clone, Debug)]
pub struct RegisterRequest {
    pub device_id: DeviceId,
    pub org_id: OrgId,
    pub site_id: SiteId,
    pub hostname: String,
    pub version: ConfigVersion,
}

/// Version a registration starts at when it names none.
pub fn default_one() -> (r: ConfigVersion)
    ensures
        r.0 == 1,
{
    ConfigVersion(1)
}

/// Answer to a registration.
#[derive(Clone, Debug)]
pub struct RegisterResponse {
    pub device_id: DeviceId,
    pub org_id: OrgId,
    pub site_id: SiteId,
    pub current_version: ConfigVersion,
    pub stream_url: String,
}

/// Body of a configuration push.
#[derive(Debug)]
pub struct ApplyRequest {
    pub config: DeviceConfig,
}

/// Answer to a configuration push.
#[derive(Clone, Debug, PartialEq, Eq)]
pub struct ApplyResponse {
    pub device_id: DeviceId,
    pub applied_version: ConfigVersion,
    pub verified: bool,
}

/// The record a registration creates: connected, with an empty configuration
/// at the requested version.
pub open spec fn registered_record(rec: DeviceRecord, req: RegisterRequest) -> bool {
    &&& rec.org_id == req.org_id
    &&& rec.device_id == req.device_id
    &&& rec.site_id == req.site_id
    &&& rec.hostname == req.hostname
    &&& rec.state == DeviceState::Connected
    &&& rec.current.device_id == req.device_id
    &&& rec.current.org_id == req.org_id
    &&& rec.current.site_id == req.site_id
    &&& rec.current.hostname == req.hostname
    &&& rec.current.interfaces@.len() == 0
    &&& rec.current.tunnels@.len() == 0
    &&& rec.current.routes@.len() == 0
    &&& rec.current.firewall.rules@.len() == 0
    &&& rec.current.qos.classes@.len() == 0
    &&& rec.current.path_labels@.len() == 0
    &&& rec.current.version == req.version
}

/// `Display` of an organisation id.
pub open spec fn org_text(o: OrgId) -> Seq<char> {
    uuid_text(o.0)
}

impl DeviceStore {
    /// `POST /api/v1/devices/register`: stores a fresh record for the device.
    pub fn register(&mut self, auth: Option<&str>, token: &str, req: RegisterRequest) -> (r: Result<
        RegisterResponse,
        AgentError,
    >)
        requires
            old(self).wf(),
        ensures
            final(self).wf(),
            final(self).frames() == old(self).frames(),
            final(self).alert_log() == old(self).alert_log(),
            forall|k: u128| final(self).seen_flags(k) == old(self).seen_flags(k),
            match r {
                Ok(resp) => {
                    &&& bearer_ok(auth, token@)
                    &&& final(self).devices() == old(self).devices().insert(
                        req.device_id.0,
                        final(self).devices()[req.device_id.0],
                    )
                    &&& registered_record(final(self).devices()[req.device_id.0], req)
                    &&& resp.device_id == req.device_id
                    &&& resp.org_id == req.org_id
                    &&& resp.site_id == req.site_id
                    &&& resp.current_version == req.version
                    &&& resp.stream_url@ == "ws://127.0.0.1:8080/stream/config"@
                },
                Err(e) => !bearer_ok(auth, token@) && e is Unauthorized && final(self).devices()
                    == old(self).devices(),
            },
    {
        check_auth(auth, token)?;
        let ghost req0 = req;
        let cfg = DeviceConfig {
            device_id: req.device_id,
            org_id: req.org_id,
            site_id: req.site_id,
            hostname: req.hostname.clone(),
            interfaces: Vec::new(),
            tunnels: Vec::new(),
            routes: Vec::new(),
            firewall: FirewallPolicy { rules: Vec::new() },
            qos: QosPolicy { classes: Vec::new() },
            path_labels: Vec::new(),
            version: req.version,
        };
        let version = cfg.version;
        let rec = DeviceRecord {
            org_id: req.org_id,
            device_id: req.device_id,
            site_id: req.site_id,
            hostname: req.hostname,
            state: DeviceState::Connected,
            current: cfg,
        };
        assert(registered_record(rec, req0));
        let _ = self.insert(rec);
        Ok(
            RegisterResponse {
                device_id: req.device_id,
                org_id: req.org_id,
                site_id: req.site_id,
                current_version: version,
                stream_url: String::from_str("ws://127.0.0.1:8080/stream/config"),
            },
        )
    }

    /// `GET /api/v1/devices/:id/config`.
    pub fn get_config(&self, auth: Option<&str>, token: &str, id: DeviceId) -> (r: Result<
        &DeviceConfig,
        AgentError,
    >)
        ensures
            match r {
                Ok(c) => bearer_ok(auth, token@) && self.devices().contains_key(id.0) && *c
                    == self.devices()[id.0].current,
                Err(e) => if !bearer_ok(auth, token@) {
                    e is Unauthorized
                } else {
                    !self.devices().contains_key(id.0) && e is NotFound
                },
            },
    {
        check_auth(auth, token)?;
        let rec = self.get(id)?;
        Ok(&rec.current)
    }

    /// `GET /api/v1/devices/:id`.
    pub fn get_device(&self, auth: Option<&str>, token: &str, id: DeviceId) -> (r: Result<
        &DeviceRecord,
        AgentError,
    >)
        ensures
            match r {
                Ok(rec) => bearer_ok(auth, token@) && self.devices().contains_key(id.0) && *rec
                    == self.devices()[id.0],
                Err(e) => if !bearer_ok(auth, token@) {
                    e is Unauthorized
                } else {
                    !self.devices().contains_key(id.0) && e is NotFound
                },
            },
    {
        check_auth(auth, token)?;
        self.get(id)
    }

    /// `GET /api/v1/devices`.
    pub fn list_devices(&self, auth: Option<&str>, token: &str) -> (r: Result<
        Vec<&DeviceRecord>,
        AgentError,
    >)
        ensures
            match r {
                Ok(v) => {
                    &&& bearer_ok(auth, token@)
                    &&& v@.len() == self.devices().len()
                    &&& forall|i: int| 0 <= i < v@.len() ==> self.devices().values().contains(*v@[i])
                    &&& forall|x: DeviceRecord| self.devices().values().contains(x) ==> exists|i: int|
                        0 <= i < v@.len() && *v@[i] == x
                },
                Err(e) => !bearer_ok(auth, token@) && e is Unauthorized,
            },
    {
        check_auth(auth, token)?;
        Ok(self.list())
    }

    /// `PUT /api/v1/devices/:id`: partial metadata update.
    pub fn update_device(
        &mut self,
        auth: Option<&str>,
        token: &str,
        id: DeviceId,
        org_id: Option<OrgId>,
        site_id: Option<SiteId>,
        hostname: Option<String>,
    ) -> (r: Result<(), AgentError>)
        requires
            old(self).wf(),
        ensures
            final(self).wf(),
            final(self).frames() == old(self).frames(),
            final(self).alert_log() == old(self).alert_log(),
            forall|k: u128| final(self).seen_flags(k) == old(self).seen_flags(k),
            match r {
                Ok(()) => bearer_ok(auth, token@) && old(self).devices().contains_key(id.0)
                    && final(self).devices() == old(self).devices().insert(
                    id.0,
                    meta_updated(old(self).devices()[id.0], org_id, site_id, hostname),
                ),
                Err(e) => final(self).devices() == old(self).devices() && if !bearer_ok(
                    auth,
                    token@,
                ) {
                    e is Unauthorized
                } else {
                    !old(self).devices().contains_key(id.0) && e is NotFound
                },
            },
    {
        check_auth(auth, token)?;
        self.update_meta(id, org_id, site_id, hostname)
    }

    /// `DELETE /api/v1/devices/:id`.
    pub fn delete_device(&mut self, auth: Option<&str>, token: &str, id: DeviceId) -> (r: Result<
        (),
        AgentError,
    >)
        requires
            old(self).wf(),
        ensures
            final(self).wf(),
            final(self).alert_log() == old(self).alert_log(),
            match r {
                Ok(()) => bearer_ok(auth, token@) && old(self).devices().contains_key(id.0)
                    && final(self).devices() == old(self).devices().remove(id.0)
                    && final(self).frames() == old(self).frames().remove(id.0),
                Err(e) => final(self).devices() == old(self).devices() && final(self).frames()
                    == old(self).frames() && if !bearer_ok(auth, token@) {
                    e is Unauthorized
                } else {
                    !old(self).devices().contains_key(id.0) && e is NotFound
                },
            },
    {
        check_auth(auth, token)?;
        self.get(id)?;
        self.delete(id)
    }

    /// `PUT /api/v1/devices/:id/config`: replaces the configuration of a
    /// device of the same organisation; the version must increase.
    pub fn put_device_config(
        &mut self,
        auth: Option<&str>,
        token: &str,
        id: DeviceId,
        config: DeviceConfig,
    ) -> (r: Result<(), AgentError>)
        requires
            old(self).wf(),
        ensures
            final(self).wf(),
            final(self).frames() == old(self).frames(),
            final(self).alert_log() == old(self).alert_log(),
            forall|k: u128| final(self).seen_flags(k) == old(self).seen_flags(k),
            match r {
                Ok(()) => {
                    &&& bearer_ok(auth, token@)
                    &&& old(self).devices().contains_key(id.0)
                    &&& config.org_id == old(self).devices()[id.0].org_id
                    &&& config.version.0 > old(self).devices()[id.0].current.version.0
                    &&& final(self).devices() == old(self).devices().insert(
                        id.0,
                        DeviceRecord { current: config, ..old(self).devices()[id.0] },
                    )
                },
                Err(e) => {
                    let o = old(self).devices()[id.0];
                    &&& final(self).devices() == old(self).devices()
                    &&& if !bearer_ok(auth, token@) {
                        e is Unauthorized
                    } else if !old(self).devices().contains_key(id.0) {
                        e is NotFound
                    } else if config.org_id != o.org_id {
                        e matches AgentError::OrgMismatch { incoming, current } && incoming@
                            == org_text(config.org_id) && current@ == org_text(o.org_id)
                    } else {
                        config.version.0 <= o.current.version.0 && e == AgentError::ConfigVersion {
                            incoming: config.version,
                            current: o.current.version,
                        }
                    }
                },
            },
    {
        check_auth(auth, token)?;
        let rec = self.get(id)?;
        let rec_org = rec.org_id;
        let cur_version = rec.current.version;
        if config.org_id.0 != rec_org.0 {
            return Err(
                AgentError::OrgMismatch {
                    incoming: uuid_to_text(config.org_id.0),
                    current: uuid_to_text(rec_org.0),
                },
            );
        }
        if !(config.version.0 > cur_version.0) {
            return Err(AgentError::ConfigVersion { incoming: config.version, current: cur_version });
        }
        self.replace_config(id, config)
    }

    /// `POST /api/v1/devices/:id/apply`: a controller push, accepted only for
    /// the device's organisation and at a strictly newer version.
    pub fn apply_config(&mut self, auth: Option<&str>, token: &str, id: DeviceId, req: ApplyRequest) -> (r:
        Result<ApplyResponse, AgentError>)
        requires
            old(self).wf(),
        ensures
            final(self).wf(),
            final(self).frames() == old(self).frames(),
            final(self).alert_log() == old(self).alert_log(),
            forall|k: u128| final(self).seen_flags(k) == old(self).seen_flags(k),
            match r {
                Ok(resp) => {
                    let o = old(self).devices()[id.0];
                    &&& bearer_ok(auth, token@)
                    &&& old(self).devices().contains_key(id.0)
                    &&& req.config.org_id == o.org_id
                    &&& req.config.version.0 > o.current.version.0
                    &&& final(self).devices() == old(self).devices().insert(
                        id.0,
                        DeviceRecord { current: req.config, ..o },
                    )
                    &&& resp == (ApplyResponse {
                        device_id: id,
                        applied_version: req.config.version,
                        verified: true,
                    })
                },
                Err(e) => {
                    let o = old(self).devices()[id.0];
                    &&& final(self).devices() == old(self).devices()
                    &&& if !bearer_ok(auth, token@) {
                        e is Unauthorized
                    } else if !old(self).devices().contains_key(id.0) {
                        e is NotFound
                    } else if req.config.org_id != o.org_id {
                        e matches AgentError::OrgMismatch { incoming, current } && incoming@
                            == org_text(req.config.org_id) && current@ == org_text(o.org_id)
                    } else {
                        req.config.version.0 <= o.current.version.0
                            && e == AgentError::ConfigVersion {
                            incoming: req.config.version,
                            current: o.current.version,
                        }
                    }
                },
            },
    {
        check_auth(auth, token)?;
        let rec = self.get(id)?;
        let rec_org = rec.org_id;
        let cur_version = rec.current.version;
        if req.config.org_id.0 != rec_org.0 {
            return Err(
                AgentError::OrgMismatch {
                    incoming: uuid_to_text(req.config.org_id.0),
                    current: uuid_to_text(rec_org.0),
                },
            );
        }
        if !(req.config.version.0 > cur_version.0) {
            return Err(
                AgentError::ConfigVersion { incoming: req.config.version, current: cur_version },
            );
        }
        let new_version = req.config.version;
        let _ = self.replace_config(id, req.config);
        Ok(ApplyResponse { device_id: id, applied_version: new_version, verified: true })
    }

    /// `GET /api/v1/alerts`.
    pub fn get_alerts(&self, auth: Option<&str>, token: &str) -> (r: Result<&Vec<AlertEvent>, AgentError>)
        ensures
            match r {
                Ok(v) => bearer_ok(auth, token@) && v@ == self.alert_log() && (self.wf() ==> v@.len()
                    <= ALERT_CAPACITY),
                Err(e) => !bearer_ok(auth, token@) && e is Unauthorized,
            },
    {
        check_auth(auth, token)?;
        Ok(self.alerts())
    }

    /// `GET /api/v1/telemetry`.
    pub fn get_telemetry(&self, auth: Option<&str>, token: &str) -> (r: Result<
        Vec<&TelemetryFrame>,
        AgentError,
    >)
        ensures
            match r {
                Ok(v) => {
                    &&& bearer_ok(auth, token@)
                    &&& v@.len() == self.frames().len()
                    &&& forall|i: int| 0 <= i < v@.len() ==> self.frames().values().contains(*v@[i])
                    &&& forall|x: TelemetryFrame| self.frames().values().contains(x) ==> exists|i: int|
                        0 <= i < v@.len() && *v@[i] == x
                },
                Err(e) => !bearer_ok(auth, token@) && e is Unauthorized,
            },
    {
        check_auth(auth, token)?;
        Ok(self.latest_telemetry())
    }
}

// ---------------------------------------------------------------------------
// Telemetry intake and alerting
// ---------------------------------------------------------------------------

pub open spec fn flag_keys(flags: Seq<HealthFlag>) -> Seq<Seq<char>> {
    flags.map_values(|f: HealthFlag| flag_key(f))
}

/// Kind and title of the alert a flag key raises for device `host`.
pub open spec fn alert_for_key(host: Seq<char>, key: Seq<char>) -> Option<(Seq<char>, Seq<char>)> {
    match split_once_spec(key, ':') {
        Some(p) => if p.0 == "link_down"@ {
            Some(("link_down"@, host + ": link down ("@ + p.1 + ")"@))
        } else if p.0 == "degraded"@ {
            Some(("degraded"@, host + ": degraded ("@ + p.1 + ")"@))
        } else {
            None
        },
        None => None,
    }
}

/// The alert log after raising, in order, the alerts of `keys`.
pub open spec fn raise_alerts(
    log: Seq<(u64, Seq<char>, Seq<char>, Option<Seq<char>>, Seq<char>)>,
    host: Seq<char>,
    keys: Seq<Seq<char>>,
    at: Seq<char>,
) -> Seq<(u64, Seq<char>, Seq<char>, Option<Seq<char>>, Seq<char>)>
    decreases keys.len(),
{
    if keys.len() == 0 {
        log
    } else {
        let before = raise_alerts(log, host, keys.drop_last(), at);
        match alert_for_key(host, keys.last()) {
            Some(a) => append_alert_view(before, a.0, a.1, None, at),
            None => before,
        }
    }
}

/// Id the next alert would get, as an integer.
pub open spec fn next_id_int(log: Seq<AlertEvent>) -> int {
    if log.len() == 0 {
        1
    } else {
        log.last().id + 1
    }
}

pub proof fn lemma_fresh_flags_len(prev: Seq<Seq<char>>, keys: Seq<Seq<char>>)
    ensures
        fresh_flags(prev, keys).len() <= keys.len(),
    decreases keys.len(),
{
    if keys.len() > 0 {
        lemma_fresh_flags_len(prev, keys.drop_last());
    }
}

/// Whether a frame passes authentication and matches a stored device.
pub open spec fn telemetry_accepted(
    devices: Map<u128, DeviceRecord>,
    auth_ok: bool,
    frame: TelemetryFrame,
) -> bool {
    &&& auth_ok
    &&& devices.contains_key(frame.device_id.0)
    &&& devices[frame.device_id.0].org_id == frame.org_id
    &&& devices[frame.device_id.0].current.device_id == frame.device_id
}

impl DeviceStore {
    /// Builds, for one fresh flag key, the alert it raises (if any) and logs it.
    fn raise_alert(&mut self, host: &Vec<char>, key: &String, at: &String)
        requires
            old(self).wf(),
            old(self).alert_log().len() > 0 ==> old(self).alert_log().last().id < u64::MAX,
        ensures
            final(self).wf(),
            final(self).devices() == old(self).devices(),
            final(self).frames() == old(self).frames(),
            forall|k: u128| final(self).seen_flags(k) == old(self).seen_flags(k),
            alert_views(final(self).alert_log()) == match alert_for_key(host@, key@) {
                Some(a) => append_alert_view(alert_views(old(self).alert_log()), a.0, a.1, None, at@),
                None => alert_views(old(self).alert_log()),
            },
            alert_for_key(host@, key@) is Some ==> final(self).alert_log().len() > 0
                && final(self).alert_log().last().id == next_id_int(old(self).alert_log()),
            alert_for_key(host@, key@) is None ==> final(self).alert_log() == old(self).alert_log(),
    {
        let k = chars_of(key.as_str());
        match split_once(&k, ':') {
            Some(p) => {
                let link_down = chars_of("link_down");
                let degraded = chars_of("degraded");
                let mut title: Vec<char> = Vec::new();
                append_chars(&mut title, host);
                if seq_eq(&p.0, &link_down) {
                    append_str(&mut title, ": link down (");
                    append_chars(&mut title, &p.1);
                    append_str(&mut title, ")");
                    self.push_alert("link_down", string_from(&title), None, at.clone());
                } else if seq_eq(&p.0, &degraded) {
                    append_str(&mut title, ": degraded (");
                    append_chars(&mut title, &p.1);
                    append_str(&mut title, ")");
                    self.push_alert("degraded", string_from(&title), None, at.clone());
                }
            },
            None => {},
        }
    }

    /// `POST /api/v1/telemetry`: keeps the frame as the device's latest and
    /// raises an alert for every flag that was not raised at the previous
    /// frame. `now_secs` stamps the alerts.
    pub fn post_telemetry(
        &mut self,
        auth: Option<&str>,
        token: &str,
        frame: TelemetryFrame,
        now_secs: u64,
    ) -> (r: Result<(), AgentError>)
        requires
            old(self).wf(),
            telemetry_accepted(old(self).devices(), bearer_ok(auth, token@), frame) ==> next_id_int(old(self).alert_log()) + fresh_flags(
                old(self).seen_flags(frame.device_id.0),
                flag_keys(frame.flags@),
            ).len() <= u64::MAX + 1,
        ensures
            final(self).wf(),
            final(self).alert_log().len() <= ALERT_CAPACITY,
            ids_increasing(final(self).alert_log()),
            final(self).devices() == old(self).devices(),
            match r {
                Ok(()) => {
                    let id = frame.device_id.0;
                    let rec = old(self).devices()[id];
                    &&& bearer_ok(auth, token@)
                    &&& old(self).devices().contains_key(id)
                    &&& rec.org_id == frame.org_id
                    &&& rec.current.device_id == frame.device_id
                    &&& final(self).frames() == old(self).frames().insert(id, frame)
                    &&& final(self).seen_flags(id) == flag_keys(frame.flags@)
                    &&& forall|k: u128| k != id ==> final(self).seen_flags(k) == old(self).seen_flags(k)
                    &&& alert_views(final(self).alert_log()) == raise_alerts(
                        alert_views(old(self).alert_log()),
                        rec.current.hostname@,
                        fresh_flags(old(self).seen_flags(id), flag_keys(frame.flags@)),
                        dec(now_secs as nat),
                    )
                },
                Err(e) => {
                    let id = frame.device_id.0;
                    let rec = old(self).devices()[id];
                    &&& final(self).frames() == old(self).frames()
                    &&& final(self).alert_log() == old(self).alert_log()
                    &&& forall|k: u128| final(self).seen_flags(k) == old(self).seen_flags(k)
                    &&& if !bearer_ok(auth, token@) {
                        e is Unauthorized
                    } else if !old(self).devices().contains_key(id) {
                        e is NotFound
                    } else if rec.org_id != frame.org_id {
                        e matches AgentError::OrgMismatch { incoming, current } && incoming@
                            == org_text(frame.org_id) && current@ == org_text(rec.org_id)
                    } else {
                        rec.current.device_id != frame.device_id && (e matches AgentError::OrgMismatch { incoming, current }
                            && incoming@ == uuid_text(frame.device_id.0) && current@ == uuid_text(
                            rec.current.device_id.0,
                        ))
                    }
                },
            },
    {
        check_auth(auth, token)?;
        let rec = self.get(frame.device_id)?;
        let rec_org = rec.org_id;
        let rec_dev = rec.current.device_id;
        let host = chars_of(rec.current.hostname.as_str());
        if rec_org.0 != frame.org_id.0 {
            return Err(
                AgentError::OrgMismatch {
                    incoming: uuid_to_text(frame.org_id.0),
                    current: uuid_to_text(rec_org.0),
                },
            );
        }
        if frame.device_id.0 != rec_dev.0 {
            return Err(
                AgentError::OrgMismatch {
                    incoming: uuid_to_text(frame.device_id.0),
                    current: uuid_to_text(rec_dev.0),
                },
            );
        }
        let device_id = frame.device_id;
        let mut keys: Vec<String> = Vec::new();
        let mut i: usize = 0;
        while i < frame.flags.len()
            invariant
                i <= frame.flags.len(),
                views(keys@) == flag_keys(frame.flags@).take(i as int),
            decreases frame.flags.len() - i,
        {
            let k = flag_key_text(&frame.flags[i]);
            let ghost ks = keys@;
            keys.push(k);
            assert(views(keys@) =~= views(ks).push(flag_key(frame.flags@[i as int])));
            assert(flag_keys(frame.flags@).take(i + 1) =~= flag_keys(frame.flags@).take(i as int).push(
                flag_key(frame.flags@[i as int]),
            ));
            i += 1;
        }
        assert(views(keys@) =~= flag_keys(frame.flags@));
        let ghost fr = frame;
        let _ = self.insert_telemetry(frame);
        let ghost log0 = alert_views(self.alerts@);
        let ghost start_id = next_id_int(self.alerts@);
        let fresh = self.new_alert_flags(device_id, keys);
        let mut at: Vec<char> = Vec::new();
        push_dec(&mut at, now_secs);
        let at = string_from(&at);
        proof {
            lemma_fresh_flags_len(old(self).seen_flags(device_id.0), flag_keys(frame.flags@));
        }
        let mut j: usize = 0;
        while j < fresh.len()
            invariant
                j <= fresh.len(),
                self.wf(),
                self.devices() == old(self).devices(),
                self.frames() == old(self).frames().insert(device_id.0, fr),
                self.seen_flags(device_id.0) == flag_keys(fr.flags@),
                forall|k: u128| k != device_id.0 ==> self.seen_flags(k) == old(self).seen_flags(k),
                alert_views(self.alert_log()) == raise_alerts(log0, host@, views(fresh@).take(j as int), at@),
                self.alert_log().len() > 0 ==> self.alert_log().last().id + 1 <= start_id + j,
                self.alert_log().len() == 0 ==> start_id == 1,
                start_id + fresh@.len() <= u64::MAX + 1,
            decreases fresh.len() - j,
        {
            let ghost pre = views(fresh@).take(j as int);
            let ghost nxt = views(fresh@).take(j + 1);
            assert(nxt.drop_last() =~= pre);
            assert(nxt.last() == fresh@[j as int]@);
            self.raise_alert(&host, &fresh[j], &at);
            j += 1;
        }
        assert(views(fresh@).take(fresh.len() as int) =~= views(fresh@));
        Ok(())
    }
}

// ---------------------------------------------------------------------------
// Laws
// ---------------------------------------------------------------------------

/// A stored record is read back unchanged under its device id, and every
/// other device is unaffected.
pub proof fn law_store_reads_back_write(m: Map<u128, DeviceRecord>, rec: DeviceRecord, other: u128)
    requires
        other != rec.current.device_id.0,
    ensures
        m.insert(rec.current.device_id.0, rec).contains_key(rec.current.device_id.0),
        m.insert(rec.current.device_id.0, rec)[rec.current.device_id.0] == rec,
        m.insert(rec.current.device_id.0, rec).contains_key(other) == m.contains_key(other),
        m.contains_key(other) ==> m.insert(rec.current.device_id.0, rec)[other] == m[other],
{
}

/// After a delete the device is not found any more.
pub proof fn law_deleted_device_not_found(m: Map<u128, DeviceRecord>, id: u128)
    ensures
        !m.remove(id).contains_key(id),
{
}

/// A configuration push changes the configuration and nothing else of the
/// record.
pub proof fn law_config_push_keeps_metadata(rec: DeviceRecord, cfg: DeviceConfig)
    ensures
        ({
            let r = DeviceRecord { current: cfg, ..rec };
            &&& r.current == cfg
            &&& r.org_id == rec.org_id
            &&& r.site_id == rec.site_id
            &&& r.hostname == rec.hostname
            &&& r.device_id == rec.device_id
            &&& r.state == rec.state
        }),
{
}

/// A flag that was raised at the previous frame does not alert again: a frame
/// that repeats the previous frame's flags raises no alert.
pub proof fn law_repeated_flags_alert_once(keys: Seq<Seq<char>>)
    ensures
        fresh_flags(keys, keys) == Seq::<Seq<char>>::empty(),
{
    lemma_fresh_of_held(keys, keys);
}

pub proof fn lemma_fresh_of_held(prev: Seq<Seq<char>>, keys: Seq<Seq<char>>)
    requires
        forall|i: int| 0 <= i < keys.len() ==> prev.contains(#[trigger] keys[i]),
    ensures
        fresh_flags(prev, keys) == Seq::<Seq<char>>::empty(),
    decreases keys.len(),
{
    if keys.len() > 0 {
        let k = keys.drop_last();
        assert forall|i: int| 0 <= i < k.len() implies prev.contains(#[trigger] k[i]) by {
            assert(k[i] == keys[i]);
        }
        lemma_fresh_of_held(prev, k);
        assert(prev.contains(keys[keys.len() - 1]));
    }
}

/// Every flag not raised at the previous frame alerts exactly once, in the
/// order of the frame.
pub proof fn law_new_flags_alert(keys: Seq<Seq<char>>)
    ensures
        fresh_flags(Seq::empty(), keys) == keys,
    decreases keys.len(),
{
    if keys.len() > 0 {
        law_new_flags_alert(keys.drop_last());
        assert(keys.drop_last().push(keys.last()) =~= keys);
    }
}

/// A well-formed store holds at most [`ALERT_CAPACITY`] alerts, numbered in
/// increasing order; every operation on the store keeps it well-formed.
pub proof fn law_store_alerts_capped(s: DeviceStore)
    requires
        s.wf(),
    ensures
        s.alert_log().len() <= ALERT_CAPACITY,
        ids_increasing(s.alert_log()),
{
}

/// The alert log never holds more than [`ALERT_CAPACITY`] alerts, and a new
/// alert is numbered after the newest kept one.
pub proof fn law_alert_log_bounded(
    log: Seq<(u64, Seq<char>, Seq<char>, Option<Seq<char>>, Seq<char>)>,
    kind: Seq<char>,
    title: Seq<char>,
    detail: Option<Seq<char>>,
    at: Seq<char>,
)
    requires
        log.len() <= ALERT_CAPACITY,
        log.len() > 0 ==> log.last().0 < u64::MAX,
    ensures
        ({
            let n = append_alert_view(log, kind, title, detail, at);
            &&& n.len() <= ALERT_CAPACITY
            &&& n.len() == if log.len() == ALERT_CAPACITY {
                log.len()
            } else {
                log.len() + 1
            }
            &&& n.last().0 == if log.len() == 0 {
                1
            } else {
                log.last().0 + 1
            }
            &&& n.last().1 == kind
            &&& n.last().2 == title
        }),
{
}

} // verus!
