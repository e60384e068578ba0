//! The four golden signals of the load balancer (latency, traffic, errors,
//! saturation) per pool and summed over all pools. Percentages are left to
//! the caller: the counts they are made of are here.
use vstd::prelude::*;

use crate::lb::{percentile, percentile_spec, wadd, Backend, TcpPoolState};
use crate::proxy::{HttpPoolState, RouteState};
use crate::text::{seq_eq, chars_of};

verus! {

broadcast use vstd::string::group_string_axioms;

pub open spec fn uadd(x: usize, y: usize) -> usize {
    vstd::wrapping::usize_specs::wrapping_add(x, y)
}

/// Signals of one backend.
#[derive(Debug)]
pub struct BackendSignal {
    pub addr: String,
    pub healthy: bool,
    pub latency_p50_us: Option<u64>,
    pub latency_p95_us: Option<u64>,
    pub rx_bytes: u64,
    pub tx_bytes: u64,
    pub active_conns: u64,
    pub health_failures: u64,
}

pub struct BackendSignalView {
    pub addr: Seq<char>,
    pub healthy: bool,
    pub latency_p50_us: Option<u64>,
    pub latency_p95_us: Option<u64>,
    pub rx_bytes: u64,
    pub tx_bytes: u64,
    pub active_conns: u64,
    pub health_failures: u64,
}

impl View for BackendSignal {
    type V = BackendSignalView;

    open spec fn view(&self) -> BackendSignalView {
        BackendSignalView {
            addr: self.addr@,
            healthy: self.healthy,
            latency_p50_us: self.latency_p50_us,
            latency_p95_us: self.latency_p95_us,
            rx_bytes: self.rx_bytes,
            tx_bytes: self.tx_bytes,
            active_conns: self.active_conns,
            health_failures: self.health_failures,
        }
    }
}

/// What a backend reports.
pub open spec fn backend_signal(b: Backend) -> BackendSignalView {
    BackendSignalView {
        addr: b.address()@,
        healthy: b.up(),
        latency_p50_us: percentile_spec(b.ring().slots(), 50),
        latency_p95_us: percentile_spec(b.ring().slots(), 95),
        rx_bytes: b.rx(),
        tx_bytes: b.tx(),
        active_conns: b.active(),
        health_failures: b.failures(),
    }
}

/// Signals of one pool.
#[derive(Debug)]
pub struct PoolSignal {
    pub name: String,
    pub latency_p50_us: Option<u64>,
    pub latency_p95_us: Option<u64>,
    pub rx_bytes: u64,
    pub tx_bytes: u64,
    pub unhealthy_backends: usize,
    pub total_backends: usize,
    pub health_failures: u64,
    pub rejected_conns: u64,
    pub active_conns: usize,
    /// 0: unlimited.
    pub max_conns: usize,
    pub backends: Vec<BackendSignal>,
}

pub struct PoolSignalView {
    pub name: Seq<char>,
    pub latency_p50_us: Option<u64>,
    pub latency_p95_us: Option<u64>,
    pub rx_bytes: u64,
    pub tx_bytes: u64,
    pub unhealthy_backends: usize,
    pub total_backends: usize,
    pub health_failures: u64,
    pub rejected_conns: u64,
    pub active_conns: usize,
    pub max_conns: usize,
    pub backends: Seq<BackendSignalView>,
}

pub open spec fn backend_views(s: Seq<BackendSignal>) -> Seq<BackendSignalView> {
    s.map_values(|b: BackendSignal| b@)
}

impl View for PoolSignal {
    type V = PoolSignalView;

    open spec fn view(&self) -> PoolSignalView {
        PoolSignalView {
            name: self.name@,
            latency_p50_us: self.latency_p50_us,
            latency_p95_us: self.latency_p95_us,
            rx_bytes: self.rx_bytes,
            tx_bytes: self.tx_bytes,
            unhealthy_backends: self.unhealthy_backends,
            total_backends: self.total_backends,
            health_failures: self.health_failures,
            rejected_conns: self.rejected_conns,
            active_conns: self.active_conns,
            max_conns: self.max_conns,
            backends: backend_views(self.backends@),
        }
    }
}

/// Signals summed over every pool.
#[derive(Debug)]
pub struct SignalTotals {
    pub latency_p50_us: Option<u64>,
    pub latency_p95_us: Option<u64>,
    pub rx_bytes: u64,
    pub tx_bytes: u64,
    pub unhealthy_backends: usize,
    pub total_backends: usize,
    pub health_failures: u64,
    pub rejected_conns: u64,
    pub active_conns: usize,
    pub max_conns: usize,
}

#[derive(Debug)]
pub struct Signals {
    pub pools: Vec<PoolSignal>,
    pub totals: SignalTotals,
}

// ---------------------------------------------------------------------------
// The model
// ---------------------------------------------------------------------------

/// A pool's signals while its backends are read one by one: the addresses
/// seen, the counters, and the median latencies of its backends so far.
pub struct Tally {
    pub seen: Seq<Seq<char>>,
    pub unhealthy: usize,
    pub total: usize,
    pub rx: u64,
    pub tx: u64,
    pub failures: u64,
    pub lat: Seq<u64>,
    pub backends: Seq<BackendSignalView>,
}

pub open spec fn fresh_tally(lat: Seq<u64>) -> Tally {
    Tally {
        seen: Seq::empty(),
        unhealthy: 0,
        total: 0,
        rx: 0,
        tx: 0,
        failures: 0,
        lat,
        backends: Seq::empty(),
    }
}

/// One backend read into the tally. With `dedup` a backend whose address was
/// seen already (it serves several routes) is skipped.
pub open spec fn tally_step(t: Tally, b: Backend, dedup: bool) -> Tally {
    if dedup && t.seen.contains(b.address()@) {
        t
    } else {
        Tally {
            seen: t.seen.push(b.address()@),
            unhealthy: if b.up() {
                t.unhealthy
            } else {
                uadd(t.unhealthy, 1)
            },
            total: uadd(t.total, 1),
            rx: wadd(t.rx, b.rx()),
            tx: wadd(t.tx, b.tx()),
            failures: wadd(t.failures, b.failures()),
            lat: match percentile_spec(b.ring().slots(), 50) {
                Some(x) => t.lat.push(x),
                None => t.lat,
            },
            backends: t.backends.push(backend_signal(b)),
        }
    }
}

pub open spec fn tally_all(t: Tally, bs: Seq<Backend>, dedup: bool) -> Tally
    decreases bs.len(),
{
    if bs.len() == 0 {
        t
    } else {
        tally_step(tally_all(t, bs.drop_last(), dedup), bs.last(), dedup)
    }
}

/// The backends of every route, route after route, each address once.
pub open spec fn tally_routes(t: Tally, routes: Seq<RouteState>) -> Tally
    decreases routes.len(),
{
    if routes.len() == 0 {
        t
    } else {
        tally_all(tally_routes(t, routes.drop_last()), routes.last().members(), true)
    }
}

pub open spec fn pool_signal(
    name: Seq<char>,
    t: Tally,
    active: usize,
    max: usize,
    rejected: u64,
) -> PoolSignalView {
    PoolSignalView {
        name,
        latency_p50_us: percentile_spec(t.lat, 50),
        latency_p95_us: percentile_spec(t.lat, 95),
        rx_bytes: t.rx,
        tx_bytes: t.tx,
        unhealthy_backends: t.unhealthy,
        total_backends: t.total,
        health_failures: t.failures,
        rejected_conns: rejected,
        active_conns: active,
        max_conns: max,
        backends: t.backends,
    }
}

/// The pools read so far and the median latencies of all their backends.
pub struct Survey {
    pub pools: Seq<PoolSignalView>,
    pub lat: Seq<u64>,
}

/// TCP pools: every backend counts, at the pool's own connection limit.
pub open spec fn survey_tcp(ps: Seq<TcpPoolState>) -> Survey
    decreases ps.len(),
{
    if ps.len() == 0 {
        Survey { pools: Seq::empty(), lat: Seq::empty() }
    } else {
        let s = survey_tcp(ps.drop_last());
        let p = ps.last();
        let t = tally_all(fresh_tally(Seq::empty()), p.members(), false);
        Survey {
            pools: s.pools.push(pool_signal(p.pool_name()@, t, p.active(), p.limit(), p.rejected())),
            lat: s.lat + t.lat,
        }
    }
}

/// HTTP pools, after the TCP pools: each backend address once per pool, and
/// no connection limit reported.
pub open spec fn survey_http(s0: Survey, ps: Seq<HttpPoolState>) -> Survey
    decreases ps.len(),
{
    if ps.len() == 0 {
        s0
    } else {
        let s = survey_http(s0, ps.drop_last());
        let p = ps.last();
        let t = tally_routes(fresh_tally(Seq::empty()), p.route_list());
        Survey {
            pools: s.pools.push(pool_signal(p.pool_name()@, t, p.active(), 0, p.rejected())),
            lat: s.lat + t.lat,
        }
    }
}

pub struct TotalsView {
    pub rx: u64,
    pub tx: u64,
    pub unhealthy: usize,
    pub total: usize,
    pub failures: u64,
    pub rejected: u64,
    pub active: usize,
    pub max: usize,
}

pub open spec fn sum_pools(ps: Seq<PoolSignalView>) -> TotalsView
    decreases ps.len(),
{
    if ps.len() == 0 {
        TotalsView { rx: 0, tx: 0, unhealthy: 0, total: 0, failures: 0, rejected: 0, active: 0, max: 0 }
    } else {
        let s = sum_pools(ps.drop_last());
        let p = ps.last();
        TotalsView {
            rx: wadd(s.rx, p.rx_bytes),
            tx: wadd(s.tx, p.tx_bytes),
            unhealthy: uadd(s.unhealthy, p.unhealthy_backends),
            total: uadd(s.total, p.total_backends),
            failures: wadd(s.failures, p.health_failures),
            rejected: wadd(s.rejected, p.rejected_conns),
            active: uadd(s.active, p.active_conns),
            max: uadd(s.max, p.max_conns),
        }
    }
}

pub open spec fn survey_all(tcp: Seq<TcpPoolState>, http: Seq<HttpPoolState>) -> Survey {
    survey_http(survey_tcp(tcp), http)
}

pub open spec fn pool_views(s: Seq<PoolSignal>) -> Seq<PoolSignalView> {
    s.map_values(|p: PoolSignal| p@)
}

// ---------------------------------------------------------------------------
// Computing them
// ---------------------------------------------------------------------------

/// The running tally of one pool.
struct Acc {
    seen: Vec<Vec<char>>,
    unhealthy: usize,
    total: usize,
    rx: u64,
    tx: u64,
    failures: u64,
    backends: Vec<BackendSignal>,
}

spec fn acc_view(a: &Acc, lat: Seq<u64>) -> Tally {
    Tally {
        seen: a.seen@.map_values(|v: Vec<char>| v@),
        unhealthy: a.unhealthy,
        total: a.total,
        rx: a.rx,
        tx: a.tx,
        failures: a.failures,
        lat,
        backends: backend_views(a.backends@),
    }
}

fn new_acc() -> (r: Acc)
    ensures
        forall|lat: Seq<u64>| acc_view(&r, lat) == fresh_tally(lat),
{
    let r = Acc {
        seen: Vec::new(),
        unhealthy: 0,
        total: 0,
        rx: 0,
        tx: 0,
        failures: 0,
        backends: Vec::new(),
    };
    assert forall|lat: Seq<u64>| acc_view(&r, lat) == fresh_tally(lat) by {
        assert(r.seen@.map_values(|v: Vec<char>| v@) =~= Seq::<Seq<char>>::empty());
        assert(backend_views(r.backends@) =~= Seq::<BackendSignalView>::empty());
    }
    r
}

fn contains_text(seen: &Vec<Vec<char>>, a: &Vec<char>) -> (r: bool)
    ensures
        r == seen@.map_values(|v: Vec<char>| v@).contains(a@),
{
    let ghost m = seen@.map_values(|v: Vec<char>| v@);
    let mut i: usize = 0;
    while i < seen.len()
        invariant
            i <= seen@.len(),
            m == seen@.map_values(|v: Vec<char>| v@),
            forall|j: int| 0 <= j < i ==> m[j] != a@,
        decreases seen.len() - i,
    {
        if seq_eq(&seen[i], a) {
            assert(m[i as int] == a@);
            return true;
        }
        i += 1;
    }
    false
}

fn read_backend(acc: &mut Acc, lat: &mut Vec<u64>, b: &Backend, dedup: bool)
    ensures
        acc_view(final(acc), final(lat)@) == tally_step(acc_view(old(acc), old(lat)@), *b, dedup),
{
    let a = chars_of(b.addr().as_str());
    if dedup && contains_text(&acc.seen, &a) {
        return;
    }
    let ghost seen0 = acc.seen@;
    let ghost bs0 = acc.backends@;
    let (p50, p95) = b.latency_percentiles_us();
    match p50 {
        Some(x) => lat.push(x),
        None => {},
    }
    if !b.is_healthy() {
        acc.unhealthy = acc.unhealthy.wrapping_add(1);
    }
    acc.total = acc.total.wrapping_add(1);
    acc.rx = acc.rx.wrapping_add(b.rx_bytes());
    acc.tx = acc.tx.wrapping_add(b.tx_bytes());
    acc.failures = acc.failures.wrapping_add(b.health_failures());
    acc.seen.push(a);
    acc.backends.push(
        BackendSignal {
            addr: b.addr().clone(),
            healthy: b.is_healthy(),
            latency_p50_us: p50,
            latency_p95_us: p95,
            rx_bytes: b.rx_bytes(),
            tx_bytes: b.tx_bytes(),
            active_conns: b.active_conns(),
            health_failures: b.health_failures(),
        },
    );
    proof {
        assert(acc.seen@.map_values(|v: Vec<char>| v@) =~= seen0.map_values(|v: Vec<char>| v@).push(
            b.address()@,
        ));
        assert(backend_views(acc.backends@) =~= backend_views(bs0).push(backend_signal(*b)));
    }
}

fn read_backends(acc: &mut Acc, lat: &mut Vec<u64>, bs: &Vec<Backend>, dedup: bool)
    ensures
        acc_view(final(acc), final(lat)@) == tally_all(acc_view(old(acc), old(lat)@), bs@, dedup),
{
    let ghost t0 = acc_view(acc, lat@);
    let mut i: usize = 0;
    while i < bs.len()
        invariant
            i <= bs@.len(),
            acc_view(acc, lat@) == tally_all(t0, bs@.take(i as int), dedup),
        decreases bs.len() - i,
    {
        assert(bs@.take(i + 1).drop_last() =~= bs@.take(i as int));
        assert(bs@.take(i + 1).last() == bs@[i as int]);
        read_backend(acc, lat, &bs[i], dedup);
        i += 1;
    }
    assert(bs@.take(bs.len() as int) =~= bs@);
}

fn finish_pool(name: &String, acc: Acc, lat: &Vec<u64>, active: usize, max: usize, rejected: u64) -> (r:
    PoolSignal)
    ensures
        r@ == pool_signal(name@, acc_view(&acc, lat@), active, max, rejected),
{
    PoolSignal {
        name: name.clone(),
        latency_p50_us: percentile(lat.as_slice(), 50),
        latency_p95_us: percentile(lat.as_slice(), 95),
        rx_bytes: acc.rx,
        tx_bytes: acc.tx,
        unhealthy_backends: acc.unhealthy,
        total_backends: acc.total,
        health_failures: acc.failures,
        rejected_conns: rejected,
        active_conns: active,
        max_conns: max,
        backends: acc.backends,
    }
}

/// The signals of the TCP pools and then the HTTP pools, one entry per pool.
/// Each pool's percentiles are taken over its own backends' median latencies;
/// the totals' percentiles over those of every pool, and each other total is
/// the sum of that field over the returned pools.
pub fn golden_signals(tcp: &Vec<TcpPoolState>, http: &Vec<HttpPoolState>) -> (r: Signals)
    ensures
        r.pools@.len() == tcp@.len() + http@.len(),
        pool_views(r.pools@) == survey_all(tcp@, http@).pools,
        r.totals.latency_p50_us == percentile_spec(survey_all(tcp@, http@).lat, 50),
        r.totals.latency_p95_us == percentile_spec(survey_all(tcp@, http@).lat, 95),
        ({
            let t = sum_pools(pool_views(r.pools@));
            &&& r.totals.rx_bytes == t.rx
            &&& r.totals.tx_bytes == t.tx
            &&& r.totals.unhealthy_backends == t.unhealthy
            &&& r.totals.total_backends == t.total
            &&& r.totals.health_failures == t.failures
            &&& r.totals.rejected_conns == t.rejected
            &&& r.totals.active_conns == t.active
            &&& r.totals.max_conns == t.max
        }),
{
    let mut pools: Vec<PoolSignal> = Vec::new();
    let mut lat: Vec<u64> = Vec::new();
    let mut i: usize = 0;
    assert(pool_views(pools@) =~= Seq::<PoolSignalView>::empty());
    while i < tcp.len()
        invariant
            i <= tcp@.len(),
            pools@.len() == i,
            pool_views(pools@) == survey_tcp(tcp@.take(i as int)).pools,
            lat@ == survey_tcp(tcp@.take(i as int)).lat,
        decreases tcp.len() - i,
    {
        let p = &tcp[i];
        assert(tcp@.take(i + 1).drop_last() =~= tcp@.take(i as int));
        assert(tcp@.take(i + 1).last() == tcp@[i as int]);
        let mut acc = new_acc();
        let mut own: Vec<u64> = Vec::new();
        read_backends(&mut acc, &mut own, p.backends(), false);
        let ghost before = pool_views(pools@);
        let sig = finish_pool(p.name(), acc, &own, p.active_conns(), p.max_conns(), p.rejected_conns());
        pools.push(sig);
        assert(pool_views(pools@) =~= before.push(sig@));
        lat.append(&mut own);
        i += 1;
    }
    assert(tcp@.take(tcp.len() as int) =~= tcp@);
    let ghost s0 = survey_tcp(tcp@);
    let mut k: usize = 0;
    while k < http.len()
        invariant
            k <= http@.len(),
            pools@.len() == tcp@.len() + k,
            s0 == survey_tcp(tcp@),
            pool_views(pools@) == survey_http(s0, http@.take(k as int)).pools,
            lat@ == survey_http(s0, http@.take(k as int)).lat,
        decreases http.len() - k,
    {
        let p = &http[k];
        assert(http@.take(k + 1).drop_last() =~= http@.take(k as int));
        assert(http@.take(k + 1).last() == http@[k as int]);
        let mut acc = new_acc();
        let mut own: Vec<u64> = Vec::new();
        let ghost t0 = acc_view(&acc, own@);
        let routes = p.routes();
        let mut j: usize = 0;
        while j < routes.len()
            invariant
                j <= routes@.len(),
                routes@ == p.route_list(),
                t0 == fresh_tally(Seq::empty()),
                acc_view(&acc, own@) == tally_routes(t0, routes@.take(j as int)),
            decreases routes.len() - j,
        {
            assert(routes@.take(j + 1).drop_last() =~= routes@.take(j as int));
            assert(routes@.take(j + 1).last() == routes@[j as int]);
            read_backends(&mut acc, &mut own, routes[j].backends(), true);
            j += 1;
        }
        assert(routes@.take(routes.len() as int) =~= routes@);
        let ghost before = pool_views(pools@);
        let sig = finish_pool(p.name(), acc, &own, p.active_conns(), 0, p.rejected_conns());
        pools.push(sig);
        assert(pool_views(pools@) =~= before.push(sig@));
        lat.append(&mut own);
        k += 1;
    }
    assert(http@.take(http.len() as int) =~= http@);
    let ghost all = pool_views(pools@);
    let mut rx: u64 = 0;
    let mut tx: u64 = 0;
    let mut unhealthy: usize = 0;
    let mut total: usize = 0;
    let mut failures: u64 = 0;
    let mut rejected: u64 = 0;
    let mut active: usize = 0;
    let mut max: usize = 0;
    let mut m: usize = 0;
    while m < pools.len()
        invariant
            m <= pools@.len(),
            all == pool_views(pools@),
            ({
                let t = sum_pools(all.take(m as int));
                &&& rx == t.rx
                &&& tx == t.tx
                &&& unhealthy == t.unhealthy
                &&& total == t.total
                &&& failures == t.failures
                &&& rejected == t.rejected
                &&& active == t.active
                &&& max == t.max
            }),
        decreases pools.len() - m,
    {
        assert(all.take(m + 1).drop_last() =~= all.take(m as int));
        assert(all.take(m + 1).last() == pools@[m as int]@);
        let p = &pools[m];
        rx = rx.wrapping_add(p.rx_bytes);
        tx = tx.wrapping_add(p.tx_bytes);
        unhealthy = unhealthy.wrapping_add(p.unhealthy_backends);
        total = total.wrapping_add(p.total_backends);
        failures = failures.wrapping_add(p.health_failures);
        rejected = rejected.wrapping_add(p.rejected_conns);
        active = active.wrapping_add(p.active_conns);
        max = max.wrapping_add(p.max_conns);
        m += 1;
    }
    assert(all.take(pools.len() as int) =~= all);
    let totals = SignalTotals {
        latency_p50_us: percentile(lat.as_slice(), 50),
        latency_p95_us: percentile(lat.as_slice(), 95),
        rx_bytes: rx,
        tx_bytes: tx,
        unhealthy_backends: unhealthy,
        total_backends: total,
        health_failures: failures,
        rejected_conns: rejected,
        active_conns: active,
        max_conns: max,
    };
    Signals { pools, totals }
}

} // verus!
