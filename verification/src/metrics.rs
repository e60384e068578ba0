//! The daemon's Prometheus text exposition: backend health, connection and
//! byte counters, latency percentiles, pool admission counters, RIB size,
//! established sessions and uptime.
use vstd::prelude::*;

use crate::bgp::SessionState;
use crate::lb::{percentile_spec, Backend, TcpPoolState};
use crate::proxy::{HttpPoolState, RouteState};
use crate::text::{append_chars, append_str, chars_of, dec, push_dec, string_from};

verus! {

broadcast use vstd::string::group_string_axioms;

pub open spec fn metric_line(metric: Seq<char>, labels: Seq<char>, value: Seq<char>) -> Seq<char> {
    metric + "{"@ + labels + "} "@ + value + "\n"@
}

/// `pool="<kind><name>"`, the kind being `tcp:` or `http:`.
pub open spec fn pool_label(kind: Seq<char>, pool: Seq<char>) -> Seq<char> {
    "pool=\""@ + kind + pool + "\""@
}

pub open spec fn backend_label(kind: Seq<char>, pool: Seq<char>, addr: Seq<char>) -> Seq<char> {
    pool_label(kind, pool) + ",backend=\""@ + addr + "\""@
}

pub open spec fn bit(b: bool) -> Seq<char> {
    if b {
        "1"@
    } else {
        "0"@
    }
}

pub open spec fn latency_line(labels: Seq<char>, v: Option<u64>) -> Seq<char> {
    match v {
        Some(x) => metric_line("sdwanlite_backend_latency_us"@, labels, dec(x as nat)),
        None => Seq::empty(),
    }
}

pub open spec fn tcp_backend_metrics(pool: Seq<char>, b: Backend) -> Seq<char> {
    let l = backend_label("tcp:"@, pool, b.address()@);
    metric_line("sdwanlite_backend_healthy"@, l, bit(b.up())) + metric_line(
        "sdwanlite_backend_conns"@,
        l + ",kind=\"active\""@,
        dec(b.active() as nat),
    ) + metric_line("sdwanlite_backend_conns"@, l + ",kind=\"total\""@, dec(b.total() as nat))
        + metric_line("sdwanlite_backend_bytes"@, l + ",dir=\"rx\""@, dec(b.rx() as nat))
        + metric_line("sdwanlite_backend_bytes"@, l + ",dir=\"tx\""@, dec(b.tx() as nat))
        + latency_line(l + ",quantile=\"p50\""@, percentile_spec(b.ring().slots(), 50))
        + latency_line(l + ",quantile=\"p95\""@, percentile_spec(b.ring().slots(), 95))
}

pub open spec fn tcp_backends_metrics(pool: Seq<char>, bs: Seq<Backend>) -> Seq<char>
    decreases bs.len(),
{
    if bs.len() == 0 {
        Seq::empty()
    } else {
        tcp_backends_metrics(pool, bs.drop_last()) + tcp_backend_metrics(pool, bs.last())
    }
}

pub open spec fn tcp_pool_metrics(p: TcpPoolState) -> Seq<char> {
    let name = p.pool_name()@;
    let l = pool_label("tcp:"@, name);
    tcp_backends_metrics(name, p.members()) + metric_line(
        "sdwanlite_pool_rejected"@,
        l,
        dec(p.rejected() as nat),
    ) + metric_line("sdwanlite_pool_active_conns"@, l, dec(p.active() as nat)) + metric_line(
        "sdwanlite_pool_max_conns"@,
        l,
        dec(p.limit() as nat),
    )
}

pub open spec fn tcp_pools_metrics(ps: Seq<TcpPoolState>) -> Seq<char>
    decreases ps.len(),
{
    if ps.len() == 0 {
        Seq::empty()
    } else {
        tcp_pools_metrics(ps.drop_last()) + tcp_pool_metrics(ps.last())
    }
}

pub open spec fn http_backend_metrics(pool: Seq<char>, b: Backend) -> Seq<char> {
    let l = backend_label("http:"@, pool, b.address()@);
    metric_line("sdwanlite_backend_healthy"@, l, bit(b.up())) + metric_line(
        "sdwanlite_backend_conns"@,
        l + ",kind=\"total\""@,
        dec(b.total() as nat),
    )
}

pub open spec fn http_backends_metrics(pool: Seq<char>, bs: Seq<Backend>) -> Seq<char>
    decreases bs.len(),
{
    if bs.len() == 0 {
        Seq::empty()
    } else {
        http_backends_metrics(pool, bs.drop_last()) + http_backend_metrics(pool, bs.last())
    }
}

pub open spec fn http_routes_metrics(pool: Seq<char>, rs: Seq<RouteState>) -> Seq<char>
    decreases rs.len(),
{
    if rs.len() == 0 {
        Seq::empty()
    } else {
        http_routes_metrics(pool, rs.drop_last()) + http_backends_metrics(pool, rs.last().members())
    }
}

pub open spec fn http_pools_metrics(ps: Seq<HttpPoolState>) -> Seq<char>
    decreases ps.len(),
{
    if ps.len() == 0 {
        Seq::empty()
    } else {
        http_pools_metrics(ps.drop_last()) + http_routes_metrics(
            ps.last().pool_name()@,
            ps.last().route_list(),
        )
    }
}

pub open spec fn metrics_preamble() -> Seq<char> {
    "# HELP sdwanlite_backend_healthy Backend reachability (1 healthy, 0 down).\n"@
        + "# TYPE sdwanlite_backend_healthy gauge\n"@
        + "# HELP sdwanlite_backend_conns Connection counters per backend.\n"@
        + "# TYPE sdwanlite_backend_conns counter\n"@
        + "# HELP sdwanlite_backend_latency_us Backend connect latency percentiles in microseconds.\n"@
        + "# TYPE sdwanlite_backend_latency_us gauge\n"@
        + "# HELP sdwanlite_pool_active_conns Active connections at pool level.\n"@
        + "# TYPE sdwanlite_pool_active_conns gauge\n"@
        + "# HELP sdwanlite_pool_max_conns Pool connection limit (0 = unlimited).\n"@
        + "# TYPE sdwanlite_pool_max_conns gauge\n"@
}

pub open spec fn metrics_trailer(rib_routes: u64, established: u64, uptime_secs: u64) -> Seq<char> {
    "# HELP sdwanlite_bgp_rib_routes Current best-path RIB size.\n# TYPE sdwanlite_bgp_rib_routes gauge\n"@
        + "sdwanlite_bgp_rib_routes "@ + dec(rib_routes as nat) + "\n"@
        + "# HELP sdwanlite_bgp_sessions_established Established BGP sessions.\n# TYPE sdwanlite_bgp_sessions_established gauge\n"@
        + "sdwanlite_bgp_sessions_established "@ + dec(established as nat) + "\n"@
        + "# HELP sdwanlite_uptime_seconds Process uptime in seconds.\n# TYPE sdwanlite_uptime_seconds counter\nsdwanlite_uptime_seconds "@
        + dec(uptime_secs as nat) + "\n"@
}

/// The whole exposition page.
pub open spec fn metrics_page(
    tcp: Seq<TcpPoolState>,
    http: Seq<HttpPoolState>,
    rib_routes: u64,
    established: u64,
    uptime_secs: u64,
) -> Seq<char> {
    metrics_preamble() + tcp_pools_metrics(tcp) + http_pools_metrics(http) + metrics_trailer(
        rib_routes,
        established,
        uptime_secs,
    )
}

/// Number of sessions in the `Established` state.
pub open spec fn established_count(s: Seq<SessionState>) -> nat
    decreases s.len(),
{
    if s.len() == 0 {
        0
    } else {
        established_count(s.drop_last()) + if s.last() == SessionState::Established {
            1nat
        } else {
            0nat
        }
    }
}

pub fn count_established(states: &Vec<SessionState>) -> (r: u64)
    requires
        states@.len() <= u64::MAX,
    ensures
        r == established_count(states@),
{
    let mut n: u64 = 0;
    let mut i: usize = 0;
    while i < states.len()
        invariant
            i <= states@.len(),
            states@.len() <= u64::MAX,
            n == established_count(states@.take(i as int)),
            n <= i,
        decreases states.len() - i,
    {
        assert(states@.take(i + 1).drop_last() =~= states@.take(i as int));
        match states[i] {
            SessionState::Established => {
                n = n + 1;
            },
            _ => {},
        }
        i += 1;
    }
    assert(states@.take(states.len() as int) =~= states@);
    n
}

fn push_line(out: &mut Vec<char>, metric: &str, labels: &Vec<char>, extra: &str, value: &Vec<char>)
    ensures
        final(out)@ == old(out)@ + metric_line(metric@, labels@ + extra@, value@),
{
    let ghost o = out@;
    append_str(out, metric);
    append_str(out, "{");
    append_chars(out, labels);
    append_str(out, extra);
    append_str(out, "} ");
    append_chars(out, value);
    append_str(out, "\n");
    assert(out@ =~= o + metric_line(metric@, labels@ + extra@, value@));
}

fn label_chars(kind: &str, pool: &String, addr: Option<&String>) -> (r: Vec<char>)
    ensures
        r@ == match addr {
            Some(a) => backend_label(kind@, pool@, a@),
            None => pool_label(kind@, pool@),
        },
{
    let mut l: Vec<char> = Vec::new();
    append_str(&mut l, "pool=\"");
    append_str(&mut l, kind);
    append_str(&mut l, pool.as_str());
    append_str(&mut l, "\"");
    match addr {
        Some(a) => {
            append_str(&mut l, ",backend=\"");
            append_str(&mut l, a.as_str());
            append_str(&mut l, "\"");
            assert(l@ =~= backend_label(kind@, pool@, a@));
        },
        None => {
            assert(l@ =~= pool_label(kind@, pool@));
        },
    }
    l
}

fn bit_chars(b: bool) -> (r: Vec<char>)
    ensures
        r@ == bit(b),
{
    if b {
        chars_of("1")
    } else {
        chars_of("0")
    }
}

fn push_tcp_backend(out: &mut Vec<char>, pool: &String, b: &Backend)
    ensures
        final(out)@ == old(out)@ + tcp_backend_metrics(pool@, *b),
{
    let ghost o = out@;
    let l = label_chars("tcp:", pool, Some(b.addr()));
    push_line(out, "sdwanlite_backend_healthy", &l, "", &bit_chars(b.is_healthy()));
    assert(l@ + ""@ =~= l@) by {
        reveal_strlit("");
    }
    push_line(out, "sdwanlite_backend_conns", &l, ",kind=\"active\"", &crate::text::dec_chars(b.active_conns()));
    push_line(out, "sdwanlite_backend_conns", &l, ",kind=\"total\"", &crate::text::dec_chars(b.total_conns()));
    push_line(out, "sdwanlite_backend_bytes", &l, ",dir=\"rx\"", &crate::text::dec_chars(b.rx_bytes()));
    push_line(out, "sdwanlite_backend_bytes", &l, ",dir=\"tx\"", &crate::text::dec_chars(b.tx_bytes()));
    let ghost mid = out@;
    let (p50, p95) = b.latency_percentiles_us();
    match p50 {
        Some(v) => push_line(out, "sdwanlite_backend_latency_us", &l, ",quantile=\"p50\"", &crate::text::dec_chars(v)),
        None => {},
    }
    let ghost mid2 = out@;
    assert(mid2 =~= mid + latency_line(l@ + ",quantile=\"p50\""@, p50));
    match p95 {
        Some(v) => push_line(out, "sdwanlite_backend_latency_us", &l, ",quantile=\"p95\"", &crate::text::dec_chars(v)),
        None => {},
    }
    assert(out@ =~= mid2 + latency_line(l@ + ",quantile=\"p95\""@, p95));
    assert(out@ =~= o + tcp_backend_metrics(pool@, *b));
}

fn push_http_backend(out: &mut Vec<char>, pool: &String, b: &Backend)
    ensures
        final(out)@ == old(out)@ + http_backend_metrics(pool@, *b),
{
    let ghost o = out@;
    let l = label_chars("http:", pool, Some(b.addr()));
    push_line(out, "sdwanlite_backend_healthy", &l, "", &bit_chars(b.is_healthy()));
    assert(l@ + ""@ =~= l@) by {
        reveal_strlit("");
    }
    push_line(out, "sdwanlite_backend_conns", &l, ",kind=\"total\"", &crate::text::dec_chars(b.total_conns()));
    assert(out@ =~= o + http_backend_metrics(pool@, *b));
}

fn push_tcp_pool(out: &mut Vec<char>, p: &TcpPoolState)
    ensures
        final(out)@ == old(out)@ + tcp_pool_metrics(*p),
{
    let ghost o = out@;
    let name = p.name();
    let bs = p.backends();
    let mut i: usize = 0;
    while i < bs.len()
        invariant
            i <= bs@.len(),
            bs@ == p.members(),
            *name == p.pool_name(),
            out@ == o + tcp_backends_metrics(name@, bs@.take(i as int)),
        decreases bs.len() - i,
    {
        assert(bs@.take(i + 1).drop_last() =~= bs@.take(i as int));
        assert(bs@.take(i + 1).last() == bs@[i as int]);
        let ghost before = out@;
        push_tcp_backend(out, name, &bs[i]);
        assert(out@ =~= o + tcp_backends_metrics(name@, bs@.take(i + 1)));
        i += 1;
    }
    assert(bs@.take(bs.len() as int) =~= bs@);
    let ghost mid = out@;
    let l = label_chars("tcp:", name, None);
    assert(l@ + ""@ =~= l@) by {
        reveal_strlit("");
    }
    push_line(out, "sdwanlite_pool_rejected", &l, "", &crate::text::dec_chars(p.rejected_conns()));
    push_line(out, "sdwanlite_pool_active_conns", &l, "", &crate::text::dec_chars(p.active_conns() as u64));
    push_line(out, "sdwanlite_pool_max_conns", &l, "", &crate::text::dec_chars(p.max_conns() as u64));
    assert(out@ =~= o + tcp_pool_metrics(*p));
}

fn push_http_pool(out: &mut Vec<char>, p: &HttpPoolState)
    ensures
        final(out)@ == old(out)@ + http_routes_metrics(p.pool_name()@, p.route_list()),
{
    let ghost o = out@;
    let name = p.name();
    let rs = p.routes();
    let mut j: usize = 0;
    while j < rs.len()
        invariant
            j <= rs@.len(),
            rs@ == p.route_list(),
            *name == p.pool_name(),
            out@ == o + http_routes_metrics(name@, rs@.take(j as int)),
        decreases rs.len() - j,
    {
        assert(rs@.take(j + 1).drop_last() =~= rs@.take(j as int));
        assert(rs@.take(j + 1).last() == rs@[j as int]);
        let ghost at_route = out@;
        let bs = rs[j].backends();
        let mut i: usize = 0;
        while i < bs.len()
            invariant
                i <= bs@.len(),
                bs@ == rs@[j as int].members(),
                out@ == at_route + http_backends_metrics(name@, bs@.take(i as int)),
            decreases bs.len() - i,
        {
            assert(bs@.take(i + 1).drop_last() =~= bs@.take(i as int));
            assert(bs@.take(i + 1).last() == bs@[i as int]);
            push_http_backend(out, name, &bs[i]);
            assert(out@ =~= at_route + http_backends_metrics(name@, bs@.take(i + 1)));
            i += 1;
        }
        assert(bs@.take(bs.len() as int) =~= bs@);
        assert(out@ =~= o + http_routes_metrics(name@, rs@.take(j + 1)));
        j += 1;
    }
    assert(rs@.take(rs.len() as int) =~= rs@);
}

/// The exposition page for the pools, the RIB size, the number of
/// established sessions and the uptime.
#[verifier::rlimit(40)]
pub fn render_metrics(
    tcp: &Vec<TcpPoolState>,
    http: &Vec<HttpPoolState>,
    rib_routes: u64,
    established: u64,
    uptime_secs: u64,
) -> (r: String)
    ensures
        r@ == metrics_page(tcp@, http@, rib_routes, established, uptime_secs),
{
    let mut out: Vec<char> = Vec::new();
    append_str(&mut out, "# HELP sdwanlite_backend_healthy Backend reachability (1 healthy, 0 down).\n");
    append_str(&mut out, "# TYPE sdwanlite_backend_healthy gauge\n");
    append_str(&mut out, "# HELP sdwanlite_backend_conns Connection counters per backend.\n");
    append_str(&mut out, "# TYPE sdwanlite_backend_conns counter\n");
    append_str(&mut out, "# HELP sdwanlite_backend_latency_us Backend connect latency percentiles in microseconds.\n");
    append_str(&mut out, "# TYPE sdwanlite_backend_latency_us gauge\n");
    append_str(&mut out, "# HELP sdwanlite_pool_active_conns Active connections at pool level.\n");
    append_str(&mut out, "# TYPE sdwanlite_pool_active_conns gauge\n");
    append_str(&mut out, "# HELP sdwanlite_pool_max_conns Pool connection limit (0 = unlimited).\n");
    append_str(&mut out, "# TYPE sdwanlite_pool_max_conns gauge\n");
    assert(out@ =~= metrics_preamble());
    let ghost pre = out@;
    let mut i: usize = 0;
    while i < tcp.len()
        invariant
            i <= tcp@.len(),
            out@ == pre + tcp_pools_metrics(tcp@.take(i as int)),
        decreases tcp.len() - i,
    {
        assert(tcp@.take(i + 1).drop_last() =~= tcp@.take(i as int));
        assert(tcp@.take(i + 1).last() == tcp@[i as int]);
        push_tcp_pool(&mut out, &tcp[i]);
        assert(out@ =~= pre + tcp_pools_metrics(tcp@.take(i + 1)));
        i += 1;
    }
    assert(tcp@.take(tcp.len() as int) =~= tcp@);
    let ghost mid = out@;
    let mut k: usize = 0;
    while k < http.len()
        invariant
            k <= http@.len(),
            out@ == mid + http_pools_metrics(http@.take(k as int)),
        decreases http.len() - k,
    {
        assert(http@.take(k + 1).drop_last() =~= http@.take(k as int));
        assert(http@.take(k + 1).last() == http@[k as int]);
        push_http_pool(&mut out, &http[k]);
        assert(out@ =~= mid + http_pools_metrics(http@.take(k + 1)));
        k += 1;
    }
    assert(http@.take(http.len() as int) =~= http@);
    let ghost body = out@;
    append_str(&mut out, "# HELP sdwanlite_bgp_rib_routes Current best-path RIB size.\n# TYPE sdwanlite_bgp_rib_routes gauge\n");
    append_str(&mut out, "sdwanlite_bgp_rib_routes ");
    push_dec(&mut out, rib_routes);
    append_str(&mut out, "\n");
    append_str(&mut out, "# HELP sdwanlite_bgp_sessions_established Established BGP sessions.\n# TYPE sdwanlite_bgp_sessions_established gauge\n");
    append_str(&mut out, "sdwanlite_bgp_sessions_established ");
    push_dec(&mut out, established);
    append_str(&mut out, "\n");
    append_str(&mut out, "# HELP sdwanlite_uptime_seconds Process uptime in seconds.\n# TYPE sdwanlite_uptime_seconds counter\nsdwanlite_uptime_seconds ");
    push_dec(&mut out, uptime_secs);
    append_str(&mut out, "\n");
    assert(out@ =~= body + metrics_trailer(rib_routes, established, uptime_secs));
    assert(out@ =~= metrics_page(tcp@, http@, rib_routes, established, uptime_secs));
    string_from(&out)
}

} // verus!
