//! What the web dashboard derives from the daemon's answers: the uptime
//! text and the topology graph of the load balancers (a hub, one node per
//! TCP backend and per HTTP route, one edge from the hub to each).
use vstd::prelude::*;

use crate::config::algorithm_name;
use crate::lb::{Backend, TcpPoolState};
use crate::proxy::HttpPoolState;
use crate::text::{append_str, dec, push_dec, str_eq, string_from};

verus! {

broadcast use vstd::string::group_string_axioms;

/// `<h>h <m>m <s>s`.
pub open spec fn uptime_text(s: u64) -> Seq<char> {
    dec((s / 3600) as nat) + "h "@ + dec(((s % 3600) / 60) as nat) + "m "@ + dec((s % 60) as nat)
        + "s"@
}

pub fn fmt_uptime(s: u64) -> (r: String)
    ensures
        r@ == uptime_text(s),
{
    let mut out: Vec<char> = Vec::new();
    push_dec(&mut out, s / 3600);
    append_str(&mut out, "h ");
    push_dec(&mut out, (s % 3600) / 60);
    append_str(&mut out, "m ");
    push_dec(&mut out, s % 60);
    append_str(&mut out, "s");
    assert(out@ =~= uptime_text(s));
    string_from(&out)
}

// ---------------------------------------------------------------------------
// The load balancer summary the dashboard reads
// ---------------------------------------------------------------------------

#[derive(Debug, Clone)]
pub struct BackendView {
    pub addr: String,
    pub healthy: bool,
    pub active_conns: u64,
    pub total_conns: u64,
}

#[derive(Debug, Clone)]
pub struct TcpPoolView {
    pub name: String,
    pub algorithm: String,
    pub active_conns: u64,
    pub rejected_conns: u64,
    pub backends: Vec<BackendView>,
}

#[derive(Debug, Clone)]
pub struct HttpRouteView {
    pub host: String,
    pub path_prefix: String,
    pub backends: usize,
}

/// What the daemon reports of its load balancers.
#[derive(Debug, Clone)]
pub struct LbData {
    pub tcp: Vec<TcpPoolView>,
    pub http: Vec<HttpPoolView>,
}

#[derive(Debug, Clone)]
pub struct HttpPoolView {
    pub name: String,
    pub routes: Vec<HttpRouteView>,
}

// ---------------------------------------------------------------------------
// The graph
// ---------------------------------------------------------------------------

/// How a node is drawn.
#[derive(Debug, Clone, Copy, PartialEq, Eq, Structural)]
pub enum NodeKind {
    Hub,
    Healthy,
    Down,
    Http,
}

pub open spec fn kind_name(k: NodeKind) -> Seq<char> {
    match k {
        NodeKind::Hub => "hub"@,
        NodeKind::Healthy => "ok"@,
        NodeKind::Down => "down"@,
        NodeKind::Http => "http"@,
    }
}

impl NodeKind {
    pub fn as_str(&self) -> (r: &'static str)
        ensures
            r@ == kind_name(*self),
    {
        match self {
            NodeKind::Hub => "hub",
            NodeKind::Healthy => "ok",
            NodeKind::Down => "down",
            NodeKind::Http => "http",
        }
    }
}

/// The colour of a node kind by its name; unknown kinds are grey.
pub open spec fn kind_color(kind: Seq<char>) -> Seq<char> {
    if kind == "hub"@ {
        "#00d2ff"@
    } else if kind == "ok"@ {
        "#34d399"@
    } else if kind == "down"@ {
        "#f87171"@
    } else if kind == "http"@ {
        "#a78bfa"@
    } else {
        "#8b98a5"@
    }
}

pub fn topo_color(kind: &str) -> (r: &'static str)
    ensures
        r@ == kind_color(kind@),
{
    if str_eq(kind, "hub") {
        "#00d2ff"
    } else if str_eq(kind, "ok") {
        "#34d399"
    } else if str_eq(kind, "down") {
        "#f87171"
    } else if str_eq(kind, "http") {
        "#a78bfa"
    } else {
        "#8b98a5"
    }
}

/// A node without its position.
#[derive(Debug, Clone)]
pub struct TopoNode {
    pub id: String,
    pub label: String,
    pub kind: NodeKind,
    pub sub: String,
}

#[derive(Debug, Clone)]
pub struct TopoEdge {
    pub from: String,
    pub to: String,
    pub label: String,
    pub color: String,
}

/// (id, label, kind, sub)
pub type NodeView = (Seq<char>, Seq<char>, NodeKind, Seq<char>);

/// (from, to, label, colour)
pub type EdgeView = (Seq<char>, Seq<char>, Seq<char>, Seq<char>);

pub open spec fn node_view(n: TopoNode) -> NodeView {
    (n.id@, n.label@, n.kind, n.sub@)
}

pub open spec fn edge_view(e: TopoEdge) -> EdgeView {
    (e.from@, e.to@, e.label@, e.color@)
}

pub open spec fn node_views(s: Seq<TopoNode>) -> Seq<NodeView> {
    s.map_values(|n: TopoNode| node_view(n))
}

pub open spec fn edge_views(s: Seq<TopoEdge>) -> Seq<EdgeView> {
    s.map_values(|e: TopoEdge| edge_view(e))
}

pub open spec fn hub_node() -> NodeView {
    ("hub"@, "sdwanlite"@, NodeKind::Hub, Seq::empty())
}

pub open spec fn tcp_node(pool: Seq<char>, b: BackendView) -> NodeView {
    (
        "tcp:"@ + pool + ":"@ + b.addr@,
        b.addr@,
        if b.healthy {
            NodeKind::Healthy
        } else {
            NodeKind::Down
        },
        pool,
    )
}

pub open spec fn tcp_edge(pool: Seq<char>, b: BackendView) -> EdgeView {
    (
        "hub"@,
        "tcp:"@ + pool + ":"@ + b.addr@,
        pool,
        if b.healthy {
            "#34d399"@
        } else {
            "#f87171"@
        },
    )
}

pub open spec fn route_label(r: HttpRouteView) -> Seq<char> {
    (if r.host@.len() == 0 {
        "*"@
    } else {
        r.host@
    }) + r.path_prefix@
}

pub open spec fn http_node(pool: Seq<char>, r: HttpRouteView) -> NodeView {
    ("http:"@ + pool + ":"@ + r.path_prefix@, route_label(r), NodeKind::Http, pool)
}

pub open spec fn http_edge(pool: Seq<char>, r: HttpRouteView) -> EdgeView {
    ("hub"@, "http:"@ + pool + ":"@ + r.path_prefix@, pool, "#00d2ff"@)
}

/// The graph of the TCP pools: per pool, per backend, a node and an edge.
pub open spec fn tcp_graph(ps: Seq<TcpPoolView>) -> (Seq<NodeView>, Seq<EdgeView>)
    decreases ps.len(),
{
    if ps.len() == 0 {
        (Seq::empty(), Seq::empty())
    } else {
        let g = tcp_graph(ps.drop_last());
        let p = ps.last();
        (
            g.0 + p.backends@.map_values(|b: BackendView| tcp_node(p.name@, b)),
            g.1 + p.backends@.map_values(|b: BackendView| tcp_edge(p.name@, b)),
        )
    }
}

/// The graph of the HTTP pools: per pool, per route, a node and an edge.
pub open spec fn http_graph(ps: Seq<HttpPoolView>) -> (Seq<NodeView>, Seq<EdgeView>)
    decreases ps.len(),
{
    if ps.len() == 0 {
        (Seq::empty(), Seq::empty())
    } else {
        let g = http_graph(ps.drop_last());
        let p = ps.last();
        (
            g.0 + p.routes@.map_values(|r: HttpRouteView| http_node(p.name@, r)),
            g.1 + p.routes@.map_values(|r: HttpRouteView| http_edge(p.name@, r)),
        )
    }
}

/// The hub first, then the TCP nodes, then the HTTP nodes; edges in the same
/// order.
pub open spec fn topology_spec(tcp: Seq<TcpPoolView>, http: Seq<HttpPoolView>) -> (
    Seq<NodeView>,
    Seq<EdgeView>,
) {
    (seq![hub_node()] + tcp_graph(tcp).0 + http_graph(http).0, tcp_graph(tcp).1 + http_graph(http).1)
}

fn node_id(kind: &str, pool: &String, tail: &String) -> (r: String)
    ensures
        r@ == kind@ + pool@ + ":"@ + tail@,
{
    let mut v: Vec<char> = Vec::new();
    append_str(&mut v, kind);
    append_str(&mut v, pool.as_str());
    append_str(&mut v, ":");
    append_str(&mut v, tail.as_str());
    assert(v@ =~= kind@ + pool@ + ":"@ + tail@);
    string_from(&v)
}

fn route_label_text(r: &HttpRouteView) -> (s: String)
    ensures
        s@ == route_label(*r),
{
    let mut v: Vec<char> = Vec::new();
    if r.host.as_str().is_empty() {
        append_str(&mut v, "*");
    } else {
        append_str(&mut v, r.host.as_str());
    }
    append_str(&mut v, r.path_prefix.as_str());
    string_from(&v)
}

pub fn build_topology(tcp: &Vec<TcpPoolView>, http: &Vec<HttpPoolView>) -> (r: (
    Vec<TopoNode>,
    Vec<TopoEdge>,
))
    ensures
        (node_views(r.0@), edge_views(r.1@)) == topology_spec(tcp@, http@),
{
    let mut nodes: Vec<TopoNode> = Vec::new();
    let mut edges: Vec<TopoEdge> = Vec::new();
    nodes.push(
        TopoNode {
            id: String::from_str("hub"),
            label: String::from_str("sdwanlite"),
            kind: NodeKind::Hub,
            sub: String::new(),
        },
    );
    assert(node_views(nodes@) =~= seq![hub_node()]);
    assert(edge_views(edges@) =~= Seq::<EdgeView>::empty());
    let mut i: usize = 0;
    while i < tcp.len()
        invariant
            i <= tcp@.len(),
            node_views(nodes@) == seq![hub_node()] + tcp_graph(tcp@.take(i as int)).0,
            edge_views(edges@) == tcp_graph(tcp@.take(i as int)).1,
        decreases tcp.len() - i,
    {
        assert(tcp@.take(i + 1).drop_last() =~= tcp@.take(i as int));
        assert(tcp@.take(i + 1).last() == tcp@[i as int]);
        let p = &tcp[i];
        let ghost n0 = node_views(nodes@);
        let ghost e0 = edge_views(edges@);
        let mut j: usize = 0;
        while j < p.backends.len()
            invariant
                j <= p.backends@.len(),
                node_views(nodes@) == n0 + p.backends@.take(j as int).map_values(
                    |b: BackendView| tcp_node(p.name@, b),
                ),
                edge_views(edges@) == e0 + p.backends@.take(j as int).map_values(
                    |b: BackendView| tcp_edge(p.name@, b),
                ),
            decreases p.backends.len() - j,
        {
            let b = &p.backends[j];
            let id = node_id("tcp:", &p.name, &b.addr);
            let ghost nb = node_views(nodes@);
            let ghost eb = edge_views(edges@);
            nodes.push(
                TopoNode {
                    id: id.clone(),
                    label: b.addr.clone(),
                    kind: if b.healthy {
                        NodeKind::Healthy
                    } else {
                        NodeKind::Down
                    },
                    sub: p.name.clone(),
                },
            );
            edges.push(
                TopoEdge {
                    from: String::from_str("hub"),
                    to: id,
                    label: p.name.clone(),
                    color: if b.healthy {
                        String::from_str("#34d399")
                    } else {
                        String::from_str("#f87171")
                    },
                },
            );
            proof {
                assert(node_views(nodes@) =~= nb.push(tcp_node(p.name@, *b)));
                assert(edge_views(edges@) =~= eb.push(tcp_edge(p.name@, *b)));
                assert(p.backends@.take(j + 1).map_values(|b: BackendView| tcp_node(p.name@, b))
                    =~= p.backends@.take(j as int).map_values(
                    |b: BackendView| tcp_node(p.name@, b),
                ).push(tcp_node(p.name@, *b)));
                assert(p.backends@.take(j + 1).map_values(|b: BackendView| tcp_edge(p.name@, b))
                    =~= p.backends@.take(j as int).map_values(
                    |b: BackendView| tcp_edge(p.name@, b),
                ).push(tcp_edge(p.name@, *b)));
            }
            j += 1;
        }
        assert(p.backends@.take(p.backends.len() as int) =~= p.backends@);
        assert(node_views(nodes@) =~= seq![hub_node()] + tcp_graph(tcp@.take(i + 1)).0);
        assert(edge_views(edges@) =~= tcp_graph(tcp@.take(i + 1)).1);
        i += 1;
    }
    assert(tcp@.take(tcp.len() as int) =~= tcp@);
    let ghost n1 = node_views(nodes@);
    let ghost e1 = edge_views(edges@);
    let mut k: usize = 0;
    while k < http.len()
        invariant
            k <= http@.len(),
            node_views(nodes@) == n1 + http_graph(http@.take(k as int)).0,
            edge_views(edges@) == e1 + http_graph(http@.take(k as int)).1,
        decreases http.len() - k,
    {
        assert(http@.take(k + 1).drop_last() =~= http@.take(k as int));
        assert(http@.take(k + 1).last() == http@[k as int]);
        let p = &http[k];
        let ghost n0 = node_views(nodes@);
        let ghost e0 = edge_views(edges@);
        let mut j: usize = 0;
        while j < p.routes.len()
            invariant
                j <= p.routes@.len(),
                node_views(nodes@) == n0 + p.routes@.take(j as int).map_values(
                    |r: HttpRouteView| http_node(p.name@, r),
                ),
                edge_views(edges@) == e0 + p.routes@.take(j as int).map_values(
                    |r: HttpRouteView| http_edge(p.name@, r),
                ),
            decreases p.routes.len() - j,
        {
            let r = &p.routes[j];
            let id = node_id("http:", &p.name, &r.path_prefix);
            let ghost nb = node_views(nodes@);
            let ghost eb = edge_views(edges@);
            nodes.push(
                TopoNode {
                    id: id.clone(),
                    label: route_label_text(r),
                    kind: NodeKind::Http,
                    sub: p.name.clone(),
                },
            );
            edges.push(
                TopoEdge {
                    from: String::from_str("hub"),
                    to: id,
                    label: p.name.clone(),
                    color: String::from_str("#00d2ff"),
                },
            );
            proof {
                assert(node_views(nodes@) =~= nb.push(http_node(p.name@, *r)));
                assert(edge_views(edges@) =~= eb.push(http_edge(p.name@, *r)));
                assert(p.routes@.take(j + 1).map_values(|r: HttpRouteView| http_node(p.name@, r))
                    =~= p.routes@.take(j as int).map_values(
                    |r: HttpRouteView| http_node(p.name@, r),
                ).push(http_node(p.name@, *r)));
                assert(p.routes@.take(j + 1).map_values(|r: HttpRouteView| http_edge(p.name@, r))
                    =~= p.routes@.take(j as int).map_values(
                    |r: HttpRouteView| http_edge(p.name@, r),
                ).push(http_edge(p.name@, *r)));
            }
            j += 1;
        }
        assert(p.routes@.take(p.routes.len() as int) =~= p.routes@);
        assert(node_views(nodes@) =~= n1 + http_graph(http@.take(k + 1)).0);
        assert(edge_views(edges@) =~= e1 + http_graph(http@.take(k + 1)).1);
        k += 1;
    }
    assert(http@.take(http.len() as int) =~= http@);
    (nodes, edges)
}


// ---------------------------------------------------------------------------
// Page chrome
// ---------------------------------------------------------------------------

/// Heading of a dashboard tab; unknown tabs show the overview.
pub open spec fn tab_title_spec(tab: Seq<char>) -> Seq<char> {
    if tab == "topology"@ {
        "Network Topology"@
    } else if tab == "mesh"@ {
        "WireGuard Mesh"@
    } else if tab == "bgp"@ {
        "BGP"@
    } else if tab == "lb"@ {
        "Load Balancers"@
    } else if tab == "actions"@ {
        "Quick Actions"@
    } else {
        "Dashboard Overview"@
    }
}

pub fn tab_title(tab: &str) -> (r: &'static str)
    ensures
        r@ == tab_title_spec(tab@),
{
    if str_eq(tab, "topology") {
        "Network Topology"
    } else if str_eq(tab, "mesh") {
        "WireGuard Mesh"
    } else if str_eq(tab, "bgp") {
        "BGP"
    } else if str_eq(tab, "lb") {
        "Load Balancers"
    } else if str_eq(tab, "actions") {
        "Quick Actions"
    } else {
        "Dashboard Overview"
    }
}

/// The theme toggle: dark becomes light, anything else becomes dark.
pub fn next_theme(theme: &str) -> (r: &'static str)
    ensures
        r@ == (if theme@ == "dark"@ {
            "light"@
        } else {
            "dark"@
        }),
{
    if str_eq(theme, "dark") {
        "light"
    } else {
        "dark"
    }
}

/// Most RIB sizes the history keeps.
pub const RIB_HISTORY_LEN: usize = 60;

/// The RIB size history after one more sample: the oldest sample leaves once
/// there are more than [`RIB_HISTORY_LEN`].
pub fn push_rib_history(hist: &mut Vec<usize>, count: usize)
    ensures
        final(hist)@ == (if old(hist)@.len() + 1 > RIB_HISTORY_LEN {
            old(hist)@.push(count).drop_first()
        } else {
            old(hist)@.push(count)
        }),
{
    hist.push(count);
    if hist.len() > RIB_HISTORY_LEN {
        let ghost h = hist@;
        hist.remove(0);
        assert(hist@ =~= h.drop_first());
    }
}

// ---------------------------------------------------------------------------
// Mesh peers panel
// ---------------------------------------------------------------------------

#[derive(Debug, Clone)]
pub struct WgPeerView {
    pub public_key: String,
    pub endpoint: Option<String>,
    pub allowed_ips: Vec<String>,
    pub latest_handshake_secs_ago: Option<u64>,
    pub rx_bytes: u64,
    pub tx_bytes: u64,
}

#[derive(Debug, Clone)]
pub struct MeshStatus {
    pub available: bool,
    pub peers: Vec<WgPeerView>,
    pub error: Option<String>,
}

pub open spec fn handshake_cell(h: Option<u64>) -> Seq<char> {
    match h {
        Some(s) => dec(s as nat) + "s ago"@,
        None => "<span class='pill warn'>never</span>"@,
    }
}

pub open spec fn peer_row(p: WgPeerView) -> Seq<char> {
    "<tr><td class='mono'>"@ + p.public_key@.take(
        if p.public_key@.len() < 14 {
            p.public_key@.len() as int
        } else {
            14
        },
    ) + "\u{2026}</td><td>"@ + (match p.endpoint {
        Some(e) => e@,
        None => "\u{2014}"@,
    }) + "</td><td>"@ + dec(p.rx_bytes as nat) + " / "@ + dec(p.tx_bytes as nat) + "</td><td>"@
        + handshake_cell(p.latest_handshake_secs_ago) + "</td></tr>"@
}

pub open spec fn peer_rows(ps: Seq<WgPeerView>) -> Seq<char>
    decreases ps.len(),
{
    if ps.len() == 0 {
        Seq::empty()
    } else {
        peer_rows(ps.drop_last()) + peer_row(ps.last())
    }
}

/// The live peers panel of the mesh tab, as HTML.
pub open spec fn mesh_panel_spec(m: Result<MeshStatus, Seq<char>>) -> Seq<char> {
    match m {
        Ok(w) => if !w.available {
            "<div style='color:var(--muted);font-size:13px'>wg tools unavailable on this host \u{2014} config rendering &amp; keypair APIs still work</div>"@
        } else if peer_rows(w.peers@).len() == 0 {
            "<div style='color:var(--muted);font-size:13px'>no peers</div>"@
        } else {
            "<table><thead><tr><th>Public key</th><th>Endpoint</th><th>RX / TX</th><th>Handshake</th></tr></thead><tbody>"@
                + peer_rows(w.peers@) + "</tbody></table>"@
        },
        Err(e) => "<div style='color:var(--red);font-size:13px'>"@ + e + "</div>"@,
    }
}

fn push_peer_row(out: &mut Vec<char>, p: &WgPeerView)
    ensures
        final(out)@ == old(out)@ + peer_row(*p),
{
    let ghost o = out@;
    let key = crate::text::chars_of(p.public_key.as_str());
    let n: usize = if key.len() < 14 {
        key.len()
    } else {
        14
    };
    let head = crate::text::slice_chars(&key, 0, n);
    append_str(out, "<tr><td class='mono'>");
    crate::text::append_chars(out, &head);
    append_str(out, "\u{2026}</td><td>");
    match &p.endpoint {
        Some(e) => append_str(out, e.as_str()),
        None => append_str(out, "\u{2014}"),
    }
    append_str(out, "</td><td>");
    push_dec(out, p.rx_bytes);
    append_str(out, " / ");
    push_dec(out, p.tx_bytes);
    append_str(out, "</td><td>");
    match p.latest_handshake_secs_ago {
        Some(s) => {
            push_dec(out, s);
            append_str(out, "s ago");
        },
        None => append_str(out, "<span class='pill warn'>never</span>"),
    }
    append_str(out, "</td></tr>");
    assert(head@ =~= p.public_key@.take(n as int));
    assert(out@ =~= o + peer_row(*p));
}

pub fn mesh_panel_html(m: &Result<MeshStatus, String>) -> (r: String)
    ensures
        r@ == mesh_panel_spec(
            match m {
                Ok(w) => Ok(*w),
                Err(e) => Err(e@),
            },
        ),
{
    let mut out: Vec<char> = Vec::new();
    match m {
        Ok(w) => {
            if !w.available {
                append_str(
                    &mut out,
                    "<div style='color:var(--muted);font-size:13px'>wg tools unavailable on this host \u{2014} config rendering &amp; keypair APIs still work</div>",
                );
                return string_from(&out);
            }
            let mut rows: Vec<char> = Vec::new();
            let mut i: usize = 0;
            while i < w.peers.len()
                invariant
                    i <= w.peers@.len(),
                    rows@ == peer_rows(w.peers@.take(i as int)),
                decreases w.peers.len() - i,
            {
                assert(w.peers@.take(i + 1).drop_last() =~= w.peers@.take(i as int));
                assert(w.peers@.take(i + 1).last() == w.peers@[i as int]);
                push_peer_row(&mut rows, &w.peers[i]);
                i += 1;
            }
            assert(w.peers@.take(w.peers.len() as int) =~= w.peers@);
            if rows.len() == 0 {
                append_str(&mut out, "<div style='color:var(--muted);font-size:13px'>no peers</div>");
            } else {
                append_str(
                    &mut out,
                    "<table><thead><tr><th>Public key</th><th>Endpoint</th><th>RX / TX</th><th>Handshake</th></tr></thead><tbody>",
                );
                crate::text::append_chars(&mut out, &rows);
                append_str(&mut out, "</tbody></table>");
            }
        },
        Err(e) => {
            append_str(&mut out, "<div style='color:var(--red);font-size:13px'>");
            append_str(&mut out, e.as_str());
            append_str(&mut out, "</div>");
        },
    }
    string_from(&out)
}

// ---------------------------------------------------------------------------
// BGP tab
// ---------------------------------------------------------------------------

/// A BGP session as the BGP tab lists it.
pub struct BgpSessionView {
    pub neighbor: String,
    pub state: String,
    pub remote_as: Option<u32>,
    pub prefixes_received: u64,
    pub flaps: u64,
}

/// A RIB route as the BGP tab lists it.
pub struct RibRouteView {
    pub prefix: String,
    pub neighbor: String,
    pub as_path_len: Option<u64>,
    pub best: bool,
}

/// A status pill: green with `text` when `ok`, red otherwise.
pub open spec fn pill_spec(ok: bool, text: Seq<char>) -> Seq<char> {
    (if ok {
        "<span class='pill ok'>"@
    } else {
        "<span class='pill bad'>"@
    }) + text + "</span>"@
}

pub open spec fn session_row(x: BgpSessionView) -> Seq<char> {
    "<tr><td class='mono'>"@ + x.neighbor@ + "</td><td>"@ + (match x.remote_as {
        Some(a) => "AS"@ + dec(a as nat),
        None => "\u{2014}"@,
    }) + "</td><td>"@ + pill_spec(x.state@ == "established"@, x.state@) + "</td><td>"@ + dec(
        x.prefixes_received as nat,
    ) + "</td><td>"@ + dec(x.flaps as nat) + "</td></tr>"@
}

pub open spec fn session_rows(xs: Seq<BgpSessionView>) -> Seq<char>
    decreases xs.len(),
{
    if xs.len() == 0 {
        Seq::empty()
    } else {
        session_rows(xs.drop_last()) + session_row(xs.last())
    }
}

/// The body rows of the sessions table.
pub open spec fn sessions_html_spec(s: Result<Seq<BgpSessionView>, Seq<char>>) -> Seq<char> {
    match s {
        Ok(xs) => if xs.len() == 0 {
            "<tr><td colspan='5' style='color:var(--muted)'>no sessions</td></tr>"@
        } else {
            session_rows(xs)
        },
        Err(e) => "<tr><td colspan='5' style='color:var(--red)'>"@ + e + "</td></tr>"@,
    }
}

pub open spec fn rib_row(r: RibRouteView) -> Seq<char> {
    "<tr><td class='mono'>"@ + r.prefix@ + "</td><td>"@ + r.neighbor@ + "</td><td>"@ + (match r.as_path_len {
        Some(l) => dec(l as nat),
        None => "\u{2014}"@,
    }) + "</td><td>"@ + (if r.best {
        "<span class='pill ok'>best</span>"@
    } else {
        Seq::empty()
    }) + "</td></tr>"@
}

pub open spec fn rib_rows(rs: Seq<RibRouteView>) -> Seq<char>
    decreases rs.len(),
{
    if rs.len() == 0 {
        Seq::empty()
    } else {
        rib_rows(rs.drop_last()) + rib_row(rs.last())
    }
}

/// The body rows of the RIB table.
pub open spec fn rib_html_spec(r: Result<Seq<RibRouteView>, Seq<char>>) -> Seq<char> {
    match r {
        Ok(rs) => if rs.len() == 0 {
            "<tr><td colspan='4' style='color:var(--muted)'>empty</td></tr>"@
        } else {
            rib_rows(rs)
        },
        Err(e) => "<tr><td colspan='4' style='color:var(--red)'>"@ + e + "</td></tr>"@,
    }
}

fn push_session_row(out: &mut Vec<char>, x: &BgpSessionView)
    ensures
        final(out)@ == old(out)@ + session_row(*x),
{
    let ghost o = out@;
    append_str(out, "<tr><td class='mono'>");
    append_str(out, x.neighbor.as_str());
    append_str(out, "</td><td>");
    match x.remote_as {
        Some(a) => {
            append_str(out, "AS");
            push_dec(out, a as u64);
        },
        None => append_str(out, "\u{2014}"),
    }
    append_str(out, "</td><td>");
    let up = str_eq(x.state.as_str(), "established");
    if up {
        append_str(out, "<span class='pill ok'>");
    } else {
        append_str(out, "<span class='pill bad'>");
    }
    append_str(out, x.state.as_str());
    append_str(out, "</span>");
    append_str(out, "</td><td>");
    push_dec(out, x.prefixes_received);
    append_str(out, "</td><td>");
    push_dec(out, x.flaps);
    append_str(out, "</td></tr>");
    assert(out@ =~= o + session_row(*x));
}

fn push_rib_row(out: &mut Vec<char>, r: &RibRouteView)
    ensures
        final(out)@ == old(out)@ + rib_row(*r),
{
    let ghost o = out@;
    append_str(out, "<tr><td class='mono'>");
    append_str(out, r.prefix.as_str());
    append_str(out, "</td><td>");
    append_str(out, r.neighbor.as_str());
    append_str(out, "</td><td>");
    match r.as_path_len {
        Some(l) => push_dec(out, l),
        None => append_str(out, "\u{2014}"),
    }
    append_str(out, "</td><td>");
    if r.best {
        append_str(out, "<span class='pill ok'>best</span>");
    }
    append_str(out, "</td></tr>");
    assert(out@ =~= o + rib_row(*r));
}

/// The rows of the BGP tab's sessions table: neighbor, `AS<n>` or a dash,
/// the state in a pill (green when established), prefixes received, flaps.
pub fn bgp_sessions_html(s: &Result<Vec<BgpSessionView>, String>) -> (r: String)
    ensures
        r@ == sessions_html_spec(
            match s {
                Ok(v) => Ok(v@),
                Err(e) => Err(e@),
            },
        ),
{
    let mut out: Vec<char> = Vec::new();
    match s {
        Ok(v) => {
            if v.len() == 0 {
                append_str(&mut out, "<tr><td colspan='5' style='color:var(--muted)'>no sessions</td></tr>");
            } else {
                let mut i: usize = 0;
                while i < v.len()
                    invariant
                        i <= v@.len(),
                        out@ == session_rows(v@.take(i as int)),
                    decreases v.len() - i,
                {
                    assert(v@.take(i + 1).drop_last() =~= v@.take(i as int));
                    assert(v@.take(i + 1).last() == v@[i as int]);
                    push_session_row(&mut out, &v[i]);
                    i += 1;
                }
                assert(v@.take(v.len() as int) =~= v@);
            }
        },
        Err(e) => {
            append_str(&mut out, "<tr><td colspan='5' style='color:var(--red)'>");
            append_str(&mut out, e.as_str());
            append_str(&mut out, "</td></tr>");
        },
    }
    string_from(&out)
}

/// The rows of the BGP tab's RIB table: prefix, neighbor, AS-path length or
/// a dash, and a `best` pill on best routes.
pub fn rib_table_html(r: &Result<Vec<RibRouteView>, String>) -> (out_text: String)
    ensures
        out_text@ == rib_html_spec(
            match r {
                Ok(v) => Ok(v@),
                Err(e) => Err(e@),
            },
        ),
{
    let mut out: Vec<char> = Vec::new();
    match r {
        Ok(v) => {
            if v.len() == 0 {
                append_str(&mut out, "<tr><td colspan='4' style='color:var(--muted)'>empty</td></tr>");
            } else {
                let mut i: usize = 0;
                while i < v.len()
                    invariant
                        i <= v@.len(),
                        out@ == rib_rows(v@.take(i as int)),
                    decreases v.len() - i,
                {
                    assert(v@.take(i + 1).drop_last() =~= v@.take(i as int));
                    assert(v@.take(i + 1).last() == v@[i as int]);
                    push_rib_row(&mut out, &v[i]);
                    i += 1;
                }
                assert(v@.take(v.len() as int) =~= v@);
            }
        },
        Err(e) => {
            append_str(&mut out, "<tr><td colspan='4' style='color:var(--red)'>");
            append_str(&mut out, e.as_str());
            append_str(&mut out, "</td></tr>");
        },
    }
    string_from(&out)
}

// ---------------------------------------------------------------------------
// Load balancer tables
// ---------------------------------------------------------------------------

pub open spec fn health_pill(healthy: bool) -> Seq<char> {
    if healthy {
        "<span class='pill ok'>healthy</span>"@
    } else {
        "<span class='pill bad'>down</span>"@
    }
}

pub open spec fn tcp_row(p: TcpPoolView, b: BackendView) -> Seq<char> {
    "<tr><td>"@ + p.name@ + "</td><td>"@ + p.algorithm@ + "</td><td class='mono'>"@ + b.addr@
        + "</td><td>"@ + health_pill(b.healthy) + "</td><td>"@ + dec(b.active_conns as nat)
        + "</td><td>"@ + dec(b.total_conns as nat) + "</td><td>"@ + dec(p.active_conns as nat)
        + "</td><td>"@ + dec(p.rejected_conns as nat) + "</td></tr>"@
}

pub open spec fn tcp_rows(p: TcpPoolView, bs: Seq<BackendView>) -> Seq<char>
    decreases bs.len(),
{
    if bs.len() == 0 {
        Seq::empty()
    } else {
        tcp_rows(p, bs.drop_last()) + tcp_row(p, bs.last())
    }
}

pub open spec fn tcp_pools_rows(ps: Seq<TcpPoolView>) -> Seq<char>
    decreases ps.len(),
{
    if ps.len() == 0 {
        Seq::empty()
    } else {
        tcp_pools_rows(ps.drop_last()) + tcp_rows(ps.last(), ps.last().backends@)
    }
}

pub open spec fn http_row(pool: Seq<char>, r: HttpRouteView) -> Seq<char> {
    "<tr><td>"@ + pool + "</td><td>"@ + (if r.host@.len() == 0 {
        "*"@
    } else {
        r.host@
    }) + "</td><td class='mono'>"@ + r.path_prefix@ + "</td><td>"@ + dec(r.backends as nat)
        + "</td></tr>"@
}

pub open spec fn http_rows(pool: Seq<char>, rs: Seq<HttpRouteView>) -> Seq<char>
    decreases rs.len(),
{
    if rs.len() == 0 {
        Seq::empty()
    } else {
        http_rows(pool, rs.drop_last()) + http_row(pool, rs.last())
    }
}

pub open spec fn http_pools_rows(ps: Seq<HttpPoolView>) -> Seq<char>
    decreases ps.len(),
{
    if ps.len() == 0 {
        Seq::empty()
    } else {
        http_pools_rows(ps.drop_last()) + http_rows(ps.last().name@, ps.last().routes@)
    }
}

/// The load balancer tab, as HTML.
pub open spec fn lb_page_spec(tcp: Seq<TcpPoolView>, http: Seq<HttpPoolView>) -> Seq<char> {
    "<h3>TCP Pools</h3><table><thead><tr><th>Pool</th><th>Algorithm</th><th>Backend</th><th>Health</th><th>Active</th><th>Total</th><th>Pool active</th><th>Rejected</th></tr></thead><tbody>"@
        + tcp_pools_rows(tcp)
        + "</tbody></table><h3>HTTP Pools</h3><table><thead><tr><th>Pool</th><th>Host</th><th>Path prefix</th><th>Backends</th></tr></thead><tbody>"@
        + http_pools_rows(http) + "</tbody></table>"@
}

fn push_tcp_row(out: &mut Vec<char>, p: &TcpPoolView, b: &BackendView)
    ensures
        final(out)@ == old(out)@ + tcp_row(*p, *b),
{
    let ghost o = out@;
    append_str(out, "<tr><td>");
    append_str(out, p.name.as_str());
    append_str(out, "</td><td>");
    append_str(out, p.algorithm.as_str());
    append_str(out, "</td><td class='mono'>");
    append_str(out, b.addr.as_str());
    append_str(out, "</td><td>");
    if b.healthy {
        append_str(out, "<span class='pill ok'>healthy</span>");
    } else {
        append_str(out, "<span class='pill bad'>down</span>");
    }
    append_str(out, "</td><td>");
    push_dec(out, b.active_conns);
    append_str(out, "</td><td>");
    push_dec(out, b.total_conns);
    append_str(out, "</td><td>");
    push_dec(out, p.active_conns);
    append_str(out, "</td><td>");
    push_dec(out, p.rejected_conns);
    append_str(out, "</td></tr>");
    assert(out@ =~= o + tcp_row(*p, *b));
}

fn push_http_row(out: &mut Vec<char>, pool: &String, r: &HttpRouteView)
    ensures
        final(out)@ == old(out)@ + http_row(pool@, *r),
{
    let ghost o = out@;
    append_str(out, "<tr><td>");
    append_str(out, pool.as_str());
    append_str(out, "</td><td>");
    if r.host.as_str().is_empty() {
        append_str(out, "*");
    } else {
        append_str(out, r.host.as_str());
    }
    append_str(out, "</td><td class='mono'>");
    append_str(out, r.path_prefix.as_str());
    append_str(out, "</td><td>");
    push_dec(out, r.backends as u64);
    append_str(out, "</td></tr>");
    assert(out@ =~= o + http_row(pool@, *r));
}

pub fn lb_page_html(tcp: &Vec<TcpPoolView>, http: &Vec<HttpPoolView>) -> (r: String)
    ensures
        r@ == lb_page_spec(tcp@, http@),
{
    let mut t: Vec<char> = Vec::new();
    let mut i: usize = 0;
    while i < tcp.len()
        invariant
            i <= tcp@.len(),
            t@ == tcp_pools_rows(tcp@.take(i as int)),
        decreases tcp.len() - i,
    {
        assert(tcp@.take(i + 1).drop_last() =~= tcp@.take(i as int));
        assert(tcp@.take(i + 1).last() == tcp@[i as int]);
        let p = &tcp[i];
        let ghost t0 = t@;
        let mut j: usize = 0;
        while j < p.backends.len()
            invariant
                j <= p.backends@.len(),
                t@ == t0 + tcp_rows(*p, p.backends@.take(j as int)),
            decreases p.backends.len() - j,
        {
            assert(p.backends@.take(j + 1).drop_last() =~= p.backends@.take(j as int));
            assert(p.backends@.take(j + 1).last() == p.backends@[j as int]);
            push_tcp_row(&mut t, p, &p.backends[j]);
            assert(t@ =~= t0 + tcp_rows(*p, p.backends@.take(j + 1)));
            j += 1;
        }
        assert(p.backends@.take(p.backends.len() as int) =~= p.backends@);
        i += 1;
    }
    assert(tcp@.take(tcp.len() as int) =~= tcp@);
    let mut h: Vec<char> = Vec::new();
    let mut k: usize = 0;
    while k < http.len()
        invariant
            k <= http@.len(),
            h@ == http_pools_rows(http@.take(k as int)),
        decreases http.len() - k,
    {
        assert(http@.take(k + 1).drop_last() =~= http@.take(k as int));
        assert(http@.take(k + 1).last() == http@[k as int]);
        let p = &http[k];
        let ghost h0 = h@;
        let mut j: usize = 0;
        while j < p.routes.len()
            invariant
                j <= p.routes@.len(),
                h@ == h0 + http_rows(p.name@, p.routes@.take(j as int)),
            decreases p.routes.len() - j,
        {
            assert(p.routes@.take(j + 1).drop_last() =~= p.routes@.take(j as int));
            assert(p.routes@.take(j + 1).last() == p.routes@[j as int]);
            push_http_row(&mut h, &p.name, &p.routes[j]);
            assert(h@ =~= h0 + http_rows(p.name@, p.routes@.take(j + 1)));
            j += 1;
        }
        assert(p.routes@.take(p.routes.len() as int) =~= p.routes@);
        k += 1;
    }
    assert(http@.take(http.len() as int) =~= http@);
    let mut out: Vec<char> = Vec::new();
    append_str(
        &mut out,
        "<h3>TCP Pools</h3><table><thead><tr><th>Pool</th><th>Algorithm</th><th>Backend</th><th>Health</th><th>Active</th><th>Total</th><th>Pool active</th><th>Rejected</th></tr></thead><tbody>",
    );
    crate::text::append_chars(&mut out, &t);
    append_str(
        &mut out,
        "</tbody></table><h3>HTTP Pools</h3><table><thead><tr><th>Pool</th><th>Host</th><th>Path prefix</th><th>Backends</th></tr></thead><tbody>",
    );
    crate::text::append_chars(&mut out, &h);
    append_str(&mut out, "</tbody></table>");
    string_from(&out)
}

// ---------------------------------------------------------------------------
// Quick actions
// ---------------------------------------------------------------------------

/// A user-defined button: an API call.
#[derive(Debug, Clone)]
pub struct ActionDef {
    pub label: String,
    pub method: String,
    pub url: String,
}

pub open spec fn action_view(a: ActionDef) -> (Seq<char>, Seq<char>, Seq<char>) {
    (a.label@, a.method@, a.url@)
}

pub open spec fn action_views(s: Seq<ActionDef>) -> Seq<(Seq<char>, Seq<char>, Seq<char>)> {
    s.map_values(|a: ActionDef| action_view(a))
}

/// The buttons offered before any were saved.
pub open spec fn default_actions_spec() -> Seq<(Seq<char>, Seq<char>, Seq<char>)> {
    seq![
        ("Reload config"@, "POST"@, "/api/reload"@),
        ("TLS reload"@, "POST"@, "/api/tls/reload"@),
        ("Generate keypair"@, "GET"@, "/api/mesh/keypair"@),
    ]
}

fn action(label: &str, method: &str, url: &str) -> (r: ActionDef)
    ensures
        action_view(r) == (label@, method@, url@),
{
    ActionDef {
        label: String::from_str(label),
        method: String::from_str(method),
        url: String::from_str(url),
    }
}

pub fn default_actions() -> (r: Vec<ActionDef>)
    ensures
        action_views(r@) == default_actions_spec(),
{
    let mut v: Vec<ActionDef> = Vec::new();
    v.push(action("Reload config", "POST", "/api/reload"));
    v.push(action("TLS reload", "POST", "/api/tls/reload"));
    v.push(action("Generate keypair", "GET", "/api/mesh/keypair"));
    assert(action_views(v@) =~= default_actions_spec());
    v
}

/// Adds a button from the form: label and URL are trimmed and must not be
/// empty; the method is kept as given.
pub fn add_action(actions: &mut Vec<ActionDef>, label: &str, method: &str, url: &str) -> (r: Result<
    (),
    String,
>)
    ensures
        match r {
            Ok(()) => crate::text::trim_spec(label@).len() > 0 && crate::text::trim_spec(url@).len()
                > 0 && action_views(final(actions)@) == action_views(old(actions)@).push(
                (crate::text::trim_spec(label@), method@, crate::text::trim_spec(url@)),
            ),
            Err(m) => (crate::text::trim_spec(label@).len() == 0 || crate::text::trim_spec(
                url@,
            ).len() == 0) && m@ == "label and URL are required"@ && final(actions)@ == old(
                actions,
            )@,
        },
{
    let l = crate::text::trim_str(label);
    let u = crate::text::trim_str(url);
    if l.len() == 0 || u.len() == 0 {
        return Err(String::from_str("label and URL are required"));
    }
    let ghost before = action_views(actions@);
    actions.push(ActionDef { label: string_from(&l), method: String::from_str(method), url: string_from(&u) });
    assert(action_views(actions@) =~= before.push((l@, method@, u@)));
    Ok(())
}

/// Deletes the button at `i`.
pub fn remove_action(actions: &mut Vec<ActionDef>, i: usize)
    requires
        i < old(actions)@.len(),
    ensures
        final(actions)@ == old(actions)@.remove(i as int),
{
    actions.remove(i);
}

/// The HTTP methods a button can use; anything unknown is a GET.
#[derive(Debug, Clone, Copy, PartialEq, Eq, Structural)]
pub enum HttpMethod {
    Get,
    Post,
    Delete,
    Put,
}

pub open spec fn method_of(m: Seq<char>) -> HttpMethod {
    if m == "POST"@ {
        HttpMethod::Post
    } else if m == "DELETE"@ {
        HttpMethod::Delete
    } else if m == "PUT"@ {
        HttpMethod::Put
    } else {
        HttpMethod::Get
    }
}

pub fn request_method(m: &str) -> (r: HttpMethod)
    ensures
        r == method_of(m@),
{
    if str_eq(m, "POST") {
        HttpMethod::Post
    } else if str_eq(m, "DELETE") {
        HttpMethod::Delete
    } else if str_eq(m, "PUT") {
        HttpMethod::Put
    } else {
        HttpMethod::Get
    }
}

/// `HTTP <status> — <body>`: what a button call reports.
pub fn call_report(status: u16, body: &str) -> (r: String)
    ensures
        r@ == "HTTP "@ + dec(status as nat) + " \u{2014} "@ + body@,
{
    let mut out: Vec<char> = Vec::new();
    append_str(&mut out, "HTTP ");
    push_dec(&mut out, status as u64);
    append_str(&mut out, " \u{2014} ");
    append_str(&mut out, body);
    string_from(&out)
}

/// `<label> → <text>`: the toast after a button call.
pub fn action_toast(label: &str, outcome: &Result<String, String>) -> (r: String)
    ensures
        r@ == label@ + " \u{2192} "@ + match outcome {
            Ok(t) => t@,
            Err(e) => e@,
        },
{
    let mut out: Vec<char> = Vec::new();
    append_str(&mut out, label);
    append_str(&mut out, " \u{2192} ");
    match outcome {
        Ok(t) => append_str(&mut out, t.as_str()),
        Err(e) => append_str(&mut out, e.as_str()),
    }
    string_from(&out)
}

/// The error of a JSON fetch answered with a status that is not 2xx.
pub fn http_status_error(status: u16) -> (r: String)
    ensures
        r@ == "HTTP "@ + dec(status as nat),
{
    let mut out: Vec<char> = Vec::new();
    append_str(&mut out, "HTTP ");
    push_dec(&mut out, status as u64);
    string_from(&out)
}


// ---------------------------------------------------------------------------
// The summary the daemon serves
// ---------------------------------------------------------------------------

pub open spec fn backend_summarized(s: BackendView, b: Backend) -> bool {
    &&& s.addr@ == b.address()@
    &&& s.healthy == b.up()
    &&& s.active_conns == b.active()
    &&& s.total_conns == b.total()
}

pub open spec fn tcp_pool_summarized(s: TcpPoolView, p: TcpPoolState) -> bool {
    &&& s.name@ == p.pool_name()@
    &&& s.algorithm@ == algorithm_name(p.algo())
    &&& s.active_conns == p.active() as u64
    &&& s.rejected_conns == p.rejected()
    &&& s.backends@.len() == p.members().len()
    &&& forall|j: int|
        0 <= j < s.backends@.len() ==> backend_summarized(
            #[trigger] s.backends@[j],
            p.members()[j],
        )
}

pub open spec fn http_pool_summarized(s: HttpPoolView, p: HttpPoolState) -> bool {
    &&& s.name@ == p.pool_name()@
    &&& s.routes@.len() == p.route_list().len()
    &&& forall|j: int|
        0 <= j < s.routes@.len() ==> {
            &&& (#[trigger] s.routes@[j]).host@ == p.route_list()[j].host_spec()
            &&& s.routes@[j].path_prefix@ == p.route_list()[j].prefix_spec()
            &&& s.routes@[j].backends == p.route_list()[j].members().len()
        }
}

fn summarize_tcp(p: &TcpPoolState) -> (r: TcpPoolView)
    ensures
        tcp_pool_summarized(r, *p),
{
    let bs = p.backends();
    let mut out: Vec<BackendView> = Vec::new();
    let mut j: usize = 0;
    while j < bs.len()
        invariant
            j <= bs@.len(),
            bs@ == p.members(),
            out@.len() == j,
            forall|k: int| 0 <= k < j ==> backend_summarized(#[trigger] out@[k], bs@[k]),
        decreases bs.len() - j,
    {
        let b = &bs[j];
        out.push(
            BackendView {
                addr: b.addr().clone(),
                healthy: b.is_healthy(),
                active_conns: b.active_conns(),
                total_conns: b.total_conns(),
            },
        );
        j += 1;
    }
    TcpPoolView {
        name: p.name().clone(),
        algorithm: String::from_str(p.algorithm().as_str()),
        active_conns: p.active_conns() as u64,
        rejected_conns: p.rejected_conns(),
        backends: out,
    }
}

fn summarize_http(p: &HttpPoolState) -> (r: HttpPoolView)
    ensures
        http_pool_summarized(r, *p),
{
    let info = p.route_info();
    let mut routes: Vec<HttpRouteView> = Vec::new();
    let mut j: usize = 0;
    while j < info.len()
        invariant
            j <= info@.len(),
            info@.len() == p.route_list().len(),
            forall|i: int|
                0 <= i < info@.len() ==> (#[trigger] info@[i]).0@ == p.route_list()[i].host_spec()
                    && info@[i].1@ == p.route_list()[i].prefix_spec() && info@[i].2
                    == p.route_list()[i].members().len(),
            routes@.len() == j,
            forall|k: int|
                0 <= k < j ==> {
                    &&& (#[trigger] routes@[k]).host@ == p.route_list()[k].host_spec()
                    &&& routes@[k].path_prefix@ == p.route_list()[k].prefix_spec()
                    &&& routes@[k].backends == p.route_list()[k].members().len()
                },
        decreases info.len() - j,
    {
        let e = &info[j];
        routes.push(HttpRouteView { host: e.0.clone(), path_prefix: e.1.clone(), backends: e.2 });
        j += 1;
    }
    HttpPoolView { name: p.name().clone(), routes }
}

/// The pools as the daemon reports them to the dashboard: per TCP pool its
/// algorithm, counters and backends; per HTTP pool its routes.
pub fn lb_overview(tcp: &Vec<TcpPoolState>, http: &Vec<HttpPoolState>) -> (r: LbData)
    ensures
        r.tcp@.len() == tcp@.len(),
        forall|i: int| 0 <= i < tcp@.len() ==> tcp_pool_summarized(#[trigger] r.tcp@[i], tcp@[i]),
        r.http@.len() == http@.len(),
        forall|i: int| 0 <= i < http@.len() ==> http_pool_summarized(#[trigger] r.http@[i], http@[i]),
{
    let mut t: Vec<TcpPoolView> = Vec::new();
    let mut i: usize = 0;
    while i < tcp.len()
        invariant
            i <= tcp@.len(),
            t@.len() == i,
            forall|k: int| 0 <= k < i ==> tcp_pool_summarized(#[trigger] t@[k], tcp@[k]),
        decreases tcp.len() - i,
    {
        t.push(summarize_tcp(&tcp[i]));
        i += 1;
    }
    let mut h: Vec<HttpPoolView> = Vec::new();
    let mut k: usize = 0;
    while k < http.len()
        invariant
            k <= http@.len(),
            h@.len() == k,
            forall|m: int| 0 <= m < k ==> http_pool_summarized(#[trigger] h@[m], http@[m]),
        decreases http.len() - k,
    {
        h.push(summarize_http(&http[k]));
        k += 1;
    }
    LbData { tcp: t, http: h }
}

} // verus!
