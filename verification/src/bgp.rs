//! Minimal BGP-4 (RFC 4271) wire handling for IPv4 unicast: message framing,
//! OPEN / KEEPALIVE / NOTIFICATION / UPDATE encoding, UPDATE NLRI parsing,
//! the session state names, and the RIB bookkeeping done per UPDATE.
use vstd::prelude::*;

use crate::config::{Bgp, BgpNeighbor};
use crate::net::{ipv4_parse, parse_ipv4, u32_be, u32_be_bytes};
use crate::text::{
    append_chars, append_str, chars_of, dec, parse_uint, parse_uint_spec, push_dec, split_once,
    split_once_spec, string_from,
};

verus! {

pub const MSG_OPEN: u8 = 1;

pub const MSG_UPDATE: u8 = 2;

pub const MSG_NOTIFICATION: u8 = 3;

pub const MSG_KEEPALIVE: u8 = 4;

/// Length of the fixed message header (marker, length, type).
pub const HEADER_LEN: usize = 19;

/// Length of the path attributes written by [`encode_update`].
pub const UPDATE_ATTR_LEN: usize = 18;

/// Seconds between the KEEPALIVEs of an established session (a third of
/// the 180 s hold time announced in our OPEN).
pub const KEEPALIVE_SECS: u64 = 60;

/// The port outbound sessions dial.
pub const BGP_PORT: u16 = 179;

/// Pause of the outbound dialer after a connect attempt or a session's end.
pub const REDIAL_PAUSE_SECS: u64 = 15;

/// How often the outbound dialer looks again at an established session.
pub const ESTABLISHED_RECHECK_SECS: u64 = 10;

#[derive(Debug, Clone, Copy, PartialEq, Eq)]
pub enum SessionState {
    Idle,
    Active,
    OpenSent,
    OpenConfirm,
    Established,
}

pub open spec fn session_state_name(s: SessionState) -> Seq<char> {
    match s {
        SessionState::Idle => "idle"@,
        SessionState::Active => "active"@,
        SessionState::OpenSent => "open_sent"@,
        SessionState::OpenConfirm => "open_confirm"@,
        SessionState::Established => "established"@,
    }
}

impl SessionState {
    pub fn as_str(&self) -> (r: &'static str)
        ensures
            r@ == session_state_name(*self),
    {
        match self {
            SessionState::Idle => "idle",
            SessionState::Active => "active",
            SessionState::OpenSent => "open_sent",
            SessionState::OpenConfirm => "open_confirm",
            SessionState::Established => "established",
        }
    }
}

/// An IPv4 prefix learned via UPDATE, or configured locally.
#[derive(Debug, Clone, PartialEq, Eq, Hash)]
pub struct Prefix {
    pub bits: u8,
    pub octets: [u8; 4],
}

impl View for Prefix {
    type V = (u8, Seq<u8>);

    open spec fn view(&self) -> (u8, Seq<u8>) {
        (self.bits, self.octets@)
    }
}

/// Number of address bytes carried on the wire for a prefix length.
pub open spec fn prefix_len_bytes(bits: u8) -> nat {
    ((bits as nat) + 7) / 8
}

/// A prefix is encodable when its length is at most 32 bits.
pub open spec fn prefix_encodable(p: (u8, Seq<u8>)) -> bool {
    p.0 <= 32 && p.1.len() == 4
}

/// Wire form of one prefix: the length byte, then the significant address bytes.
pub open spec fn prefix_wire(p: (u8, Seq<u8>)) -> Seq<u8> {
    seq![p.0] + p.1.subrange(0, prefix_len_bytes(p.0) as int)
}

pub open spec fn prefixes_wire(ps: Seq<(u8, Seq<u8>)>) -> Seq<u8>
    decreases ps.len(),
{
    if ps.len() == 0 {
        Seq::empty()
    } else {
        prefix_wire(ps[0]) + prefixes_wire(ps.drop_first())
    }
}

/// A prefix whose address bytes past its length are zero (what the parser yields).
pub open spec fn prefix_normalized(p: (u8, Seq<u8>)) -> bool {
    prefix_encodable(p) && forall|i: int|
        prefix_len_bytes(p.0) <= i < 4 ==> #[trigger] p.1[i] == 0u8
}

pub open spec fn views(ps: Seq<Prefix>) -> Seq<(u8, Seq<u8>)> {
    ps.map_values(|p: Prefix| p@)
}

/// Big-endian 16-bit encoding.
pub open spec fn u16_be(v: u16) -> Seq<u8> {
    seq![(v / 256) as u8, (v % 256) as u8]
}

/// `as u16` on a length: the value modulo 2^16.
pub open spec fn trunc16(n: nat) -> u16 {
    (n % 65536) as u16
}

pub open spec fn marker() -> Seq<u8> {
    Seq::new(16, |i: int| 0xffu8)
}

pub open spec fn header_spec(len: nat, msg_type: u8) -> Seq<u8> {
    marker() + u16_be(trunc16(len)) + seq![msg_type]
}

pub open spec fn open_body(asn: u16, hold_time: u16, router_id: u32) -> Seq<u8> {
    seq![4u8] + u16_be(asn) + u16_be(hold_time) + u32_be(router_id) + seq![0u8]
}

pub open spec fn open_spec(asn: u16, hold_time: u16, router_id: u32) -> Seq<u8> {
    header_spec(29, MSG_OPEN) + open_body(asn, hold_time, router_id)
}

pub open spec fn keepalive_spec() -> Seq<u8> {
    header_spec(19, MSG_KEEPALIVE)
}

pub open spec fn notification_spec(code: u8, subcode: u8) -> Seq<u8> {
    header_spec(21, MSG_NOTIFICATION) + seq![code, subcode]
}

/// Path attributes: ORIGIN=IGP, AS_PATH=[local_as] (16-bit), NEXT_HOP.
pub open spec fn update_attrs(next_hop: u32, local_as: u32) -> Seq<u8> {
    seq![0x40u8, 0x01u8, 0x01u8, 0x00u8] + seq![0x40u8, 0x02u8, 0x04u8, 0x02u8, 0x01u8] + u16_be(
        (local_as % 65536) as u16,
    ) + seq![0x40u8, 0x03u8, 0x04u8] + u32_be(next_hop)
}

/// UPDATE body as written: the withdrawn-routes length field carries the size of
/// the withdrawn prefixes, but the withdrawn prefixes themselves are not written.
pub open spec fn update_body(
    announced: Seq<(u8, Seq<u8>)>,
    withdrawn: Seq<(u8, Seq<u8>)>,
    next_hop: u32,
    local_as: u32,
) -> Seq<u8> {
    u16_be(trunc16(prefixes_wire(withdrawn).len())) + u16_be(18) + update_attrs(next_hop, local_as)
        + prefixes_wire(announced)
}

pub open spec fn update_spec(
    announced: Seq<(u8, Seq<u8>)>,
    withdrawn: Seq<(u8, Seq<u8>)>,
    next_hop: u32,
    local_as: u32,
) -> Seq<u8> {
    let body = update_body(announced, withdrawn, next_hop, local_as);
    header_spec(19 + body.len(), MSG_UPDATE) + body
}

pub open spec fn be16_at(b: Seq<u8>, i: int) -> nat {
    (b[i] as nat) * 256 + (b[i + 1] as nat)
}

/// Four address bytes: the given bytes followed by zeros.
pub open spec fn pad4(s: Seq<u8>) -> Seq<u8> {
    s + Seq::new((4 - s.len()) as nat, |i: int| 0u8)
}

/// NLRI entries from `pos` on; stops at the first entry that does not fit.
pub open spec fn parse_nlri(b: Seq<u8>, pos: int) -> Seq<(u8, Seq<u8>)>
    decreases b.len() - pos,
{
    if pos < 0 || pos >= b.len() {
        Seq::empty()
    } else {
        let bits = b[pos];
        let n = prefix_len_bytes(bits);
        if pos + 1 + n > b.len() || n > 4 {
            Seq::empty()
        } else {
            seq![(bits, pad4(b.subrange(pos + 1, pos + 1 + n)))] + parse_nlri(b, pos + 1 + n)
        }
    }
}

/// Announced prefixes of an UPDATE body: NLRI start after both length-prefixed
/// sections as read from the two 16-bit length fields.
pub open spec fn parse_update_spec(b: Seq<u8>) -> Seq<(u8, Seq<u8>)> {
    parse_nlri(b, (4 + be16_at(b, 0) + be16_at(b, 2)) as int)
}

// ---------------------------------------------------------------------------
// Encoding
// ---------------------------------------------------------------------------

pub fn push_u16_be(out: &mut Vec<u8>, v: u16)
    ensures
        final(out)@ == old(out)@ + u16_be(v),
{
    out.push((v / 256) as u8);
    out.push((v % 256) as u8);
    assert(final(out)@ =~= old(out)@ + u16_be(v));
}

pub fn push_bytes(out: &mut Vec<u8>, b: &Vec<u8>)
    ensures
        final(out)@ == old(out)@ + b@,
{
    let ghost start = out@;
    let mut i: usize = 0;
    while i < b.len()
        invariant
            i <= b.len(),
            out@ == start + b@.subrange(0, i as int),
        decreases b.len() - i,
    {
        out.push(b[i]);
        assert(b@.subrange(0, i + 1) =~= b@.subrange(0, i as int).push(b@[i as int]));
        i += 1;
    }
    assert(b@.subrange(0, b.len() as int) =~= b@);
}

pub fn header(len: usize, msg_type: u8) -> (r: Vec<u8>)
    ensures
        r@ == header_spec(len as nat, msg_type),
{
    let mut m: Vec<u8> = Vec::new();
    let mut i: usize = 0;
    while i < 16
        invariant
            i <= 16,
            m@ == Seq::new(i as nat, |k: int| 0xffu8),
        decreases 16 - i,
    {
        m.push(0xff);
        assert(m@ =~= Seq::new((i + 1) as nat, |k: int| 0xffu8));
        i += 1;
    }
    push_u16_be(&mut m, (len % 65536) as u16);
    m.push(msg_type);
    assert(m@ =~= header_spec(len as nat, msg_type));
    m
}

pub fn encode_open(asn: u16, hold_time: u16, router_id: u32) -> (r: Vec<u8>)
    ensures
        r@ == open_spec(asn, hold_time, router_id),
{
    let mut body: Vec<u8> = Vec::new();
    body.push(4);
    push_u16_be(&mut body, asn);
    push_u16_be(&mut body, hold_time);
    let rid = u32_be_bytes(router_id);
    push_bytes(&mut body, &rid);
    body.push(0);
    assert(body@ =~= open_body(asn, hold_time, router_id));
    let mut m = header(19 + body.len(), MSG_OPEN);
    push_bytes(&mut m, &body);
    m
}

pub fn encode_keepalive() -> (r: Vec<u8>)
    ensures
        r@ == keepalive_spec(),
{
    header(19, MSG_KEEPALIVE)
}

pub fn encode_notification(code: u8, subcode: u8) -> (r: Vec<u8>)
    ensures
        r@ == notification_spec(code, subcode),
{
    let mut m = header(21, MSG_NOTIFICATION);
    m.push(code);
    m.push(subcode);
    assert(m@ =~= notification_spec(code, subcode));
    m
}

impl Prefix {
    /// Wire form: length byte followed by the significant address bytes.
    pub fn encode(&self) -> (r: Vec<u8>)
        requires
            self.bits <= 32,
        ensures
            r@ == prefix_wire(self@),
    {
        let mut out: Vec<u8> = Vec::new();
        out.push(self.bits);
        let n = ((self.bits as usize) + 7) / 8;
        let mut i: usize = 0;
        while i < n
            invariant
                n == prefix_len_bytes(self.bits),
                n <= 4,
                i <= n,
                out@ == seq![self.bits] + self.octets@.subrange(0, i as int),
            decreases n - i,
        {
            out.push(self.octets[i]);
            assert(self.octets@.subrange(0, i + 1) =~= self.octets@.subrange(0, i as int).push(
                self.octets@[i as int],
            ));
            i += 1;
        }
        assert(out@ =~= prefix_wire(self@));
        out
    }
}

pub proof fn lemma_prefixes_wire_push(ps: Seq<(u8, Seq<u8>)>, p: (u8, Seq<u8>))
    ensures
        prefixes_wire(ps.push(p)) == prefixes_wire(ps) + prefix_wire(p),
    decreases ps.len(),
{
    if ps.len() == 0 {
        assert(ps.push(p).drop_first() =~= Seq::<(u8, Seq<u8>)>::empty());
        assert(prefixes_wire(Seq::<(u8, Seq<u8>)>::empty()) =~= Seq::<u8>::empty());
        assert(prefixes_wire(ps.push(p)) =~= prefix_wire(p));
    } else {
        lemma_prefixes_wire_push(ps.drop_first(), p);
        assert(ps.push(p).drop_first() =~= ps.drop_first().push(p));
        assert(prefixes_wire(ps.push(p)) =~= prefix_wire(ps[0]) + (prefixes_wire(ps.drop_first())
            + prefix_wire(p)));
    }
}

pub proof fn lemma_prefixes_wire_len(ps: Seq<(u8, Seq<u8>)>)
    requires
        forall|i: int| 0 <= i < ps.len() ==> prefix_encodable(#[trigger] ps[i]),
    ensures
        prefixes_wire(ps).len() <= 5 * ps.len(),
    decreases ps.len(),
{
    if ps.len() > 0 {
        let rest = ps.drop_first();
        assert forall|i: int| 0 <= i < rest.len() implies prefix_encodable(#[trigger] rest[i]) by {
            assert(rest[i] == ps[i + 1]);
        }
        lemma_prefixes_wire_len(rest);
        assert(prefix_encodable(ps[0]));
    }
}

/// Concatenated wire forms of a list of prefixes.
pub fn encode_prefixes(ps: &[Prefix]) -> (r: Vec<u8>)
    requires
        forall|i: int| 0 <= i < ps@.len() ==> (#[trigger] ps@[i]).bits <= 32,
    ensures
        r@ == prefixes_wire(views(ps@)),
{
    let mut out: Vec<u8> = Vec::new();
    let mut i: usize = 0;
    while i < ps.len()
        invariant
            i <= ps@.len(),
            forall|k: int| 0 <= k < ps@.len() ==> (#[trigger] ps@[k]).bits <= 32,
            out@ == prefixes_wire(views(ps@.subrange(0, i as int))),
        decreases ps.len() - i,
    {
        let w = ps[i].encode();
        push_bytes(&mut out, &w);
        proof {
            assert(views(ps@.subrange(0, i + 1)) =~= views(ps@.subrange(0, i as int)).push(
                ps@[i as int]@,
            ));
            lemma_prefixes_wire_push(views(ps@.subrange(0, i as int)), ps@[i as int]@);
        }
        i += 1;
    }
    assert(ps@.subrange(0, ps@.len() as int) =~= ps@);
    out
}

/// Encode an UPDATE with path attributes ORIGIN=IGP, AS_PATH=[local_as],
/// NEXT_HOP=`next_hop`, followed by the announced NLRI.
pub fn encode_update(announced: &[Prefix], withdrawn: &[Prefix], next_hop: u32, local_as: u32) -> (r:
    Vec<u8>)
    requires
        forall|i: int| 0 <= i < announced@.len() ==> (#[trigger] announced@[i]).bits <= 32,
        forall|i: int| 0 <= i < withdrawn@.len() ==> (#[trigger] withdrawn@[i]).bits <= 32,
        5 * announced@.len() + 41 <= usize::MAX,
    ensures
        r@ == update_spec(views(announced@), views(withdrawn@), next_hop, local_as),
{
    let wd = encode_prefixes(withdrawn);
    let wd_len = (wd.len() % 65536) as u16;

    let mut attrs: Vec<u8> = Vec::new();
    attrs.push(0x40);
    attrs.push(0x01);
    attrs.push(0x01);
    attrs.push(0x00);
    attrs.push(0x40);
    attrs.push(0x02);
    attrs.push(0x04);
    attrs.push(0x02);
    attrs.push(0x01);
    push_u16_be(&mut attrs, (local_as % 65536) as u16);
    attrs.push(0x40);
    attrs.push(0x03);
    attrs.push(0x04);
    let nh = u32_be_bytes(next_hop);
    push_bytes(&mut attrs, &nh);
    assert(attrs@ =~= update_attrs(next_hop, local_as));
    let attr_len = attrs.len() as u16;

    let mut body: Vec<u8> = Vec::new();
    push_u16_be(&mut body, wd_len);
    push_u16_be(&mut body, attr_len);
    push_bytes(&mut body, &attrs);
    let ann = encode_prefixes(announced);
    push_bytes(&mut body, &ann);
    assert(body@ =~= update_body(views(announced@), views(withdrawn@), next_hop, local_as));
    proof {
        assert forall|i: int| 0 <= i < views(announced@).len() implies prefix_encodable(
            #[trigger] views(announced@)[i],
        ) by {
            assert(views(announced@)[i] == announced@[i]@);
        }
        lemma_prefixes_wire_len(views(announced@));
    }
    let total = 19 + body.len();
    let mut m = header(total, MSG_UPDATE);
    push_bytes(&mut m, &body);
    m
}

// ---------------------------------------------------------------------------
// Parsing
// ---------------------------------------------------------------------------

pub fn be16_at_exec(b: &[u8], i: usize) -> (r: usize)
    requires
        i + 1 < b@.len(),
    ensures
        r == be16_at(b@, i as int),
{
    (b[i] as usize) * 256 + (b[i + 1] as usize)
}

/// Announced prefixes of an UPDATE body. Withdrawn routes are not reported.
pub fn parse_update(body: &[u8]) -> (r: (Vec<Prefix>, Vec<Prefix>))
    requires
        body@.len() >= 4,
    ensures
        views(r.0@) == parse_update_spec(body@),
        r.1@.len() == 0,
{
    let wd_len = be16_at_exec(body, 0);
    let attr_len = be16_at_exec(body, 2);
    let mut pos: usize = 4 + wd_len + attr_len;
    let ghost start = pos as int;
    proof {
        if pos >= body@.len() {
            assert(parse_nlri(body@, start) == Seq::<(u8, Seq<u8>)>::empty());
        }
    }
    let mut announced: Vec<Prefix> = Vec::new();
    let blen = body.len();
    while pos < blen
        invariant
            blen == body@.len(),
            views(announced@) + parse_nlri(body@, pos as int) == parse_nlri(body@, start),
        ensures
            views(announced@) == parse_nlri(body@, start),
        decreases blen - pos,
    {
        let bits = body[pos];
        let bytes = ((bits as usize) + 7) / 8;
        if bytes > 4 || bytes > blen - pos - 1 {
            assert(parse_nlri(body@, pos as int) == Seq::<(u8, Seq<u8>)>::empty());
            assert(views(announced@) + Seq::<(u8, Seq<u8>)>::empty() =~= views(announced@));
            break;
        }
        let base = pos + 1;
        let mut octets: [u8; 4] = [0u8, 0u8, 0u8, 0u8];
        let mut k: usize = 0;
        while k < bytes
            invariant
                blen == body@.len(),
                bytes <= 4,
                base == pos + 1,
                base + bytes <= blen,
                k <= bytes,
                octets@.len() == 4,
                forall|j: int| 0 <= j < k ==> octets@[j] == body@[base + j],
                forall|j: int| k <= j < 4 ==> octets@[j] == 0u8,
            decreases bytes - k,
        {
            octets.set(k, body[base + k]);
            k += 1;
        }
        let p = Prefix { bits, octets };
        proof {
            assert(p@.1 =~= pad4(body@.subrange(pos + 1, pos + 1 + bytes)));
            assert(parse_nlri(body@, pos as int) == seq![p@] + parse_nlri(
                body@,
                pos + 1 + bytes,
            ));
        }
        let ghost before = views(announced@);
        announced.push(p);
        proof {
            assert(views(announced@) =~= before.push(p@));
            assert(before + (seq![p@] + parse_nlri(body@, pos + 1 + bytes)) =~= before.push(p@)
                + parse_nlri(body@, pos + 1 + bytes));
        }
        pos = base + bytes;
        proof {
            if pos >= blen {
                assert(parse_nlri(body@, pos as int) == Seq::<(u8, Seq<u8>)>::empty());
                assert(views(announced@) + Seq::<(u8, Seq<u8>)>::empty() =~= views(announced@));
            }
        }
    }
    (announced, Vec::new())
}

// ---------------------------------------------------------------------------
// Laws
// ---------------------------------------------------------------------------

proof fn lemma_parse_nlri_of_wire(pre: Seq<u8>, ps: Seq<(u8, Seq<u8>)>)
    requires
        forall|i: int| 0 <= i < ps.len() ==> prefix_normalized(#[trigger] ps[i]),
    ensures
        parse_nlri(pre + prefixes_wire(ps), pre.len() as int) == ps,
    decreases ps.len(),
{
    let b = pre + prefixes_wire(ps);
    if ps.len() == 0 {
        assert(b =~= pre);
        assert(parse_nlri(b, pre.len() as int) =~= ps);
    } else {
        let p = ps[0];
        assert(prefix_normalized(p));
        let n = prefix_len_bytes(p.0);
        let w = prefix_wire(p);
        let rest = ps.drop_first();
        assert(forall|i: int| 0 <= i < rest.len() ==> prefix_normalized(#[trigger] rest[i])) by {
            assert forall|i: int| 0 <= i < rest.len() implies prefix_normalized(
                #[trigger] rest[i],
            ) by {
                assert(rest[i] == ps[i + 1]);
            }
        }
        lemma_parse_nlri_of_wire(pre + w, rest);
        assert(prefixes_wire(ps) == w + prefixes_wire(rest));
        assert(b =~= (pre + w) + prefixes_wire(rest));
        let pos = pre.len() as int;
        assert(n <= 4);
        assert(b[pos] == p.0);
        assert(b.subrange(pos + 1, pos + 1 + n) =~= p.1.subrange(0, n as int));
        assert(pad4(p.1.subrange(0, n as int)) =~= p.1);
        assert(parse_nlri(b, pos) == seq![p] + parse_nlri(b, pos + 1 + n));
        assert((pre + w).len() == pos + 1 + n);
        assert(seq![p] + rest =~= ps);
    }
}

/// An UPDATE announcing normalized prefixes and withdrawing nothing parses
/// back to exactly the announced prefixes, in order.
pub proof fn law_update_roundtrip(announced: Seq<(u8, Seq<u8>)>, next_hop: u32, local_as: u32)
    requires
        forall|i: int| 0 <= i < announced.len() ==> prefix_normalized(#[trigger] announced[i]),
    ensures
        parse_update_spec(update_body(announced, Seq::empty(), next_hop, local_as)) == announced,
{
    let b = update_body(announced, Seq::empty(), next_hop, local_as);
    let pre = u16_be(trunc16(prefixes_wire(Seq::<(u8, Seq<u8>)>::empty()).len())) + u16_be(18)
        + update_attrs(next_hop, local_as);
    assert(prefixes_wire(Seq::<(u8, Seq<u8>)>::empty()) =~= Seq::<u8>::empty());
    assert(b =~= pre + prefixes_wire(announced));
    assert(pre.len() == 22);
    assert(be16_at(b, 0) == 0);
    assert(be16_at(b, 2) == 18);
    lemma_parse_nlri_of_wire(pre, announced);
}

/// The path attributes of an UPDATE, bytes 21 to 40 of the message: their
/// length 18, ORIGIN IGP, an AS_PATH with one AS_SEQUENCE of one AS carrying
/// `local_as` (its low 16 bits, big-endian), and a NEXT_HOP carrying
/// `next_hop` big-endian.
pub proof fn law_update_attributes(
    announced: Seq<(u8, Seq<u8>)>,
    withdrawn: Seq<(u8, Seq<u8>)>,
    next_hop: u32,
    local_as: u32,
)
    ensures
        ({
            let m = update_spec(announced, withdrawn, next_hop, local_as);
            &&& m.len() >= 41
            &&& m[18] == MSG_UPDATE
            &&& m[21] == 0u8 && m[22] == 18u8
            &&& m[23] == 0x40u8 && m[24] == 1u8 && m[25] == 1u8 && m[26] == 0u8
            &&& m[27] == 0x40u8 && m[28] == 2u8 && m[29] == 4u8 && m[30] == 2u8 && m[31] == 1u8
            &&& m[32] as int == (local_as as int % 65536) / 256
            &&& m[33] as int == local_as as int % 256
            &&& m[34] == 0x40u8 && m[35] == 3u8 && m[36] == 4u8
            &&& m[37] as int == next_hop as int / 16777216
            &&& m[38] as int == (next_hop as int / 65536) % 256
            &&& m[39] as int == (next_hop as int / 256) % 256
            &&& m[40] as int == next_hop as int % 256
        }),
{
    let body = update_body(announced, withdrawn, next_hop, local_as);
    let m = update_spec(announced, withdrawn, next_hop, local_as);
    let h = header_spec(19 + body.len(), MSG_UPDATE);
    let a = update_attrs(next_hop, local_as);
    assert(h.len() == 19);
    assert(a.len() == 18);
    assert(m == h + body);
    assert(body == u16_be(trunc16(prefixes_wire(withdrawn).len())) + u16_be(18) + a + prefixes_wire(
        announced,
    ));
    assert forall|i: int| 0 <= i < 18 implies m[23 + i] == #[trigger] a[i] by {
        assert(m[23 + i] == body[4 + i]);
    }
    assert(m[21] == body[2] && m[22] == body[3]);
    let v = (local_as % 65536) as u16;
    assert(a[9] == (v / 256) as u8 && a[10] == (v % 256) as u8);
    assert((local_as as int % 65536) % 256 == local_as as int % 256) by (nonlinear_arith);
    assert(a[14] == (next_hop / 16777216) as u8);
    assert(a[15] == ((next_hop / 65536) % 256) as u8);
    assert(a[16] == ((next_hop / 256) % 256) as u8);
    assert(a[17] == (next_hop % 256) as u8);
}

/// An UPDATE message as `encode_update` writes it starts with the 16-byte
/// all-ones marker, its own length (modulo 2^16) and type 2, and its body
/// parses back to exactly the announced prefixes, in order. The withdrawn
/// prefixes are counted in the withdrawn-routes length field but not written,
/// and the parser skips that many bytes; so the round trip is stated where
/// that field is zero (modulo 2^16) or nothing is announced.
pub proof fn law_update_message(
    announced: Seq<(u8, Seq<u8>)>,
    withdrawn: Seq<(u8, Seq<u8>)>,
    next_hop: u32,
    local_as: u32,
)
    requires
        forall|i: int| 0 <= i < announced.len() ==> prefix_normalized(#[trigger] announced[i]),
        announced.len() == 0 || prefixes_wire(withdrawn).len() % 65536 == 0,
    ensures
        ({
            let m = update_spec(announced, withdrawn, next_hop, local_as);
            &&& m.len() >= 19
            &&& m.subrange(0, 16) == marker()
            &&& m.subrange(16, 18) == u16_be(trunc16(m.len()))
            &&& m[18] == MSG_UPDATE
            &&& parse_update_spec(m.subrange(19, m.len() as int)) == announced
        }),
{
    let body = update_body(announced, withdrawn, next_hop, local_as);
    let m = update_spec(announced, withdrawn, next_hop, local_as);
    let h = header_spec(19 + body.len(), MSG_UPDATE);
    assert(h.len() == 19);
    assert(m.len() == 19 + body.len());
    assert(m.subrange(0, 16) =~= marker());
    assert(m.subrange(16, 18) =~= u16_be(trunc16(m.len())));
    assert(m.subrange(19, m.len() as int) =~= body);
    if announced.len() == 0 {
        assert(prefixes_wire(announced) =~= Seq::<u8>::empty());
        assert(body.len() == 22);
        assert(be16_at(body, 2) == 18);
        assert(parse_update_spec(body) =~= announced);
    } else {
        assert(trunc16(prefixes_wire(withdrawn).len()) == 0);
        assert(trunc16(prefixes_wire(Seq::<(u8, Seq<u8>)>::empty()).len()) == 0) by {
            assert(prefixes_wire(Seq::<(u8, Seq<u8>)>::empty()) =~= Seq::<u8>::empty());
        }
        assert(body =~= update_body(announced, Seq::empty(), next_hop, local_as));
        law_update_roundtrip(announced, next_hop, local_as);
    }
}

// ---------------------------------------------------------------------------
// Framing
// ---------------------------------------------------------------------------

/// One complete message taken off the receive buffer.
#[derive(Debug, Clone, PartialEq, Eq)]
pub struct RawMessage {
    pub msg_type: u8,
    pub body: Vec<u8>,
}

/// A header announced a length shorter than the header itself.
#[derive(Debug, Clone, Copy, PartialEq, Eq)]
pub struct BadLength;

/// What the receive buffer holds at its front.
pub open spec fn frame_spec(buf: Seq<u8>) -> Result<Option<(u8, Seq<u8>, nat)>, BadLength> {
    if buf.len() < 19 {
        Ok(None)
    } else {
        let len = be16_at(buf, 16);
        if len < 19 {
            Err(BadLength)
        } else if buf.len() < len {
            Ok(None)
        } else {
            Ok(Some((buf[18], buf.subrange(19, len as int), len)))
        }
    }
}

/// Take one complete message off the front of `buf`, if it holds one.
/// A message is removed from the buffer only when it is returned.
pub fn take_message(buf: &mut Vec<u8>) -> (r: Result<Option<RawMessage>, BadLength>)
    ensures
        match frame_spec(old(buf)@) {
            Ok(Some((t, body, len))) => r == Ok::<Option<RawMessage>, BadLength>(Some(
                RawMessage { msg_type: t, body: r->Ok_0->Some_0.body },
            )) && r->Ok_0->Some_0.body@ == body && final(buf)@ == old(buf)@.subrange(
                len as int,
                old(buf)@.len() as int,
            ),
            Ok(None) => r == Ok::<Option<RawMessage>, BadLength>(None) && final(buf)@ == old(
                buf,
            )@,
            Err(e) => r == Err::<Option<RawMessage>, BadLength>(e) && final(buf)@ == old(buf)@,
        },
{
    if buf.len() < 19 {
        return Ok(None);
    }
    let len = be16_at_exec(buf.as_slice(), 16);
    if len < 19 {
        return Err(BadLength);
    }
    if buf.len() < len {
        return Ok(None);
    }
    let msg_type = buf[18];
    let mut body: Vec<u8> = Vec::new();
    let mut i: usize = 19;
    while i < len
        invariant
            19 <= i <= len <= buf@.len(),
            body@ == buf@.subrange(19, i as int),
        decreases len - i,
    {
        body.push(buf[i]);
        assert(buf@.subrange(19, i + 1) =~= buf@.subrange(19, i as int).push(buf@[i as int]));
        i += 1;
    }
    let mut rest: Vec<u8> = Vec::new();
    let mut j: usize = len;
    while j < buf.len()
        invariant
            len <= j <= buf@.len(),
            rest@ == buf@.subrange(len as int, j as int),
        decreases buf.len() - j,
    {
        rest.push(buf[j]);
        assert(buf@.subrange(len as int, j + 1) =~= buf@.subrange(len as int, j as int).push(
            buf@[j as int],
        ));
        j += 1;
    }
    *buf = rest;
    Ok(Some(RawMessage { msg_type, body }))
}

/// Every message this module encodes (shorter than 2^16 bytes) frames back to
/// its own type and body, consuming exactly its own bytes.
pub proof fn law_frame_roundtrip(msg_type: u8, body: Seq<u8>, rest: Seq<u8>)
    requires
        19 + body.len() < 65536,
    ensures
        frame_spec(header_spec(19 + body.len(), msg_type) + body + rest) == Ok::<
            Option<(u8, Seq<u8>, nat)>,
            BadLength,
        >(Some((msg_type, body, 19 + body.len()))),
{
    let m = header_spec(19 + body.len(), msg_type) + body + rest;
    let len: nat = 19 + body.len();
    assert(trunc16(len) == len);
    assert(m[16] == (len / 256) as u8);
    assert(m[17] == (len % 256) as u8);
    assert(be16_at(m, 16) == len);
    assert(m.subrange(19, len as int) =~= body);
}

// ---------------------------------------------------------------------------
// Prefix text form
// ---------------------------------------------------------------------------

/// `a.b.c.d/len` form of a prefix.
pub open spec fn prefix_text(p: (u8, Seq<u8>)) -> Seq<char> {
    dec(p.1[0] as nat) + "."@ + dec(p.1[1] as nat) + "."@ + dec(p.1[2] as nat) + "."@ + dec(
        p.1[3] as nat,
    ) + "/"@ + dec(p.0 as nat)
}

/// Parse `a.b.c.d/len`: the address as `Ipv4Addr` parses it, the length as a `u8`.
pub open spec fn prefix_parse_spec(s: Seq<char>) -> Option<(u8, Seq<u8>)> {
    match split_once_spec(s, '/') {
        None => None,
        Some((ip, bits)) => match ipv4_parse(ip) {
            None => None,
            Some(a) => match parse_uint_spec(bits, 255) {
                None => None,
                Some(b) => Some((b as u8, u32_be(a))),
            },
        },
    }
}

impl Prefix {
    pub fn parse(s: &str) -> (r: Option<Prefix>)
        ensures
            match r {
                Some(p) => prefix_parse_spec(s@) == Some(p@),
                None => prefix_parse_spec(s@) is None,
            },
    {
        let cs = chars_of(s);
        let (ip, bits) = match split_once(&cs, '/') {
            Some(x) => x,
            None => return None,
        };
        let ip_s = string_from(&ip);
        let addr = match parse_ipv4(ip_s.as_str()) {
            Some(a) => a,
            None => return None,
        };
        let b = match parse_uint(&bits, 255) {
            Some(b) => b,
            None => return None,
        };
        let o = u32_be_bytes(addr);
        let octets: [u8; 4] = [o[0], o[1], o[2], o[3]];
        assert(octets@ =~= u32_be(addr));
        Some(Prefix { bits: b as u8, octets })
    }

    pub fn to_text(&self) -> (r: String)
        ensures
            r@ == prefix_text(self@),
    {
        let mut out: Vec<char> = Vec::new();
        push_dec(&mut out, self.octets[0] as u64);
        append_str(&mut out, ".");
        push_dec(&mut out, self.octets[1] as u64);
        append_str(&mut out, ".");
        push_dec(&mut out, self.octets[2] as u64);
        append_str(&mut out, ".");
        push_dec(&mut out, self.octets[3] as u64);
        append_str(&mut out, "/");
        push_dec(&mut out, self.bits as u64);
        string_from(&out)
    }
}

// ---------------------------------------------------------------------------
// RIB bookkeeping
// ---------------------------------------------------------------------------

pub fn prefix_eq(a: &Prefix, b: &Prefix) -> (r: bool)
    ensures
        r == (a@ == b@),
{
    let r = a.bits == b.bits && a.octets[0] == b.octets[0] && a.octets[1] == b.octets[1]
        && a.octets[2] == b.octets[2] && a.octets[3] == b.octets[3];
    if r {
        assert(a.octets@ =~= b.octets@);
    }
    r
}

pub fn prefix_in(p: &Prefix, list: &[Prefix]) -> (r: bool)
    ensures
        r == views(list@).contains(p@),
{
    let mut i: usize = 0;
    while i < list.len()
        invariant
            i <= list@.len(),
            forall|k: int| 0 <= k < i ==> list@[k]@ != p@,
        decreases list.len() - i,
    {
        if prefix_eq(&list[i], p) {
            assert(views(list@)[i as int] == p@);
            return true;
        }
        i += 1;
    }
    proof {
        if views(list@).contains(p@) {
            let k = choose|k: int| 0 <= k < views(list@).len() && views(list@)[k] == p@;
            assert(list@[k]@ == p@);
        }
    }
    false
}

/// A RIB route: the neighbor it was learned from and the prefix.
pub struct RibEntry {
    pub neighbor: String,
    pub prefix: Prefix,
}

impl View for RibEntry {
    type V = (Seq<char>, (u8, Seq<u8>));

    open spec fn view(&self) -> (Seq<char>, (u8, Seq<u8>)) {
        (self.neighbor@, self.prefix@)
    }
}

pub open spec fn rib_view(rib: Seq<RibEntry>) -> Seq<(Seq<char>, (u8, Seq<u8>))> {
    rib.map_values(|e: RibEntry| e@)
}

/// The RIB after an UPDATE from `neighbor`: routes for withdrawn prefixes are
/// dropped (from every neighbor), then the announced prefixes are appended.
pub open spec fn rib_after_update(
    rib: Seq<(Seq<char>, (u8, Seq<u8>))>,
    neighbor: Seq<char>,
    announced: Seq<(u8, Seq<u8>)>,
    withdrawn: Seq<(u8, Seq<u8>)>,
) -> Seq<(Seq<char>, (u8, Seq<u8>))> {
    rib.filter(|e: (Seq<char>, (u8, Seq<u8>))| !withdrawn.contains(e.1)) + announced.map_values(
        |p: (u8, Seq<u8>)| (neighbor, p),
    )
}

pub fn copy_prefix(p: &Prefix) -> (r: Prefix)
    ensures
        r@ == p@,
{
    let octets: [u8; 4] = [p.octets[0], p.octets[1], p.octets[2], p.octets[3]];
    assert(octets@ =~= p.octets@);
    Prefix { bits: p.bits, octets }
}

pub fn apply_update(rib: &mut Vec<RibEntry>, neighbor: &str, announced: &[Prefix], withdrawn: &[Prefix])
    ensures
        rib_view(final(rib)@) == rib_after_update(
            rib_view(old(rib)@),
            neighbor@,
            views(announced@),
            views(withdrawn@),
        ),
{
    let ghost pred = |e: (Seq<char>, (u8, Seq<u8>))| !views(withdrawn@).contains(e.1);
    let mut kept: Vec<RibEntry> = Vec::new();
    let mut src: Vec<RibEntry> = Vec::new();
    std::mem::swap(&mut src, rib);
    let ghost orig = rib_view(src@);
    let mut i: usize = 0;
    // Reverse the old entries, then pop them back in their original order.
    let n = src.len();
    let mut rev: Vec<RibEntry> = Vec::new();
    while src.len() > 0
        invariant
            src@.len() + rev@.len() == n,
            rib_view(src@) == orig.subrange(0, src@.len() as int),
            orig.len() == n,
            rib_view(rev@) == orig.subrange(src@.len() as int, n as int).reverse(),
        decreases src.len(),
    {
        let ghost old_src = src@;
        let e = src.pop().unwrap();
        let ghost before = rib_view(rev@);
        rev.push(e);
        proof {
            assert(old_src[src@.len() as int] == e);
            assert(rib_view(old_src)[src@.len() as int] == e@);
            assert(orig[src@.len() as int] == e@);
            assert(rib_view(src@) =~= orig.subrange(0, src@.len() as int));
            assert(rib_view(rev@) =~= before.push(e@));
            assert(orig.subrange(src@.len() as int, n as int) =~= seq![e@] + orig.subrange(
                src@.len() + 1int,
                n as int,
            ));
            assert(orig.subrange(src@.len() as int, n as int).reverse() =~= orig.subrange(
                src@.len() + 1int,
                n as int,
            ).reverse().push(e@));
        }
    }
    assert(orig.subrange(0, n as int) =~= orig);
    assert(rib_view(rev@) =~= orig.reverse());
    while rev.len() > 0
        invariant
            i + rev@.len() == n,
            i <= n,
            orig.len() == n,
            rib_view(rev@) == orig.subrange(i as int, n as int).reverse(),
            rib_view(kept@) == orig.subrange(0, i as int).filter(pred),
            pred == (|e: (Seq<char>, (u8, Seq<u8>))| !views(withdrawn@).contains(e.1)),
        decreases rev.len(),
    {
        let e = rev.pop().unwrap();
        proof {
            let r = orig.subrange(i as int, n as int);
            assert(r.reverse().last() == r[0]);
            assert(r[0] == orig[i as int]);
            assert(rib_view(rev@) =~= r.reverse().drop_last());
            assert(r.reverse().drop_last() =~= orig.subrange(i + 1, n as int).reverse());
            assert(orig.subrange(0, i + 1).drop_last() =~= orig.subrange(0, i as int));
            assert(e@ == orig[i as int]);
        }
        let ghost before = rib_view(kept@);
        if !prefix_in(&e.prefix, withdrawn) {
            kept.push(e);
            assert(rib_view(kept@) =~= before.push(orig[i as int]));
        }
        proof {
            assert(orig.subrange(0, i + 1) =~= orig.subrange(0, i as int).push(orig[i as int]));
            orig.subrange(0, i as int).lemma_filter_push(orig[i as int], pred);
        }
        i += 1;
    }
    assert(orig.subrange(0, n as int) =~= orig);
    let mut j: usize = 0;
    let ghost filtered = rib_view(kept@);
    while j < announced.len()
        invariant
            j <= announced@.len(),
            rib_view(kept@) == filtered + views(announced@).subrange(0, j as int).map_values(
                |p: (u8, Seq<u8>)| (neighbor@, p),
            ),
        decreases announced.len() - j,
    {
        let ghost before = rib_view(kept@);
        let name = crate::text::string_from(&crate::text::chars_of(neighbor));
        let p = copy_prefix(&announced[j]);
        kept.push(RibEntry { neighbor: name, prefix: p });
        proof {
            assert(rib_view(kept@) =~= before.push((neighbor@, announced@[j as int]@)));
            assert(views(announced@).subrange(0, j + 1).map_values(
                |p: (u8, Seq<u8>)| (neighbor@, p),
            ) =~= views(announced@).subrange(0, j as int).map_values(
                |p: (u8, Seq<u8>)| (neighbor@, p),
            ).push((neighbor@, announced@[j as int]@)));
        }
        j += 1;
    }
    assert(views(announced@).subrange(0, announced@.len() as int) =~= views(announced@));
    *rib = kept;
}


// ---------------------------------------------------------------------------
// Session state machine
// ---------------------------------------------------------------------------

/// An AS number as the 16-bit field carries it: values above 65535 become 65535.
pub open spec fn clamp_as(x: u32) -> u16 {
    if x <= 65535 {
        x as u16
    } else {
        65535u16
    }
}

/// The router id as a 32-bit value; an id that is no IPv4 address counts as 0.
pub open spec fn router_id_value(s: Seq<char>) -> u32 {
    match ipv4_parse(s) {
        Some(a) => a,
        None => 0,
    }
}

/// The remote AS configured for the first neighbor entry with this address.
pub open spec fn neighbor_remote_as(ns: Seq<BgpNeighbor>, who: Seq<char>) -> Option<u32>
    decreases ns.len(),
{
    if ns.len() == 0 {
        None
    } else if ns[0].ip@ == who {
        Some(ns[0].remote_as)
    } else {
        neighbor_remote_as(ns.drop_first(), who)
    }
}

/// The configured networks that parse as prefixes, in order.
pub open spec fn parsed_networks(s: Seq<String>) -> Seq<(u8, Seq<u8>)>
    decreases s.len(),
{
    if s.len() == 0 {
        Seq::empty()
    } else {
        let rest = parsed_networks(s.drop_last());
        match prefix_parse_spec(s.last()@) {
            Some(p) => rest.push(p),
            None => rest,
        }
    }
}

/// What one session takes from the speaker configuration.
pub struct SessionParams {
    pub local_as: u16,
    pub router_id: u32,
    pub expected_remote_as: Option<u16>,
    pub networks: Vec<Prefix>,
}

pub fn first_remote_as(ns: &Vec<BgpNeighbor>, who: &str) -> (r: Option<u32>)
    ensures
        r == neighbor_remote_as(ns@, who@),
{
    let mut i: usize = 0;
    assert(ns@.subrange(0, ns@.len() as int) =~= ns@);
    while i < ns.len()
        invariant
            i <= ns@.len(),
            neighbor_remote_as(ns@, who@) == neighbor_remote_as(
                ns@.subrange(i as int, ns@.len() as int),
                who@,
            ),
        decreases ns.len() - i,
    {
        let ghost rest = ns@.subrange(i as int, ns@.len() as int);
        assert(rest[0] == ns@[i as int]);
        assert(rest.drop_first() =~= ns@.subrange(i + 1, ns@.len() as int));
        if crate::text::str_eq(ns[i].ip.as_str(), who) {
            return Some(ns[i].remote_as);
        }
        i += 1;
    }
    None
}

pub fn parse_networks(s: &Vec<String>) -> (r: Vec<Prefix>)
    ensures
        views(r@) == parsed_networks(s@),
{
    let mut out: Vec<Prefix> = Vec::new();
    let mut i: usize = 0;
    while i < s.len()
        invariant
            i <= s@.len(),
            views(out@) == parsed_networks(s@.subrange(0, i as int)),
        decreases s.len() - i,
    {
        let ghost before = views(out@);
        assert(s@.subrange(0, i + 1).drop_last() =~= s@.subrange(0, i as int));
        assert(s@.subrange(0, i + 1).last() == s@[i as int]);
        match Prefix::parse(s[i].as_str()) {
            Some(p) => {
                out.push(p);
                assert(views(out@) =~= before.push(p@));
            },
            None => {},
        }
        i += 1;
    }
    assert(s@.subrange(0, s@.len() as int) =~= s@);
    out
}

/// The session parameters for `neighbor`: the local AS clamped to 16 bits,
/// the router id, the remote AS expected of this neighbor (if it is
/// configured) and the networks to advertise.
pub fn session_params(cfg: &Bgp, neighbor: &str) -> (r: SessionParams)
    ensures
        r.local_as == clamp_as(cfg.local_as),
        r.router_id == router_id_value(cfg.router_id@),
        r.expected_remote_as == (match neighbor_remote_as(cfg.neighbors@, neighbor@) {
            Some(x) => Some(clamp_as(x)),
            None => None,
        }),
        views(r.networks@) == parsed_networks(cfg.networks@),
{
    let local_as: u16 = if cfg.local_as <= 65535 {
        cfg.local_as as u16
    } else {
        65535
    };
    let router_id: u32 = match parse_ipv4(cfg.router_id.as_str()) {
        Some(a) => a,
        None => 0,
    };
    let expected_remote_as = match first_remote_as(&cfg.neighbors, neighbor) {
        Some(x) => Some(
            if x <= 65535 {
                x as u16
            } else {
                65535u16
            },
        ),
        None => None,
    };
    SessionParams {
        local_as,
        router_id,
        expected_remote_as,
        networks: parse_networks(&cfg.networks),
    }
}

/// Where a session stands between two received messages.
#[derive(Debug, Clone, Copy, PartialEq, Eq, Structural)]
pub enum SessionPhase {
    /// Our OPEN is sent; the peer's OPEN is awaited.
    AwaitOpen,
    /// The peer's OPEN was accepted and our KEEPALIVE sent.
    AwaitKeepalive,
    Established,
    /// The session is over; the connection is dropped.
    Closed,
}

/// What the session does after one event: a message to send, a state to
/// record for the neighbor, and the phase it moves to.
pub struct SessionStep {
    pub send: Option<Vec<u8>>,
    pub record: Option<SessionState>,
    pub next: SessionPhase,
}

pub open spec fn send_view(s: Option<Vec<u8>>) -> Option<Seq<u8>> {
    match s {
        Some(v) => Some(v@),
        None => None,
    }
}

/// The reply to one received message of type `t` with body `body`.
pub open spec fn session_step_spec(
    local_as: u16,
    router_id: u32,
    expected: Option<u16>,
    networks: Seq<(u8, Seq<u8>)>,
    phase: SessionPhase,
    t: u8,
    body: Seq<u8>,
) -> (Option<Seq<u8>>, Option<SessionState>, SessionPhase) {
    match phase {
        SessionPhase::AwaitOpen => {
            if t != MSG_OPEN || body.len() < 10 {
                (None, None, SessionPhase::Closed)
            } else if expected is Some && expected->0 != be16_at(body, 0) {
                (Some(notification_spec(2, 2)), None, SessionPhase::Closed)
            } else {
                (Some(keepalive_spec()), Some(SessionState::OpenConfirm), SessionPhase::AwaitKeepalive)
            }
        },
        SessionPhase::AwaitKeepalive => {
            if t != MSG_KEEPALIVE {
                (None, None, SessionPhase::Closed)
            } else if networks.len() == 0 {
                (None, Some(SessionState::Established), SessionPhase::Established)
            } else {
                (
                    Some(update_spec(networks, Seq::empty(), router_id, local_as as u32)),
                    Some(SessionState::Established),
                    SessionPhase::Established,
                )
            }
        },
        SessionPhase::Established => {
            if t == MSG_NOTIFICATION {
                (None, Some(SessionState::Idle), SessionPhase::Closed)
            } else {
                (None, None, SessionPhase::Established)
            }
        },
        SessionPhase::Closed => (None, None, SessionPhase::Closed),
    }
}

/// Opening a session: our OPEN (hold time 180 s), recorded as `OpenSent`.
pub fn session_open(p: &SessionParams) -> (r: (Vec<u8>, SessionState, SessionPhase))
    ensures
        r.0@ == open_spec(p.local_as, 180, p.router_id),
        r.1 == SessionState::OpenSent,
        r.2 == SessionPhase::AwaitOpen,
{
    (encode_open(p.local_as, 180, p.router_id), SessionState::OpenSent, SessionPhase::AwaitOpen)
}

/// What the outbound dialer of a neighbor does next, given the session's
/// recorded state: dial while it is not established, else look again later.
pub fn should_dial(state: SessionState) -> (r: bool)
    ensures
        r == !(state is Established),
{
    match state {
        SessionState::Established => false,
        _ => true,
    }
}

/// The keepalive timer: an established session sends a KEEPALIVE.
pub fn session_tick(phase: SessionPhase) -> (r: Option<Vec<u8>>)
    ensures
        send_view(r) == (if phase == SessionPhase::Established {
            Some(keepalive_spec())
        } else {
            None
        }),
{
    match phase {
        SessionPhase::Established => Some(encode_keepalive()),
        _ => None,
    }
}

/// One received message. In an established session an UPDATE also changes
/// the RIB as [`apply_update`] does, with the prefixes it announces.
pub fn session_step(
    p: &SessionParams,
    phase: SessionPhase,
    msg: &RawMessage,
    rib: &mut Vec<RibEntry>,
    neighbor: &str,
) -> (r: SessionStep)
    requires
        phase == SessionPhase::Established && msg.msg_type == MSG_UPDATE ==> msg.body@.len() >= 4,
        phase == SessionPhase::AwaitKeepalive && msg.msg_type == MSG_KEEPALIVE ==> (forall|i: int|
            0 <= i < p.networks@.len() ==> (#[trigger] p.networks@[i]).bits <= 32) && 5
            * p.networks@.len() + 41 <= usize::MAX,
    ensures
        (send_view(r.send), r.record, r.next) == session_step_spec(
            p.local_as,
            p.router_id,
            p.expected_remote_as,
            views(p.networks@),
            phase,
            msg.msg_type,
            msg.body@,
        ),
        rib_view(final(rib)@) == (if phase == SessionPhase::Established && msg.msg_type
            == MSG_UPDATE {
            rib_after_update(
                rib_view(old(rib)@),
                neighbor@,
                parse_update_spec(msg.body@),
                Seq::empty(),
            )
        } else {
            rib_view(old(rib)@)
        }),
{
    match phase {
        SessionPhase::AwaitOpen => {
            if msg.msg_type != MSG_OPEN || msg.body.len() < 10 {
                return SessionStep { send: None, record: None, next: SessionPhase::Closed };
            }
            let remote_as = be16_at_exec(msg.body.as_slice(), 0);
            match p.expected_remote_as {
                Some(exp) => {
                    if exp as usize != remote_as {
                        return SessionStep {
                            send: Some(encode_notification(2, 2)),
                            record: None,
                            next: SessionPhase::Closed,
                        };
                    }
                },
                None => {},
            }
            SessionStep {
                send: Some(encode_keepalive()),
                record: Some(SessionState::OpenConfirm),
                next: SessionPhase::AwaitKeepalive,
            }
        },
        SessionPhase::AwaitKeepalive => {
            if msg.msg_type != MSG_KEEPALIVE {
                return SessionStep { send: None, record: None, next: SessionPhase::Closed };
            }
            if p.networks.len() == 0 {
                SessionStep {
                    send: None,
                    record: Some(SessionState::Established),
                    next: SessionPhase::Established,
                }
            } else {
                let none: Vec<Prefix> = Vec::new();
                let u = encode_update(
                    p.networks.as_slice(),
                    none.as_slice(),
                    p.router_id,
                    p.local_as as u32,
                );
                assert(views(none@) =~= Seq::<(u8, Seq<u8>)>::empty());
                SessionStep {
                    send: Some(u),
                    record: Some(SessionState::Established),
                    next: SessionPhase::Established,
                }
            }
        },
        SessionPhase::Established => {
            if msg.msg_type == MSG_UPDATE {
                let (announced, withdrawn) = parse_update(msg.body.as_slice());
                assert(views(withdrawn@) =~= Seq::<(u8, Seq<u8>)>::empty());
                apply_update(rib, neighbor, announced.as_slice(), withdrawn.as_slice());
                SessionStep { send: None, record: None, next: SessionPhase::Established }
            } else if msg.msg_type == MSG_NOTIFICATION {
                SessionStep {
                    send: None,
                    record: Some(SessionState::Idle),
                    next: SessionPhase::Closed,
                }
            } else {
                SessionStep { send: None, record: None, next: SessionPhase::Established }
            }
        },
        SessionPhase::Closed => SessionStep { send: None, record: None, next: SessionPhase::Closed },
    }
}


/// The session walks the RFC 4271 states in order: `OpenConfirm` is
/// recorded only for an OPEN received while awaiting one, `Established` only
/// for a KEEPALIVE received after that; an established phase is entered only
/// from those two; a closed session stays closed; and a NOTIFICATION ends an
/// established session in `Idle`.
pub proof fn law_session_fsm_order(
    local_as: u16,
    router_id: u32,
    expected: Option<u16>,
    networks: Seq<(u8, Seq<u8>)>,
    phase: SessionPhase,
    t: u8,
    body: Seq<u8>,
)
    ensures
        ({
            let s = session_step_spec(local_as, router_id, expected, networks, phase, t, body);
            &&& s.1 == Some(SessionState::OpenConfirm) ==> phase == SessionPhase::AwaitOpen && t
                == MSG_OPEN
            &&& s.1 == Some(SessionState::Established) ==> phase == SessionPhase::AwaitKeepalive
                && t == MSG_KEEPALIVE
            &&& s.2 == SessionPhase::Established ==> phase == SessionPhase::AwaitKeepalive || phase
                == SessionPhase::Established
            &&& phase == SessionPhase::Closed ==> s == (
                None::<Seq<u8>>,
                None::<SessionState>,
                SessionPhase::Closed,
            )
            &&& phase == SessionPhase::Established && t == MSG_NOTIFICATION ==> s.1 == Some(
                SessionState::Idle,
            ) && s.2 == SessionPhase::Closed
        }),
{
}

} // verus!
