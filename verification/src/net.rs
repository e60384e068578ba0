//! IP address values and their textual forms: dotted-quad IPv4 and
//! colon-hex IPv6 (with `::` compression).
use vstd::prelude::*;

use crate::text::{
    all_digits, chars_of, digits_val, find_sub, find_substr, is_digit, parse_uint,
    parse_uint_spec, slice_chars, split_by, split_seq,
};

verus! {

/// An IP address as its numeric value.
#[derive(Debug, Clone, Copy, PartialEq, Eq)]
pub enum IpAddress {
    V4(u32),
    V6(u128),
}

// ---------------------------------------------------------------------------
// IPv4
// ---------------------------------------------------------------------------

/// One dotted-quad component: 1 to 3 digits, no leading zero, at most 255.
pub open spec fn v4_octet(s: Seq<char>) -> Option<nat> {
    if 1 <= s.len() <= 3 && all_digits(s) && !(s.len() > 1 && s[0] == '0') && digits_val(s)
        <= 255 {
        Some(digits_val(s))
    } else {
        None
    }
}

/// `a.b.c.d` with exactly four components; the value is big-endian.
pub open spec fn ipv4_parse(s: Seq<char>) -> Option<u32> {
    let parts = split_seq(s, seq!['.']);
    if parts.len() == 4 && v4_octet(parts[0]) is Some && v4_octet(parts[1]) is Some && v4_octet(
        parts[2],
    ) is Some && v4_octet(parts[3]) is Some {
        Some(
            (v4_octet(parts[0])->0 * 16777216 + v4_octet(parts[1])->0 * 65536 + v4_octet(
                parts[2],
            )->0 * 256 + v4_octet(parts[3])->0) as u32,
        )
    } else {
        None
    }
}

pub fn parse_v4_octet(s: &Vec<char>) -> (r: Option<u32>)
    ensures
        match r {
            Some(v) => v4_octet(s@) == Some(v as nat) && v <= 255,
            None => v4_octet(s@) is None,
        },
{
    if s.len() < 1 || s.len() > 3 {
        return None;
    }
    let mut i: usize = 0;
    while i < s.len()
        invariant
            i <= s.len(),
            forall|j: int| 0 <= j < i ==> is_digit(#[trigger] s@[j]),
        decreases s.len() - i,
    {
        if !('0' <= s[i] && s[i] <= '9') {
            return None;
        }
        i += 1;
    }
    assert(all_digits(s@));
    if s.len() > 1 && s[0] == '0' {
        return None;
    }
    assert(s@[0] != '+');
    match parse_uint(s, 255) {
        Some(v) => Some(v as u32),
        None => None,
    }
}

pub fn parse_ipv4_chars(s: &Vec<char>) -> (r: Option<u32>)
    ensures
        r == ipv4_parse(s@),
{
    let mut dot: Vec<char> = Vec::new();
    dot.push('.');
    assert(dot@ =~= seq!['.']);
    let parts = split_by(s, &dot);
    if parts.len() != 4 {
        return None;
    }
    proof {
        let m = parts@.map_values(|v: Vec<char>| v@);
        assert(m[0] == parts@[0]@ && m[1] == parts@[1]@ && m[2] == parts@[2]@ && m[3]
            == parts@[3]@);
    }
    let a = match parse_v4_octet(&parts[0]) {
        Some(v) => v,
        None => return None,
    };
    let b = match parse_v4_octet(&parts[1]) {
        Some(v) => v,
        None => return None,
    };
    let c = match parse_v4_octet(&parts[2]) {
        Some(v) => v,
        None => return None,
    };
    let d = match parse_v4_octet(&parts[3]) {
        Some(v) => v,
        None => return None,
    };
    Some(a * 16777216 + b * 65536 + c * 256 + d)
}

pub fn parse_ipv4(s: &str) -> (r: Option<u32>)
    ensures
        r == ipv4_parse(s@),
{
    let cs = chars_of(s);
    parse_ipv4_chars(&cs)
}

// ---------------------------------------------------------------------------
// IPv6
// ---------------------------------------------------------------------------

pub open spec fn is_hex(c: char) -> bool {
    ('0' <= c && c <= '9') || ('a' <= c && c <= 'f') || ('A' <= c && c <= 'F')
}

pub open spec fn hex_value(c: char) -> nat {
    if '0' <= c && c <= '9' {
        ((c as u32) - 48) as nat
    } else if 'a' <= c && c <= 'f' {
        ((c as u32) - 87) as nat
    } else {
        ((c as u32) - 55) as nat
    }
}

pub open spec fn hex_val(s: Seq<char>) -> nat
    decreases s.len(),
{
    if s.len() == 0 {
        0
    } else {
        hex_val(s.drop_last()) * 16 + hex_value(s.last())
    }
}

/// One colon-separated group: 1 to 4 hexadecimal digits.
pub open spec fn hex_group(s: Seq<char>) -> Option<nat> {
    if 1 <= s.len() <= 4 && forall|i: int| 0 <= i < s.len() ==> is_hex(#[trigger] s[i]) {
        Some(hex_val(s))
    } else {
        None
    }
}

pub open spec fn parse_groups(parts: Seq<Seq<char>>) -> Option<Seq<nat>>
    decreases parts.len(),
{
    if parts.len() == 0 {
        Some(Seq::empty())
    } else {
        match (parse_groups(parts.drop_last()), hex_group(parts.last())) {
            (Some(g), Some(v)) => Some(g.push(v)),
            _ => None,
        }
    }
}

/// The two 16-bit groups of an IPv4 address written in dotted form.
pub open spec fn v4_groups(a: u32) -> Seq<nat> {
    seq![(a / 65536) as nat, (a % 65536) as nat]
}

/// The groups of a colon-separated run (the empty run has none). With
/// `v4_tail`, the run's last part may be a dotted IPv4 address, which stands
/// for the last two groups.
pub open spec fn groups_of(s: Seq<char>, v4_tail: bool) -> Option<Seq<nat>> {
    if s.len() == 0 {
        Some(Seq::empty())
    } else {
        let parts = split_seq(s, seq![':']);
        match ipv4_parse(parts.last()) {
            Some(a) if v4_tail => match parse_groups(parts.drop_last()) {
                Some(g) => Some(g + v4_groups(a)),
                None => None,
            },
            _ => parse_groups(parts),
        }
    }
}

/// The eight 16-bit groups of an IPv6 address; `::` stands for one or more
/// zero groups and appears at most once, and the last 32 bits may be written
/// as a dotted IPv4 address (not before the `::`).
pub open spec fn ipv6_groups(s: Seq<char>) -> Option<Seq<nat>> {
    let k = find_sub(s, seq![':', ':']);
    if k >= 0 {
        match (groups_of(s.subrange(0, k), false), groups_of(s.subrange(k + 2, s.len() as int), true)) {
            (Some(h), Some(t)) => if h.len() + t.len() <= 7 {
                Some(h + Seq::new((8 - h.len() - t.len()) as nat, |i: int| 0nat) + t)
            } else {
                None
            },
            _ => None,
        }
    } else {
        match groups_of(s, true) {
            Some(g) => if g.len() == 8 {
                Some(g)
            } else {
                None
            },
            None => None,
        }
    }
}

/// Big-endian value of a sequence of 16-bit groups.
pub open spec fn groups_value(g: Seq<nat>) -> nat
    decreases g.len(),
{
    if g.len() == 0 {
        0
    } else {
        groups_value(g.drop_last()) * 65536 + g.last()
    }
}

pub open spec fn ipv6_parse(s: Seq<char>) -> Option<u128> {
    match ipv6_groups(s) {
        Some(g) => Some(groups_value(g) as u128),
        None => None,
    }
}

/// Textual IP address: IPv4 when it reads as one, else IPv6.
pub open spec fn ip_parse(s: Seq<char>) -> Option<IpAddress> {
    match ipv4_parse(s) {
        Some(a) => Some(IpAddress::V4(a)),
        None => match ipv6_parse(s) {
            Some(a) => Some(IpAddress::V6(a)),
            None => None,
        },
    }
}

pub fn hex_digit_value(c: char) -> (r: Option<u32>)
    ensures
        match r {
            Some(v) => is_hex(c) && v == hex_value(c) && v < 16,
            None => !is_hex(c),
        },
{
    if '0' <= c && c <= '9' {
        Some(c as u32 - 48)
    } else if 'a' <= c && c <= 'f' {
        Some(c as u32 - 87)
    } else if 'A' <= c && c <= 'F' {
        Some(c as u32 - 55)
    } else {
        None
    }
}

pub fn parse_hex_group(s: &Vec<char>) -> (r: Option<u32>)
    ensures
        match r {
            Some(v) => hex_group(s@) == Some(v as nat) && v < 65536,
            None => hex_group(s@) is None,
        },
{
    if s.len() < 1 || s.len() > 4 {
        return None;
    }
    let mut v: u32 = 0;
    let mut i: usize = 0;
    while i < s.len()
        invariant
            1 <= s.len() <= 4,
            i <= s.len(),
            forall|j: int| 0 <= j < i ==> is_hex(#[trigger] s@[j]),
            v as nat == hex_val(s@.subrange(0, i as int)),
            v < pow16(i as nat),
        decreases s.len() - i,
    {
        let d = match hex_digit_value(s[i]) {
            Some(d) => d,
            None => return None,
        };
        assert(s@.subrange(0, i + 1).drop_last() =~= s@.subrange(0, i as int));
        assert(pow16((i + 1) as nat) == pow16(i as nat) * 16);
        assert(v * 16 + d < pow16(i as nat) * 16) by (nonlinear_arith)
            requires
                v < pow16(i as nat),
                d < 16,
        ;
        assert(pow16(i as nat) <= 4096) by {
            assert(pow16(0) == 1);
            assert(pow16(1) == 16);
            assert(pow16(2) == 256);
            assert(pow16(3) == 4096);
        }
        v = v * 16 + d;
        i += 1;
    }
    assert(s@.subrange(0, s@.len() as int) =~= s@);
    assert(pow16(4) == 65536) by {
        assert(pow16(0) == 1);
        assert(pow16(1) == 16);
        assert(pow16(2) == 256);
        assert(pow16(3) == 4096);
    }
    assert(pow16(s@.len()) <= 65536) by {
        assert(pow16(0) == 1);
        assert(pow16(1) == 16);
        assert(pow16(2) == 256);
        assert(pow16(3) == 4096);
    }
    Some(v)
}

pub open spec fn pow16(n: nat) -> nat
    decreases n,
{
    if n == 0 {
        1
    } else {
        pow16((n - 1) as nat) * 16
    }
}

/// Groups of a colon-separated run, as 16-bit values; with `v4_tail` the
/// last part may be a dotted IPv4 address.
pub fn parse_group_run(s: &Vec<char>, v4_tail: bool) -> (r: Option<Vec<u32>>)
    ensures
        match r {
            Some(g) => groups_of(s@, v4_tail) == Some(g@.map_values(|x: u32| x as nat)) && forall|i: int|
                0 <= i < g@.len() ==> #[trigger] g@[i] < 65536,
            None => groups_of(s@, v4_tail) is None,
        },
{
    let mut out: Vec<u32> = Vec::new();
    if s.len() == 0 {
        assert(out@.map_values(|x: u32| x as nat) =~= Seq::<nat>::empty());
        return Some(out);
    }
    let mut colon: Vec<char> = Vec::new();
    colon.push(':');
    assert(colon@ =~= seq![':']);
    let parts = split_by(s, &colon);
    let ghost ps = parts@.map_values(|v: Vec<char>| v@);
    let n = parts.len();
    assert(ps.len() > 0);
    assert(ps.last() == parts@[n - 1]@);
    let v4 = if v4_tail {
        parse_ipv4_chars(&parts[n - 1])
    } else {
        None
    };
    let m = if v4.is_some() {
        n - 1
    } else {
        n
    };
    let ghost qs = ps.subrange(0, m as int);
    assert(v4 is Some ==> qs =~= ps.drop_last());
    assert(v4 is None ==> qs =~= ps);
    let mut i: usize = 0;
    while i < m
        invariant
            i <= m <= parts@.len(),
            ps == parts@.map_values(|v: Vec<char>| v@),
            ps == split_seq(s@, seq![':']),
            qs == ps.subrange(0, m as int),
            ps.len() > 0,
            v4_tail ==> v4 == ipv4_parse(ps.last()),
            !v4_tail ==> v4 is None,
            v4 is Some ==> qs == ps.drop_last(),
            v4 is None ==> qs == ps,
            s@.len() > 0,
            parse_groups(qs.subrange(0, i as int)) == Some(out@.map_values(|x: u32| x as nat)),
            forall|k: int| 0 <= k < out@.len() ==> #[trigger] out@[k] < 65536,
        decreases m - i,
    {
        let g = match parse_hex_group(&parts[i]) {
            Some(g) => g,
            None => {
                proof {
                    assert(qs.subrange(0, i + 1).drop_last() =~= qs.subrange(0, i as int));
                    assert(qs[i as int] == parts@[i as int]@);
                    lemma_parse_groups_none_extends(qs, i as int + 1);
                    assert(qs.subrange(0, qs.len() as int) =~= qs);
                }
                return None;
            },
        };
        proof {
            assert(qs.subrange(0, i + 1).drop_last() =~= qs.subrange(0, i as int));
            assert(qs[i as int] == parts@[i as int]@);
        }
        let ghost before = out@.map_values(|x: u32| x as nat);
        out.push(g);
        assert(out@.map_values(|x: u32| x as nat) =~= before.push(g as nat));
        i += 1;
    }
    assert(qs.subrange(0, qs.len() as int) =~= qs);
    match v4 {
        Some(a) => {
            let ghost before = out@.map_values(|x: u32| x as nat);
            out.push(a / 65536);
            out.push(a % 65536);
            assert(out@.map_values(|x: u32| x as nat) =~= before + v4_groups(a));
        },
        None => {},
    }
    Some(out)
}

proof fn lemma_parse_groups_none_extends(ps: Seq<Seq<char>>, k: int)
    requires
        0 <= k <= ps.len(),
        parse_groups(ps.subrange(0, k)) is None,
    ensures
        parse_groups(ps) is None,
    decreases ps.len() - k,
{
    if k < ps.len() {
        assert(ps.subrange(0, k + 1).drop_last() =~= ps.subrange(0, k));
        lemma_parse_groups_none_extends(ps, k + 1);
    } else {
        assert(ps.subrange(0, k) =~= ps);
    }
}

pub fn groups_value_exec(g: &Vec<u32>) -> (r: u128)
    requires
        g@.len() == 8,
        forall|i: int| 0 <= i < g@.len() ==> #[trigger] g@[i] < 65536,
    ensures
        r as nat == groups_value(g@.map_values(|x: u32| x as nat)),
{
    let ghost gs = g@.map_values(|x: u32| x as nat);
    let mut v: u128 = 0;
    let mut i: usize = 0;
    while i < 8
        invariant
            i <= 8,
            g@.len() == 8,
            gs == g@.map_values(|x: u32| x as nat),
            forall|k: int| 0 <= k < g@.len() ==> #[trigger] g@[k] < 65536,
            v as nat == groups_value(gs.subrange(0, i as int)),
            v < pow65536(i as nat),
        decreases 8 - i,
    {
        assert(gs.subrange(0, i + 1).drop_last() =~= gs.subrange(0, i as int));
        assert(g@[i as int] < 65536);
        assert(pow65536((i + 1) as nat) == pow65536(i as nat) * 65536);
        assert(v * 65536 + (g@[i as int] as u128) < pow65536(i as nat) * 65536) by (nonlinear_arith)
            requires
                v < pow65536(i as nat),
                g@[i as int] < 65536,
        ;
        assert(pow65536((i + 1) as nat) <= pow65536(8)) by {
            lemma_pow65536_mono((i + 1) as nat, 8);
        }
        assert(pow65536(8) == 0x1_0000_0000_0000_0000_0000_0000_0000_0000) by {
            reveal_with_fuel(pow65536, 9);
        }
        v = v * 65536 + (g[i] as u128);
        i += 1;
    }
    assert(gs.subrange(0, 8) =~= gs);
    v
}

pub open spec fn pow65536(n: nat) -> nat
    decreases n,
{
    if n == 0 {
        1
    } else {
        pow65536((n - 1) as nat) * 65536
    }
}

proof fn lemma_pow65536_mono(a: nat, b: nat)
    requires
        a <= b,
    ensures
        pow65536(a) <= pow65536(b),
    decreases b - a,
{
    if a < b {
        lemma_pow65536_mono(a, (b - 1) as nat);
        assert(pow65536((b - 1) as nat) <= pow65536((b - 1) as nat) * 65536) by (nonlinear_arith);
    }
}

pub fn parse_ipv6_chars(s: &Vec<char>) -> (r: Option<u128>)
    ensures
        r == ipv6_parse(s@),
{
    let mut dc: Vec<char> = Vec::new();
    dc.push(':');
    dc.push(':');
    assert(dc@ =~= seq![':', ':']);
    match find_substr(s, &dc) {
        Some(k) => {
            proof {
                crate::text::lemma_find_sub_bound(s@, dc@);
            }
            let n = s.len();
            assert(k + 2 <= n);
            let head = slice_chars(s, 0, k);
            let tail = slice_chars(s, k + 2, n);
            let h = match parse_group_run(&head, false) {
                Some(h) => h,
                None => return None,
            };
            let t = match parse_group_run(&tail, true) {
                Some(t) => t,
                None => return None,
            };
            if h.len() > 7 || t.len() > 7 - h.len() {
                return None;
            }
            let mut all: Vec<u32> = Vec::new();
            let mut i: usize = 0;
            while i < h.len()
                invariant
                    i <= h@.len(),
                    all@ == h@.subrange(0, i as int),
                decreases h.len() - i,
            {
                all.push(h[i]);
                assert(h@.subrange(0, i + 1) =~= h@.subrange(0, i as int).push(h@[i as int]));
                i += 1;
            }
            let zeros = 8 - h.len() - t.len();
            let mut z: usize = 0;
            while z < zeros
                invariant
                    z <= zeros,
                    zeros == 8 - h@.len() - t@.len(),
                    all@ == h@ + Seq::new(z as nat, |q: int| 0u32),
                decreases zeros - z,
            {
                all.push(0);
                assert(all@ =~= h@ + Seq::new((z + 1) as nat, |q: int| 0u32));
                z += 1;
            }
            let mut j: usize = 0;
            let ghost mid = all@;
            while j < t.len()
                invariant
                    j <= t@.len(),
                    all@ == mid + t@.subrange(0, j as int),
                decreases t.len() - j,
            {
                all.push(t[j]);
                assert(t@.subrange(0, j + 1) =~= t@.subrange(0, j as int).push(t@[j as int]));
                j += 1;
            }
            proof {
                assert(t@.subrange(0, t@.len() as int) =~= t@);
                assert(h@.subrange(0, h@.len() as int) =~= h@);
                let hn = h@.map_values(|x: u32| x as nat);
                let tn = t@.map_values(|x: u32| x as nat);
                assert(all@.map_values(|x: u32| x as nat) =~= hn + Seq::new(
                    (8 - hn.len() - tn.len()) as nat,
                    |q: int| 0nat,
                ) + tn);
                assert forall|q: int| 0 <= q < all@.len() implies #[trigger] all@[q] < 65536 by {
                    if q < h@.len() {
                        assert(all@[q] == h@[q]);
                    } else if q < h@.len() + zeros {
                    } else {
                        assert(all@[q] == t@[q - h@.len() - zeros]);
                    }
                }
            }
            Some(groups_value_exec(&all))
        },
        None => {
            let g = match parse_group_run(s, true) {
                Some(g) => g,
                None => return None,
            };
            if g.len() != 8 {
                return None;
            }
            Some(groups_value_exec(&g))
        },
    }
}

pub fn parse_ip_chars(s: &Vec<char>) -> (r: Option<IpAddress>)
    ensures
        r == ip_parse(s@),
{
    match parse_ipv4_chars(s) {
        Some(a) => Some(IpAddress::V4(a)),
        None => match parse_ipv6_chars(s) {
            Some(a) => Some(IpAddress::V6(a)),
            None => None,
        },
    }
}

pub fn parse_ip(s: &str) -> (r: Option<IpAddress>)
    ensures
        r == ip_parse(s@),
{
    let cs = chars_of(s);
    parse_ip_chars(&cs)
}

// ---------------------------------------------------------------------------
// Socket addresses
// ---------------------------------------------------------------------------

/// A port: one or more ASCII digits whose value fits in 16 bits.
pub open spec fn port_parse(s: Seq<char>) -> Option<u16> {
    if s.len() > 0 && all_digits(s) && digits_val(s) <= 65535 {
        Some(digits_val(s) as u16)
    } else {
        None
    }
}

pub fn parse_port(s: &Vec<char>) -> (r: Option<u16>)
    ensures
        r == port_parse(s@),
{
    if s.len() == 0 || s[0] == '+' {
        return None;
    }
    match parse_uint(s, 65535) {
        Some(v) => {
            assert(crate::text::unsigned_body(s@) == s@);
            Some(v as u16)
        },
        None => {
            assert(crate::text::unsigned_body(s@) == s@);
            None
        },
    }
}

/// `a.b.c.d:port`, or `[v6]:port`.
pub open spec fn socket_addr_parse(s: Seq<char>) -> Option<(IpAddress, u16)> {
    if s.len() > 0 && s[0] == '[' {
        let close = find_sub(s, "]:"@);
        if close < 0 {
            None
        } else {
            match (ipv6_parse(s.subrange(1, close)), port_parse(s.subrange(close + 2, s.len() as int))) {
                (Some(a), Some(p)) => Some((IpAddress::V6(a), p)),
                _ => None,
            }
        }
    } else {
        match crate::text::split_once_spec(s, ':') {
            Some(parts) => match (ipv4_parse(parts.0), port_parse(parts.1)) {
                (Some(a), Some(p)) => Some((IpAddress::V4(a), p)),
                _ => None,
            },
            None => None,
        }
    }
}

pub fn parse_socket_addr(s: &str) -> (r: Option<(IpAddress, u16)>)
    ensures
        r == socket_addr_parse(s@),
{
    let cs = chars_of(s);
    if cs.len() > 0 && cs[0] == '[' {
        let sep = chars_of("]:");
        proof {
            reveal_strlit("]:");
            crate::text::lemma_find_sub_bound(cs@, sep@);
        }
        match find_substr(&cs, &sep) {
            Some(close) => {
                assert(sep@.len() == 2);
                assert(find_sub(cs@, sep@) == close as int);
                assert(find_sub(cs@, sep@) + sep@.len() <= cs@.len());
                assert(close + 2 <= cs.len());
                assert(close >= 1) by {
                    assert(cs@.subrange(close as int, close + 2) == sep@);
                    assert(sep@[0] == ']');
                    assert(cs@[close as int] == ']');
                }
                let inner = slice_chars(&cs, 1, close);
                let port = slice_chars(&cs, close + 2, cs.len());
                match (parse_ipv6_chars(&inner), parse_port(&port)) {
                    (Some(a), Some(p)) => Some((IpAddress::V6(a), p)),
                    _ => None,
                }
            },
            None => None,
        }
    } else {
        match crate::text::split_once(&cs, ':') {
            Some(parts) => match (parse_ipv4_chars(&parts.0), parse_port(&parts.1)) {
                (Some(a), Some(p)) => Some((IpAddress::V4(a), p)),
                _ => None,
            },
            None => None,
        }
    }
}

/// Big-endian bytes of a 32-bit value.
pub open spec fn u32_be(v: u32) -> Seq<u8> {
    seq![
        (v / 16777216) as u8,
        ((v / 65536) % 256) as u8,
        ((v / 256) % 256) as u8,
        (v % 256) as u8,
    ]
}

pub fn u32_be_bytes(v: u32) -> (r: Vec<u8>)
    ensures
        r@ == u32_be(v),
{
    let mut out: Vec<u8> = Vec::new();
    out.push((v / 16777216) as u8);
    out.push(((v / 65536) % 256) as u8);
    out.push(((v / 256) % 256) as u8);
    out.push((v % 256) as u8);
    assert(out@ =~= u32_be(v));
    out
}

impl IpAddress {
    /// The all-zero address of its family.
    pub open spec fn spec_is_unspecified(self) -> bool {
        match self {
            IpAddress::V4(a) => a == 0,
            IpAddress::V6(a) => a == 0,
        }
    }

    pub fn is_unspecified(&self) -> (r: bool)
        ensures
            r == self.spec_is_unspecified(),
    {
        match self {
            IpAddress::V4(a) => *a == 0,
            IpAddress::V6(a) => *a == 0,
        }
    }

    /// 127.0.0.0/8 for IPv4, `::1` for IPv6.
    pub open spec fn spec_is_loopback(self) -> bool {
        match self {
            IpAddress::V4(a) => a / 16777216 == 127,
            IpAddress::V6(a) => a == 1,
        }
    }

    pub fn is_loopback(&self) -> (r: bool)
        ensures
            r == self.spec_is_loopback(),
    {
        match self {
            IpAddress::V4(a) => *a / 16777216 == 127,
            IpAddress::V6(a) => *a == 1,
        }
    }
}

} // verus!
