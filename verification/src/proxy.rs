//! The reverse proxy's request handling: locating and parsing a request head,
//! the forwarding header, host/path routing, the translation of heads for an
//! HTTP/2 upstream, and chunked framing of the answer.
use vstd::prelude::*;

use crate::config::{BackendProto, HttpPool};
use crate::lb::{backends_from, fresh_backends, valid_addrs, wadd, Backend};
use crate::text::{
    append_chars, append_str, chars_of, dec, has_prefix, is_ascii_alpha, lower_chars, lower_seq,
    parse_uint, parse_uint_spec, push_dec, seq_eq, slice_chars, split_by, split_once,
    split_once_spec, split_seq, split_words, string_from, trim_chars, trim_spec, upper_chars,
    upper_seq, words, is_ascii_lower, is_ascii_upper,
};

verus! {

broadcast use vstd::string::group_string_axioms;

// ---------------------------------------------------------------------------
// Locating the head
// ---------------------------------------------------------------------------

/// Whether `b[p..p + 4]` is CR LF CR LF.
pub open spec fn blank_line_at(b: Seq<u8>, p: int) -> bool {
    &&& 0 <= p
    &&& p + 4 <= b.len()
    &&& b[p] == 13
    &&& b[p + 1] == 10
    &&& b[p + 2] == 13
    &&& b[p + 3] == 10
}

/// End of the request head: the position just after the first blank line.
pub fn find_head_end(buf: &[u8]) -> (r: Option<usize>)
    ensures
        match r {
            Some(e) => e >= 4 && blank_line_at(buf@, e - 4) && forall|q: int|
                0 <= q < e - 4 ==> !blank_line_at(buf@, q),
            None => forall|q: int| !blank_line_at(buf@, q),
        },
{
    let mut p: usize = 0;
    while buf.len() >= 4 && p < buf.len() - 3
        invariant
            forall|q: int| 0 <= q < p ==> !blank_line_at(buf@, q),
            buf.len() >= 4 ==> p <= buf.len() - 3,
        decreases buf.len() - p,
    {
        if buf[p] == 13 && buf[p + 1] == 10 && buf[p + 2] == 13 && buf[p + 3] == 10 {
            return Some(p + 4);
        }
        p += 1;
    }
    None
}

// ---------------------------------------------------------------------------
// Request head: path and Host
// ---------------------------------------------------------------------------

/// A `Host:` header line (name matched without regard to ASCII case).
pub open spec fn host_line(line: Seq<char>) -> bool {
    line.len() >= 6 && lower_seq(line.subrange(0, 5)) == "host:"@
}

/// The host of a `Host:` line: its trimmed value up to the first `:`, in
/// lower case.
pub open spec fn host_of_line(line: Seq<char>) -> Seq<char> {
    let v = trim_spec(line.subrange(5, line.len() as int));
    lower_seq(
        match split_once_spec(v, ':') {
            Some(p) => p.0,
            None => v,
        },
    )
}

/// The host of the last `Host:` line (empty when there is none).
pub open spec fn last_host(lines: Seq<Seq<char>>) -> Seq<char>
    decreases lines.len(),
{
    if lines.len() == 0 {
        Seq::empty()
    } else if host_line(lines.last()) {
        host_of_line(lines.last())
    } else {
        last_host(lines.drop_last())
    }
}

pub open spec fn head_lines(head: Seq<char>) -> Seq<Seq<char>> {
    split_seq(head, "\r\n"@)
}

/// Path of the request line and the requested host.
pub open spec fn request_head_spec(head: Seq<char>) -> Option<(Seq<char>, Seq<char>)> {
    let lines = head_lines(head);
    let w = words(lines[0]);
    if w.len() < 2 {
        None
    } else {
        Some((w[1], last_host(lines.drop_first())))
    }
}

pub open spec fn vviews(v: Seq<Vec<char>>) -> Seq<Seq<char>> {
    v.map_values(|x: Vec<char>| x@)
}

fn head_lines_exec(head: &str) -> (r: Vec<Vec<char>>)
    ensures
        vviews(r@) == head_lines(head@),
        r@.len() > 0,
{
    let h = chars_of(head);
    let sep = chars_of("\r\n");
    proof {
        reveal_strlit("\r\n");
    }
    assert(sep@.len() == 2);
    let lines = split_by(&h, &sep);
    proof {
        lemma_split_nonempty(h@, sep@);
    }
    assert(vviews(lines@).len() == lines@.len());
    lines
}

pub proof fn lemma_split_nonempty(s: Seq<char>, p: Seq<char>)
    ensures
        split_seq(s, p).len() > 0,
    decreases s.len(),
{
    let k = crate::text::find_sub(s, p);
    if p.len() == 0 || k < 0 || k + p.len() > s.len() {
    } else {
        crate::text::lemma_find_sub_bound(s, p);
        lemma_split_nonempty(s.subrange(k + p.len(), s.len() as int), p);
    }
}

fn host_of_line_exec(line: &Vec<char>) -> (r: Vec<char>)
    requires
        line@.len() >= 6,
    ensures
        r@ == host_of_line(line@),
{
    let rest = slice_chars(line, 5, line.len());
    let v = trim_chars(&rest);
    match split_once(&v, ':') {
        Some(p) => lower_chars(&p.0),
        None => lower_chars(&v),
    }
}

fn is_host_line(line: &Vec<char>) -> (r: bool)
    ensures
        r == host_line(line@),
{
    if line.len() < 6 {
        return false;
    }
    let first = slice_chars(line, 0, 5);
    let low = lower_chars(&first);
    let want = chars_of("host:");
    seq_eq(&low, &want)
}

/// Path and lower-case host of a request head; `None` when the request line
/// has fewer than two words.
pub fn parse_request_head(head: &str) -> (r: Option<(String, String)>)
    ensures
        match r {
            Some(p) => request_head_spec(head@) == Some((p.0@, p.1@)),
            None => request_head_spec(head@) is None,
        },
{
    let lines = head_lines_exec(head);
    let ghost lv = vviews(lines@);
    assert(lv[0] == lines@[0]@);
    let w = split_words(&lines[0]);
    if w.len() < 2 {
        return None;
    }
    assert(w@.map_values(|v: Vec<char>| v@)[1] == w@[1]@);
    let path = string_from(&w[1]);
    let mut host: Vec<char> = Vec::new();
    let mut i: usize = 1;
    while i < lines.len()
        invariant
            1 <= i <= lines.len(),
            lv == vviews(lines@),
            host@ == last_host(lv.subrange(1, i as int)),
        decreases lines.len() - i,
    {
        let ghost pre = lv.subrange(1, i as int);
        let ghost nxt = lv.subrange(1, i + 1);
        assert(nxt.drop_last() =~= pre);
        assert(nxt.last() == lines@[i as int]@);
        if is_host_line(&lines[i]) {
            host = host_of_line_exec(&lines[i]);
        }
        i += 1;
    }
    assert(lv.subrange(1, lines.len() as int) =~= lv.drop_first());
    Some((path, string_from(&host)))
}

// ---------------------------------------------------------------------------
// Forwarding header and simple answers
// ---------------------------------------------------------------------------

pub open spec fn crlf_crlf() -> Seq<u8> {
    seq![13u8, 10u8, 13u8, 10u8]
}

/// The head with `X-Forwarded-For: <client_ip>` added before its blank line
/// (unchanged when it does not end with a blank line).
pub open spec fn forwarded_head(head: Seq<u8>, client_ip: Seq<char>) -> Seq<u8> {
    if head.len() >= 4 && head.subrange(head.len() - 4, head.len() as int) == crlf_crlf() {
        head.subrange(0, head.len() - 2) + vstd::utf8::encode_utf8(
            "X-Forwarded-For: "@ + client_ip + "\r\n"@,
        ) + seq![13u8, 10u8]
    } else {
        head
    }
}

pub fn rewrite_head_with_headers(head: Vec<u8>, client_ip: &str) -> (r: Vec<u8>)
    ensures
        r@ == forwarded_head(head@, client_ip@),
{
    let n = head.len();
    if !(n >= 4 && head[n - 4] == 13 && head[n - 3] == 10 && head[n - 2] == 13 && head[n - 1]
        == 10) {
        proof {
            if head@.len() >= 4 && head@.subrange(head@.len() - 4, head@.len() as int)
                == crlf_crlf() {
                assert(head@.subrange(head@.len() - 4, head@.len() as int)[0] == head@[n - 4]);
                assert(head@.subrange(head@.len() - 4, head@.len() as int)[1] == head@[n - 3]);
                assert(head@.subrange(head@.len() - 4, head@.len() as int)[2] == head@[n - 2]);
                assert(head@.subrange(head@.len() - 4, head@.len() as int)[3] == head@[n - 1]);
            }
        }
        return head;
    }
    assert(head@.subrange(head@.len() - 4, head@.len() as int) =~= crlf_crlf());
    let mut out = head;
    let ghost h0 = out@;
    out.truncate(n - 2);
    let mut line: Vec<char> = Vec::new();
    append_str(&mut line, "X-Forwarded-For: ");
    append_str(&mut line, client_ip);
    append_str(&mut line, "\r\n");
    let line = string_from(&line);
    let bytes = line.as_str().as_bytes();
    let mut i: usize = 0;
    let ghost base = out@;
    while i < bytes.len()
        invariant
            i <= bytes.len(),
            out@ == base + bytes@.subrange(0, i as int),
        decreases bytes.len() - i,
    {
        out.push(bytes[i]);
        i += 1;
    }
    out.push(13);
    out.push(10);
    assert(bytes@.subrange(0, bytes@.len() as int) =~= bytes@);
    assert(out@ =~= h0.subrange(0, h0.len() - 2) + vstd::utf8::encode_utf8(
        "X-Forwarded-For: "@ + client_ip@ + "\r\n"@,
    ) + seq![13u8, 10u8]);
    out
}

pub open spec fn simple_response_text(code: u16, msg: Seq<char>) -> Seq<char> {
    let body = "{\"error\":\""@ + msg + "\"}"@;
    "HTTP/1.1 "@ + dec(code as nat) + " "@ + msg
        + "\r\nContent-Type: application/json\r\nContent-Length: "@ + dec(
        vstd::utf8::encode_utf8(body).len(),
    ) + "\r\nConnection: close\r\n\r\n"@ + body
}

/// A complete JSON error answer with status `code`.
pub fn simple_response(code: u16, msg: &str) -> (r: String)
    ensures
        r@ == simple_response_text(code, msg@),
{
    let mut body: Vec<char> = Vec::new();
    append_str(&mut body, "{\"error\":\"");
    append_str(&mut body, msg);
    append_str(&mut body, "\"}");
    let body = string_from(&body);
    let blen = body.as_str().as_bytes().len();
    let mut out: Vec<char> = Vec::new();
    append_str(&mut out, "HTTP/1.1 ");
    push_dec(&mut out, code as u64);
    append_str(&mut out, " ");
    append_str(&mut out, msg);
    append_str(&mut out, "\r\nContent-Type: application/json\r\nContent-Length: ");
    push_dec(&mut out, blen as u64);
    append_str(&mut out, "\r\nConnection: close\r\n\r\n");
    append_str(&mut out, body.as_str());
    string_from(&out)
}

// ---------------------------------------------------------------------------
// Heads for an HTTP/2 upstream
// ---------------------------------------------------------------------------

/// Parts of a request head needed to rebuild the request on HTTP/2.
#[derive(Debug, Clone)]
pub struct HeadParts {
    pub method: String,
    pub path: String,
    pub authority: String,
    pub headers: Vec<(String, String)>,
}

pub open spec fn pair_views(v: Seq<(String, String)>) -> Seq<(Seq<char>, Seq<char>)> {
    v.map_values(|p: (String, String)| (p.0@, p.1@))
}

/// Hop-by-hop headers, which HTTP/2 forbids.
pub open spec fn hop_by_hop(n: Seq<char>) -> bool {
    n == "connection"@ || n == "keep-alive"@ || n == "proxy-connection"@ || n
        == "transfer-encoding"@ || n == "upgrade"@
}

/// Authority (first non-empty `Host`) and forwarded headers of the header
/// lines, in order.
pub open spec fn head_fields(lines: Seq<Seq<char>>) -> (Seq<char>, Seq<(Seq<char>, Seq<char>)>)
    decreases lines.len(),
{
    if lines.len() == 0 {
        (Seq::empty(), Seq::empty())
    } else {
        let before = head_fields(lines.drop_last());
        let line = lines.last();
        if line.len() == 0 {
            before
        } else {
            match split_once_spec(line, ':') {
                None => before,
                Some(p) => {
                    let name = trim_spec(p.0);
                    let value = trim_spec(p.1);
                    let ln = lower_seq(name);
                    if ln == "host"@ && before.0.len() == 0 {
                        (value, before.1)
                    } else if hop_by_hop(ln) {
                        before
                    } else {
                        (before.0, before.1.push((name, value)))
                    }
                },
            }
        }
    }
}

pub open spec fn all_alpha(s: Seq<char>) -> bool {
    forall|i: int| 0 <= i < s.len() ==> is_ascii_alpha(#[trigger] s[i])
}

/// Method (upper case), path, authority and headers of a request head; `None`
/// when the request line lacks a method or path, or the method is not
/// alphabetic.
pub open spec fn parse_head_spec(head: Seq<char>) -> Option<
    (Seq<char>, Seq<char>, Seq<char>, Seq<(Seq<char>, Seq<char>)>),
> {
    let lines = head_lines(head);
    let w = words(lines[0]);
    if w.len() < 2 {
        None
    } else {
        let m = upper_seq(w[0]);
        if !all_alpha(m) {
            None
        } else {
            let f = head_fields(lines.drop_first());
            Some((m, w[1], f.0, f.1))
        }
    }
}

proof fn lemma_head_fields_no_hop(lines: Seq<Seq<char>>)
    ensures
        forall|i: int|
            0 <= i < head_fields(lines).1.len() ==> !hop_by_hop(lower_seq(#[trigger] head_fields(lines).1[i].0)),
    decreases lines.len(),
{
    if lines.len() > 0 {
        let before = head_fields(lines.drop_last());
        lemma_head_fields_no_hop(lines.drop_last());
        let line = lines.last();
        if line.len() != 0 {
            match split_once_spec(line, ':') {
                None => {},
                Some(p) => {
                    let name = trim_spec(p.0);
                    let value = trim_spec(p.1);
                    let ln = lower_seq(name);
                    if !(ln == "host"@ && before.0.len() == 0) && !hop_by_hop(ln) {
                        let h = before.1.push((name, value));
                        assert forall|i: int| 0 <= i < h.len() implies !hop_by_hop(lower_seq(#[trigger] h[i].0)) by {
                            if i < before.1.len() {
                                assert(h[i] == before.1[i]);
                            }
                        }
                    }
                },
            }
        }
    }
}

proof fn lemma_upper_keeps_alpha(s: Seq<char>)
    ensures
        all_alpha(upper_seq(s)) <==> forall|i: int| 0 <= i < s.len() ==> is_ascii_alpha(#[trigger] s[i]),
{
    let u = upper_seq(s);
    assert forall|i: int| 0 <= i < s.len() implies is_ascii_alpha(#[trigger] u[i]) == is_ascii_alpha(s[i]) by {
        let c = s[i];
        if is_ascii_lower(c) {
            assert(is_ascii_upper(((c as u32) - 32) as char));
        }
    }
    if all_alpha(u) {
        assert forall|i: int| 0 <= i < s.len() implies is_ascii_alpha(#[trigger] s[i]) by {
            assert(is_ascii_alpha(u[i]));
        }
    }
}

/// What `parse_head` gives: `None` exactly when the request line has fewer
/// than two words or its first word has a character that is not an ASCII
/// letter; otherwise that word in upper case as the method, the second word
/// as the path, and no header whose lower-cased name is hop-by-hop
/// (`connection`, `keep-alive`, `proxy-connection`, `transfer-encoding`,
/// `upgrade`).
pub proof fn law_parse_head(head: Seq<char>)
    ensures
        ({
            let w = words(head_lines(head)[0]);
            parse_head_spec(head) is None <==> (w.len() < 2 || exists|i: int|
                0 <= i < w[0].len() && !is_ascii_alpha(#[trigger] w[0][i]))
        }),
        parse_head_spec(head) matches Some(p) ==> {
            let w = words(head_lines(head)[0]);
            &&& p.0 == upper_seq(w[0])
            &&& p.1 == w[1]
            &&& forall|i: int| 0 <= i < p.3.len() ==> !hop_by_hop(lower_seq(#[trigger] p.3[i].0))
        },
{
    let lines = head_lines(head);
    let w = words(lines[0]);
    lemma_head_fields_no_hop(lines.drop_first());
    if w.len() >= 2 {
        lemma_upper_keeps_alpha(w[0]);
    }
}

fn is_hop_by_hop(n: &Vec<char>) -> (r: bool)
    ensures
        r == hop_by_hop(n@),
{
    let a = chars_of("connection");
    let b = chars_of("keep-alive");
    let c = chars_of("proxy-connection");
    let d = chars_of("transfer-encoding");
    let e = chars_of("upgrade");
    seq_eq(n, &a) || seq_eq(n, &b) || seq_eq(n, &c) || seq_eq(n, &d) || seq_eq(n, &e)
}

pub fn parse_head(head: &str) -> (r: Option<HeadParts>)
    ensures
        match r {
            Some(h) => parse_head_spec(head@) == Some(
                (h.method@, h.path@, h.authority@, pair_views(h.headers@)),
            ),
            None => parse_head_spec(head@) is None,
        },
{
    let lines = head_lines_exec(head);
    let ghost lv = vviews(lines@);
    assert(lv[0] == lines@[0]@);
    let w = split_words(&lines[0]);
    if w.len() < 2 {
        return None;
    }
    assert(w@.map_values(|v: Vec<char>| v@)[0] == w@[0]@);
    assert(w@.map_values(|v: Vec<char>| v@)[1] == w@[1]@);
    let method = upper_chars(&w[0]);
    assert(method@ == upper_seq(words(head_lines(head@)[0])[0]));
    let mut k: usize = 0;
    while k < method.len()
        invariant
            k <= method.len(),
            forall|j: int| 0 <= j < k ==> is_ascii_alpha(#[trigger] method@[j]),
            method@ == upper_seq(words(head_lines(head@)[0])[0]),
            words(head_lines(head@)[0]).len() >= 2,
        decreases method.len() - k,
    {
        if !crate::text::is_ascii_alphabetic(method[k]) {
            assert(!all_alpha(method@));
            return None;
        }
        k += 1;
    }
    let mut authority: Vec<char> = Vec::new();
    let mut headers: Vec<(String, String)> = Vec::new();
    let mut i: usize = 1;
    let host = chars_of("host");
    while i < lines.len()
        invariant
            1 <= i <= lines.len(),
            lv == vviews(lines@),
            host@ == "host"@,
            head_fields(lv.subrange(1, i as int)) == (authority@, pair_views(headers@)),
        decreases lines.len() - i,
    {
        let ghost pre = lv.subrange(1, i as int);
        let ghost nxt = lv.subrange(1, i + 1);
        assert(nxt.drop_last() =~= pre);
        assert(nxt.last() == lines@[i as int]@);
        let line = &lines[i];
        if line.len() > 0 {
            match split_once(line, ':') {
                Some(p) => {
                    let name = trim_chars(&p.0);
                    let value = trim_chars(&p.1);
                    let ln = lower_chars(&name);
                    if seq_eq(&ln, &host) && authority.len() == 0 {
                        authority = value;
                    } else if is_hop_by_hop(&ln) {
                    } else {
                        let ghost hv = pair_views(headers@);
                        headers.push((string_from(&name), string_from(&value)));
                        assert(pair_views(headers@) =~= hv.push((name@, value@)));
                    }
                },
                None => {},
            }
        }
        i += 1;
    }
    assert(lv.subrange(1, lines.len() as int) =~= lv.drop_first());
    Some(
        HeadParts {
            method: string_from(&method),
            path: string_from(&w[1]),
            authority: string_from(&authority),
            headers,
        },
    )
}

/// Value of the first `Content-Length` header read as a length (`None` when
/// absent or not a number).
pub open spec fn content_length_spec(h: Seq<(Seq<char>, Seq<char>)>) -> Option<nat>
    decreases h.len(),
{
    if h.len() == 0 {
        None
    } else if lower_seq(h[0].0) == "content-length"@ {
        parse_uint_spec(h[0].1, usize::MAX as nat)
    } else {
        content_length_spec(h.drop_first())
    }
}

pub fn content_length(headers: &Vec<(String, String)>) -> (r: Option<usize>)
    ensures
        match r {
            Some(n) => content_length_spec(pair_views(headers@)) == Some(n as nat),
            None => content_length_spec(pair_views(headers@)) is None,
        },
{
    let want = chars_of("content-length");
    let mut i: usize = 0;
    assert(pair_views(headers@).skip(0) =~= pair_views(headers@));
    while i < headers.len()
        invariant
            i <= headers.len(),
            want@ == "content-length"@,
            content_length_spec(pair_views(headers@)) == content_length_spec(
                pair_views(headers@).skip(i as int),
            ),
        decreases headers.len() - i,
    {
        let ghost rest = pair_views(headers@).skip(i as int);
        assert(rest[0] == (headers@[i as int].0@, headers@[i as int].1@));
        let name = chars_of(headers[i].0.as_str());
        let low = lower_chars(&name);
        if seq_eq(&low, &want) {
            let v = chars_of(headers[i].1.as_str());
            return match parse_uint(&v, usize::MAX as u64) {
                Some(n) => Some(n as usize),
                None => None,
            };
        }
        assert(rest.drop_first() =~= pair_views(headers@).skip(i + 1));
        i += 1;
    }
    None
}

/// Whether the request carries a body: a positive `Content-Length`, or none.
pub fn has_body(content_len: Option<usize>) -> (r: bool)
    ensures
        r == match content_len {
            Some(l) => l > 0,
            None => true,
        },
{
    match content_len {
        Some(l) => l > 0,
        None => true,
    }
}

/// The forwarded headers, without `Content-Length` when there is no body.
pub open spec fn kept_headers(h: Seq<(Seq<char>, Seq<char>)>, body: bool) -> Seq<
    (Seq<char>, Seq<char>),
>
    decreases h.len(),
{
    if h.len() == 0 {
        Seq::empty()
    } else {
        let r = kept_headers(h.drop_last(), body);
        if lower_seq(h.last().0) == "content-length"@ && !body {
            r
        } else {
            r.push(h.last())
        }
    }
}

/// Header list of the HTTP/2 request: `host` first (the authority, or
/// `localhost`), then the forwarded headers (without `Content-Length` when
/// there is no body), then `content-length: 0` when there is a body.
pub open spec fn h2_request_headers_spec(
    authority: Seq<char>,
    headers: Seq<(Seq<char>, Seq<char>)>,
    body: bool,
) -> Seq<(Seq<char>, Seq<char>)> {
    let host = if authority.len() == 0 {
        "localhost"@
    } else {
        authority
    };
    let kept = kept_headers(headers, body);
    let tail = if body {
        seq![("content-length"@, "0"@)]
    } else {
        Seq::empty()
    };
    seq![("host"@, host)] + kept + tail
}

pub fn h2_request_headers(head: &HeadParts, body: bool) -> (r: Vec<(String, String)>)
    ensures
        pair_views(r@) == h2_request_headers_spec(head.authority@, pair_views(head.headers@), body),
{
    let mut out: Vec<(String, String)> = Vec::new();
    let auth_bytes = head.authority.as_str().as_bytes();
    let host = if auth_bytes.len() == 0 {
        String::from_str("localhost")
    } else {
        head.authority.clone()
    };
    proof {
        if head.authority@.len() > 0 {
            assert(vstd::utf8::encode_utf8(head.authority@).len() > 0) by {
                vstd::utf8::encode_utf8_first_scalar(head.authority@);
            }
        } else {
            assert(vstd::utf8::encode_utf8(head.authority@) =~= Seq::<u8>::empty()) by {
                reveal_with_fuel(vstd::utf8::encode_utf8, 1);
            }
        }
    }
    assert(host@ == if head.authority@.len() == 0 {
        "localhost"@
    } else {
        head.authority@
    });
    out.push((String::from_str("host"), host));
    let want = chars_of("content-length");
    let ghost hv = pair_views(head.headers@);
    let mut i: usize = 0;
    assert(hv.take(0) =~= Seq::<(Seq<char>, Seq<char>)>::empty());
    assert(kept_headers(hv.take(0), body) =~= Seq::<(Seq<char>, Seq<char>)>::empty());
    assert(pair_views(out@) =~= seq![("host"@, host@)]);
    assert(pair_views(out@) =~= seq![("host"@, if head.authority@.len() == 0 {
        "localhost"@
    } else {
        head.authority@
    })] + kept_headers(hv.take(0), body));
    while i < head.headers.len()
        invariant
            i <= head.headers.len(),
            want@ == "content-length"@,
            hv == pair_views(head.headers@),
            pair_views(out@) == seq![("host"@, if head.authority@.len() == 0 {
                "localhost"@
            } else {
                head.authority@
            })] + kept_headers(hv.take(i as int), body),
        decreases head.headers.len() - i,
    {
        let ghost before = pair_views(out@);
        assert(hv.take(i + 1).drop_last() =~= hv.take(i as int));
        assert(hv.take(i + 1).last() == (head.headers@[i as int].0@, head.headers@[i as int].1@));
        let name = chars_of(head.headers[i].0.as_str());
        let low = lower_chars(&name);
        if !(seq_eq(&low, &want) && !body) {
            out.push((head.headers[i].0.clone(), head.headers[i].1.clone()));
            assert(pair_views(out@) =~= before.push(hv[i as int]));
        }
        i += 1;
    }
    if body {
        let ghost before = pair_views(out@);
        out.push((String::from_str("content-length"), String::from_str("0")));
        assert(pair_views(out@) =~= before.push(("content-length"@, "0"@)));
    }
    assert(hv.take(head.headers.len() as int) =~= hv);
    proof {
        let host = if head.authority@.len() == 0 {
            "localhost"@
        } else {
            head.authority@
        };
        let tail = if body {
            seq![("content-length"@, "0"@)]
        } else {
            Seq::empty()
        };
        assert(pair_views(out@) =~= seq![("host"@, host)] + kept_headers(hv, body) + tail);
    }
    out
}

/// Headers an HTTP/2 answer loses when relayed to the HTTP/1.1 client.
pub open spec fn dropped_response_header(n: Seq<char>) -> bool {
    n == "transfer-encoding"@ || n == "content-length"@ || n == "connection"@
}

pub open spec fn header_lines(h: Seq<(Seq<char>, Seq<char>)>) -> Seq<char>
    decreases h.len(),
{
    if h.len() == 0 {
        Seq::empty()
    } else {
        let before = header_lines(h.drop_last());
        if dropped_response_header(h.last().0) {
            before
        } else {
            before + h.last().0 + ": "@ + h.last().1 + "\r\n"@
        }
    }
}

/// Head relayed to the client for an HTTP/2 answer (lower-case header names),
/// streamed with chunked encoding.
pub open spec fn h2_response_head_spec(status: u16, h: Seq<(Seq<char>, Seq<char>)>) -> Seq<char> {
    "HTTP/1.1 "@ + dec(status as nat) + "\r\n"@ + header_lines(h)
        + "Transfer-Encoding: chunked\r\nConnection: close\r\n\r\n"@
}

pub fn h2_response_head(status: u16, headers: &Vec<(String, String)>) -> (r: String)
    ensures
        r@ == h2_response_head_spec(status, pair_views(headers@)),
{
    let mut out: Vec<char> = Vec::new();
    append_str(&mut out, "HTTP/1.1 ");
    push_dec(&mut out, status as u64);
    append_str(&mut out, "\r\n");
    let ghost prefix = out@;
    let ghost hv = pair_views(headers@);
    let mut i: usize = 0;
    while i < headers.len()
        invariant
            i <= headers.len(),
            hv == pair_views(headers@),
            out@ == prefix + header_lines(hv.take(i as int)),
        decreases headers.len() - i,
    {
        assert(hv.take(i + 1).drop_last() =~= hv.take(i as int));
        assert(hv.take(i + 1).last() == (headers@[i as int].0@, headers@[i as int].1@));
        let n = headers[i].0.as_str();
        if !(crate::text::str_eq(n, "transfer-encoding") || crate::text::str_eq(
            n,
            "content-length",
        ) || crate::text::str_eq(n, "connection")) {
            append_str(&mut out, n);
            append_str(&mut out, ": ");
            append_str(&mut out, headers[i].1.as_str());
            append_str(&mut out, "\r\n");
        }
        i += 1;
    }
    assert(hv.take(headers.len() as int) =~= hv);
    append_str(&mut out, "Transfer-Encoding: chunked\r\nConnection: close\r\n\r\n");
    string_from(&out)
}

// ---------------------------------------------------------------------------
// Chunked framing and body streaming
// ---------------------------------------------------------------------------

/// Lower-case hexadecimal rendering without leading zeros.
pub open spec fn hex_text(n: nat) -> Seq<char>
    decreases n,
{
    if n < 16 {
        seq![crate::codec::hex_lower(n)]
    } else {
        hex_text(n / 16).push(crate::codec::hex_lower(n % 16))
    }
}

pub fn hex_chars(n: u64) -> (r: Vec<char>)
    ensures
        r@ == hex_text(n as nat),
    decreases n,
{
    let c = crate::codec::hex_digit_char((n % 16) as u8);
    if n < 16 {
        let mut v: Vec<char> = Vec::new();
        v.push(c);
        v
    } else {
        let mut v = hex_chars(n / 16);
        v.push(c);
        v
    }
}

/// One chunk of a chunked body: its size in hex, CR LF, the data, CR LF
/// (nothing for empty data, which would end the body).
pub open spec fn chunk_spec(data: Seq<u8>) -> Seq<u8> {
    if data.len() == 0 {
        Seq::empty()
    } else {
        vstd::utf8::encode_utf8(hex_text(data.len()) + "\r\n"@) + data + seq![13u8, 10u8]
    }
}

pub fn chunk_frame(data: &[u8]) -> (r: Vec<u8>)
    ensures
        r@ == chunk_spec(data@),
{
    let mut out: Vec<u8> = Vec::new();
    if data.len() == 0 {
        return out;
    }
    let mut size = hex_chars(data.len() as u64);
    crate::text::append_str(&mut size, "\r\n");
    let size = string_from(&size);
    let b = size.as_str().as_bytes();
    let mut i: usize = 0;
    while i < b.len()
        invariant
            i <= b.len(),
            out@ == b@.subrange(0, i as int),
        decreases b.len() - i,
    {
        out.push(b[i]);
        i += 1;
    }
    let mut j: usize = 0;
    let ghost prefix = out@;
    while j < data.len()
        invariant
            j <= data.len(),
            out@ == prefix + data@.subrange(0, j as int),
        decreases data.len() - j,
    {
        out.push(data[j]);
        j += 1;
    }
    out.push(13);
    out.push(10);
    assert(b@.subrange(0, b@.len() as int) =~= b@);
    assert(data@.subrange(0, data@.len() as int) =~= data@);
    out
}

/// Bytes of the buffered body prefix to send: all of them, or at most the
/// declared length.
pub fn buffered_body_len(content_len: Option<usize>, buffered: usize) -> (r: usize)
    ensures
        r == match content_len {
            Some(l) => if l < buffered {
                l
            } else {
                buffered
            },
            None => buffered,
        },
{
    match content_len {
        Some(l) => if l < buffered {
            l
        } else {
            buffered
        },
        None => buffered,
    }
}

/// Size of the next read of the body from the client: what remains of
/// `total` after `sent`, at most `cap` (0: done).
pub fn next_body_read(total: usize, sent: usize, cap: usize) -> (r: usize)
    ensures
        r == if total > sent {
            if total - sent < cap {
                (total - sent) as usize
            } else {
                cap
            }
        } else {
            0
        },
{
    if total > sent {
        let left = total - sent;
        if left < cap {
            left
        } else {
            cap
        }
    } else {
        0
    }
}

// ---------------------------------------------------------------------------
// HTTP pools and routing
// ---------------------------------------------------------------------------

/// Why a request found no route: its head has no request target, or no
/// route serves its host and path.
#[derive(Debug, Clone, Copy, PartialEq, Eq)]
pub enum RouteMiss {
    BadRequest,
    NoRoute,
}

impl RouteMiss {
    /// The answer sent to the client: 400 for a bad head, 404 when no route
    /// matched.
    pub fn response(&self) -> (r: String)
        ensures
            r@ == match self {
                RouteMiss::BadRequest => simple_response_text(400, "Bad Request"@),
                RouteMiss::NoRoute => simple_response_text(404, "no route matched"@),
            },
    {
        match self {
            RouteMiss::BadRequest => simple_response(400, "Bad Request"),
            RouteMiss::NoRoute => simple_response(404, "no route matched"),
        }
    }
}

/// One route of an HTTP pool.
pub struct RouteState {
    /// Host to match (lower case); empty matches any host.
    host: String,
    /// Path prefix to match; the longest matching one wins.
    path_prefix: String,
    backends: Vec<Backend>,
    counter: u64,
}

impl RouteState {
    pub closed spec fn host_spec(&self) -> Seq<char> {
        self.host@
    }

    pub closed spec fn prefix_spec(&self) -> Seq<char> {
        self.path_prefix@
    }

    pub closed spec fn members(&self) -> Seq<Backend> {
        self.backends@
    }

    pub fn host(&self) -> (r: &String)
        ensures
            r@ == self.host_spec(),
    {
        &self.host
    }

    pub fn path_prefix(&self) -> (r: &String)
        ensures
            r@ == self.prefix_spec(),
    {
        &self.path_prefix
    }

    pub fn backends(&self) -> (r: &Vec<Backend>)
        ensures
            r@ == self.members(),
    {
        &self.backends
    }
}

/// Whether a route serves `host` and `path`.
pub open spec fn route_matches(r: RouteState, host: Seq<char>, path: Seq<char>) -> bool {
    (r.host_spec().len() == 0 || r.host_spec() == host) && has_prefix(path, r.prefix_spec())
}

/// The matching route with the longest prefix (in bytes); of equally long
/// ones, the last.
pub open spec fn best_route(routes: Seq<RouteState>, host: Seq<char>, path: Seq<char>) -> Option<int>
    decreases routes.len(),
{
    if routes.len() == 0 {
        None
    } else {
        let b = best_route(routes.drop_last(), host, path);
        if route_matches(routes.last(), host, path) {
            match b {
                None => Some(routes.len() - 1),
                Some(k) => if vstd::utf8::encode_utf8(routes[k].prefix_spec()).len()
                    <= vstd::utf8::encode_utf8(routes.last().prefix_spec()).len() {
                    Some(routes.len() - 1)
                } else {
                    Some(k)
                },
            }
        } else {
            b
        }
    }
}

pub proof fn lemma_best_route_bound(routes: Seq<RouteState>, host: Seq<char>, path: Seq<char>)
    ensures
        best_route(routes, host, path) matches Some(k) ==> 0 <= k < routes.len(),
    decreases routes.len(),
{
    if routes.len() > 0 {
        lemma_best_route_bound(routes.drop_last(), host, path);
    }
}

/// Runtime state of an HTTP pool.
pub struct HttpPoolState {
    name: String,
    routes: Vec<RouteState>,
    proto: BackendProto,
    max_conns: usize,
    active_conns: usize,
    rejected_conns: u64,
}

pub open spec fn routes_of_config(pool: HttpPool, routes: Seq<RouteState>) -> bool {
    &&& routes.len() == pool.routes@.len()
    &&& forall|i: int|
        0 <= i < routes.len() ==> {
            &&& (#[trigger] routes[i]).host_spec() == lower_seq(pool.routes@[i].host@)
            &&& routes[i].prefix_spec() == pool.routes@[i].path_prefix@
            &&& fresh_backends(routes[i].members(), pool.routes@[i].backends@)
        }
}

impl HttpPoolState {
    pub closed spec fn pool_name(&self) -> String {
        self.name
    }

    pub closed spec fn route_list(&self) -> Seq<RouteState> {
        self.routes@
    }

    pub closed spec fn upstream(&self) -> BackendProto {
        self.proto
    }

    pub closed spec fn limit(&self) -> usize {
        self.max_conns
    }

    pub closed spec fn active(&self) -> usize {
        self.active_conns
    }

    pub closed spec fn rejected(&self) -> u64 {
        self.rejected_conns
    }

    /// State of a configured pool: hosts lower-cased, valid backends only,
    /// no connection limit.
    pub fn from_config(pool: &HttpPool) -> (r: Self)
        ensures
            r.pool_name() == pool.name,
            routes_of_config(*pool, r.route_list()),
            r.upstream() == pool.backend_proto,
            r.limit() == 0,
            r.active() == 0,
            r.rejected() == 0,
    {
        let mut routes: Vec<RouteState> = Vec::new();
        let mut i: usize = 0;
        while i < pool.routes.len()
            invariant
                i <= pool.routes.len(),
                routes@.len() == i,
                forall|j: int|
                    0 <= j < i ==> {
                        &&& (#[trigger] routes@[j]).host_spec() == lower_seq(pool.routes@[j].host@)
                        &&& routes@[j].prefix_spec() == pool.routes@[j].path_prefix@
                        &&& fresh_backends(routes@[j].members(), pool.routes@[j].backends@)
                    },
            decreases pool.routes.len() - i,
        {
            let r = &pool.routes[i];
            let h = chars_of(r.host.as_str());
            let h = lower_chars(&h);
            routes.push(
                RouteState {
                    host: string_from(&h),
                    path_prefix: r.path_prefix.clone(),
                    backends: backends_from(&r.backends),
                    counter: 0,
                },
            );
            i += 1;
        }
        HttpPoolState {
            name: pool.name.clone(),
            routes,
            proto: pool.backend_proto,
            max_conns: 0,
            active_conns: 0,
            rejected_conns: 0,
        }
    }

    pub fn name(&self) -> (r: &String)
        ensures
            *r == self.pool_name(),
    {
        &self.name
    }

    pub fn routes(&self) -> (r: &Vec<RouteState>)
        ensures
            r@ == self.route_list(),
    {
        &self.routes
    }

    pub fn proto(&self) -> (r: BackendProto)
        ensures
            r == self.upstream(),
    {
        self.proto
    }

    /// `(host, path_prefix, backend count)` of each route.
    pub fn route_info(&self) -> (r: Vec<(String, String, usize)>)
        ensures
            r@.len() == self.route_list().len(),
            forall|i: int|
                0 <= i < r@.len() ==> (#[trigger] r@[i]).0@ == self.route_list()[i].host_spec()
                    && r@[i].1@ == self.route_list()[i].prefix_spec() && r@[i].2
                    == self.route_list()[i].members().len(),
    {
        let mut out: Vec<(String, String, usize)> = Vec::new();
        let mut i: usize = 0;
        while i < self.routes.len()
            invariant
                i <= self.routes.len(),
                out@.len() == i,
                forall|j: int|
                    0 <= j < i ==> (#[trigger] out@[j]).0@ == self.routes@[j].host_spec() && out@[j].1@
                        == self.routes@[j].prefix_spec() && out@[j].2 == self.routes@[j].members().len(),
            decreases self.routes.len() - i,
        {
            let r = &self.routes[i];
            out.push((r.host.clone(), r.path_prefix.clone(), r.backends.len()));
            i += 1;
        }
        out
    }

    /// The route serving `host` and `path`: among matching routes, the one
    /// with the longest prefix.
    pub fn select_route(&self, host: &str, path: &str) -> (r: Option<usize>)
        ensures
            match r {
                Some(i) => best_route(self.route_list(), host@, path@) == Some(i as int),
                None => best_route(self.route_list(), host@, path@) is None,
            },
    {
        let p = chars_of(path);
        let mut best: Option<usize> = None;
        let mut best_len: usize = 0;
        let mut i: usize = 0;
        proof {
            lemma_best_route_bound(self.routes@.take(0), host@, path@);
        }
        assert(self.routes@.take(0) =~= Seq::<RouteState>::empty());
        while i < self.routes.len()
            invariant
                i <= self.routes.len(),
                p@ == path@,
                match best {
                    Some(k) => best_route(self.routes@.take(i as int), host@, path@) == Some(k as int)
                        && k < i && best_len as nat == vstd::utf8::encode_utf8(
                        self.routes@[k as int].prefix_spec(),
                    ).len(),
                    None => best_route(self.routes@.take(i as int), host@, path@) is None,
                },
            decreases self.routes.len() - i,
        {
            let ghost pre = self.routes@.take(i as int);
            let ghost nxt = self.routes@.take(i + 1);
            assert(nxt.drop_last() =~= pre);
            assert(nxt.last() == self.routes@[i as int]);
            let r = &self.routes[i];
            let rh = r.host.as_str();
            let rh_bytes = rh.as_bytes();
            let host_ok = rh_bytes.len() == 0 || crate::text::str_eq(rh, host);
            proof {
                if rh@.len() > 0 {
                    vstd::utf8::encode_utf8_first_scalar(rh@);
                } else {
                    assert(vstd::utf8::encode_utf8(rh@) =~= Seq::<u8>::empty()) by {
                        reveal_with_fuel(vstd::utf8::encode_utf8, 1);
                    }
                }
            }
            let pre_chars = chars_of(r.path_prefix.as_str());
            if host_ok && crate::text::starts_with(&p, &pre_chars) {
                let plen = r.path_prefix.as_str().as_bytes().len();
                match best {
                    None => {
                        best = Some(i);
                        best_len = plen;
                    },
                    Some(k) => {
                        assert(nxt[k as int] == self.routes@[k as int]);
                        if best_len <= plen {
                            best = Some(i);
                            best_len = plen;
                        }
                    },
                }
            }
            i += 1;
        }
        assert(self.routes@.take(self.routes.len() as int) =~= self.routes@);
        best
    }

    pub fn max_conns(&self) -> (r: usize)
        ensures
            r == self.limit(),
    {
        self.max_conns
    }

    pub fn set_max_conns(&mut self, max: usize)
        ensures
            final(self).limit() == max,
            final(self).route_list() == old(self).route_list(),
            final(self).active() == old(self).active(),
            final(self).rejected() == old(self).rejected(),
    {
        self.max_conns = max;
    }

    pub fn active_conns(&self) -> (r: usize)
        ensures
            r == self.active(),
    {
        self.active_conns
    }

    pub fn rejected_conns(&self) -> (r: u64)
        ensures
            r == self.rejected(),
    {
        self.rejected_conns
    }

    /// Admission of an accepted client: refused (and counted) at the limit,
    /// otherwise counted as active.
    pub fn accept_client(&mut self) -> (admitted: bool)
        ensures
            admitted == crate::lb::admits(old(self).limit(), old(self).active()),
            admitted ==> final(self).active() == (if old(self).active() == usize::MAX {
                0
            } else {
                old(self).active() + 1
            }) && final(self).rejected() == old(self).rejected(),
            !admitted ==> final(self).active() == old(self).active() && final(self).rejected()
                == crate::lb::wadd(old(self).rejected(), 1),
            final(self).route_list() == old(self).route_list(),
            final(self).limit() == old(self).limit(),
    {
        if self.max_conns > 0 && self.active_conns >= self.max_conns {
            self.rejected_conns = self.rejected_conns.wrapping_add(1);
            return false;
        }
        self.active_conns = if self.active_conns == usize::MAX {
            0
        } else {
            self.active_conns + 1
        };
        true
    }

    /// A client connection ended (also after a failed TLS handshake).
    pub fn connection_closed(&mut self)
        ensures
            final(self).active() == (if old(self).active() == 0 {
                usize::MAX
            } else {
                (old(self).active() - 1) as usize
            }),
            final(self).rejected() == old(self).rejected(),
            final(self).route_list() == old(self).route_list(),
            final(self).limit() == old(self).limit(),
    {
        self.active_conns = if self.active_conns == 0 {
            usize::MAX
        } else {
            self.active_conns - 1
        };
    }

    /// Backend `i` of route `route`, to record what a connection or a health
    /// probe found; everything else is left as it was.
    pub fn route_backend_mut(&mut self, route: usize, i: usize) -> (r: &mut Backend)
        requires
            route < old(self).route_list().len(),
            i < old(self).route_list()[route as int].members().len(),
        ensures
            *r == old(self).route_list()[route as int].members()[i as int],
            final(self).route_list().len() == old(self).route_list().len(),
            final(self).route_list()[route as int].members()
                == old(self).route_list()[route as int].members().update(i as int, *final(r)),
            final(self).route_list()[route as int].host_spec()
                == old(self).route_list()[route as int].host_spec(),
            final(self).route_list()[route as int].prefix_spec()
                == old(self).route_list()[route as int].prefix_spec(),
            forall|j: int| 0 <= j < old(self).route_list().len() && j != route
                ==> #[trigger] final(self).route_list()[j] == old(self).route_list()[j],
            final(self).pool_name() == old(self).pool_name(),
            final(self).upstream() == old(self).upstream(),
            final(self).limit() == old(self).limit(),
            final(self).active() == old(self).active(),
            final(self).rejected() == old(self).rejected(),
    {
        &mut self.routes[route].backends[i]
    }

    /// The route a request head asks for: `BadRequest` when the head has no
    /// request target, `NoRoute` when no route serves its host and path.
    pub fn route_for_head(&self, head: &str) -> (r: Result<usize, RouteMiss>)
        ensures
            match request_head_spec(head@) {
                None => r == Err::<usize, RouteMiss>(RouteMiss::BadRequest),
                Some((path, host)) => match best_route(self.route_list(), host, path) {
                    Some(i) => r == Ok::<usize, RouteMiss>(i as usize) && 0 <= i < self.route_list().len(),
                    None => r == Err::<usize, RouteMiss>(RouteMiss::NoRoute),
                },
            },
    {
        match parse_request_head(head) {
            None => Err(RouteMiss::BadRequest),
            Some((path, host)) => match self.select_route(host.as_str(), path.as_str()) {
                Some(i) => {
                    proof {
                        lemma_best_route_bound(self.route_list(), host@, path@);
                    }
                    Ok(i)
                },
                None => Err(RouteMiss::NoRoute),
            },
        }
    }

    /// How many backends a request to route `route` tries before giving up:
    /// one per backend, and at least one.
    pub fn max_tries(&self, route: usize) -> (r: usize)
        requires
            route < self.route_list().len(),
        ensures
            r == if self.route_list()[route as int].members().len() == 0 {
                1
            } else {
                self.route_list()[route as int].members().len()
            },
    {
        let n = self.routes[route].backends.len();
        if n == 0 {
            1
        } else {
            n
        }
    }

    /// A connection to backend `i` of route `route` could not be made: the
    /// backend is marked unhealthy, and nothing else changes.
    pub fn connect_failed(&mut self, route: usize, i: usize)
        requires
            route < old(self).route_list().len(),
            i < old(self).route_list()[route as int].members().len(),
        ensures
            final(self).route_list().len() == old(self).route_list().len(),
            ({
                let b0 = old(self).route_list()[route as int].members()[i as int];
                let b1 = final(self).route_list()[route as int].members()[i as int];
                &&& final(self).route_list()[route as int].members().len()
                    == old(self).route_list()[route as int].members().len()
                &&& !b1.up()
                &&& b1.failures() == wadd(b0.failures(), 1)
                &&& b1.address() == b0.address()
                &&& b1.active() == b0.active()
                &&& b1.total() == b0.total()
                &&& b1.rx() == b0.rx()
                &&& b1.tx() == b0.tx()
                &&& b1.ring() == b0.ring()
            }),
            forall|j: int| 0 <= j < old(self).route_list()[route as int].members().len() && j != i
                ==> #[trigger] final(self).route_list()[route as int].members()[j]
                == old(self).route_list()[route as int].members()[j],
            final(self).route_list()[route as int].host_spec()
                == old(self).route_list()[route as int].host_spec(),
            final(self).route_list()[route as int].prefix_spec()
                == old(self).route_list()[route as int].prefix_spec(),
            forall|j: int| 0 <= j < old(self).route_list().len() && j != route
                ==> #[trigger] final(self).route_list()[j] == old(self).route_list()[j],
            final(self).pool_name() == old(self).pool_name(),
            final(self).upstream() == old(self).upstream(),
            final(self).limit() == old(self).limit(),
            final(self).active() == old(self).active(),
            final(self).rejected() == old(self).rejected(),
    {
        let b = self.route_backend_mut(route, i);
        b.set_healthy(false);
    }

    /// Sending the request body to backend `i` of route `route` failed after
    /// the connection was counted: the connection is released and the
    /// backend marked unhealthy; nothing else changes.
    pub fn upload_failed(&mut self, route: usize, i: usize)
        requires
            route < old(self).route_list().len(),
            i < old(self).route_list()[route as int].members().len(),
        ensures
            final(self).route_list().len() == old(self).route_list().len(),
            ({
                let b0 = old(self).route_list()[route as int].members()[i as int];
                let b1 = final(self).route_list()[route as int].members()[i as int];
                &&& final(self).route_list()[route as int].members().len()
                    == old(self).route_list()[route as int].members().len()
                &&& !b1.up()
                &&& b1.failures() == wadd(b0.failures(), 1)
                &&& b1.active() == crate::lb::wsub(b0.active(), 1)
                &&& b1.address() == b0.address()
                &&& b1.total() == b0.total()
                &&& b1.rx() == b0.rx()
                &&& b1.tx() == b0.tx()
            }),
            forall|j: int| 0 <= j < old(self).route_list()[route as int].members().len() && j != i
                ==> #[trigger] final(self).route_list()[route as int].members()[j]
                == old(self).route_list()[route as int].members()[j],
            final(self).route_list()[route as int].host_spec()
                == old(self).route_list()[route as int].host_spec(),
            final(self).route_list()[route as int].prefix_spec()
                == old(self).route_list()[route as int].prefix_spec(),
            forall|j: int| 0 <= j < old(self).route_list().len() && j != route
                ==> #[trigger] final(self).route_list()[j] == old(self).route_list()[j],
            final(self).pool_name() == old(self).pool_name(),
            final(self).upstream() == old(self).upstream(),
            final(self).limit() == old(self).limit(),
            final(self).active() == old(self).active(),
            final(self).rejected() == old(self).rejected(),
    {
        let b = self.route_backend_mut(route, i);
        b.release();
        b.set_healthy(false);
    }

    /// Selects a backend of route `route` by least connections.
    pub fn select_backend(&mut self, route: usize) -> (r: Option<usize>)
        requires
            route < old(self).route_list().len(),
        ensures
            r == match crate::lb::pick_spec(
                old(self).route_list()[route as int].members(),
                crate::config::Algorithm::LeastConnections,
                0,
                0,
            ) {
                Some(i) => Some(i as usize),
                None => None,
            },
            final(self).route_list().len() == old(self).route_list().len(),
            forall|j: int| 0 <= j < old(self).route_list().len() ==> #[trigger] final(self).route_list()[j].members()
                == old(self).route_list()[j].members(),
            forall|j: int| 0 <= j < old(self).route_list().len() ==> final(self).route_list()[j].host_spec()
                == old(self).route_list()[j].host_spec() && final(self).route_list()[j].prefix_spec()
                == old(self).route_list()[j].prefix_spec(),
            final(self).limit() == old(self).limit(),
            final(self).active() == old(self).active(),
    {
        let mut r = self.routes.remove(route);
        let picked = crate::lb::pick_backend(
            &r.backends,
            crate::config::Algorithm::LeastConnections,
            &mut r.counter,
            0,
        );
        self.routes.insert(route, r);
        picked
    }
}

} // verus!
