//! Character-level text handling shared by the parsers and renderers.
//!
//! Text is processed as sequences of `char`; the spec functions here are the
//! vocabulary the other modules' contracts are written in.
use vstd::prelude::*;

verus! {

// ---------------------------------------------------------------------------
// Character classes
// ---------------------------------------------------------------------------

/// Unicode `White_Space` code points (the set `char::is_whitespace` tests).
pub open spec fn is_ws(c: char) -> bool {
    let u = c as u32;
    ||| (0x9 <= u && u <= 0xd)
    ||| u == 0x20
    ||| u == 0x85
    ||| u == 0xa0
    ||| u == 0x1680
    ||| (0x2000 <= u && u <= 0x200a)
    ||| u == 0x2028
    ||| u == 0x2029
    ||| u == 0x202f
    ||| u == 0x205f
    ||| u == 0x3000
}

pub fn is_whitespace(c: char) -> (r: bool)
    ensures
        r == is_ws(c),
{
    let u = c as u32;
    (0x9 <= u && u <= 0xd) || u == 0x20 || u == 0x85 || u == 0xa0 || u == 0x1680 || (0x2000 <= u
        && u <= 0x200a) || u == 0x2028 || u == 0x2029 || u == 0x202f || u == 0x205f || u == 0x3000
}

pub open spec fn is_digit(c: char) -> bool {
    '0' <= c && c <= '9'
}

pub open spec fn is_ascii_upper(c: char) -> bool {
    'A' <= c && c <= 'Z'
}

pub open spec fn is_ascii_lower(c: char) -> bool {
    'a' <= c && c <= 'z'
}

pub open spec fn is_ascii_alpha(c: char) -> bool {
    is_ascii_upper(c) || is_ascii_lower(c)
}

pub open spec fn digit_value(c: char) -> nat {
    ((c as u32) - ('0' as u32)) as nat
}

/// ASCII lower-casing of one character; other characters are unchanged.
pub open spec fn lower_char(c: char) -> char {
    if is_ascii_upper(c) {
        ((c as u32) + 32) as char
    } else {
        c
    }
}

pub open spec fn upper_char(c: char) -> char {
    if is_ascii_lower(c) {
        ((c as u32) - 32) as char
    } else {
        c
    }
}

pub open spec fn lower_seq(s: Seq<char>) -> Seq<char> {
    s.map_values(|c: char| lower_char(c))
}

pub open spec fn upper_seq(s: Seq<char>) -> Seq<char> {
    s.map_values(|c: char| upper_char(c))
}

pub fn is_ascii_digit(c: char) -> (r: bool)
    ensures
        r == is_digit(c),
{
    '0' <= c && c <= '9'
}

pub fn is_ascii_alphabetic(c: char) -> (r: bool)
    ensures
        r == is_ascii_alpha(c),
{
    ('A' <= c && c <= 'Z') || ('a' <= c && c <= 'z')
}

pub fn ascii_lower(c: char) -> (r: char)
    ensures
        r == lower_char(c),
{
    if 'A' <= c && c <= 'Z' {
        let u = c as u32 + 32;
        let b = u as u8;
        b as char
    } else {
        c
    }
}

} // verus!

verus! {

broadcast use vstd::string::group_string_axioms;

// ---------------------------------------------------------------------------
// Conversions between strings and character vectors
// ---------------------------------------------------------------------------

pub fn chars_of(s: &str) -> (r: Vec<char>)
    ensures
        r@ == s@,
{
    let mut v: Vec<char> = Vec::new();
    for c in it: s.chars()
        invariant
            v@ == it.seq().take(it.index() as int),
            it.seq() == s@,
    {
        v.push(c);
    }
    v
}

/// `FromIterator<char>` for `String`: the string holding exactly `cs`, in order.
#[verifier::external_body]
pub(crate) fn string_from(cs: &Vec<char>) -> (r: String)
    ensures
        r@ == cs@,
{
    cs.iter().collect()
}

pub fn copy_vec(v: &Vec<char>) -> (r: Vec<char>)
    ensures
        r@ == v@,
{
    slice_chars(v, 0, v.len())
}

pub fn slice_chars(v: &Vec<char>, lo: usize, hi: usize) -> (r: Vec<char>)
    requires
        lo <= hi <= v.len(),
    ensures
        r@ == v@.subrange(lo as int, hi as int),
{
    let mut r: Vec<char> = Vec::new();
    let mut i = lo;
    while i < hi
        invariant
            lo <= i <= hi <= v.len(),
            r@ == v@.subrange(lo as int, i as int),
        decreases hi - i,
    {
        r.push(v[i]);
        i += 1;
    }
    r
}

pub fn append_chars(out: &mut Vec<char>, s: &Vec<char>)
    ensures
        final(out)@ == old(out)@ + s@,
{
    let mut i: usize = 0;
    let ghost start = out@;
    while i < s.len()
        invariant
            i <= s.len(),
            out@ == start + s@.subrange(0, i as int),
        decreases s.len() - i,
    {
        out.push(s[i]);
        i += 1;
    }
}

pub fn append_str(out: &mut Vec<char>, s: &str)
    ensures
        final(out)@ == old(out)@ + s@,
{
    let cs = chars_of(s);
    append_chars(out, &cs);
}

pub fn seq_eq(a: &Vec<char>, b: &Vec<char>) -> (r: bool)
    ensures
        r == (a@ == b@),
{
    if a.len() != b.len() {
        return false;
    }
    let mut i: usize = 0;
    while i < a.len()
        invariant
            a.len() == b.len(),
            i <= a.len(),
            forall|j: int| 0 <= j < i ==> a@[j] == b@[j],
        decreases a.len() - i,
    {
        if a[i] != b[i] {
            return false;
        }
        i += 1;
    }
    assert(a@ =~= b@);
    true
}

pub fn str_eq(a: &str, b: &str) -> (r: bool)
    ensures
        r == (a@ == b@),
{
    let x = chars_of(a);
    let y = chars_of(b);
    seq_eq(&x, &y)
}

// ---------------------------------------------------------------------------
// Prefixes, suffixes, searching
// ---------------------------------------------------------------------------

pub open spec fn has_prefix(s: Seq<char>, p: Seq<char>) -> bool {
    p.len() <= s.len() && s.subrange(0, p.len() as int) == p
}

pub open spec fn has_suffix(s: Seq<char>, p: Seq<char>) -> bool {
    p.len() <= s.len() && s.subrange(s.len() - p.len(), s.len() as int) == p
}

pub fn starts_with(s: &Vec<char>, p: &Vec<char>) -> (r: bool)
    ensures
        r == has_prefix(s@, p@),
{
    if p.len() > s.len() {
        return false;
    }
    let mut i: usize = 0;
    while i < p.len()
        invariant
            p.len() <= s.len(),
            i <= p.len(),
            forall|j: int| 0 <= j < i ==> s@[j] == p@[j],
        decreases p.len() - i,
    {
        if s[i] != p[i] {
            assert(s@.subrange(0, p.len() as int)[i as int] != p@[i as int]);
            return false;
        }
        i += 1;
    }
    assert(s@.subrange(0, p.len() as int) =~= p@);
    true
}

pub fn ends_with(s: &Vec<char>, p: &Vec<char>) -> (r: bool)
    ensures
        r == has_suffix(s@, p@),
{
    if p.len() > s.len() {
        return false;
    }
    let off = s.len() - p.len();
    let mut i: usize = 0;
    while i < p.len()
        invariant
            p.len() <= s.len(),
            off == s.len() - p.len(),
            i <= p.len(),
            forall|j: int| 0 <= j < i ==> s@[off + j] == p@[j],
        decreases p.len() - i,
    {
        if s[off + i] != p[i] {
            assert(s@.subrange(off as int, s.len() as int)[i as int] != p@[i as int]);
            return false;
        }
        i += 1;
    }
    assert(s@.subrange(off as int, s.len() as int) =~= p@);
    true
}

/// Number of characters before the first `c` (the whole length when absent).
pub open spec fn count_until(s: Seq<char>, c: char) -> nat
    decreases s.len(),
{
    if s.len() == 0 || s[0] == c {
        0
    } else {
        1 + count_until(s.drop_first(), c)
    }
}

pub proof fn lemma_count_until_step(s: Seq<char>, c: char, i: int)
    requires
        0 <= i < s.len(),
        s[i] != c,
    ensures
        count_until(s.subrange(i, s.len() as int), c) == 1 + count_until(
            s.subrange(i + 1, s.len() as int),
            c,
        ),
{
    assert(s.subrange(i, s.len() as int).drop_first() =~= s.subrange(i + 1, s.len() as int));
}

pub proof fn lemma_count_until_bound(s: Seq<char>, c: char)
    ensures
        count_until(s, c) <= s.len(),
        count_until(s, c) < s.len() ==> s[count_until(s, c) as int] == c,
        forall|j: int| 0 <= j < count_until(s, c) ==> s[j] != c,
    decreases s.len(),
{
    if s.len() > 0 && s[0] != c {
        lemma_count_until_bound(s.drop_first(), c);
        assert forall|j: int| 0 <= j < count_until(s, c) implies s[j] != c by {
            if j > 0 {
                assert(s[j] == s.drop_first()[j - 1]);
            }
        }
    }
}

/// Index of the first `c` in `s`, if any.
pub fn find_char(s: &Vec<char>, c: char) -> (r: Option<usize>)
    ensures
        match r {
            Some(i) => i == count_until(s@, c) && i < s@.len(),
            None => count_until(s@, c) == s@.len(),
        },
{
    let mut i: usize = 0;
    assert(s@.subrange(0, s@.len() as int) =~= s@);
    while i < s.len()
        invariant
            i <= s.len(),
            count_until(s@, c) == i + count_until(s@.subrange(i as int, s@.len() as int), c),
        decreases s.len() - i,
    {
        if s[i] == c {
            return Some(i);
        }
        proof {
            lemma_count_until_step(s@, c, i as int);
        }
        i += 1;
    }
    None
}

/// `str::split_once(c)`: the parts before and after the first `c`.
pub open spec fn split_once_spec(s: Seq<char>, c: char) -> Option<(Seq<char>, Seq<char>)> {
    let k = count_until(s, c);
    if k < s.len() {
        Some((s.subrange(0, k as int), s.subrange(k + 1int, s.len() as int)))
    } else {
        None
    }
}

pub fn split_once(s: &Vec<char>, c: char) -> (r: Option<(Vec<char>, Vec<char>)>)
    ensures
        match r {
            Some(p) => split_once_spec(s@, c) == Some((p.0@, p.1@)),
            None => split_once_spec(s@, c) is None,
        },
{
    match find_char(s, c) {
        Some(i) => {
            let n = s.len();
            assert(i < n);
            let a = slice_chars(s, 0, i);
            let b = slice_chars(s, i + 1, s.len());
            Some((a, b))
        },
        None => None,
    }
}

/// Position of the first occurrence of `p` in `s` (`-1` when absent).
pub open spec fn find_sub(s: Seq<char>, p: Seq<char>) -> int
    decreases s.len(),
{
    if s.len() < p.len() {
        -1
    } else if s.subrange(0, p.len() as int) == p {
        0
    } else if s.len() == 0 {
        -1
    } else {
        let r = find_sub(s.drop_first(), p);
        if r < 0 {
            -1
        } else {
            r + 1
        }
    }
}

pub proof fn lemma_find_sub_bound(s: Seq<char>, p: Seq<char>)
    ensures
        -1 <= find_sub(s, p),
        find_sub(s, p) >= 0 ==> find_sub(s, p) + p.len() <= s.len() && s.subrange(
            find_sub(s, p),
            find_sub(s, p) + p.len(),
        ) == p,
    decreases s.len(),
{
    if s.len() < p.len() {
    } else if s.subrange(0, p.len() as int) == p {
    } else if s.len() == 0 {
    } else {
        lemma_find_sub_bound(s.drop_first(), p);
        let r = find_sub(s.drop_first(), p);
        if r >= 0 {
            assert(s.subrange(r + 1, r + 1 + p.len()) =~= s.drop_first().subrange(r, r + p.len()));
        }
    }
}

pub fn find_substr(s: &Vec<char>, p: &Vec<char>) -> (r: Option<usize>)
    ensures
        match r {
            Some(i) => i == find_sub(s@, p@),
            None => find_sub(s@, p@) == -1,
        },
{
    let mut i: usize = 0;
    assert(s@.subrange(0, s@.len() as int) =~= s@);
    while i <= s.len()
        invariant
            i <= s.len() + 1,
            i <= s.len() ==> find_sub(s@, p@) == (if find_sub(
                s@.subrange(i as int, s@.len() as int),
                p@,
            ) < 0 {
                -1
            } else {
                find_sub(s@.subrange(i as int, s@.len() as int), p@) + i
            }),
            i > s.len() ==> find_sub(s@, p@) == -1,
        decreases s.len() + 1 - i,
    {
        let ghost rest = s@.subrange(i as int, s@.len() as int);
        if s.len() - i < p.len() {
            assert(find_sub(rest, p@) == -1);
            return None;
        }
        let mut j: usize = 0;
        let mut ok = true;
        while j < p.len()
            invariant
                i + p.len() <= s.len(),
                j <= p.len(),
                ok ==> forall|k: int| 0 <= k < j ==> s@[i + k] == p@[k],
                !ok ==> rest.subrange(0, p.len() as int) != p@,
                rest == s@.subrange(i as int, s@.len() as int),
            decreases p.len() - j,
        {
            if ok && s[i + j] != p[j] {
                assert(rest.subrange(0, p.len() as int)[j as int] == s@[i + j]);
                ok = false;
            }
            j += 1;
        }
        if ok {
            assert(rest.subrange(0, p.len() as int) =~= p@);
            return Some(i);
        }
        if i == s.len() {
            assert(rest.len() == 0);
            return None;
        }
        assert(rest.drop_first() =~= s@.subrange(i + 1, s@.len() as int));
        i += 1;
    }
    None
}

/// `str::split(p)` for a non-empty pattern: the pieces between occurrences.
pub open spec fn split_seq(s: Seq<char>, p: Seq<char>) -> Seq<Seq<char>>
    decreases s.len(),
{
    let k = find_sub(s, p);
    if p.len() == 0 || k < 0 || k + p.len() > s.len() {
        seq![s]
    } else {
        seq![s.subrange(0, k)] + split_seq(s.subrange(k + p.len(), s.len() as int), p)
    }
}

pub fn split_by(s: &Vec<char>, p: &Vec<char>) -> (r: Vec<Vec<char>>)
    requires
        p.len() > 0,
    ensures
        r@.map_values(|v: Vec<char>| v@) == split_seq(s@, p@),
{
    let mut out: Vec<Vec<char>> = Vec::new();
    let mut rest = copy_vec(s);
    loop
        invariant
            p.len() > 0,
            out@.map_values(|v: Vec<char>| v@) + split_seq(rest@, p@) == split_seq(s@, p@),
        decreases rest.len(),
    {
        let ghost old_rest = rest@;
        match find_substr(&rest, p) {
            Some(k) => {
                proof {
                    lemma_find_sub_bound(rest@, p@);
                }
                let head = slice_chars(&rest, 0, k);
                let tail = slice_chars(&rest, k + p.len(), rest.len());
                let ghost old_out = out@.map_values(|v: Vec<char>| v@);
                out.push(head);
                rest = tail;
                assert(out@.map_values(|v: Vec<char>| v@) =~= old_out.push(head@));
                assert(split_seq(old_rest, p@) == seq![head@] + split_seq(rest@, p@));
                assert(old_out + split_seq(old_rest, p@) =~= old_out.push(head@) + split_seq(
                    rest@,
                    p@,
                ));
            },
            None => {
                let ghost old_out = out@.map_values(|v: Vec<char>| v@);
                let last = copy_vec(&rest);
                out.push(last);
                assert(out@.map_values(|v: Vec<char>| v@) =~= old_out.push(old_rest));
                assert(split_seq(old_rest, p@) == seq![old_rest]);
                assert(old_out + seq![old_rest] =~= old_out.push(old_rest));
                return out;
            },
        }
    }
}

// ---------------------------------------------------------------------------
// Whitespace
// ---------------------------------------------------------------------------

/// Number of leading whitespace characters.
pub open spec fn lead_ws(s: Seq<char>) -> nat
    decreases s.len(),
{
    if s.len() > 0 && is_ws(s[0]) {
        1 + lead_ws(s.drop_first())
    } else {
        0
    }
}

/// Number of trailing whitespace characters.
pub open spec fn trail_ws(s: Seq<char>) -> nat
    decreases s.len(),
{
    if s.len() > 0 && is_ws(s.last()) {
        1 + trail_ws(s.drop_last())
    } else {
        0
    }
}

pub open spec fn trim_start_spec(s: Seq<char>) -> Seq<char> {
    s.subrange(lead_ws(s) as int, s.len() as int)
}

pub open spec fn trim_end_spec(s: Seq<char>) -> Seq<char> {
    s.subrange(0, s.len() - trail_ws(s))
}

/// `str::trim`.
pub open spec fn trim_spec(s: Seq<char>) -> Seq<char> {
    trim_end_spec(trim_start_spec(s))
}

pub proof fn lemma_lead_ws_bound(s: Seq<char>)
    ensures
        lead_ws(s) <= s.len(),
        forall|j: int| 0 <= j < lead_ws(s) ==> is_ws(s[j]),
        lead_ws(s) < s.len() ==> !is_ws(s[lead_ws(s) as int]),
    decreases s.len(),
{
    if s.len() > 0 && is_ws(s[0]) {
        lemma_lead_ws_bound(s.drop_first());
        assert forall|j: int| 0 <= j < lead_ws(s) implies is_ws(s[j]) by {
            if j > 0 {
                assert(s[j] == s.drop_first()[j - 1]);
            }
        }
    }
}

pub proof fn lemma_trail_ws_bound(s: Seq<char>)
    ensures
        trail_ws(s) <= s.len(),
    decreases s.len(),
{
    if s.len() > 0 && is_ws(s.last()) {
        lemma_trail_ws_bound(s.drop_last());
    }
}

pub fn lead_ws_count(s: &Vec<char>, lo: usize) -> (r: usize)
    requires
        lo <= s.len(),
    ensures
        r == lo + lead_ws(s@.subrange(lo as int, s@.len() as int)),
        r <= s.len(),
{
    let mut i = lo;
    while i < s.len() && is_whitespace(s[i])
        invariant
            lo <= i <= s.len(),
            lo + lead_ws(s@.subrange(lo as int, s@.len() as int)) == i + lead_ws(
                s@.subrange(i as int, s@.len() as int),
            ),
        decreases s.len() - i,
    {
        assert(s@.subrange(i as int, s@.len() as int).drop_first() =~= s@.subrange(
            i + 1,
            s@.len() as int,
        ));
        i += 1;
    }
    i
}

pub fn trim_chars(s: &Vec<char>) -> (r: Vec<char>)
    ensures
        r@ == trim_spec(s@),
{
    let lo = lead_ws_count(s, 0);
    assert(s@.subrange(0, s@.len() as int) =~= s@);
    let ghost t = s@.subrange(lo as int, s@.len() as int);
    let mut hi = s.len();
    while hi > lo && is_whitespace(s[hi - 1])
        invariant
            lo <= hi <= s.len(),
            t == s@.subrange(lo as int, s@.len() as int),
            trail_ws(t) == (s.len() - hi) + trail_ws(s@.subrange(lo as int, hi as int)),
        decreases hi,
    {
        assert(s@.subrange(lo as int, hi as int).drop_last() =~= s@.subrange(
            lo as int,
            hi - 1,
        ));
        hi -= 1;
    }
    proof {
        assert(trail_ws(s@.subrange(lo as int, hi as int)) == 0);
        assert(t.subrange(0, t.len() - trail_ws(t)) =~= s@.subrange(lo as int, hi as int));
    }
    slice_chars(s, lo, hi)
}

pub fn trim_str(s: &str) -> (r: Vec<char>)
    ensures
        r@ == trim_spec(s@),
{
    let v = chars_of(s);
    trim_chars(&v)
}

/// Number of leading non-whitespace characters.
pub open spec fn lead_word(s: Seq<char>) -> nat
    decreases s.len(),
{
    if s.len() > 0 && !is_ws(s[0]) {
        1 + lead_word(s.drop_first())
    } else {
        0
    }
}

pub proof fn lemma_lead_word_bound(s: Seq<char>)
    ensures
        lead_word(s) <= s.len(),
    decreases s.len(),
{
    if s.len() > 0 && !is_ws(s[0]) {
        lemma_lead_word_bound(s.drop_first());
    }
}

/// `str::split_whitespace`: the maximal runs of non-whitespace characters.
pub open spec fn words(s: Seq<char>) -> Seq<Seq<char>>
    decreases s.len(),
{
    let t = trim_start_spec(s);
    if s.len() == 0 || t.len() == 0 || lead_ws(s) > s.len() {
        seq![]
    } else {
        let k = lead_word(t);
        if k == 0 || k > t.len() {
            seq![]
        } else {
            seq![t.subrange(0, k as int)] + words(t.subrange(k as int, t.len() as int))
        }
    }
}

pub fn split_words(s: &Vec<char>) -> (r: Vec<Vec<char>>)
    ensures
        r@.map_values(|v: Vec<char>| v@) == words(s@),
{
    let mut out: Vec<Vec<char>> = Vec::new();
    let mut i: usize = 0;
    assert(s@.subrange(0, s@.len() as int) =~= s@);
    loop
        invariant
            i <= s.len(),
            out@.map_values(|v: Vec<char>| v@) + words(s@.subrange(i as int, s@.len() as int))
                == words(s@),
        decreases s.len() - i,
    {
        let ghost rest = s@.subrange(i as int, s@.len() as int);
        let ghost old_out = out@.map_values(|v: Vec<char>| v@);
        let j = lead_ws_count(s, i);
        proof {
            lemma_lead_ws_bound(rest);
        }
        if j == s.len() {
            assert(words(rest) == Seq::<Seq<char>>::empty()) by {
                assert(trim_start_spec(rest).len() == 0);
            }
            assert(old_out + Seq::<Seq<char>>::empty() =~= old_out);
            return out;
        }
        let mut k = j;
        let ghost t = trim_start_spec(rest);
        assert(t =~= s@.subrange(j as int, s@.len() as int));
        while k < s.len() && !is_whitespace(s[k])
            invariant
                j <= k <= s.len(),
                t == s@.subrange(j as int, s@.len() as int),
                lead_word(t) == (k - j) + lead_word(s@.subrange(k as int, s@.len() as int)),
            decreases s.len() - k,
        {
            assert(s@.subrange(k as int, s@.len() as int).drop_first() =~= s@.subrange(
                k + 1,
                s@.len() as int,
            ));
            k += 1;
        }
        proof {
            lemma_lead_ws_bound(rest);
            assert(!is_ws(t[0]));
            assert(lead_word(t) > 0);
            assert(lead_word(s@.subrange(k as int, s@.len() as int)) == 0);
        }
        let w = slice_chars(s, j, k);
        out.push(w);
        proof {
            assert(t.subrange(0, (k - j) as int) =~= w@);
            assert(t.subrange((k - j) as int, t.len() as int) =~= s@.subrange(
                k as int,
                s@.len() as int,
            ));
            assert(out@.map_values(|v: Vec<char>| v@) =~= old_out.push(w@));
            assert(words(rest) == seq![w@] + words(s@.subrange(k as int, s@.len() as int)));
            assert(old_out + words(rest) =~= old_out.push(w@) + words(
                s@.subrange(k as int, s@.len() as int),
            ));
        }
        i = k;
    }
}

// ---------------------------------------------------------------------------
// Case mapping
// ---------------------------------------------------------------------------

pub fn lower_chars(s: &Vec<char>) -> (r: Vec<char>)
    ensures
        r@ == lower_seq(s@),
{
    let mut r: Vec<char> = Vec::new();
    let mut i: usize = 0;
    while i < s.len()
        invariant
            i <= s.len(),
            r@ == lower_seq(s@.subrange(0, i as int)),
        decreases s.len() - i,
    {
        r.push(ascii_lower(s[i]));
        assert(lower_seq(s@.subrange(0, i + 1)) =~= lower_seq(s@.subrange(0, i as int)).push(
            lower_char(s@[i as int]),
        ));
        i += 1;
    }
    assert(s@.subrange(0, s@.len() as int) =~= s@);
    r
}

pub fn ascii_upper(c: char) -> (r: char)
    ensures
        r == upper_char(c),
{
    if 'a' <= c && c <= 'z' {
        let u = c as u32 - 32;
        let b = u as u8;
        b as char
    } else {
        c
    }
}

pub fn upper_chars(s: &Vec<char>) -> (r: Vec<char>)
    ensures
        r@ == upper_seq(s@),
{
    let mut r: Vec<char> = Vec::new();
    let mut i: usize = 0;
    while i < s.len()
        invariant
            i <= s.len(),
            r@ == upper_seq(s@.subrange(0, i as int)),
        decreases s.len() - i,
    {
        r.push(ascii_upper(s[i]));
        assert(upper_seq(s@.subrange(0, i + 1)) =~= upper_seq(s@.subrange(0, i as int)).push(
            upper_char(s@[i as int]),
        ));
        i += 1;
    }
    assert(s@.subrange(0, s@.len() as int) =~= s@);
    r
}

// ---------------------------------------------------------------------------
// Decimal numbers
// ---------------------------------------------------------------------------

pub open spec fn dec_digit(d: nat) -> char {
    (d + 48) as char
}

/// Decimal rendering of a natural number (no sign, no leading zeros).
pub open spec fn dec(n: nat) -> Seq<char>
    decreases n,
{
    if n < 10 {
        seq![dec_digit(n)]
    } else {
        dec(n / 10).push(dec_digit(n % 10))
    }
}

pub fn dec_chars(n: u64) -> (r: Vec<char>)
    ensures
        r@ == dec(n as nat),
    decreases n,
{
    let d = (n % 10) as u8;
    let c = (d + 48) as char;
    if n < 10 {
        let mut v: Vec<char> = Vec::new();
        v.push(c);
        v
    } else {
        let mut v = dec_chars(n / 10);
        v.push(c);
        v
    }
}

pub fn push_dec(out: &mut Vec<char>, n: u64)
    ensures
        final(out)@ == old(out)@ + dec(n as nat),
{
    let d = dec_chars(n);
    append_chars(out, &d);
}

/// Value of a string of decimal digits.
pub open spec fn digits_val(s: Seq<char>) -> nat
    decreases s.len(),
{
    if s.len() == 0 {
        0
    } else {
        digits_val(s.drop_last()) * 10 + digit_value(s.last())
    }
}

pub open spec fn all_digits(s: Seq<char>) -> bool {
    forall|i: int| 0 <= i < s.len() ==> is_digit(#[trigger] s[i])
}

/// The digits that follow an optional leading `+`.
pub open spec fn unsigned_body(s: Seq<char>) -> Seq<char> {
    if s.len() > 0 && s[0] == '+' {
        s.drop_first()
    } else {
        s
    }
}

/// `FromStr` for an unsigned integer type whose largest value is `max`: an
/// optional `+` followed by one or more ASCII digits whose value fits.
pub open spec fn parse_uint_spec(s: Seq<char>, max: nat) -> Option<nat> {
    let d = unsigned_body(s);
    if d.len() > 0 && all_digits(d) && digits_val(d) <= max {
        Some(digits_val(d))
    } else {
        None
    }
}

pub proof fn lemma_digits_val_prefix(s: Seq<char>, k: int)
    requires
        0 <= k <= s.len(),
        all_digits(s),
    ensures
        digits_val(s.subrange(0, k)) <= digits_val(s),
    decreases s.len() - k,
{
    if k < s.len() {
        lemma_digits_val_prefix(s, k + 1);
        let a = s.subrange(0, k + 1);
        assert(a.drop_last() =~= s.subrange(0, k));
        assert(is_digit(s[k]));
        assert(digits_val(a) == digits_val(s.subrange(0, k)) * 10 + digit_value(a.last()));
        assert(digits_val(s.subrange(0, k)) <= digits_val(s.subrange(0, k)) * 10) by (nonlinear_arith);
    } else {
        assert(s.subrange(0, k) =~= s);
    }
}

pub fn parse_uint(s: &Vec<char>, max: u64) -> (r: Option<u64>)
    ensures
        match r {
            Some(v) => parse_uint_spec(s@, max as nat) == Some(v as nat),
            None => parse_uint_spec(s@, max as nat) is None,
        },
{
    let start: usize = if s.len() > 0 && s[0] == '+' {
        1
    } else {
        0
    };
    let ghost d = unsigned_body(s@);
    assert(d =~= s@.subrange(start as int, s@.len() as int));
    if start >= s.len() {
        return None;
    }
    let mut val: u64 = 0;
    let mut i = start;
    while i < s.len()
        invariant
            start <= i <= s.len(),
            d == s@.subrange(start as int, s@.len() as int),
            d == unsigned_body(s@),
            val <= max,
            val as nat == digits_val(d.subrange(0, i - start)),
            all_digits(d.subrange(0, i - start)),
        decreases s.len() - i,
    {
        let c = s[i];
        if !is_ascii_digit(c) {
            assert(d[i - start] == c);
            assert(!is_digit(d[i - start]));
            return None;
        }
        let dv = (c as u32 - '0' as u32) as u64;
        let ghost pre = d.subrange(0, i - start);
        let ghost nxt = d.subrange(0, i + 1 - start);
        assert(nxt.drop_last() =~= pre);
        assert(all_digits(nxt));
        if dv > max || val > (max - dv) / 10 {
            proof {
                assert(val * 10 + dv > max) by (nonlinear_arith)
                    requires
                        dv > max || val > (max - dv) / 10,
                        dv <= 9,
                ;
                assert(digits_val(nxt) > max);
                // Any later non-digit also yields None; otherwise the value only grows.
                if all_digits(d) {
                    lemma_digits_val_prefix(d, i + 1 - start);
                }
            }
            return None;
        }
        assert(val * 10 + dv <= max) by (nonlinear_arith)
            requires
                val <= (max - dv) / 10,
                dv <= max,
        ;
        val = val * 10 + dv;
        i += 1;
    }
    assert(d.subrange(0, (s.len() - start) as int) =~= d);
    Some(val)
}

pub fn parse_uint_str(s: &str, max: u64) -> (r: Option<u64>)
    ensures
        match r {
            Some(v) => parse_uint_spec(s@, max as nat) == Some(v as nat),
            None => parse_uint_spec(s@, max as nat) is None,
        },
{
    let v = chars_of(s);
    parse_uint(&v, max)
}

} // verus!
