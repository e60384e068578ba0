//! Calls into the encoding, hashing and identifier crates, and the
//! hexadecimal identifier text form.
use vstd::prelude::*;

verus! {

// ---------------------------------------------------------------------------
// base64
// ---------------------------------------------------------------------------

/// What `base64::engine::general_purpose::STANDARD.decode` yields for the
/// bytes of a string: the decoded bytes, or the text of the decode error.
pub uninterp spec fn spec_base64_standard_decode(s: Seq<char>) -> Result<Seq<u8>, Seq<char>>;

/// `STANDARD.decode(s)`, its error turned into its message text. The contract
/// names the outcome; whether a given string decodes, and what the message
/// says, is left to the name.
#[verifier::external_body]
pub(crate) fn base64_standard_decode(s: &str) -> (r: Result<Vec<u8>, String>)
    ensures
        match r {
            Ok(v) => spec_base64_standard_decode(s@) is Ok && spec_base64_standard_decode(s@)->Ok_0 == v@,
            Err(m) => spec_base64_standard_decode(s@) is Err && spec_base64_standard_decode(s@)->Err_0 == m@,
        },
{
    base64::Engine::decode(&base64::engine::general_purpose::STANDARD, s).map_err(|e| e.to_string())
}

/// The standard base64 alphabet (RFC 4648 §4).
pub open spec fn b64_std_char(v: nat) -> char {
    if v < 26 {
        ((v + 65) as u32) as char
    } else if v < 52 {
        ((v - 26 + 97) as u32) as char
    } else if v < 62 {
        ((v - 52 + 48) as u32) as char
    } else if v == 62 {
        '+'
    } else {
        '/'
    }
}

/// The URL-safe base64 alphabet (RFC 4648 §5).
pub open spec fn b64_url_char(v: nat) -> char {
    if v == 62 {
        '-'
    } else if v == 63 {
        '_'
    } else {
        b64_std_char(v)
    }
}

/// Base64 over an alphabet, in groups of three bytes; `pad` adds `=` to a
/// final short group.
pub open spec fn b64_encode(b: Seq<u8>, url: bool, pad: bool) -> Seq<char>
    decreases b.len(),
{
    let ch = |v: nat|
        if url {
            b64_url_char(v)
        } else {
            b64_std_char(v)
        };
    if b.len() == 0 {
        Seq::empty()
    } else if b.len() == 1 {
        let x = b[0] as nat;
        seq![ch(x / 4), ch((x % 4) * 16)] + if pad {
            seq!['=', '=']
        } else {
            Seq::empty()
        }
    } else if b.len() == 2 {
        let x = b[0] as nat;
        let y = b[1] as nat;
        seq![ch(x / 4), ch((x % 4) * 16 + y / 16), ch((y % 16) * 4)] + if pad {
            seq!['=']
        } else {
            Seq::empty()
        }
    } else {
        let x = b[0] as nat;
        let y = b[1] as nat;
        let z = b[2] as nat;
        seq![ch(x / 4), ch((x % 4) * 16 + y / 16), ch((y % 16) * 4 + z / 64), ch(z % 64)]
            + b64_encode(b.subrange(3, b.len() as int), url, pad)
    }
}

/// `STANDARD.encode(bytes)`: padded base64 over the standard alphabet, which
/// `STANDARD.decode` reads back as the same bytes.
#[verifier::external_body]
pub(crate) fn base64_standard_encode(b: &[u8]) -> (r: String)
    ensures
        r@ == b64_encode(b@, false, true),
        spec_base64_standard_decode(r@) is Ok && spec_base64_standard_decode(r@)->Ok_0 == b@,
{
    base64::Engine::encode(&base64::engine::general_purpose::STANDARD, b)
}

/// `URL_SAFE_NO_PAD.encode(bytes)`: unpadded base64 over the URL-safe alphabet.
#[verifier::external_body]
pub(crate) fn base64_url_nopad_encode(b: &[u8]) -> (r: String)
    ensures
        r@ == b64_encode(b@, true, false),
{
    base64::Engine::encode(&base64::engine::general_purpose::URL_SAFE_NO_PAD, b)
}

// ---------------------------------------------------------------------------
// SHA-256
// ---------------------------------------------------------------------------

/// What `sha2::Sha256::digest` yields for a byte string.
pub uninterp spec fn spec_sha256(b: Seq<u8>) -> Seq<u8>;

/// `Sha256::digest(b)`: the 32-byte digest, named.
#[verifier::external_body]
pub(crate) fn sha256_digest(b: &[u8]) -> (r: Vec<u8>)
    ensures
        r@ == spec_sha256(b@),
        r@.len() == 32,
{
    <sha2::Sha256 as sha2::Digest>::digest(b).to_vec()
}

// ---------------------------------------------------------------------------
// Identifiers
// ---------------------------------------------------------------------------

/// Seconds since the Unix epoch by the system clock (`0` when the clock is
/// before the epoch). The clock is read: nothing is stated of the value.
#[verifier::external_body]
pub(crate) fn now_secs() -> (r: u64) {
    std::time::UNIX_EPOCH.elapsed().map(|d| d.as_secs()).unwrap_or(0)
}

/// A version-4 UUID value: version nibble (bits 76..80) `4` and the RFC 4122
/// variant (bits 62..64) `10`.
pub open spec fn is_uuid_v4(v: u128) -> bool {
    &&& (v >> 76u128) & 0xfu128 == 4u128
    &&& (v >> 62u128) & 3u128 == 2u128
}

/// `uuid::Uuid::new_v4()` as its 128-bit value (`as_u128`). The bits are
/// random except those `new_v4` masks in: version 4 and the RFC 4122 variant.
#[verifier::external_body]
pub(crate) fn random_uuid() -> (r: u128)
    ensures
        is_uuid_v4(r),
{
    uuid::Uuid::new_v4().as_u128()
}

/// What `uuid::Uuid::parse_str` yields for a text, as the 128-bit value of
/// the UUID (`Uuid::as_u128`), or `None` where it returns an error.
pub uninterp spec fn uuid_parse_result(s: Seq<char>) -> Option<u128>;

/// `Uuid::parse_str(s)` (the simple, hyphenated, braced and URN forms). The
/// accepted texts and their values are named, not restated.
#[verifier::external_body]
pub(crate) fn parse_uuid(s: &str) -> (r: Option<u128>)
    ensures
        r == uuid_parse_result(s@),
{
    match uuid::Uuid::parse_str(s) {
        Ok(u) => Some(u.as_u128()),
        Err(_) => None,
    }
}

pub open spec fn hex_lower(v: nat) -> char {
    if v < 10 {
        ((v + 48) as u32) as char
    } else {
        ((v - 10 + 97) as u32) as char
    }
}

/// The `n` lowercase hex digits of `v`, most significant first.
pub open spec fn hex_digits(v: nat, n: nat) -> Seq<char>
    decreases n,
{
    if n == 0 {
        Seq::empty()
    } else {
        hex_digits(v / 16, (n - 1) as nat).push(hex_lower(v % 16))
    }
}

/// Hyphenated form of a 128-bit identifier: 8-4-4-4-12 lowercase hex digits.
pub open spec fn uuid_text(v: u128) -> Seq<char> {
    let d = hex_digits(v as nat, 32);
    d.subrange(0, 8) + "-"@ + d.subrange(8, 12) + "-"@ + d.subrange(12, 16) + "-"@ + d.subrange(
        16,
        20,
    ) + "-"@ + d.subrange(20, 32)
}

pub fn hex_digit_char(d: u8) -> (r: char)
    requires
        d < 16,
    ensures
        r == hex_lower(d as nat),
{
    if d < 10 {
        (d + 48) as char
    } else {
        (d - 10 + 97) as char
    }
}

pub proof fn lemma_hex_digits_len(v: nat, n: nat)
    ensures
        hex_digits(v, n).len() == n,
    decreases n,
{
    if n > 0 {
        lemma_hex_digits_len(v / 16, (n - 1) as nat);
    }
}

pub fn hex_digits_exec(v: u128, n: usize) -> (r: Vec<char>)
    ensures
        r@ == hex_digits(v as nat, n as nat),
    decreases n,
{
    if n == 0 {
        Vec::new()
    } else {
        let mut out = hex_digits_exec(v / 16, n - 1);
        out.push(hex_digit_char((v % 16) as u8));
        out
    }
}

pub fn uuid_to_text(v: u128) -> (r: String)
    ensures
        r@ == uuid_text(v),
{
    let d = hex_digits_exec(v, 32);
    proof {
        lemma_hex_digits_len(v as nat, 32);
    }
    let mut out: Vec<char> = Vec::new();
    let a = crate::text::slice_chars(&d, 0, 8);
    let b = crate::text::slice_chars(&d, 8, 12);
    let c = crate::text::slice_chars(&d, 12, 16);
    let e = crate::text::slice_chars(&d, 16, 20);
    let f = crate::text::slice_chars(&d, 20, 32);
    crate::text::append_chars(&mut out, &a);
    crate::text::append_str(&mut out, "-");
    crate::text::append_chars(&mut out, &b);
    crate::text::append_str(&mut out, "-");
    crate::text::append_chars(&mut out, &c);
    crate::text::append_str(&mut out, "-");
    crate::text::append_chars(&mut out, &e);
    crate::text::append_str(&mut out, "-");
    crate::text::append_chars(&mut out, &f);
    crate::text::string_from(&out)
}

} // verus!
