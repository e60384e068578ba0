//! WireGuard mesh management: key material, configuration rendering for
//! `wg-quick` and `wg setconf`, configuration validation, and reading the
//! `wg show all dump` status table.
use vstd::prelude::*;

use crate::codec::{
    b64_encode, b64_std_char, base64_standard_decode, base64_standard_encode,
    spec_base64_standard_decode,
};
use crate::config::{Mesh, Peer};
use crate::net::{ip_parse, parse_ip_chars};
use crate::text::{
    append_chars, append_str, chars_of, dec, find_char, is_ws, lead_ws, parse_uint,
    parse_uint_spec, push_dec, slice_chars, split_by, split_once, split_once_spec, split_seq,
    str_eq, string_from, trail_ws, trim_chars, trim_spec,
};

verus! {

broadcast use vstd::string::group_string_axioms;

// ---------------------------------------------------------------------------
// Errors and key material
// ---------------------------------------------------------------------------

#[derive(Debug)]
pub enum MeshError {
    /// Invalid base64 key material.
    BadKey,
    /// WireGuard tools are unavailable on this platform.
    UnsupportedPlatform,
    /// A `wg` command failed.
    CommandFailed(String),
    /// An I/O error, by its message.
    Io(String),
}

/// A Curve25519 key pair in base64.
#[derive(Debug, Clone)]
pub struct KeyPair {
    pub private_b64: String,
    pub public_b64: String,
}

impl KeyPair {
    /// The pair as it is displayed: its public half only.
    pub fn to_text(&self) -> (r: String)
        ensures
            r@ == "public="@ + self.public_b64@,
    {
        let mut out: Vec<char> = Vec::new();
        append_str(&mut out, "public=");
        append_str(&mut out, self.public_b64.as_str());
        string_from(&out)
    }
}

/// The public key `x25519_dalek` derives from a 32-byte secret.
pub uninterp spec fn spec_x25519_public(secret: Seq<u8>) -> Seq<u8>;

/// `StaticSecret::random_from_rng(OsRng)`, as its bytes: 32 random bytes.
#[verifier::external_body]
fn random_secret() -> (r: Vec<u8>)
    ensures
        r@.len() == 32,
{
    x25519_dalek::StaticSecret::random_from_rng(rand::rngs::OsRng).to_bytes().to_vec()
}

/// `PublicKey::from(&StaticSecret::from(secret))`, as its bytes: the named
/// public key of the secret, 32 bytes long.
#[verifier::external_body]
fn x25519_public(secret: &[u8]) -> (r: Vec<u8>)
    requires
        secret@.len() == 32,
    ensures
        r@ == spec_x25519_public(secret@),
        r@.len() == 32,
{
    let mut b = [0u8;32];
    b.copy_from_slice(secret);
    x25519_dalek::PublicKey::from(&x25519_dalek::StaticSecret::from(b)).as_bytes().to_vec()
}

/// The 32 key bytes a base64 key decodes to (after trimming).
pub open spec fn decode_key_spec(b64: Seq<char>) -> Option<Seq<u8>> {
    match spec_base64_standard_decode(trim_spec(b64)) {
        Ok(raw) => if raw.len() == 32 {
            Some(raw)
        } else {
            None
        },
        Err(_) => None,
    }
}

pub fn decode_key(b64: &str) -> (r: Result<Vec<u8>, MeshError>)
    ensures
        match r {
            Ok(k) => decode_key_spec(b64@) == Some(k@),
            Err(e) => decode_key_spec(b64@) is None && e is BadKey,
        },
{
    let t = trim_chars(&chars_of(b64));
    let t = string_from(&t);
    match base64_standard_decode(t.as_str()) {
        Ok(raw) => if raw.len() == 32 {
            Ok(raw)
        } else {
            Err(MeshError::BadKey)
        },
        Err(_) => Err(MeshError::BadKey),
    }
}

/// A pair made from the 32-byte secret `s`: both keys in padded standard
/// base64, the private one reading back as `s`.
pub open spec fn generated_pair(private: Seq<char>, public: Seq<char>, s: Seq<u8>) -> bool {
    &&& s.len() == 32
    &&& private == b64_encode(s, false, true)
    &&& public == b64_encode(spec_x25519_public(s), false, true)
    &&& spec_base64_standard_decode(private) == Ok::<Seq<u8>, Seq<char>>(s)
}

/// A fresh random key pair: the base64 of a random secret and of its public
/// key.
pub fn generate_keypair() -> (r: KeyPair)
    ensures
        exists|s: Seq<u8>| generated_pair(r.private_b64@, r.public_b64@, s),
{
    let secret = random_secret();
    let public = x25519_public(secret.as_slice());
    let kp = KeyPair {
        private_b64: base64_standard_encode(secret.as_slice()),
        public_b64: base64_standard_encode(public.as_slice()),
    };
    assert(generated_pair(kp.private_b64@, kp.public_b64@, secret@));
    kp
}

/// The base64 public key belonging to a base64 private key.
pub fn public_from_private(private_b64: &str) -> (r: Result<String, MeshError>)
    ensures
        match r {
            Ok(p) => decode_key_spec(private_b64@) matches Some(k) && p@ == b64_encode(
                spec_x25519_public(k),
                false,
                true,
            ),
            Err(e) => decode_key_spec(private_b64@) is None && e is BadKey,
        },
{
    let k = decode_key(private_b64)?;
    let public = x25519_public(k.as_slice());
    Ok(base64_standard_encode(public.as_slice()))
}

/// Base64 text holds no whitespace.
pub proof fn lemma_b64_no_ws(b: Seq<u8>)
    ensures
        forall|i: int|
            0 <= i < b64_encode(b, false, true).len() ==> !is_ws(
                #[trigger] b64_encode(b, false, true)[i],
            ),
    decreases b.len(),
{
    assert forall|v: nat| v < 64 implies !is_ws(#[trigger] b64_std_char(v)) by {}
    if b.len() >= 3 {
        lemma_b64_no_ws(b.subrange(3, b.len() as int));
        let x = b[0] as nat;
        let y = b[1] as nat;
        let z = b[2] as nat;
        assert(!is_ws(b64_std_char(x / 4)));
        assert(!is_ws(b64_std_char((x % 4) * 16 + y / 16)));
        assert(!is_ws(b64_std_char((y % 16) * 4 + z / 64)));
        assert(!is_ws(b64_std_char(z % 64)));
        let rest = b64_encode(b.subrange(3, b.len() as int), false, true);
        let head = seq![
            b64_std_char(x / 4),
            b64_std_char((x % 4) * 16 + y / 16),
            b64_std_char((y % 16) * 4 + z / 64),
            b64_std_char(z % 64),
        ];
        assert(b64_encode(b, false, true) =~= head + rest);
        assert forall|i: int| 0 <= i < (head + rest).len() implies !is_ws(#[trigger] (head + rest)[i]) by {
            if i >= 4 {
                assert((head + rest)[i] == rest[i - 4]);
            }
        }
    } else if b.len() == 2 {
        let x = b[0] as nat;
        let y = b[1] as nat;
        assert(!is_ws(b64_std_char(x / 4)));
        assert(!is_ws(b64_std_char((x % 4) * 16 + y / 16)));
        assert(!is_ws(b64_std_char((y % 16) * 4)));
    } else if b.len() == 1 {
        let x = b[0] as nat;
        assert(!is_ws(b64_std_char(x / 4)));
        assert(!is_ws(b64_std_char((x % 4) * 16)));
    }
}

/// Text that neither starts nor ends with whitespace is its own trim.
pub proof fn lemma_trim_noop(s: Seq<char>)
    requires
        forall|i: int| 0 <= i < s.len() ==> !is_ws(#[trigger] s[i]),
    ensures
        trim_spec(s) == s,
{
    if s.len() > 0 {
        assert(!is_ws(s[0]));
        assert(lead_ws(s) == 0);
        assert(s.subrange(0, s.len() as int) =~= s);
        assert(!is_ws(s.last()));
        assert(trail_ws(s) == 0);
    } else {
        assert(lead_ws(s) == 0);
        assert(trail_ws(s) == 0);
        assert(s.subrange(0, 0) =~= s);
    }
}

/// A generated key pair is consistent: deriving the public key from the
/// private one gives the pair's public key.
pub proof fn law_keypair_derivable(private: Seq<char>, public: Seq<char>, s: Seq<u8>)
    requires
        generated_pair(private, public, s),
    ensures
        decode_key_spec(private) == Some(s),
        b64_encode(spec_x25519_public(s), false, true) == public,
{
    lemma_b64_no_ws(s);
    lemma_trim_noop(b64_encode(s, false, true));
}

// ---------------------------------------------------------------------------
// Configuration rendering
// ---------------------------------------------------------------------------

/// The pieces joined by `sep`.
pub open spec fn join(parts: Seq<Seq<char>>, sep: Seq<char>) -> Seq<char>
    decreases parts.len(),
{
    if parts.len() == 0 {
        Seq::empty()
    } else if parts.len() == 1 {
        parts[0]
    } else {
        join(parts.drop_last(), sep) + sep + parts.last()
    }
}

pub open spec fn str_views(v: Seq<String>) -> Seq<Seq<char>> {
    v.map_values(|x: String| x@)
}

pub fn join_strings(parts: &Vec<String>, sep: &str) -> (r: Vec<char>)
    ensures
        r@ == join(str_views(parts@), sep@),
{
    let mut out: Vec<char> = Vec::new();
    let ghost pv = str_views(parts@);
    let mut i: usize = 0;
    while i < parts.len()
        invariant
            i <= parts.len(),
            pv == str_views(parts@),
            out@ == join(pv.take(i as int), sep@),
        decreases parts.len() - i,
    {
        assert(pv.take(i + 1).drop_last() =~= pv.take(i as int));
        assert(pv.take(i + 1).last() == parts@[i as int]@);
        if i > 0 {
            append_str(&mut out, sep);
        } else {
            assert(pv.take(0) =~= Seq::<Seq<char>>::empty());
            assert(pv.take(1)[0] == parts@[0]@);
        }
        append_str(&mut out, parts[i].as_str());
        i += 1;
    }
    assert(pv.take(parts.len() as int) =~= pv);
    out
}

/// The `[Peer]` section of `wg-quick` configuration.
pub open spec fn wg_quick_peer(p: Peer) -> Seq<char> {
    "\n[Peer]\n# name = "@ + p.name@ + "\nPublicKey = "@ + p.public_key@ + "\n"@ + match p.endpoint {
        Some(ep) => "Endpoint = "@ + ep@ + "\n"@,
        None => Seq::empty(),
    } + if p.allowed_ips@.len() > 0 {
        "AllowedIPs = "@ + join(str_views(p.allowed_ips@), ", "@) + "\n"@
    } else {
        Seq::empty()
    } + if p.keepalive_secs > 0 {
        "PersistentKeepalive = "@ + dec(p.keepalive_secs as nat) + "\n"@
    } else {
        Seq::empty()
    }
}

/// The peer sections of `wg setconf` configuration.
pub open spec fn setconf_peer(p: Peer) -> Seq<char> {
    "\n[Peer]\npublic_key = "@ + p.public_key@ + "\n"@ + match p.endpoint {
        Some(ep) => "endpoint = "@ + ep@ + "\n"@,
        None => Seq::empty(),
    } + "allowed_ips = "@ + join(str_views(p.allowed_ips@), ", "@) + "\n"@ + if p.keepalive_secs
        > 0 {
        "persistent_keepalive = "@ + dec(p.keepalive_secs as nat) + "\n"@
    } else {
        Seq::empty()
    }
}

pub open spec fn sections(peers: Seq<Peer>, setconf: bool) -> Seq<char>
    decreases peers.len(),
{
    if peers.len() == 0 {
        Seq::empty()
    } else {
        sections(peers.drop_last(), setconf) + if setconf {
            setconf_peer(peers.last())
        } else {
            wg_quick_peer(peers.last())
        }
    }
}

proof fn lemma_sections_append(a: Seq<Peer>, b: Seq<Peer>, setconf: bool)
    ensures
        sections(a + b, setconf) == sections(a, setconf) + sections(b, setconf),
    decreases b.len(),
{
    if b.len() == 0 {
        assert(a + b =~= a);
        assert(sections(b, setconf) =~= Seq::<char>::empty());
        assert(sections(a, setconf) + sections(b, setconf) =~= sections(a, setconf));
    } else {
        lemma_sections_append(a, b.drop_last(), setconf);
        assert((a + b).drop_last() =~= a + b.drop_last());
        assert((a + b).last() == b.last());
    }
}

/// The sections of `peers` split around peer `i`.
proof fn lemma_sections_around(peers: Seq<Peer>, i: int, setconf: bool)
    requires
        0 <= i < peers.len(),
    ensures
        sections(peers, setconf) == sections(peers.take(i), setconf) + (if setconf {
            setconf_peer(peers[i])
        } else {
            wg_quick_peer(peers[i])
        }) + sections(peers.skip(i + 1), setconf),
{
    let front = peers.take(i + 1);
    assert(front.drop_last() =~= peers.take(i));
    assert(front.last() == peers[i]);
    assert(front + peers.skip(i + 1) =~= peers);
    lemma_sections_append(front, peers.skip(i + 1), setconf);
}

proof fn lemma_middle(x: Seq<char>, line: Seq<char>, y: Seq<char>)
    requires
        x.len() > 0,
    ensures
        (x + line + y).subrange(x.len() as int, (x.len() + line.len()) as int) == line,
        (x + line + y)[x.len() - 1] == x[x.len() - 1],
{
    assert((x + line + y).subrange(x.len() as int, (x.len() + line.len()) as int) =~= line);
}

/// In `wg-quick` configuration every peer with an endpoint has, on a line of
/// its own, `Endpoint = ` and that endpoint.
pub proof fn law_wg_quick_peer_endpoint(m: Mesh, i: int)
    requires
        0 <= i < m.peers@.len(),
        m.peers@[i].endpoint is Some,
    ensures
        ({
            let text = wg_quick_text(m);
            let line = "Endpoint = "@ + m.peers@[i].endpoint->0@ + "\n"@;
            exists|k: int|
                0 < k && k + line.len() <= text.len() && text[k - 1] == '\n' && #[trigger] text.subrange(
                    k,
                    k + line.len(),
                ) == line
        }),
{
    let p = m.peers@[i];
    let ep = p.endpoint->0@;
    let line = "Endpoint = "@ + ep + "\n"@;
    let a = "\n[Peer]\n# name = "@ + p.name@ + "\nPublicKey = "@ + p.public_key@ + "\n"@;
    let allowed = if p.allowed_ips@.len() > 0 {
        "AllowedIPs = "@ + join(str_views(p.allowed_ips@), ", "@) + "\n"@
    } else {
        Seq::empty()
    };
    let keep = if p.keepalive_secs > 0 {
        "PersistentKeepalive = "@ + dec(p.keepalive_secs as nat) + "\n"@
    } else {
        Seq::empty()
    };
    let pp = wg_quick_peer(p);
    assert(pp == a + line + allowed + keep);
    assert(pp =~= a + line + (allowed + keep));
    let s1 = sections(m.peers@.take(i), false);
    let s2 = sections(m.peers@.skip(i + 1), false);
    lemma_sections_around(m.peers@, i, false);
    let h = "[Interface]\nPrivateKey = "@ + trim_spec(m.private_key@) + "\nListenPort = "@ + dec(
        m.listen_port as nat,
    ) + "\n"@;
    let text = wg_quick_text(m);
    assert(text == h + (s1 + pp + s2));
    let x = h + s1 + a;
    let y = allowed + keep + s2;
    assert(text =~= x + line + y);
    reveal_strlit("\n");
    assert(a[a.len() - 1] == '\n');
    assert(x[x.len() - 1] == a[a.len() - 1]);
    lemma_middle(x, line, y);
    let k = x.len() as int;
    assert(text.subrange(k, k + line.len()) == line);
}

/// In `wg setconf` configuration every peer with an endpoint has, on a line
/// of its own, `endpoint = ` and that endpoint.
pub proof fn law_setconf_peer_endpoint(m: Mesh, i: int)
    requires
        0 <= i < m.peers@.len(),
        m.peers@[i].endpoint is Some,
    ensures
        ({
            let text = setconf_text(m);
            let line = "endpoint = "@ + m.peers@[i].endpoint->0@ + "\n"@;
            exists|k: int|
                0 < k && k + line.len() <= text.len() && text[k - 1] == '\n' && #[trigger] text.subrange(
                    k,
                    k + line.len(),
                ) == line
        }),
{
    let p = m.peers@[i];
    let ep = p.endpoint->0@;
    let line = "endpoint = "@ + ep + "\n"@;
    let a = "\n[Peer]\npublic_key = "@ + p.public_key@ + "\n"@;
    let rest = "allowed_ips = "@ + join(str_views(p.allowed_ips@), ", "@) + "\n"@ + (if p.keepalive_secs
        > 0 {
        "persistent_keepalive = "@ + dec(p.keepalive_secs as nat) + "\n"@
    } else {
        Seq::empty()
    });
    let pp = setconf_peer(p);
    assert(pp =~= a + line + rest);
    let s1 = sections(m.peers@.take(i), true);
    let s2 = sections(m.peers@.skip(i + 1), true);
    lemma_sections_around(m.peers@, i, true);
    let h = "private_key = "@ + trim_spec(m.private_key@) + "\n"@;
    let text = setconf_text(m);
    assert(text == h + (s1 + pp + s2));
    let x = h + s1 + a;
    let y = rest + s2;
    assert(text =~= x + line + y);
    reveal_strlit("\n");
    assert(a[a.len() - 1] == '\n');
    assert(x[x.len() - 1] == a[a.len() - 1]);
    lemma_middle(x, line, y);
    let k = x.len() as int;
    assert(text.subrange(k, k + line.len()) == line);
}

/// Whether the mesh's private key is usable: non-empty and 32 bytes of base64.
pub open spec fn private_key_ok(m: Mesh) -> bool {
    m.private_key@.len() > 0 && decode_key_spec(m.private_key@) is Some
}

pub open spec fn wg_quick_text(m: Mesh) -> Seq<char> {
    "[Interface]\nPrivateKey = "@ + trim_spec(m.private_key@) + "\nListenPort = "@ + dec(
        m.listen_port as nat,
    ) + "\n"@ + sections(m.peers@, false)
}

/// The key line and the peers: no `[Interface]` header and no listen-port or
/// address line.
pub open spec fn setconf_text(m: Mesh) -> Seq<char> {
    "private_key = "@ + trim_spec(m.private_key@) + "\n"@ + sections(m.peers@, true)
}

fn endpoint_line(p: &Peer, setconf: bool) -> (r: Vec<char>)
    ensures
        r@ == match p.endpoint {
            Some(ep) => (if setconf {
                "endpoint = "@
            } else {
                "Endpoint = "@
            }) + ep@ + "\n"@,
            None => Seq::empty(),
        },
{
    let mut out: Vec<char> = Vec::new();
    match &p.endpoint {
        Some(ep) => {
            if setconf {
                append_str(&mut out, "endpoint = ");
            } else {
                append_str(&mut out, "Endpoint = ");
            }
            append_str(&mut out, ep.as_str());
            append_str(&mut out, "\n");
        },
        None => {},
    }
    out
}

fn keepalive_line(p: &Peer, setconf: bool) -> (r: Vec<char>)
    ensures
        r@ == if p.keepalive_secs > 0 {
            (if setconf {
                "persistent_keepalive = "@
            } else {
                "PersistentKeepalive = "@
            }) + dec(p.keepalive_secs as nat) + "\n"@
        } else {
            Seq::empty()
        },
{
    let mut out: Vec<char> = Vec::new();
    if p.keepalive_secs > 0 {
        if setconf {
            append_str(&mut out, "persistent_keepalive = ");
        } else {
            append_str(&mut out, "PersistentKeepalive = ");
        }
        push_dec(&mut out, p.keepalive_secs as u64);
        append_str(&mut out, "\n");
    }
    out
}

fn allowed_line(p: &Peer, setconf: bool) -> (r: Vec<char>)
    ensures
        r@ == if setconf {
            "allowed_ips = "@ + join(str_views(p.allowed_ips@), ", "@) + "\n"@
        } else if p.allowed_ips@.len() > 0 {
            "AllowedIPs = "@ + join(str_views(p.allowed_ips@), ", "@) + "\n"@
        } else {
            Seq::empty()
        },
{
    let mut out: Vec<char> = Vec::new();
    if setconf {
        append_str(&mut out, "allowed_ips = ");
        let j = join_strings(&p.allowed_ips, ", ");
        append_chars(&mut out, &j);
        append_str(&mut out, "\n");
    } else if p.allowed_ips.len() > 0 {
        append_str(&mut out, "AllowedIPs = ");
        let j = join_strings(&p.allowed_ips, ", ");
        append_chars(&mut out, &j);
        append_str(&mut out, "\n");
    }
    out
}

fn peer_section(p: &Peer, setconf: bool) -> (r: Vec<char>)
    ensures
        r@ == if setconf {
            setconf_peer(*p)
        } else {
            wg_quick_peer(*p)
        },
{
    let mut head: Vec<char> = Vec::new();
    if setconf {
        append_str(&mut head, "\n[Peer]\npublic_key = ");
    } else {
        append_str(&mut head, "\n[Peer]\n# name = ");
        append_str(&mut head, p.name.as_str());
        append_str(&mut head, "\nPublicKey = ");
    }
    append_str(&mut head, p.public_key.as_str());
    append_str(&mut head, "\n");
    let e = endpoint_line(p, setconf);
    let a = allowed_line(p, setconf);
    let k = keepalive_line(p, setconf);
    let ghost h0 = head@;
    append_chars(&mut head, &e);
    append_chars(&mut head, &a);
    append_chars(&mut head, &k);
    proof {
        if setconf {
            assert(h0 =~= "\n[Peer]\npublic_key = "@ + p.public_key@ + "\n"@);
            assert(head@ =~= setconf_peer(*p));
        } else {
            assert(h0 =~= "\n[Peer]\n# name = "@ + p.name@ + "\nPublicKey = "@ + p.public_key@
                + "\n"@);
            assert(head@ =~= wg_quick_peer(*p));
        }
    }
    head
}

fn push_sections(out: &mut Vec<char>, peers: &Vec<Peer>, setconf: bool)
    ensures
        final(out)@ == old(out)@ + sections(peers@, setconf),
{
    let ghost start = out@;
    let mut i: usize = 0;
    while i < peers.len()
        invariant
            i <= peers.len(),
            out@ == start + sections(peers@.take(i as int), setconf),
        decreases peers.len() - i,
    {
        assert(peers@.take(i + 1).drop_last() =~= peers@.take(i as int));
        assert(peers@.take(i + 1).last() == peers@[i as int]);
        let sec = peer_section(&peers[i], setconf);
        append_chars(out, &sec);
        i += 1;
    }
    assert(peers@.take(peers.len() as int) =~= peers@);
}

fn check_private_key(m: &Mesh) -> (r: Result<(), MeshError>)
    ensures
        match r {
            Ok(()) => private_key_ok(*m),
            Err(e) => !private_key_ok(*m) && e is BadKey,
        },
{
    let pk = chars_of(m.private_key.as_str());
    if pk.len() == 0 {
        return Err(MeshError::BadKey);
    }
    decode_key(m.private_key.as_str())?;
    Ok(())
}

/// `wg-quick` configuration for the mesh (the interface name comes from the
/// file name); refused when the private key is unusable.
pub fn render_wg_config(ifname: &str, mesh: &Mesh) -> (r: Result<String, MeshError>)
    ensures
        match r {
            Ok(t) => private_key_ok(*mesh) && t@ == wg_quick_text(*mesh),
            Err(e) => !private_key_ok(*mesh) && e is BadKey,
        },
{
    check_private_key(mesh)?;
    let mut out: Vec<char> = Vec::new();
    append_str(&mut out, "[Interface]\nPrivateKey = ");
    let t = trim_chars(&chars_of(mesh.private_key.as_str()));
    append_chars(&mut out, &t);
    append_str(&mut out, "\nListenPort = ");
    push_dec(&mut out, mesh.listen_port as u64);
    append_str(&mut out, "\n");
    push_sections(&mut out, &mesh.peers, false);
    let _ = ifname;
    Ok(string_from(&out))
}

/// `wg setconf` configuration for the mesh (no `[Interface]` header, no
/// listen-port or address line); refused when the private key is unusable.
pub fn render_wg_setconf(mesh: &Mesh) -> (r: Result<String, MeshError>)
    ensures
        match r {
            Ok(t) => private_key_ok(*mesh) && t@ == setconf_text(*mesh),
            Err(e) => !private_key_ok(*mesh) && e is BadKey,
        },
{
    check_private_key(mesh)?;
    let mut out: Vec<char> = Vec::new();
    append_str(&mut out, "private_key = ");
    let t = trim_chars(&chars_of(mesh.private_key.as_str()));
    append_chars(&mut out, &t);
    append_str(&mut out, "\n");
    push_sections(&mut out, &mesh.peers, true);
    Ok(string_from(&out))
}

// ---------------------------------------------------------------------------
// Validation
// ---------------------------------------------------------------------------

/// `ip/bits` with a parseable address and an 8-bit prefix length.
pub open spec fn cidr_ok(a: Seq<char>) -> bool {
    match split_once_spec(a, '/') {
        Some(p) => ip_parse(p.0) is Some && parse_uint_spec(p.1, 255) is Some,
        None => false,
    }
}

/// An endpoint without a `:` that is not a port number either.
pub open spec fn endpoint_bad(ep: Seq<char>) -> bool {
    !ep.contains(':') && parse_uint_spec(ep, 65535) is None
}

pub open spec fn allowed_problems(name: Seq<char>, allowed: Seq<Seq<char>>) -> Seq<Seq<char>>
    decreases allowed.len(),
{
    if allowed.len() == 0 {
        Seq::empty()
    } else {
        let before = allowed_problems(name, allowed.drop_last());
        if cidr_ok(allowed.last()) {
            before
        } else {
            before.push(
                "peer '"@ + name + "': allowed_ips entry '"@ + allowed.last()
                    + "' is not a valid CIDR"@,
            )
        }
    }
}

/// Whether an earlier peer has the key `k`.
pub open spec fn key_seen(prev: Seq<Peer>, k: Seq<char>) -> bool {
    exists|j: int| 0 <= j < prev.len() && (#[trigger] prev[j]).public_key@ == k
}

pub open spec fn peer_problems(p: Peer, seen: bool) -> Seq<Seq<char>> {
    let name = p.name@;
    (if decode_key_spec(p.public_key@) is None {
        seq!["peer '"@ + name + "': public_key is invalid"@]
    } else {
        Seq::empty()
    }) + (if seen {
        seq!["peer '"@ + name + "': duplicate public_key"@]
    } else {
        Seq::empty()
    }) + allowed_problems(name, str_views(p.allowed_ips@)) + match p.endpoint {
        Some(ep) => if endpoint_bad(ep@) {
            seq!["peer '"@ + name + "': endpoint '"@ + ep@ + "' must be host:port"@]
        } else {
            Seq::empty()
        },
        None => Seq::empty(),
    }
}

pub open spec fn peers_problems(peers: Seq<Peer>) -> Seq<Seq<char>>
    decreases peers.len(),
{
    if peers.len() == 0 {
        Seq::empty()
    } else {
        peers_problems(peers.drop_last()) + peer_problems(
            peers.last(),
            key_seen(peers.drop_last(), peers.last().public_key@),
        )
    }
}

/// Every problem of a mesh configuration, in order.
pub open spec fn mesh_problems(m: Mesh) -> Seq<Seq<char>> {
    (if m.private_key@.len() == 0 {
        seq!["private_key is empty"@]
    } else if decode_key_spec(m.private_key@) is None {
        seq!["private_key is not valid base64 key material"@]
    } else {
        Seq::empty()
    }) + peers_problems(m.peers@)
}

fn cidr_ok_exec(a: &String) -> (r: bool)
    ensures
        r == cidr_ok(a@),
{
    let c = chars_of(a.as_str());
    match split_once(&c, '/') {
        Some(p) => parse_ip_chars(&p.0).is_some() && parse_uint(&p.1, 255).is_some(),
        None => false,
    }
}

fn endpoint_bad_exec(ep: &String) -> (r: bool)
    ensures
        r == endpoint_bad(ep@),
{
    let c = chars_of(ep.as_str());
    match find_char(&c, ':') {
        Some(i) => {
            proof {
                crate::text::lemma_count_until_bound(c@, ':');
            }
            assert(c@[i as int] == ':');
            false
        },
        None => {
            proof {
                crate::text::lemma_count_until_bound(c@, ':');
            }
            assert(!c@.contains(':'));
            parse_uint(&c, 65535).is_none()
        },
    }
}

fn push_text(out: &mut Vec<String>, t: Vec<char>)
    ensures
        str_views(final(out)@) == str_views(old(out)@).push(t@),
{
    let ghost before = str_views(out@);
    out.push(string_from(&t));
    assert(str_views(out@) =~= before.push(t@));
}

fn peer_problems_exec(out: &mut Vec<String>, p: &Peer, seen: bool)
    ensures
        str_views(final(out)@) == str_views(old(out)@) + peer_problems(*p, seen),
{
    let ghost start = str_views(out@);
    let name = p.name.as_str();
    if decode_key(p.public_key.as_str()).is_err() {
        let mut t: Vec<char> = Vec::new();
        append_str(&mut t, "peer '");
        append_str(&mut t, name);
        append_str(&mut t, "': public_key is invalid");
        push_text(out, t);
    }
    let ghost s1 = str_views(out@);
    if seen {
        let mut t: Vec<char> = Vec::new();
        append_str(&mut t, "peer '");
        append_str(&mut t, name);
        append_str(&mut t, "': duplicate public_key");
        push_text(out, t);
    }
    let ghost s2 = str_views(out@);
    let ghost av = str_views(p.allowed_ips@);
    let mut i: usize = 0;
    while i < p.allowed_ips.len()
        invariant
            i <= p.allowed_ips.len(),
            av == str_views(p.allowed_ips@),
            name@ == p.name@,
            str_views(out@) == s2 + allowed_problems(p.name@, av.take(i as int)),
        decreases p.allowed_ips.len() - i,
    {
        assert(av.take(i + 1).drop_last() =~= av.take(i as int));
        assert(av.take(i + 1).last() == p.allowed_ips@[i as int]@);
        if !cidr_ok_exec(&p.allowed_ips[i]) {
            let mut t: Vec<char> = Vec::new();
            append_str(&mut t, "peer '");
            append_str(&mut t, name);
            append_str(&mut t, "': allowed_ips entry '");
            append_str(&mut t, p.allowed_ips[i].as_str());
            append_str(&mut t, "' is not a valid CIDR");
            push_text(out, t);
        }
        i += 1;
    }
    assert(av.take(p.allowed_ips.len() as int) =~= av);
    let ghost s3 = str_views(out@);
    match &p.endpoint {
        Some(ep) => {
            if endpoint_bad_exec(ep) {
                let mut t: Vec<char> = Vec::new();
                append_str(&mut t, "peer '");
                append_str(&mut t, name);
                append_str(&mut t, "': endpoint '");
                append_str(&mut t, ep.as_str());
                append_str(&mut t, "' must be host:port");
                push_text(out, t);
            }
        },
        None => {},
    }
    assert(str_views(out@) =~= start + peer_problems(*p, seen));
}

/// All problems of a mesh configuration (`Ok` when there are none).
pub fn validate(mesh: &Mesh) -> (r: Result<(), Vec<String>>)
    ensures
        match r {
            Ok(()) => mesh_problems(*mesh).len() == 0,
            Err(v) => mesh_problems(*mesh).len() > 0 && str_views(v@) == mesh_problems(*mesh),
        },
{
    let mut problems: Vec<String> = Vec::new();
    let pk = chars_of(mesh.private_key.as_str());
    if pk.len() == 0 {
        push_text(&mut problems, chars_of("private_key is empty"));
    } else if decode_key(mesh.private_key.as_str()).is_err() {
        push_text(&mut problems, chars_of("private_key is not valid base64 key material"));
    }
    let ghost s0 = str_views(problems@);
    assert(s0 =~= if mesh.private_key@.len() == 0 {
        seq!["private_key is empty"@]
    } else if decode_key_spec(mesh.private_key@) is None {
        seq!["private_key is not valid base64 key material"@]
    } else {
        Seq::empty()
    });
    let mut seen: Vec<String> = Vec::new();
    let mut i: usize = 0;
    while i < mesh.peers.len()
        invariant
            i <= mesh.peers.len(),
            str_views(problems@) == s0 + peers_problems(mesh.peers@.take(i as int)),
            seen@.len() == i,
            forall|k: Seq<char>| str_views(seen@).contains(k) == key_seen(mesh.peers@.take(i as int), k),
        decreases mesh.peers.len() - i,
    {
        let ghost pre = mesh.peers@.take(i as int);
        assert(mesh.peers@.take(i + 1).drop_last() =~= pre);
        assert(mesh.peers@.take(i + 1).last() == mesh.peers@[i as int]);
        let p = &mesh.peers[i];
        let dup = crate::controller::contains_text(&seen, p.public_key.as_str());
        assert(crate::controller::views(seen@) == str_views(seen@));
        let ghost before = str_views(problems@);
        peer_problems_exec(&mut problems, p, dup);
        assert(str_views(problems@) =~= s0 + peers_problems(mesh.peers@.take(i + 1)));
        let ghost sv = str_views(seen@);
        seen.push(p.public_key.clone());
        assert(str_views(seen@) =~= sv.push(p.public_key@));
        assert(str_views(seen@)[i as int] == p.public_key@);
        assert(mesh.peers@.take(i + 1)[i as int] == *p);
        assert forall|k: Seq<char>| str_views(seen@).contains(k) == key_seen(mesh.peers@.take(i + 1), k) by {
            let nxt = mesh.peers@.take(i + 1);
            let now = str_views(seen@);
            if key_seen(nxt, k) {
                let j = choose|j: int| 0 <= j < nxt.len() && (#[trigger] nxt[j]).public_key@ == k;
                if j < i {
                    assert(pre[j] == nxt[j]);
                    assert(key_seen(pre, k));
                    assert(sv.contains(k));
                    let m = choose|m: int| 0 <= m < sv.len() && sv[m] == k;
                    assert(now[m] == k);
                } else {
                    assert(now[i as int] == k);
                }
                assert(now.contains(k));
            }
            if now.contains(k) {
                let m = choose|m: int| 0 <= m < now.len() && now[m] == k;
                if m < i {
                    assert(sv[m] == k);
                    assert(sv.contains(k));
                    assert(key_seen(pre, k));
                    let j = choose|j: int| 0 <= j < pre.len() && (#[trigger] pre[j]).public_key@ == k;
                    assert(nxt[j] == pre[j]);
                    assert(nxt[j].public_key@ == k);
                } else {
                    assert(nxt[i as int].public_key@ == k);
                }
                assert(key_seen(nxt, k));
            }
        }
        i += 1;
    }
    assert(mesh.peers@.take(mesh.peers.len() as int) =~= mesh.peers@);
    if problems.len() == 0 {
        Ok(())
    } else {
        Err(problems)
    }
}

// ---------------------------------------------------------------------------
// Live status
// ---------------------------------------------------------------------------

/// One peer of `wg show all dump`.
#[derive(Debug, Clone, Default)]
pub struct WgPeerStatus {
    pub interface: String,
    pub public_key: String,
    pub endpoint: Option<String>,
    pub allowed_ips: Vec<String>,
    /// Seconds since the latest handshake; `None`: never.
    pub latest_handshake_secs_ago: Option<u64>,
    pub rx_bytes: u64,
    pub tx_bytes: u64,
}

/// What a status row says, its strings taken by their text.
pub open spec fn status_view(p: WgPeerStatus) -> (
    Seq<char>,
    Seq<char>,
    Option<Seq<char>>,
    Seq<Seq<char>>,
    Option<u64>,
    u64,
    u64,
) {
    (
        p.interface@,
        p.public_key@,
        match p.endpoint {
            Some(e) => Some(e@),
            None => None,
        },
        str_views(p.allowed_ips@),
        p.latest_handshake_secs_ago,
        p.rx_bytes,
        p.tx_bytes,
    )
}

/// A line without its trailing carriage return.
pub open spec fn strip_cr(l: Seq<char>) -> Seq<char> {
    if l.len() > 0 && l.last() == '\r' {
        l.drop_last()
    } else {
        l
    }
}

/// `str::lines`: pieces between `\n`, each terminated one without a trailing
/// `\r`; a final empty piece is no line.
pub open spec fn text_lines(s: Seq<char>) -> Seq<Seq<char>> {
    let p = split_seq(s, seq!['\n']);
    let body = p.drop_last().map_values(|l: Seq<char>| strip_cr(l));
    if p.last().len() == 0 {
        body
    } else {
        body.push(p.last())
    }
}

/// An unsigned 64-bit number, or 0 when the text is not one.
pub open spec fn u64_or_zero(s: Seq<char>) -> u64 {
    match parse_uint_spec(s, u64::MAX as nat) {
        Some(v) => v as u64,
        None => 0,
    }
}

/// The status of one dump row (`None`: too few columns or no key).
pub open spec fn dump_row(line: Seq<char>, now: u64) -> Option<
    (Seq<char>, Seq<char>, Option<Seq<char>>, Seq<Seq<char>>, Option<u64>, u64, u64),
> {
    let cols = split_seq(line, seq!['\t']);
    if cols.len() < 8 || cols[1].len() == 0 {
        None
    } else {
        let handshake = match parse_uint_spec(cols[5], u64::MAX as nat) {
            Some(t) => if t > 0 {
                Some(if now >= t {
                    (now - t) as u64
                } else {
                    0u64
                })
            } else {
                None
            },
            None => None,
        };
        Some(
            (
                cols[0],
                cols[1],
                if cols[3].len() > 0 {
                    Some(cols[3])
                } else {
                    None
                },
                split_seq(cols[4], seq![',']),
                handshake,
                u64_or_zero(cols[6]),
                u64_or_zero(cols[7]),
            ),
        )
    }
}

pub open spec fn dump_rows(lines: Seq<Seq<char>>, now: u64) -> Seq<
    (Seq<char>, Seq<char>, Option<Seq<char>>, Seq<Seq<char>>, Option<u64>, u64, u64),
>
    decreases lines.len(),
{
    if lines.len() == 0 {
        Seq::empty()
    } else {
        let before = dump_rows(lines.drop_last(), now);
        match dump_row(lines.last(), now) {
            Some(r) => before.push(r),
            None => before,
        }
    }
}

/// The peers of a dump, its first (interface) line skipped, handshake ages
/// taken at `now`.
pub open spec fn dump_peers(dump: Seq<char>, now: u64) -> Seq<
    (Seq<char>, Seq<char>, Option<Seq<char>>, Seq<Seq<char>>, Option<u64>, u64, u64),
> {
    let l = text_lines(dump);
    if l.len() == 0 {
        Seq::empty()
    } else {
        dump_rows(l.drop_first(), now)
    }
}

pub proof fn lemma_map_push<A, B>(s: Seq<A>, x: A, f: spec_fn(A) -> B)
    ensures
        s.push(x).map_values(f) == s.map_values(f).push(f(x)),
{
    assert(s.push(x).map_values(f) =~= s.map_values(f).push(f(x)));
}

pub fn text_lines_exec(s: &str) -> (r: Vec<Vec<char>>)
    ensures
        r@.map_values(|v: Vec<char>| v@) == text_lines(s@),
{
    let c = chars_of(s);
    let mut nl: Vec<char> = Vec::new();
    nl.push('\n');
    assert(nl@ =~= seq!['\n']);
    let pieces = split_by(&c, &nl);
    let ghost pv = pieces@.map_values(|v: Vec<char>| v@);
    proof {
        crate::proxy::lemma_split_nonempty(c@, nl@);
    }
    let n = pieces.len();
    let mut out: Vec<Vec<char>> = Vec::new();
    let mut i: usize = 0;
    while i + 1 < n
        invariant
            n == pieces.len(),
            n >= 1,
            i + 1 <= n,
            pv == pieces@.map_values(|v: Vec<char>| v@),
            out@.map_values(|v: Vec<char>| v@) == pv.take(i as int).map_values(|l: Seq<char>| strip_cr(l)),
        decreases n - i,
    {
        let p = &pieces[i];
        let ghost before = out@.map_values(|v: Vec<char>| v@);
        assert(pv[i as int] == p@);
        let line = if p.len() > 0 && p[p.len() - 1] == '\r' {
            slice_chars(p, 0, p.len() - 1)
        } else {
            slice_chars(p, 0, p.len())
        };
        assert(line@ == strip_cr(p@));
        let ghost old_v = out@;
        out.push(line);
        proof {
            lemma_map_push(old_v, line, |v: Vec<char>| v@);
            assert(pv.take(i + 1) =~= pv.take(i as int).push(pv[i as int]));
            lemma_map_push(pv.take(i as int), pv[i as int], |l: Seq<char>| strip_cr(l));
        }
        i += 1;
    }
    assert(pv.take((n - 1) as int) =~= pv.drop_last());
    assert(pv == split_seq(s@, seq!['\n']));
    let last = &pieces[n - 1];
    assert(pv.last() == last@);
    let ghost body = pv.drop_last().map_values(|l: Seq<char>| strip_cr(l));
    assert(out@.map_values(|v: Vec<char>| v@) == body);
    if last.len() > 0 {
        let ghost old_v = out@;
        let copy = slice_chars(last, 0, last.len());
        assert(copy@ =~= last@);
        out.push(copy);
        proof {
            lemma_map_push(old_v, copy, |v: Vec<char>| v@);
        }
        assert(out@.map_values(|v: Vec<char>| v@) == body.push(pv.last()));
    }
    out
}

/// The status of the peers listed by `wg show all dump`, handshake ages taken
/// at `now` (seconds since the epoch).
pub fn parse_wg_dump_at(dump: &str, now: u64) -> (r: Vec<WgPeerStatus>)
    ensures
        r@.map_values(|p: WgPeerStatus| status_view(p)) == dump_peers(dump@, now),
{
    let lines = text_lines_exec(dump);
    let ghost lv = lines@.map_values(|v: Vec<char>| v@);
    let mut peers: Vec<WgPeerStatus> = Vec::new();
    if lines.len() == 0 {
        assert(peers@.map_values(|p: WgPeerStatus| status_view(p)) =~= Seq::<
            (Seq<char>, Seq<char>, Option<Seq<char>>, Seq<Seq<char>>, Option<u64>, u64, u64),
        >::empty());
        return peers;
    }
    let mut tab: Vec<char> = Vec::new();
    tab.push('\t');
    let mut comma: Vec<char> = Vec::new();
    comma.push(',');
    assert(tab@ =~= seq!['\t']);
    assert(comma@ =~= seq![',']);
    let mut i: usize = 1;
    assert(lv.subrange(1, 1) =~= Seq::<Seq<char>>::empty());
    while i < lines.len()
        invariant
            1 <= i <= lines.len(),
            lv == lines@.map_values(|v: Vec<char>| v@),
            tab@ == seq!['\t'],
            comma@ == seq![','],
            peers@.map_values(|p: WgPeerStatus| status_view(p)) == dump_rows(lv.subrange(1, i as int), now),
        decreases lines.len() - i,
    {
        assert(lv.subrange(1, i + 1).drop_last() =~= lv.subrange(1, i as int));
        assert(lv.subrange(1, i + 1).last() == lines@[i as int]@);
        let cols = split_by(&lines[i], &tab);
        let ghost cv = cols@.map_values(|v: Vec<char>| v@);
        if cols.len() >= 8 && cols[1].len() > 0 {
            assert(cv[0] == cols@[0]@ && cv[1] == cols@[1]@ && cv[3] == cols@[3]@ && cv[4] == cols@[4]@);
            assert(cv[5] == cols@[5]@ && cv[6] == cols@[6]@ && cv[7] == cols@[7]@);
            let handshake = match parse_uint(&cols[5], u64::MAX) {
                Some(t) => if t > 0 {
                    Some(if now >= t {
                        now - t
                    } else {
                        0
                    })
                } else {
                    None
                },
                None => None,
            };
            let allowed_parts = split_by(&cols[4], &comma);
            let mut allowed: Vec<String> = Vec::new();
            let mut k: usize = 0;
            while k < allowed_parts.len()
                invariant
                    k <= allowed_parts.len(),
                    str_views(allowed@) == allowed_parts@.map_values(|v: Vec<char>| v@).take(k as int),
                decreases allowed_parts.len() - k,
            {
                let ghost old_a = allowed@;
                let part = string_from(&allowed_parts[k]);
                allowed.push(part);
                proof {
                    lemma_map_push(old_a, part, |x: String| x@);
                    let apv = allowed_parts@.map_values(|v: Vec<char>| v@);
                    assert(apv.take(k + 1) =~= apv.take(k as int).push(apv[k as int]));
                }
                k += 1;
            }
            assert(allowed_parts@.map_values(|v: Vec<char>| v@).take(allowed_parts.len() as int)
                =~= allowed_parts@.map_values(|v: Vec<char>| v@));
            let rx = match parse_uint(&cols[6], u64::MAX) {
                Some(v) => v,
                None => 0,
            };
            let tx = match parse_uint(&cols[7], u64::MAX) {
                Some(v) => v,
                None => 0,
            };
            let endpoint = if cols[3].len() > 0 {
                Some(string_from(&cols[3]))
            } else {
                None
            };
            let st = WgPeerStatus {
                interface: string_from(&cols[0]),
                public_key: string_from(&cols[1]),
                endpoint,
                allowed_ips: allowed,
                latest_handshake_secs_ago: handshake,
                rx_bytes: rx,
                tx_bytes: tx,
            };
            let ghost before = peers@.map_values(|p: WgPeerStatus| status_view(p));
            assert(dump_row(lines@[i as int]@, now) == Some(status_view(st)));
            peers.push(st);
            assert(peers@.map_values(|p: WgPeerStatus| status_view(p)) =~= before.push(status_view(st)));
        }
        i += 1;
    }
    assert(lv.subrange(1, lines.len() as int) =~= lv.drop_first());
    peers
}

/// The status of the peers listed by `wg show all dump`, handshake ages taken
/// now by the system clock.
pub fn parse_wg_dump(dump: &str) -> (r: Vec<WgPeerStatus>)
    ensures
        exists|now: u64| r@.map_values(|p: WgPeerStatus| status_view(p)) == dump_peers(dump@, now),
{
    let now = crate::codec::now_secs();
    parse_wg_dump_at(dump, now)
}


// ---------------------------------------------------------------------------
// `wg set` arguments
// ---------------------------------------------------------------------------

/// Arguments of `wg` that add or update one peer: its key, then its
/// endpoint, allowed IPs (comma separated) and keepalive, each when set.
pub open spec fn set_peer_args(p: Peer) -> Seq<Seq<char>> {
    let base = seq!["set"@, "sdwanlite0"@, "peer"@, p.public_key@];
    let with_ep = match p.endpoint {
        Some(e) => base + seq!["endpoint"@, e@],
        None => base,
    };
    let with_ips = if p.allowed_ips@.len() > 0 {
        with_ep + seq!["allowed-ips"@, join(str_views(p.allowed_ips@), ","@)]
    } else {
        with_ep
    };
    if p.keepalive_secs > 0 {
        with_ips + seq!["persistent-keepalive"@, dec(p.keepalive_secs as nat)]
    } else {
        with_ips
    }
}

pub fn wg_set_peer_args(p: &Peer) -> (r: Vec<String>)
    ensures
        str_views(r@) == set_peer_args(*p),
{
    let mut v: Vec<String> = Vec::new();
    v.push(String::from_str("set"));
    v.push(String::from_str("sdwanlite0"));
    v.push(String::from_str("peer"));
    v.push(p.public_key.clone());
    let ghost base = seq!["set"@, "sdwanlite0"@, "peer"@, p.public_key@];
    assert(str_views(v@) =~= base);
    match &p.endpoint {
        Some(e) => {
            v.push(String::from_str("endpoint"));
            v.push(e.clone());
        },
        None => {},
    }
    let ghost with_ep = if p.endpoint is Some {
        base + seq!["endpoint"@, p.endpoint->0@]
    } else {
        base
    };
    assert(str_views(v@) =~= with_ep);
    if p.allowed_ips.len() > 0 {
        v.push(String::from_str("allowed-ips"));
        v.push(string_from(&join_strings(&p.allowed_ips, ",")));
    }
    let ghost with_ips = if p.allowed_ips@.len() > 0 {
        with_ep + seq!["allowed-ips"@, join(str_views(p.allowed_ips@), ","@)]
    } else {
        with_ep
    };
    assert(str_views(v@) =~= with_ips);
    if p.keepalive_secs > 0 {
        v.push(String::from_str("persistent-keepalive"));
        v.push(string_from(&crate::text::dec_chars(p.keepalive_secs as u64)));
    }
    assert(str_views(v@) =~= set_peer_args(*p));
    v
}

/// Arguments of `wg` that remove one peer.
pub fn wg_remove_peer_args(public_key: &str) -> (r: Vec<String>)
    ensures
        str_views(r@) == seq!["set"@, "sdwanlite0"@, "peer"@, public_key@, "remove"@],
{
    let mut v: Vec<String> = Vec::new();
    v.push(String::from_str("set"));
    v.push(String::from_str("sdwanlite0"));
    v.push(String::from_str("peer"));
    v.push(String::from_str(public_key));
    v.push(String::from_str("remove"));
    assert(str_views(v@) =~= seq!["set"@, "sdwanlite0"@, "peer"@, public_key@, "remove"@]);
    v
}

/// A failed `wg` run, by its trimmed standard error.
pub fn command_failed(stderr: &str) -> (r: MeshError)
    ensures
        r matches MeshError::CommandFailed(m) && m@ == trim_spec(stderr@),
{
    MeshError::CommandFailed(string_from(&trim_chars(&chars_of(stderr))))
}

} // verus!
