//! The H3 diagnostic probe's plan: the matrix of SNI, header recipe, ECH,
//! datagram mode, authority, path and protocol it walks one edge through,
//! and the candidate list a fingerprint scan expands its target spec into.
use vstd::prelude::*;

use crate::consts::{CONNECT_SNI, L4_CONNECT_SNI};
use crate::error::{AetherError, Result};
use crate::ip::{spec_parse_ipv4, spec_parse_socket_addr, SockAddr};
use crate::masque::{H3DgramMode, H3HeaderMode};
use crate::text::{chars_of, first_index_char, owned, split_on, string_of, trim};

verus! {

/// How long one probe combination may take, in milliseconds.
pub const PROBE_TIMEOUT_MS: u64 = 8000;
/// Fingerprint probes in flight at once.
pub const FP_CONCURRENCY: usize = 6;
/// How long one fingerprint probe may take, in milliseconds.
pub const FP_TIMEOUT_MS: u64 = 3000;
/// Hosts probed per /24 by a fingerprint scan: MASQUE addresses cluster at
/// low host numbers, and a full sweep can bring the TLS stack down.
pub const FP_MAX_HOSTS_PER_24: u16 = 64;

/// One point of the probe matrix.
pub struct Combo {
    pub sni: &'static str,
    pub headers: H3HeaderMode,
    pub ech_label: &'static str,
    pub ech: Option<Vec<u8>>,
    pub dgram: H3DgramMode,
    pub authority: String,
    pub path: String,
    /// Overrides the CONNECT-IP protocol token for this combination.
    pub proto: Option<&'static str>,
}

pub struct ComboView {
    pub sni: Seq<char>,
    pub headers: H3HeaderMode,
    pub ech_label: Seq<char>,
    pub ech: Option<Seq<u8>>,
    pub dgram: H3DgramMode,
    pub authority: Seq<char>,
    pub path: Seq<char>,
    pub proto: Option<Seq<char>>,
}

pub open spec fn bytes_view(o: Option<Vec<u8>>) -> Option<Seq<u8>> {
    match o {
        Some(v) => Some(v@),
        None => None,
    }
}

impl View for Combo {
    type V = ComboView;

    open spec fn view(&self) -> ComboView {
        ComboView {
            sni: self.sni@,
            headers: self.headers,
            ech_label: self.ech_label@,
            ech: bytes_view(self.ech),
            dgram: self.dgram,
            authority: self.authority@,
            path: self.path@,
            proto: match self.proto {
                Some(p) => Some(p@),
                None => None,
            },
        }
    }
}

pub open spec fn combos_view(v: Seq<Combo>) -> Seq<ComboView> {
    v.map_values(|c: Combo| c@)
}

pub open spec fn combo(
    sni: Seq<char>,
    headers: H3HeaderMode,
    ech_label: Seq<char>,
    ech: Option<Seq<u8>>,
    dgram: H3DgramMode,
    authority: Seq<char>,
    path: Seq<char>,
) -> ComboView {
    ComboView { sni, headers, ech_label, ech, dgram, authority, path, proto: None }
}

/// One SNI under each header recipe, with and without ECH.
pub open spec fn sni_sweep(sni: Seq<char>, ech: Option<Seq<u8>>, authority: Seq<char>, path: Seq<char>) -> Seq<ComboView> {
    seq![
        combo(sni, H3HeaderMode::Cf, "ech"@, ech, H3DgramMode::Auto, authority, path),
        combo(sni, H3HeaderMode::Cf, "no-ech"@, None, H3DgramMode::Auto, authority, path),
        combo(sni, H3HeaderMode::Standard, "ech"@, ech, H3DgramMode::Auto, authority, path),
        combo(sni, H3HeaderMode::Standard, "no-ech"@, None, H3DgramMode::Auto, authority, path),
        combo(sni, H3HeaderMode::Both, "ech"@, ech, H3DgramMode::Auto, authority, path),
        combo(sni, H3HeaderMode::Both, "no-ech"@, None, H3DgramMode::Auto, authority, path),
    ]
}

/// The diagnostic matrix: a control with a neutral SNI first, both MASQUE
/// SNIs under every header recipe with and without ECH, then the two
/// explicit datagram modes and the SNI host as `:authority`, each against
/// the best-guess recipe.
pub open spec fn spec_default_matrix(ech: Option<Seq<u8>>, authority: Seq<char>, path: Seq<char>) -> Seq<ComboView> {
    seq![combo("cloudflare.com"@, H3HeaderMode::Cf, "control-no-ech"@, None, H3DgramMode::Auto, authority, path)]
        + sni_sweep(CONNECT_SNI@, ech, authority, path)
        + sni_sweep(L4_CONNECT_SNI@, ech, authority, path)
        + seq![
            combo(CONNECT_SNI@, H3HeaderMode::Cf, "ech"@, ech, H3DgramMode::Quic, authority, path),
            combo(CONNECT_SNI@, H3HeaderMode::Cf, "ech"@, ech, H3DgramMode::Capsule, authority, path),
            combo(CONNECT_SNI@, H3HeaderMode::Cf, "ech"@, ech, H3DgramMode::Auto, CONNECT_SNI@, path),
        ]
}

fn copy_ech(e: &Option<Vec<u8>>) -> (r: Option<Vec<u8>>)
    ensures
        bytes_view(r) == bytes_view(*e),
{
    match e {
        Some(v) => Some(crate::bytes::copy_range(v.as_slice(), 0, v.len())),
        None => None,
    }
}

fn push_combo(
    out: &mut Vec<Combo>,
    sni: &'static str,
    headers: H3HeaderMode,
    ech_label: &'static str,
    ech: Option<Vec<u8>>,
    dgram: H3DgramMode,
    authority: &str,
    path: &str,
)
    ensures
        combos_view(final(out)@) == combos_view(old(out)@).push(
            combo(sni@, headers, ech_label@, bytes_view(ech), dgram, authority@, path@),
        ),
{
    let ghost before = old(out)@;
    out.push(Combo { sni, headers, ech_label, ech, dgram, authority: owned(authority), path: owned(path), proto: None });
    assert(combos_view(out@) =~= combos_view(before).push(
        combo(sni@, headers, ech_label@, bytes_view(ech), dgram, authority@, path@),
    ));
}

fn push_sweep(out: &mut Vec<Combo>, sni: &'static str, ech: &Option<Vec<u8>>, authority: &str, path: &str)
    ensures
        combos_view(final(out)@) == combos_view(old(out)@) + sni_sweep(sni@, bytes_view(*ech), authority@, path@),
{
    let ghost before = combos_view(old(out)@);
    push_combo(out, sni, H3HeaderMode::Cf, "ech", copy_ech(ech), H3DgramMode::Auto, authority, path);
    push_combo(out, sni, H3HeaderMode::Cf, "no-ech", None, H3DgramMode::Auto, authority, path);
    push_combo(out, sni, H3HeaderMode::Standard, "ech", copy_ech(ech), H3DgramMode::Auto, authority, path);
    push_combo(out, sni, H3HeaderMode::Standard, "no-ech", None, H3DgramMode::Auto, authority, path);
    push_combo(out, sni, H3HeaderMode::Both, "ech", copy_ech(ech), H3DgramMode::Auto, authority, path);
    push_combo(out, sni, H3HeaderMode::Both, "no-ech", None, H3DgramMode::Auto, authority, path);
    assert(combos_view(out@) =~= before + sni_sweep(sni@, bytes_view(*ech), authority@, path@));
}

/// The diagnostic matrix for one edge.
pub fn build_default_matrix(ech: &Option<Vec<u8>>, base_authority: &str, base_path: &str) -> (combos: Vec<Combo>)
    ensures
        combos_view(combos@) == spec_default_matrix(bytes_view(*ech), base_authority@, base_path@),
{
    let mut combos: Vec<Combo> = Vec::new();
    push_combo(&mut combos, "cloudflare.com", H3HeaderMode::Cf, "control-no-ech", None, H3DgramMode::Auto, base_authority, base_path);
    push_sweep(&mut combos, CONNECT_SNI, ech, base_authority, base_path);
    push_sweep(&mut combos, L4_CONNECT_SNI, ech, base_authority, base_path);
    push_combo(&mut combos, CONNECT_SNI, H3HeaderMode::Cf, "ech", copy_ech(ech), H3DgramMode::Quic, base_authority, base_path);
    push_combo(&mut combos, CONNECT_SNI, H3HeaderMode::Cf, "ech", copy_ech(ech), H3DgramMode::Capsule, base_authority, base_path);
    push_combo(&mut combos, CONNECT_SNI, H3HeaderMode::Cf, "ech", copy_ech(ech), H3DgramMode::Auto, CONNECT_SNI, base_path);
    assert(combos_view(combos@) =~= spec_default_matrix(bytes_view(*ech), base_authority@, base_path@));
    combos
}

/// The `:authority` values the request-shape sweep tries: the default
/// authority and the SNI host, each with and without `:443`.
pub open spec fn brute_authorities() -> Seq<Seq<char>> {
    seq!["cloudflareaccess.com"@ + ":443"@, "cloudflareaccess.com"@, CONNECT_SNI@ + ":443"@, CONNECT_SNI@]
}

pub open spec fn brute_paths() -> Seq<Seq<char>> {
    seq!["/"@, "/.well-known/masque/ip/*/*/"@]
}

pub open spec fn brute_protos() -> Seq<Seq<char>> {
    seq!["connect-ip"@, "cf-connect-ip"@]
}

/// The request-shape sweep: transport and TLS held fixed (MASQUE SNI, both
/// header sets, no ECH, automatic datagrams), every authority by every path
/// by every protocol token, in that nesting.
pub open spec fn spec_brute_matrix() -> Seq<ComboView> {
    Seq::new(16, |i: int| ComboView {
        sni: CONNECT_SNI@,
        headers: H3HeaderMode::Both,
        ech_label: "no-ech"@,
        ech: None,
        dgram: H3DgramMode::Auto,
        authority: brute_authorities()[i / 4],
        path: brute_paths()[(i / 2) % 2],
        proto: Some(brute_protos()[i % 2]),
    })
}

fn brute_authority(i: usize) -> (s: String)
    requires
        i < 4,
    ensures
        s@ == brute_authorities()[i as int],
{
    if i == 0 {
        crate::text::join2(crate::quic::default_authority(), ":443")
    } else if i == 1 {
        owned(crate::quic::default_authority())
    } else if i == 2 {
        crate::text::join2(CONNECT_SNI, ":443")
    } else {
        owned(CONNECT_SNI)
    }
}

fn brute_path(i: usize) -> (s: &'static str)
    requires
        i < 2,
    ensures
        s@ == brute_paths()[i as int],
{
    if i == 0 { "/" } else { "/.well-known/masque/ip/*/*/" }
}

fn brute_proto(i: usize) -> (s: &'static str)
    requires
        i < 2,
    ensures
        s@ == brute_protos()[i as int],
{
    if i == 0 { "connect-ip" } else { "cf-connect-ip" }
}

/// The request-shape sweep for cracking a 400 or 403.
pub fn build_brute_matrix(_ech: &Option<Vec<u8>>) -> (out: Vec<Combo>)
    ensures
        combos_view(out@) == spec_brute_matrix(),
{
    let mut out: Vec<Combo> = Vec::new();
    let mut a: usize = 0;
    while a < 4
        invariant
            a <= 4,
            out@.len() == 4 * a,
            forall|k: int| 0 <= k < out@.len() ==> #[trigger] out@[k]@ == spec_brute_matrix()[k],
        decreases 4 - a,
    {
        let mut p: usize = 0;
        while p < 2
            invariant
                a < 4,
                p <= 2,
                out@.len() == 4 * a + 2 * p,
                forall|k: int| 0 <= k < out@.len() ==> #[trigger] out@[k]@ == spec_brute_matrix()[k],
            decreases 2 - p,
        {
            let mut q: usize = 0;
            while q < 2
                invariant
                    a < 4,
                    p < 2,
                    q <= 2,
                    out@.len() == 4 * a + 2 * p + q,
                    forall|k: int| 0 <= k < out@.len() ==> #[trigger] out@[k]@ == spec_brute_matrix()[k],
                decreases 2 - q,
            {
                let k = 4 * a + 2 * p + q;
                let c = Combo {
                    sni: CONNECT_SNI,
                    headers: H3HeaderMode::Both,
                    ech_label: "no-ech",
                    ech: None,
                    dgram: H3DgramMode::Auto,
                    authority: brute_authority(a),
                    path: owned(brute_path(p)),
                    proto: Some(brute_proto(q)),
                };
                proof {
                    assert(k / 4 == a as int) by (nonlinear_arith)
                        requires k == 4 * a + 2 * p + q, p < 2, q < 2;
                    assert((k / 2) % 2 == p as int) by (nonlinear_arith)
                        requires k == 4 * a + 2 * p + q, p < 2, q < 2;
                    assert(k % 2 == q as int) by (nonlinear_arith)
                        requires k == 4 * a + 2 * p + q, q < 2;
                    assert(c@ == spec_brute_matrix()[k as int]);
                }
                out.push(c);
                q += 1;
            }
            p += 1;
        }
        a += 1;
    }
    assert(combos_view(out@) =~= spec_brute_matrix());
    out
}

/// The addresses a comma-separated list names, in order, each piece
/// trimmed; pieces that are not socket addresses are skipped.
pub open spec fn parsed_addrs(parts: Seq<Seq<char>>) -> Seq<SockAddr>
    decreases parts.len(),
{
    if parts.len() == 0 {
        seq![]
    } else {
        let r = parsed_addrs(parts.drop_last());
        match spec_parse_socket_addr(trim(parts.last())) {
            Some(a) => r.push(a),
            None => r,
        }
    }
}

/// Host `h` of the /24 that starts with octets `o`, on port 443.
pub open spec fn slash24_host(o: Seq<u8>, h: int) -> SockAddr {
    SockAddr { v6: false, ip: (o[0] * 16777216 + o[1] * 65536 + o[2] * 256 + h) as u128, port: 443, scope_id: 0 }
}

/// A fingerprint spec as candidates: `A.B.C.0/24` (split at its first `/`,
/// both sides trimmed) stands for hosts 1 to 64 of that /24 on 443;
/// anything else is read as a comma-separated list of socket addresses.
pub open spec fn spec_expand_targets(spec: Seq<char>) -> Seq<SockAddr> {
    let t = trim(spec);
    let k = first_index_char(t, '/');
    if k < t.len() && trim(t.skip(k + 1)) == "24"@ && spec_parse_ipv4(trim(t.take(k))) is Some {
        let o = spec_parse_ipv4(trim(t.take(k)))->0;
        Seq::new(FP_MAX_HOSTS_PER_24 as nat, |i: int| slash24_host(o, i + 1))
    } else {
        parsed_addrs(split_on(t, ','))
    }
}

fn slash24_hosts(o: [u8; 4]) -> (out: Vec<SockAddr>)
    ensures
        out@ == Seq::new(FP_MAX_HOSTS_PER_24 as nat, |i: int| slash24_host(o@, i + 1)),
{
    let base: u32 = crate::ip::ipv4_to_u32([o[0], o[1], o[2], 0]);
    let mut out: Vec<SockAddr> = Vec::new();
    let mut h: u16 = 1;
    while h <= FP_MAX_HOSTS_PER_24
        invariant
            1 <= h <= FP_MAX_HOSTS_PER_24 + 1,
            base == o@[0] * 16777216 + o@[1] * 65536 + o@[2] * 256,
            out@ == Seq::new((h - 1) as nat, |i: int| slash24_host(o@, i + 1)),
        decreases FP_MAX_HOSTS_PER_24 + 1 - h,
    {
        proof {
            assert(base + 64 <= u32::MAX) by (nonlinear_arith)
                requires base == o@[0] * 16777216 + o@[1] * 65536 + o@[2] * 256, o@[0] <= 255, o@[1] <= 255, o@[2] <= 255;
        }
        out.push(SockAddr { v6: false, ip: (base + h as u32) as u128, port: 443, scope_id: 0 });
        assert(out@ =~= Seq::new(h as nat, |i: int| slash24_host(o@, i + 1)));
        h += 1;
    }
    out
}

/// The candidates a fingerprint spec stands for.
pub fn expand_targets(spec: &str) -> (out: Vec<SockAddr>)
    ensures
        out@ == spec_expand_targets(spec@),
{
    let t = crate::text::trimmed(spec);
    let k = crate::text::find_char(&t, '/');
    proof {
        crate::text::lemma_first_index_char(t@, '/');
    }
    if k < t.len() {
        let mask = string_of(&crate::text::slice_chars(&t, k + 1, t.len()));
        assert(mask@ =~= t@.skip(k + 1));
        let mask_t = crate::text::trimmed(mask.as_str());
        if crate::text::eq_str(&mask_t, "24") {
            let base = string_of(&crate::text::slice_chars(&t, 0, k));
            assert(base@ =~= t@.take(k as int));
            let base_t = string_of(&crate::text::trimmed(base.as_str()));
            match crate::ip::parse_ipv4(base_t.as_str()) {
                Some(o) => return slash24_hosts(o),
                None => {},
            }
        }
    }
    let parts = crate::text::split_chars(&t, ',');
    let ghost ps = parts@.map_values(|x: Vec<char>| x@);
    let mut out: Vec<SockAddr> = Vec::new();
    let mut i: usize = 0;
    while i < parts.len()
        invariant
            i <= parts@.len(),
            ps == parts@.map_values(|x: Vec<char>| x@),
            out@ == parsed_addrs(ps.take(i as int)),
        decreases parts@.len() - i,
    {
        let piece = string_of(&parts[i]);
        let piece_t = string_of(&crate::text::trimmed(piece.as_str()));
        proof {
            assert(ps.take(i + 1).drop_last() =~= ps.take(i as int));
            assert(ps.take(i + 1).last() == parts@[i as int]@);
        }
        match crate::ip::parse_socket_addr(piece_t.as_str()) {
            Some(a) => out.push(a),
            None => {},
        }
        i += 1;
    }
    assert(ps.take(ps.len() as int) =~= ps);
    out
}

/// The refusal of a fingerprint spec that names no candidate.
pub open spec fn empty_spec_message(spec: Seq<char>) -> Seq<char> {
    "h3-fingerprint: target spec "@ + crate::text::debug_quoted(spec)
        + " expands to no candidates (want a comma-separated ip:port list or an A.B.C.0/24 base)"@
}

/// The candidates of a fingerprint scan, or its refusal when the spec
/// expands to none (a broken spec must not read as a clean negative).
pub fn fingerprint_targets(spec: &str) -> (r: Result<Vec<SockAddr>>)
    ensures
        spec_expand_targets(spec@).len() > 0 ==> (r matches Ok(v) && v@ == spec_expand_targets(spec@)),
        spec_expand_targets(spec@).len() == 0 ==> (r matches Err(AetherError::Other(m)) && m@ == empty_spec_message(spec@)),
{
    let targets = expand_targets(spec);
    if targets.len() == 0 {
        let q = crate::text::debug_str(spec);
        let a = crate::text::join2("h3-fingerprint: target spec ", q.as_str());
        return Err(AetherError::Other(crate::text::join2(
            a.as_str(),
            " expands to no candidates (want a comma-separated ip:port list or an A.B.C.0/24 base)",
        )));
    }
    Ok(targets)
}

/// The tunnel address a probe claims: the identity's IPv4 when it parses,
/// else 172.16.0.2.
pub fn probe_local_ipv4(identity_ipv4: &str) -> (o: [u8; 4])
    ensures
        o@ == (match spec_parse_ipv4(identity_ipv4@) {
            Some(p) => p,
            None => seq![172u8, 16u8, 0u8, 2u8],
        }),
{
    match crate::ip::parse_ipv4(identity_ipv4) {
        Some(o) => o,
        None => {
            let o = [172u8, 16, 0, 2];
            assert(o@ =~= seq![172u8, 16u8, 0u8, 2u8]);
            o
        },
    }
}

/// The fingerprint waves: `[start, end)` for the wave that starts at
/// `start`, at most `FP_CONCURRENCY` wide.
pub fn fingerprint_wave_end(start: usize, total: usize) -> (end: usize)
    requires
        start <= total,
    ensures
        end == (if start + FP_CONCURRENCY <= total { start + FP_CONCURRENCY } else { total as int }),
{
    if total - start >= FP_CONCURRENCY { start + FP_CONCURRENCY } else { total }
}

} // verus!
