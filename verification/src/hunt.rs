//! The decisions of one endpoint hunt: the first round over the cached
//! endpoints, which hit is the best so far, which hits are new, when a subnet
//! turns hot and is drilled, when the hunt stops early, which neighbours a
//! drill-down probes, and what the hunt answers and records in the endpoint
//! cache when it ends. The caller owns the clock, the probes and the
//! cancellation; it feeds each outcome in and does what it is told.
use vstd::prelude::*;

use crate::prober::{
    contains_candidate, spec_neighbor_hosts, v4_neighbor_hosts, CacheKind, Candidate, IpScan, ProbeConfig, ScanTally, Strategy,
    StrategyProfile, VerifyCost,
};
use crate::cache::Measurement;
use crate::error::{AetherError, Result};

verus! {

/// One verified endpoint and the round trip it took, in nanoseconds.
#[derive(Debug, Clone, Copy, PartialEq, Eq, Structural)]
pub struct ProbeResult {
    pub at: Candidate,
    pub rtt_ns: u64,
}

/// The faster of the best so far and a new hit; the earlier one on a tie.
pub open spec fn better(cur: Option<ProbeResult>, pr: ProbeResult) -> ProbeResult {
    match cur {
        Some(c) => if c.rtt_ns <= pr.rtt_ns { c } else { pr },
        None => pr,
    }
}

/// The subnet a hit belongs to: its /24 for IPv4, its /48 for IPv6.
pub open spec fn subnet_key(c: Candidate) -> u128 {
    if !c.v6 {
        (c.ip - c.ip % 256) as u128
    } else {
        (c.ip - c.ip % 0x1_0000_0000_0000_0000_0000) as u128
    }
}

pub open spec fn sat_inc(n: usize) -> usize {
    if n < usize::MAX { (n + 1) as usize } else { n }
}

/// The hunt's memory: the best hit, how many hits were counted, the
/// addresses already announced, the subnets already drilled, and whether
/// the quiet window after the target was reached has begun.
pub struct HuntView {
    pub best: Option<ProbeResult>,
    pub found: usize,
    pub reported: Seq<Candidate>,
    pub hot: Set<u128>,
    pub quiet: bool,
}

/// A hit from the queued sweep: it always counts and may become the best;
/// it is announced only if its address is new, and its subnet is drilled
/// only the first time.
pub open spec fn hit_step(v: HuntView, pr: ProbeResult) -> HuntView {
    HuntView {
        best: Some(better(v.best, pr)),
        found: sat_inc(v.found),
        reported: if v.reported.contains(pr.at) { v.reported } else { v.reported.push(pr.at) },
        hot: v.hot.insert(subnet_key(pr.at)),
        quiet: v.quiet,
    }
}

/// A hit from a drill-down: one whose address was already announced is
/// ignored outright, so one gateway never counts twice.
pub open spec fn drill_step(v: HuntView, h: ProbeResult) -> HuntView {
    if v.reported.contains(h.at) {
        v
    } else {
        HuntView {
            best: Some(better(v.best, h)),
            found: sat_inc(v.found),
            reported: v.reported.push(h.at),
            hot: v.hot,
            quiet: v.quiet,
        }
    }
}

pub open spec fn drill_fold(v: HuntView, hits: Seq<ProbeResult>) -> HuntView
    decreases hits.len(),
{
    if hits.len() == 0 {
        v
    } else {
        drill_step(drill_fold(v, hits.drop_last()), hits.last())
    }
}

/// The drill-down hits that are announced: those whose address is new when
/// they come in.
pub open spec fn drill_emitted(v: HuntView, hits: Seq<ProbeResult>) -> Seq<ProbeResult>
    decreases hits.len(),
{
    if hits.len() == 0 {
        seq![]
    } else {
        let prev = drill_fold(v, hits.drop_last());
        let e = drill_emitted(v, hits.drop_last());
        if prev.reported.contains(hits.last().at) { e } else { e.push(hits.last()) }
    }
}

/// The hunt's memory after a run of sweep hits.
pub open spec fn hits_fold(v: HuntView, hits: Seq<ProbeResult>) -> HuntView
    decreases hits.len(),
{
    if hits.len() == 0 {
        v
    } else {
        hit_step(hits_fold(v, hits.drop_last()), hits.last())
    }
}

pub open spec fn empty_view() -> HuntView {
    HuntView { best: None, found: 0, reported: seq![], hot: Set::empty(), quiet: false }
}

/// The endpoint a hunt settles on is one of its hits, no hit was faster,
/// and every earlier hit was strictly slower (ties go to the first).
pub proof fn lemma_best_is_fastest(hits: Seq<ProbeResult>)
    requires
        hits.len() > 0,
    ensures
        hits_fold(empty_view(), hits).best is Some,
        ({
            let b = hits_fold(empty_view(), hits).best->0;
            exists|i: int| #![trigger hits[i]] 0 <= i < hits.len() && hits[i] == b
                && forall|j: int| 0 <= j < i ==> b.rtt_ns < #[trigger] hits[j].rtt_ns
        }),
        forall|j: int| 0 <= j < hits.len() ==> hits_fold(empty_view(), hits).best->0.rtt_ns <= #[trigger] hits[j].rtt_ns,
    decreases hits.len(),
{
    let prev = hits.drop_last();
    let last = hits.last();
    if prev.len() == 0 {
        assert(hits_fold(empty_view(), prev) == empty_view());
        assert(hits[0] == last);
    } else {
        lemma_best_is_fastest(prev);
        let pb = hits_fold(empty_view(), prev).best->0;
        let i0 = choose|i: int| #![trigger prev[i]] 0 <= i < prev.len() && prev[i] == pb
            && forall|j: int| 0 <= j < i ==> pb.rtt_ns < #[trigger] prev[j].rtt_ns;
        let b = hits_fold(empty_view(), hits).best->0;
        if pb.rtt_ns <= last.rtt_ns {
            assert(b == pb);
            assert(hits[i0] == prev[i0]);
            assert forall|j: int| 0 <= j < i0 implies b.rtt_ns < #[trigger] hits[j].rtt_ns by {
                assert(hits[j] == prev[j]);
            }
            assert forall|j: int| 0 <= j < hits.len() implies b.rtt_ns <= #[trigger] hits[j].rtt_ns by {
                if j < prev.len() {
                    assert(hits[j] == prev[j]);
                }
            }
        } else {
            assert(b == last);
            let n = prev.len() as int;
            assert(hits[n] == last);
            assert forall|j: int| 0 <= j < n implies b.rtt_ns < #[trigger] hits[j].rtt_ns by {
                assert(hits[j] == prev[j]);
                assert(pb.rtt_ns <= prev[j].rtt_ns);
            }
            assert forall|j: int| 0 <= j < hits.len() implies b.rtt_ns <= #[trigger] hits[j].rtt_ns by {
                if j < n {
                    assert(hits[j] == prev[j]);
                    assert(pb.rtt_ns <= prev[j].rtt_ns);
                }
            }
        }
    }
}

/// Once a subnet has been drilled, no later hit in it drills again,
/// whatever drill-down hits came in between.
pub proof fn lemma_one_wave_per_subnet(v: HuntView, first: ProbeResult, between: Seq<ProbeResult>, later: ProbeResult)
    requires
        subnet_key(first.at) == subnet_key(later.at),
    ensures
        drill_fold(hit_step(v, first), between).hot.contains(subnet_key(later.at)),
        hit_step(drill_fold(hit_step(v, first), between), later).hot == drill_fold(hit_step(v, first), between).hot,
    decreases between.len(),
{
    let k = subnet_key(first.at);
    assert(hit_step(v, first).hot.contains(k));
    lemma_drill_keeps_hot(hit_step(v, first), between);
}

proof fn lemma_drill_keeps_hot(v: HuntView, hits: Seq<ProbeResult>)
    ensures
        drill_fold(v, hits).hot == v.hot,
    decreases hits.len(),
{
    if hits.len() > 0 {
        lemma_drill_keeps_hot(v, hits.drop_last());
    }
}

/// A drill-down never announces or counts an address twice: the announced
/// addresses stay free of repeats, each announced drill hit was new, and
/// the count grows by exactly the hits announced.
pub proof fn lemma_drill_counts_new_addresses_once(v: HuntView, hits: Seq<ProbeResult>)
    requires
        v.reported.no_duplicates(),
        v.found + hits.len() < usize::MAX,
    ensures
        drill_fold(v, hits).reported.no_duplicates(),
        drill_fold(v, hits).found == v.found + drill_emitted(v, hits).len(),
        drill_fold(v, hits).reported == v.reported + drill_emitted(v, hits).map_values(|h: ProbeResult| h.at),
        forall|i: int| 0 <= i < drill_emitted(v, hits).len() ==> !v.reported.contains(#[trigger] drill_emitted(v, hits)[i].at),
    decreases hits.len(),
{
    if hits.len() > 0 {
        let prev = hits.drop_last();
        lemma_drill_counts_new_addresses_once(v, prev);
        let p = drill_fold(v, prev);
        let e = drill_emitted(v, prev);
        let h = hits.last();
        assert(drill_emitted(v, prev).len() <= prev.len()) by {
            lemma_emitted_len(v, prev);
        }
        if !p.reported.contains(h.at) {
            assert(drill_emitted(v, hits) == e.push(h));
            assert(e.push(h).map_values(|x: ProbeResult| x.at) =~= e.map_values(|x: ProbeResult| x.at).push(h.at));
            assert(p.reported.push(h.at) =~= v.reported + e.push(h).map_values(|x: ProbeResult| x.at));
            assert(!v.reported.contains(h.at)) by {
                if v.reported.contains(h.at) {
                    let k = choose|k: int| 0 <= k < v.reported.len() && v.reported[k] == h.at;
                    assert(p.reported[k] == h.at);
                }
            }
            assert forall|i: int, j: int| 0 <= i < j < p.reported.push(h.at).len() implies
                p.reported.push(h.at)[i] != p.reported.push(h.at)[j] by {
                if j == p.reported.len() {
                    assert(p.reported.push(h.at)[i] == p.reported[i]);
                    if p.reported[i] == h.at {
                        assert(p.reported.contains(h.at));
                    }
                } else {
                    assert(p.reported.push(h.at)[i] == p.reported[i]);
                    assert(p.reported.push(h.at)[j] == p.reported[j]);
                }
            }
            assert forall|i: int| 0 <= i < e.push(h).len() implies !v.reported.contains(#[trigger] e.push(h)[i].at) by {
                if i < e.len() {
                    assert(e.push(h)[i] == e[i]);
                }
            }
        } else {
            assert(drill_emitted(v, hits) == e);
        }
    }
}

proof fn lemma_emitted_len(v: HuntView, hits: Seq<ProbeResult>)
    ensures
        drill_emitted(v, hits).len() <= hits.len(),
    decreases hits.len(),
{
    if hits.len() > 0 {
        lemma_emitted_len(v, hits.drop_last());
    }
}

/// Host offsets a drill-down probes around an IPv4 hit, in both directions.
pub const STAGE2_OFFSETS: [u32; 21] = [
    1, 2, 3, 4, 5, 8, 10, 15, 20, 25, 30, 40, 50, 60, 75, 90, 100, 120, 150, 180, 200,
];

/// Offsets above an IPv6 hit's last word that a drill-down probes.
pub const STAGE2_V6_OFFSETS: [u16; 9] = [1, 2, 3, 4, 5, 10, 20, 50, 100];

/// Hard ceiling on one drill-down wave, in seconds.
pub const DRILL_DOWN_MAX_SECS: u64 = 8;

/// How many cached endpoints the first, cache-only round races.
pub const TIER0_RACE_WIDTH: usize = 5;

/// The last words a drill-down tries above `cur`: saturating, never `cur`
/// itself or 0, each once, in offset order.
pub open spec fn v6_lasts(cur: u16, offsets: Seq<u16>) -> Seq<u16>
    decreases offsets.len(),
{
    if offsets.len() == 0 {
        seq![]
    } else {
        let prev = v6_lasts(cur, offsets.drop_last());
        let o = offsets.last();
        let l = if cur + o <= u16::MAX { (cur + o) as u16 } else { u16::MAX };
        if l != cur && l != 0 && !prev.contains(l) { prev.push(l) } else { prev }
    }
}

/// The neighbours a drill-down probes around a hit, on the hit's port: in
/// its /24 the usable hosts at the stage-2 offsets below and above it; for
/// IPv6 the addresses whose last word lies the IPv6 offsets above it.
pub open spec fn spec_drill_neighbors(c: Candidate) -> Seq<Candidate> {
    if !c.v6 {
        let base = c.ip - c.ip % 256;
        spec_neighbor_hosts((c.ip % 256) as u32, STAGE2_OFFSETS@).map_values(
            |h: u32| Candidate { v6: false, ip: (base + h) as u128, port: c.port },
        )
    } else {
        let base = c.ip - c.ip % 65536;
        v6_lasts((c.ip % 65536) as u16, STAGE2_V6_OFFSETS@).map_values(
            |l: u16| Candidate { v6: true, ip: (base + l) as u128, port: c.port },
        )
    }
}

fn contains_u16(v: &Vec<u16>, x: u16) -> (b: bool)
    ensures
        b == v@.contains(x),
{
    let mut i: usize = 0;
    while i < v.len()
        invariant
            i <= v@.len(),
            forall|k: int| 0 <= k < i ==> v@[k] != x,
        decreases v@.len() - i,
    {
        if v[i] == x {
            assert(v@[i as int] == x);
            return true;
        }
        i += 1;
    }
    false
}

/// The neighbours of `hit` that one drill-down wave probes.
pub fn drill_neighbors(hit: Candidate) -> (out: Vec<Candidate>)
    ensures
        out@ == spec_drill_neighbors(hit),
{
    let mut out: Vec<Candidate> = Vec::new();
    if !hit.v6 {
        let r = hit.ip % 256;
        let base = hit.ip - r;
        proof {
            assert(base + 255 <= u128::MAX) by (nonlinear_arith)
                requires base == hit.ip - r, r == hit.ip % 256, hit.ip <= u128::MAX;
        }
        let hosts = v4_neighbor_hosts(r as u32, &STAGE2_OFFSETS);
        let ghost hs = hosts@;
        let mut i: usize = 0;
        while i < hosts.len()
            invariant
                i <= hosts@.len(),
                hs == hosts@,
                base + 255 <= u128::MAX,
                forall|k: int| 0 <= k < hosts@.len() ==> 1 <= #[trigger] hosts@[k] <= 254,
                out@ == hs.take(i as int).map_values(
                    |h: u32| Candidate { v6: false, ip: (base + h) as u128, port: hit.port },
                ),
            decreases hosts@.len() - i,
        {
            let h = hosts[i];
            out.push(Candidate { v6: false, ip: base + h as u128, port: hit.port });
            proof {
                assert(hs.take(i + 1) =~= hs.take(i as int).push(h));
            }
            i += 1;
        }
        assert(hs.take(hs.len() as int) =~= hs);
    } else {
        let r = hit.ip % 65536;
        let base = hit.ip - r;
        proof {
            assert(base + 65535 <= u128::MAX) by (nonlinear_arith)
                requires base == hit.ip - r, r == hit.ip % 65536, hit.ip <= u128::MAX;
        }
        let cur = r as u16;
        let mut lasts: Vec<u16> = Vec::new();
        let mut k: usize = 0;
        while k < 9
            invariant
                k <= 9,
                STAGE2_V6_OFFSETS@.len() == 9,
                cur == (hit.ip % 65536) as u16,
                base + 65535 <= u128::MAX,
                lasts@ == v6_lasts(cur, STAGE2_V6_OFFSETS@.take(k as int)),
                out@ == lasts@.map_values(|l: u16| Candidate { v6: true, ip: (base + l) as u128, port: hit.port }),
            decreases 9 - k,
        {
            let o = STAGE2_V6_OFFSETS[k];
            let l = cur.saturating_add(o);
            proof {
                assert(STAGE2_V6_OFFSETS@.take(k + 1).drop_last() =~= STAGE2_V6_OFFSETS@.take(k as int));
                assert(STAGE2_V6_OFFSETS@.take(k + 1).last() == o);
            }
            if l != cur && l != 0 && !contains_u16(&lasts, l) {
                lasts.push(l);
                out.push(Candidate { v6: true, ip: base + l as u128, port: hit.port });
                proof {
                    assert(out@ =~= lasts@.map_values(|x: u16| Candidate { v6: true, ip: (base + x) as u128, port: hit.port }));
                }
            }
            k += 1;
        }
        assert(STAGE2_V6_OFFSETS@.take(9) =~= STAGE2_V6_OFFSETS@);
    }
    out
}

/// The families a scan covers on this host: with no IPv6 route a scan that
/// wants both falls back to IPv4, and one that wants only IPv6 cannot run
/// (`None`).
pub fn family_for_host(ip: IpScan, host_has_ipv6: bool) -> (r: Option<IpScan>)
    ensures
        r == (if ip.wants_v6() && !host_has_ipv6 {
            if ip.wants_v4() { Some(IpScan::V4) } else { None }
        } else {
            Some(ip)
        }),
{
    if ip.want_v6() && !host_has_ipv6 {
        if ip.want_v4() { Some(IpScan::V4) } else { None }
    } else {
        Some(ip)
    }
}

/// How long one drill-down wave may run: what is left of the scan's budget,
/// never more than the wave ceiling; the ceiling alone when the scan has no
/// deadline.
pub fn drill_budget_ms(remaining_ms: Option<u64>) -> (b: u64)
    ensures
        b as int == (match remaining_ms {
            Some(r) => if r <= DRILL_DOWN_MAX_SECS * 1000 { r as int } else { DRILL_DOWN_MAX_SECS * 1000 },
            None => DRILL_DOWN_MAX_SECS * 1000,
        }),
{
    let cap: u64 = DRILL_DOWN_MAX_SECS * 1000;
    match remaining_ms {
        Some(r) => if r <= cap { r } else { cap },
        None => cap,
    }
}

/// How many of the cached endpoints the first round races: the best five.
pub fn race_width(cached: usize) -> (n: usize)
    ensures
        n == (if cached <= TIER0_RACE_WIDTH { cached } else { TIER0_RACE_WIDTH }),
{
    if cached <= TIER0_RACE_WIDTH { cached } else { TIER0_RACE_WIDTH }
}

/// The round trip as the cache stores it: whole milliseconds, kept to 32
/// bits the way a narrowing cast keeps them.
pub fn cached_rtt_ms(rtt_ns: u64) -> (ms: u32)
    ensures
        ms == (rtt_ns / 1_000_000) % 0x1_0000_0000,
{
    ((rtt_ns / 1_000_000) % 0x1_0000_0000) as u32
}

pub const H2_GATEWAY_HINT: &'static str = "no MASQUE/HTTP2 gateway answered on any port; the network may be blocking TLS to Cloudflare (try WireGuard)";
pub const H3_GATEWAY_HINT: &'static str = "no MASQUE/HTTP3 gateway answered on any port; the network may be blocking QUIC/UDP (try HTTP/2 or WireGuard)";
pub const WG_ENDPOINT_HINT: &'static str = "no WireGuard endpoint answered on any port; the network may be blocking UDP";

/// Why a finished hunt found nothing, as told to the user: a gateway hunt
/// names the transport that was blocked, an endpoint hunt names UDP.
pub fn no_endpoint_hint(label: &str, h2_enabled: bool) -> (hint: &'static str)
    ensures
        hint@ == (if crate::text::has_infix(label@, "gateway"@) {
            if h2_enabled { H2_GATEWAY_HINT@ } else { H3_GATEWAY_HINT@ }
        } else {
            WG_ENDPOINT_HINT@
        }),
{
    let v = crate::text::chars_of(label);
    if crate::text::contains_str(&v, "gateway") {
        if h2_enabled { H2_GATEWAY_HINT } else { H3_GATEWAY_HINT }
    } else {
        WG_ENDPOINT_HINT
    }
}

/// The MASQUE gateway pool: its /24s, its IPv6 /48s, how much each /24 is
/// worth (the DNS-over-HTTPS ranges, which never answer, last), and the
/// known-good seeds of both families.
pub open spec fn masque_cidrs_v4() -> Seq<Seq<char>> {
    seq![
        "162.159.196.0/24"@, "162.159.195.0/24"@, "162.159.192.0/24"@, "162.159.193.0/24"@,
        "162.159.204.0/24"@, "162.159.197.0/24"@, "162.159.198.0/24"@, "172.65.251.0/24"@,
        "188.114.96.0/24"@, "188.114.97.0/24"@, "188.114.98.0/24"@, "188.114.99.0/24"@,
        "162.159.36.0/24"@, "162.159.46.0/24"@,
    ]
}

pub open spec fn masque_seeds_v4() -> Seq<Seq<char>> {
    seq![
        "162.159.196.1"@, "162.159.195.1"@, "162.159.192.1"@, "162.159.197.3"@, "162.159.197.1"@,
        "162.159.198.2"@, "162.159.198.1"@, "162.159.193.1"@,
    ]
}

pub open spec fn masque_cidr_weights() -> Seq<(Seq<char>, u8)> {
    seq![
        ("162.159.198.0/24"@, 10u8), ("162.159.197.0/24"@, 10u8), ("162.159.192.0/24"@, 9u8),
        ("162.159.193.0/24"@, 9u8), ("162.159.195.0/24"@, 9u8), ("162.159.196.0/24"@, 8u8),
        ("188.114.96.0/24"@, 7u8), ("188.114.97.0/24"@, 7u8), ("188.114.98.0/24"@, 6u8),
        ("188.114.99.0/24"@, 6u8), ("162.159.204.0/24"@, 5u8), ("172.65.251.0/24"@, 4u8),
        ("162.159.36.0/24"@, 1u8), ("162.159.46.0/24"@, 1u8),
    ]
}

pub open spec fn masque_cidrs_v6() -> Seq<Seq<char>> {
    seq!["2606:4700:d0::/48"@, "2606:4700:d1::/48"@, "2606:4700:102::/48"@]
}

pub open spec fn masque_seeds_v6() -> Seq<Seq<char>> {
    seq!["2606:4700:d0::a29f:c602"@, "2606:4700:d1::a29f:c602"@, "2606:4700:d0::a29f:c601"@, "2606:4700:d0::a29f:c001"@]
}

pub open spec fn str_views(v: Seq<&'static str>) -> Seq<Seq<char>> {
    v.map_values(|s: &'static str| s@)
}

pub open spec fn weight_views(v: Seq<(&'static str, u8)>) -> Seq<(Seq<char>, u8)> {
    v.map_values(|p: (&'static str, u8)| (p.0@, p.1))
}

/// The ports a MASQUE scan tries, most promising first.
pub open spec fn masque_ports() -> Seq<u16> {
    seq![443u16, 500, 1701, 4500, 4443, 8443, 8095]
}

pub fn masque_port_list() -> (v: Vec<u16>)
    ensures
        v@ == masque_ports(),
{
    let v: Vec<u16> = vec![443u16, 500, 1701, 4500, 4443, 8443, 8095];
    assert(v@ =~= masque_ports());
    v
}

/// How a MASQUE scan is planned: over HTTP/3 a verify is an expensive QUIC
/// handshake, over HTTP/2 a cheap one; the MASQUE pool; the MASQUE cache
/// slot; and the MASQUE tuning of the scan modes.
pub fn masque_probe_config(config_path: String, h2_enabled: bool) -> (c: ProbeConfig)
    ensures
        c.verify_cost == (if h2_enabled { VerifyCost::Cheap } else { VerifyCost::Expensive }),
        str_views(c.cidrs_v4@) == masque_cidrs_v4(),
        str_views(c.cidrs_v6@) == masque_cidrs_v6(),
        weight_views(c.cidr_weights_v4@) == masque_cidr_weights(),
        str_views(c.seeds_v4@) == masque_seeds_v4(),
        str_views(c.seeds_v6@) == masque_seeds_v6(),
        c.cache_kind == CacheKind::Masque,
        c.label@ == "gateway"@,
        c.config_path@ == config_path@,
        c.profile.turbo_sample == 64 && c.profile.balanced_target == 6 && c.profile.balanced_sample == 140
            && c.profile.stealth_target == 4 && c.profile.stealth_sample == 64,
{
    let c = ProbeConfig {
        verify_cost: if h2_enabled { VerifyCost::Cheap } else { VerifyCost::Expensive },
        cidrs_v4: &[
            "162.159.196.0/24", "162.159.195.0/24", "162.159.192.0/24", "162.159.193.0/24",
            "162.159.204.0/24", "162.159.197.0/24", "162.159.198.0/24", "172.65.251.0/24",
            "188.114.96.0/24", "188.114.97.0/24", "188.114.98.0/24", "188.114.99.0/24",
            "162.159.36.0/24", "162.159.46.0/24",
        ],
        cidrs_v6: &["2606:4700:d0::/48", "2606:4700:d1::/48", "2606:4700:102::/48"],
        cidr_weights_v4: &[
            ("162.159.198.0/24", 10), ("162.159.197.0/24", 10), ("162.159.192.0/24", 9),
            ("162.159.193.0/24", 9), ("162.159.195.0/24", 9), ("162.159.196.0/24", 8),
            ("188.114.96.0/24", 7), ("188.114.97.0/24", 7), ("188.114.98.0/24", 6),
            ("188.114.99.0/24", 6), ("162.159.204.0/24", 5), ("172.65.251.0/24", 4),
            ("162.159.36.0/24", 1), ("162.159.46.0/24", 1),
        ],
        seeds_v4: &[
            "162.159.196.1", "162.159.195.1", "162.159.192.1", "162.159.197.3", "162.159.197.1",
            "162.159.198.2", "162.159.198.1", "162.159.193.1",
        ],
        seeds_v6: &["2606:4700:d0::a29f:c602", "2606:4700:d1::a29f:c602", "2606:4700:d0::a29f:c601", "2606:4700:d0::a29f:c001"],
        cache_kind: CacheKind::Masque,
        label: "gateway",
        config_path,
        profile: StrategyProfile {
            turbo_sample: 64,
            balanced_target: 6,
            balanced_sample: 140,
            stealth_target: 4,
            stealth_sample: 64,
        },
    };
    assert(str_views(c.cidrs_v4@) =~= masque_cidrs_v4());
    assert(str_views(c.cidrs_v6@) =~= masque_cidrs_v6());
    assert(weight_views(c.cidr_weights_v4@) =~= masque_cidr_weights());
    assert(str_views(c.seeds_v4@) =~= masque_seeds_v4());
    assert(str_views(c.seeds_v6@) =~= masque_seeds_v6());
    c
}

/// How one MASQUE candidate is verified: in Ironclad mode by a real HTTP
/// round trip through a live tunnel, otherwise by a CONNECT-IP handshake
/// over the transport in use.
#[derive(Debug, Clone, Copy, PartialEq, Eq, Structural)]
pub enum MasqueVerify {
    HttpPing,
    H2Handshake,
    H3Handshake,
}

pub fn masque_verify_method(ironclad: bool, h2_enabled: bool) -> (m: MasqueVerify)
    ensures
        m == (if ironclad {
            MasqueVerify::HttpPing
        } else if h2_enabled {
            MasqueVerify::H2Handshake
        } else {
            MasqueVerify::H3Handshake
        }),
{
    if ironclad {
        MasqueVerify::HttpPing
    } else if h2_enabled {
        MasqueVerify::H2Handshake
    } else {
        MasqueVerify::H3Handshake
    }
}

/// What a WireGuard probe does once its handshake succeeded: keep the
/// session for the tunnel and report the handshake time, or (Ironclad)
/// prove the session carries a real HTTP round trip first.
#[derive(Debug, Clone, Copy, PartialEq, Eq, Structural)]
pub enum WgAfterHandshake {
    KeepSession,
    HttpPing,
}

pub fn wg_after_handshake(ironclad: bool) -> (a: WgAfterHandshake)
    ensures
        a == (if ironclad { WgAfterHandshake::HttpPing } else { WgAfterHandshake::KeepSession }),
{
    if ironclad { WgAfterHandshake::HttpPing } else { WgAfterHandshake::KeepSession }
}

/// How long an Ironclad HTTP round trip may take, in seconds.
pub const IRONCLAD_TCPING_SECS: u64 = 10;

/// What the hunt does after a hit has been taken in.
#[derive(Debug, Clone, Copy, PartialEq, Eq, Structural)]
pub enum HuntDecision {
    /// Stop now with this endpoint (first-hit modes).
    Exit(ProbeResult),
    /// The target was reached: keep listening for the quiet window only.
    StartQuiet,
    /// The target was reached and there is no quiet window: stop and pick.
    Finish,
    Continue,
}

/// The decision after a hit: first-hit modes stop at once with the best so
/// far; otherwise reaching the target (once) opens the quiet window, or ends
/// the hunt when there is none.
pub open spec fn spec_decide(
    v: HuntView,
    early_exit_first: bool,
    target: usize,
    quiet_ms: u64,
    pr: ProbeResult,
) -> HuntDecision {
    if early_exit_first {
        HuntDecision::Exit(match v.best {
            Some(b) => b,
            None => pr,
        })
    } else if target > 0 && v.found >= target && !v.quiet {
        if quiet_ms != 0 { HuntDecision::StartQuiet } else { HuntDecision::Finish }
    } else {
        HuntDecision::Continue
    }
}

/// What the caller does with one outcome of the queued sweep.
#[derive(Debug, Clone, Copy, PartialEq, Eq, Structural)]
pub struct ResultStep {
    /// A progress event to send, with the number of candidates to report.
    pub progress: Option<usize>,
    /// Announce the hit (its address is new).
    pub emit: bool,
    /// Its subnet just turned hot: run one drill-down wave around it.
    pub drill: bool,
}

/// One hunt in progress.
pub struct HuntState {
    best: Option<ProbeResult>,
    found: usize,
    reported: Vec<Candidate>,
    hot_subnets: std::collections::HashSet<u128>,
    quiet: bool,
    tally: ScanTally,
    target_successes: usize,
    early_exit_first: bool,
    quiet_after_first_ms: u64,
}

impl View for HuntState {
    type V = HuntView;

    closed spec fn view(&self) -> HuntView {
        HuntView {
            best: self.best,
            found: self.found,
            reported: self.reported@,
            hot: self.hot_subnets@,
            quiet: self.quiet,
        }
    }
}

fn subnet_key_of(c: Candidate) -> (k: u128)
    ensures
        k == subnet_key(c),
{
    if !c.v6 {
        c.ip - c.ip % 256
    } else {
        c.ip - c.ip % 0x1_0000_0000_0000_0000_0000
    }
}

fn better_of(cur: Option<ProbeResult>, pr: ProbeResult) -> (b: ProbeResult)
    ensures
        b == better(cur, pr),
{
    match cur {
        Some(c) => if c.rtt_ns <= pr.rtt_ns { c } else { pr },
        None => pr,
    }
}

impl HuntState {
    /// The progress accounting of the queued sweep.
    pub closed spec fn tally_of(&self) -> ScanTally {
        self.tally
    }

    pub closed spec fn target(&self) -> usize {
        self.target_successes
    }

    pub closed spec fn early_exit(&self) -> bool {
        self.early_exit_first
    }

    pub closed spec fn quiet_window_ms(&self) -> u64 {
        self.quiet_after_first_ms
    }

    /// A fresh hunt over `total` queued candidates with the stopping rules
    /// of `st`.
    pub fn new(st: &Strategy, total: usize) -> (h: HuntState)
        ensures
            h@.best is None,
            h@.found == 0,
            h@.reported.len() == 0,
            h@.hot == Set::<u128>::empty(),
            !h@.quiet,
            h.tally_of().scanned_count() == 0,
            h.tally_of().drill_count() == 0,
            h.tally_of().total_count() == total,
            h.target() == st.target_successes,
            h.early_exit() == st.early_exit_first,
            h.quiet_window_ms() == st.quiet_after_first_ms,
    {
        HuntState {
            best: None,
            found: 0,
            reported: Vec::new(),
            hot_subnets: std::collections::HashSet::new(),
            quiet: false,
            tally: ScanTally::new(total),
            target_successes: st.target_successes,
            early_exit_first: st.early_exit_first,
            quiet_after_first_ms: st.quiet_after_first_ms,
        }
    }

    /// Takes in one outcome of the queued sweep: counts the candidate, says
    /// whether a progress event is due, and for a hit updates the best,
    /// the count, the announced addresses and the drilled subnets.
    pub fn on_result(&mut self, res: Option<ProbeResult>) -> (step: ResultStep)
        ensures
            final(self).tally_of().scanned_count() == sat_inc(old(self).tally_of().scanned_count()),
            final(self).tally_of().drill_count() == old(self).tally_of().drill_count(),
            final(self).tally_of().total_count() == old(self).tally_of().total_count(),
            step.progress == (if final(self).tally_of().spec_reported() % 50 == 0
                || final(self).tally_of().spec_is_complete() {
                Some(final(self).tally_of().spec_reported())
            } else {
                None::<usize>
            }),
            final(self).target() == old(self).target(),
            final(self).early_exit() == old(self).early_exit(),
            final(self).quiet_window_ms() == old(self).quiet_window_ms(),
            match res {
                None => final(self)@ == old(self)@ && !step.emit && !step.drill,
                Some(pr) => final(self)@ == hit_step(old(self)@, pr)
                    && step.emit == !old(self)@.reported.contains(pr.at)
                    && step.drill == !old(self)@.hot.contains(subnet_key(pr.at)),
            },
    {
        broadcast use vstd::std_specs::hash::group_hash_axioms;
        self.tally.candidate_done();
        let progress = if self.tally.should_report() {
            Some(self.tally.reported())
        } else {
            None
        };
        match res {
            None => ResultStep { progress, emit: false, drill: false },
            Some(pr) => {
                let emit = !contains_candidate(&self.reported, pr.at);
                if emit {
                    self.reported.push(pr.at);
                }
                self.best = Some(better_of(self.best, pr));
                self.found = self.found.saturating_add(1);
                let key = subnet_key_of(pr.at);
                let drill = !self.hot_subnets.contains(&key);
                if drill {
                    self.hot_subnets.insert(key);
                }
                proof {
                    assert(self@.reported =~= hit_step(old(self)@, pr).reported);
                    assert(self@.hot =~= hit_step(old(self)@, pr).hot);
                }
                ResultStep { progress, emit, drill }
            },
        }
    }

    /// Takes in one drill-down wave: `examined` neighbours were probed
    /// (`None` when the wave was abandoned, which counts none), and `hits`
    /// came back. Returns the hits to announce, in order.
    pub fn on_drill(&mut self, hits: &[ProbeResult], examined: Option<usize>) -> (emitted: Vec<ProbeResult>)
        ensures
            final(self)@ == drill_fold(old(self)@, hits@),
            emitted@ == drill_emitted(old(self)@, hits@),
            final(self).tally_of().scanned_count() == old(self).tally_of().scanned_count(),
            final(self).tally_of().total_count() == old(self).tally_of().total_count(),
            final(self).tally_of().drill_count() == (match examined {
                Some(n) => if old(self).tally_of().drill_count() + n <= usize::MAX {
                    (old(self).tally_of().drill_count() + n) as usize
                } else {
                    usize::MAX
                },
                None => old(self).tally_of().drill_count(),
            }),
            final(self).target() == old(self).target(),
            final(self).early_exit() == old(self).early_exit(),
            final(self).quiet_window_ms() == old(self).quiet_window_ms(),
    {
        match examined {
            Some(n) => self.tally.drill_down_done(n),
            None => {},
        }
        let ghost v0 = self@;
        let ghost t1 = self.tally;
        let mut emitted: Vec<ProbeResult> = Vec::new();
        let mut i: usize = 0;
        while i < hits.len()
            invariant
                i <= hits@.len(),
                self@ == drill_fold(v0, hits@.take(i as int)),
                emitted@ == drill_emitted(v0, hits@.take(i as int)),
                self.tally == t1,
                self.target_successes == old(self).target_successes,
                self.early_exit_first == old(self).early_exit_first,
                self.quiet_after_first_ms == old(self).quiet_after_first_ms,
            decreases hits@.len() - i,
        {
            let h = hits[i];
            proof {
                assert(hits@.take(i + 1).drop_last() =~= hits@.take(i as int));
                assert(hits@.take(i + 1).last() == h);
            }
            if !contains_candidate(&self.reported, h.at) {
                self.reported.push(h.at);
                self.best = Some(better_of(self.best, h));
                self.found = self.found.saturating_add(1);
                emitted.push(h);
            }
            proof {
                assert(self@.reported =~= drill_fold(v0, hits@.take(i + 1)).reported);
            }
            i += 1;
        }
        assert(hits@.take(hits@.len() as int) =~= hits@);
        emitted
    }

    /// What to do after a hit (and any drill-down it set off) was taken in;
    /// `pr` is that hit. Starting the quiet window is remembered.
    pub fn decide(&mut self, pr: ProbeResult) -> (d: HuntDecision)
        ensures
            d == spec_decide(old(self)@, old(self).early_exit(), old(self).target(), old(self).quiet_window_ms(), pr),
            old(self).early_exit() ==> d == HuntDecision::Exit(match old(self)@.best {
                Some(b) => b,
                None => pr,
            }),
            final(self)@ == (HuntView { quiet: old(self)@.quiet || d == HuntDecision::StartQuiet, ..old(self)@ }),
            final(self).tally_of() == old(self).tally_of(),
            final(self).target() == old(self).target(),
            final(self).early_exit() == old(self).early_exit(),
            final(self).quiet_window_ms() == old(self).quiet_window_ms(),
    {
        if self.early_exit_first {
            return HuntDecision::Exit(match self.best {
                Some(b) => b,
                None => pr,
            });
        }
        if self.target_successes > 0 && self.found >= self.target_successes && !self.quiet {
            if self.quiet_after_first_ms != 0 {
                self.quiet = true;
                HuntDecision::StartQuiet
            } else {
                HuntDecision::Finish
            }
        } else {
            HuntDecision::Continue
        }
    }

    /// The best endpoint found so far.
    pub fn best(&self) -> (b: Option<ProbeResult>)
        ensures
            b == self@.best,
    {
        self.best
    }

    /// How many hits were counted.
    pub fn found(&self) -> (n: usize)
        ensures
            n == self@.found,
    {
        self.found
    }

    /// Whether the quiet window has begun.
    pub fn in_quiet_window(&self) -> (b: bool)
        ensures
            b == self@.quiet,
    {
        self.quiet
    }

    /// The progress accounting of the queued sweep.
    pub fn tally(&self) -> (t: ScanTally)
        ensures
            t == self.tally_of(),
    {
        self.tally
    }
}


/// What a hunt writes to the endpoint cache for the endpoint it settles on:
/// the address, the round trip in whole milliseconds (kept as
/// `cached_rtt_ms` keeps it) and what that round trip measured.
#[derive(Debug, Clone, Copy, PartialEq, Eq, Structural)]
pub struct CacheRecord {
    pub at: Candidate,
    pub rtt_ms: u32,
    pub measured: Measurement,
}

pub open spec fn spec_cache_record(pr: ProbeResult, ironclad: bool) -> CacheRecord {
    CacheRecord {
        at: pr.at,
        rtt_ms: ((pr.rtt_ns / 1_000_000) % 0x1_0000_0000) as u32,
        measured: if ironclad { Measurement::HttpRoundTrip } else { Measurement::HandshakeProbe },
    }
}

/// The cache record for a verified endpoint; `ironclad` says whether its
/// round trip went through a live tunnel.
pub fn cache_record(pr: ProbeResult, ironclad: bool) -> (r: CacheRecord)
    ensures
        r == spec_cache_record(pr, ironclad),
{
    CacheRecord { at: pr.at, rtt_ms: cached_rtt_ms(pr.rtt_ns), measured: crate::prober::measured_as(ironclad) }
}

/// How a hunt ends, whatever ended it (a cancel, the deadline, the end of
/// the quiet window or of the sweep): with its best endpoint, which is also
/// what it records in the cache, or with no endpoint and nothing recorded.
pub open spec fn spec_finish(v: HuntView, ironclad: bool) -> (Option<ProbeResult>, Option<CacheRecord>) {
    match v.best {
        Some(b) => (Some(b), Some(spec_cache_record(b, ironclad))),
        None => (None, None),
    }
}

impl HuntState {
    /// The hunt's verdict once it stops, for any reason a cancel included:
    /// its best endpoint so far together with the record to write to the
    /// endpoint cache, or `NoCleanEndpoint` and no record when nothing was
    /// found.
    pub fn finish(&self, ironclad: bool) -> (r: (Result<ProbeResult>, Option<CacheRecord>))
        ensures
            match r.0 {
                Ok(pr) => spec_finish(self@, ironclad) == (Some(pr), r.1),
                Err(e) => spec_finish(self@, ironclad) == (None::<ProbeResult>, r.1) && e is NoCleanEndpoint,
            },
    {
        match self.best {
            Some(b) => (Ok(b), Some(cache_record(b, ironclad))),
            None => (Err(AetherError::NoCleanEndpoint), None),
        }
    }
}

/// A hunt that took in the sweep hits `hits` ends, whenever it is stopped,
/// with `NoCleanEndpoint` and no cache record when there were none, and
/// otherwise with the fastest hit (the first of equals), which is what it
/// records in the cache.
pub proof fn lemma_hunt_ends_with_fastest(hits: Seq<ProbeResult>, ironclad: bool)
    ensures
        hits.len() == 0 ==> spec_finish(hits_fold(empty_view(), hits), ironclad) == (None::<ProbeResult>, None::<CacheRecord>),
        hits.len() > 0 ==> ({
            let f = spec_finish(hits_fold(empty_view(), hits), ironclad);
            &&& f.0 matches Some(b)
            &&& f.1 == Some(spec_cache_record(f.0->0, ironclad))
            &&& exists|i: int| #![trigger hits[i]] 0 <= i < hits.len() && hits[i] == f.0->0
                && forall|j: int| 0 <= j < i ==> f.0->0.rtt_ns < #[trigger] hits[j].rtt_ns
            &&& forall|j: int| 0 <= j < hits.len() ==> f.0->0.rtt_ns <= #[trigger] hits[j].rtt_ns
        }),
{
    if hits.len() > 0 {
        lemma_best_is_fastest(hits);
    }
}

/// One hit as the hunt takes it in: from a drill-down wave (`true`) or
/// from the queued sweep (`false`).
pub open spec fn hunt_step(v: HuntView, e: (bool, ProbeResult)) -> HuntView {
    if e.0 { drill_step(v, e.1) } else { hit_step(v, e.1) }
}

/// The hunt's memory after an interleaving of sweep hits and drill-down
/// hits (a wave is its hits in order, as `on_drill` takes them).
pub open spec fn hunt_fold(v: HuntView, events: Seq<(bool, ProbeResult)>) -> HuntView
    decreases events.len(),
{
    if events.len() == 0 {
        v
    } else {
        hunt_step(hunt_fold(v, events.drop_last()), events.last())
    }
}

/// The hits a hunt counted, in order: every sweep hit, and each drill-down
/// hit whose address was not yet announced when it came in.
pub open spec fn counted_hits(v: HuntView, events: Seq<(bool, ProbeResult)>) -> Seq<ProbeResult>
    decreases events.len(),
{
    if events.len() == 0 {
        seq![]
    } else {
        let prev = hunt_fold(v, events.drop_last());
        let t = counted_hits(v, events.drop_last());
        let e = events.last();
        if e.0 && prev.reported.contains(e.1.at) { t } else { t.push(e.1) }
    }
}

proof fn lemma_best_tracks_counted(events: Seq<(bool, ProbeResult)>)
    ensures
        hunt_fold(empty_view(), events).best == hits_fold(empty_view(), counted_hits(empty_view(), events)).best,
    decreases events.len(),
{
    if events.len() > 0 {
        let p = events.drop_last();
        lemma_best_tracks_counted(p);
        let t = counted_hits(empty_view(), p);
        let e = events.last();
        let prev = hunt_fold(empty_view(), p);
        if !(e.0 && prev.reported.contains(e.1.at)) {
            assert(t.push(e.1).drop_last() =~= t);
        }
    }
}

/// Whatever mix of sweep hits and drill-down waves a hunt took in, and
/// whenever it is stopped, it ends with `NoCleanEndpoint` and no cache record
/// when it counted no hit, and otherwise with the fastest hit it counted
/// (the first of equals), which is what it records in the cache.
pub proof fn lemma_interleaved_hunt_ends_with_fastest(events: Seq<(bool, ProbeResult)>, ironclad: bool)
    ensures
        ({
            let hits = counted_hits(empty_view(), events);
            let f = spec_finish(hunt_fold(empty_view(), events), ironclad);
            &&& hits.len() == 0 ==> f == (None::<ProbeResult>, None::<CacheRecord>)
            &&& hits.len() > 0 ==> {
                &&& f.0 matches Some(b)
                &&& f.1 == Some(spec_cache_record(f.0->0, ironclad))
                &&& exists|i: int| #![trigger hits[i]] 0 <= i < hits.len() && hits[i] == f.0->0
                    && forall|j: int| 0 <= j < i ==> f.0->0.rtt_ns < #[trigger] hits[j].rtt_ns
                &&& forall|j: int| 0 <= j < hits.len() ==> f.0->0.rtt_ns <= #[trigger] hits[j].rtt_ns
            }
        }),
{
    lemma_best_tracks_counted(events);
    lemma_hunt_ends_with_fastest(counted_hits(empty_view(), events), ironclad);
}

/// In first-hit mode a hunt exits with its best so far: after any mix of
/// sweep and drill-down hits with at least one counted, the exit carries a
/// counted hit that no counted hit beats (the first of equals), whatever hit
/// set the exit off; and it is the endpoint the hunt would settle on.
pub proof fn lemma_first_hit_exit_is_fastest(
    events: Seq<(bool, ProbeResult)>,
    target: usize,
    quiet_ms: u64,
    pr: ProbeResult,
)
    requires
        counted_hits(empty_view(), events).len() > 0,
    ensures
        ({
            let hits = counted_hits(empty_view(), events);
            let d = spec_decide(hunt_fold(empty_view(), events), true, target, quiet_ms, pr);
            &&& d matches HuntDecision::Exit(b)
            &&& Some(d->Exit_0) == spec_finish(hunt_fold(empty_view(), events), false).0
            &&& exists|i: int| #![trigger hits[i]] 0 <= i < hits.len() && hits[i] == d->Exit_0
                && forall|j: int| 0 <= j < i ==> d->Exit_0.rtt_ns < #[trigger] hits[j].rtt_ns
            &&& forall|j: int| 0 <= j < hits.len() ==> d->Exit_0.rtt_ns <= #[trigger] hits[j].rtt_ns
        }),
{
    lemma_interleaved_hunt_ends_with_fastest(events, false);
}

/// The quiet window opens once: once it has begun, no later hit (of the
/// sweep or of a drill-down) opens it again or ends the hunt early; outside
/// first-hit mode the hunt just goes on until the window or the deadline
/// runs out.
pub proof fn lemma_quiet_window_opens_once(v: HuntView, later: Seq<(bool, ProbeResult)>, target: usize, quiet_ms: u64, pr: ProbeResult)
    requires
        v.quiet,
    ensures
        hunt_fold(v, later).quiet,
        spec_decide(hunt_fold(v, later), false, target, quiet_ms, pr) == HuntDecision::Continue,
    decreases later.len(),
{
    if later.len() > 0 {
        lemma_quiet_window_opens_once(v, later.drop_last(), target, quiet_ms, pr);
    }
}

/// What the first round over the cached endpoints came to.
#[derive(Debug, Clone, Copy, PartialEq, Eq, Structural)]
pub enum Tier0Outcome {
    /// A cached endpoint passed the check the mode asks for.
    Winner(ProbeResult),
    /// The hunt was cancelled before or during the round.
    Cancelled,
    /// Nothing cached, or every raced endpoint failed.
    Miss,
}

/// The endpoints a first round races: the best-ranked `TIER0_RACE_WIDTH`
/// of the cache, in rank order.
pub open spec fn spec_race_entries(cached: Seq<(Candidate, u32)>) -> Seq<Candidate> {
    let n: int = if cached.len() <= TIER0_RACE_WIDTH { cached.len() as int } else { TIER0_RACE_WIDTH as int };
    cached.take(n).map_values(|e: (Candidate, u32)| e.0)
}

/// A first round in progress: how many raced probes have not come back.
pub struct Tier0Race {
    outstanding: usize,
}

/// How a first round over the cached endpoints begins.
pub enum RaceStart {
    /// The round is over before it starts.
    Done(Tier0Outcome),
    /// Probe these endpoints at once, with the mode's check and the scan's
    /// per-probe budget, and feed what comes back to the round.
    Race(Tier0Race, Vec<Candidate>),
}

/// Something that happened while raced probes were out.
#[derive(Debug, Clone, Copy, PartialEq, Eq, Structural)]
pub enum RaceEvent {
    Cancel,
    Probe(Option<ProbeResult>),
}

/// Starts a first round over the ranked cache entries (address and cached
/// round trip): nothing cached is a miss, a cancel already raised ends it
/// without a probe, otherwise the best-ranked five are raced.
pub fn race_start(cached: &Vec<(Candidate, u32)>, cancelled: bool) -> (r: RaceStart)
    ensures
        cached@.len() == 0 ==> r == RaceStart::Done(Tier0Outcome::Miss),
        cached@.len() > 0 && cancelled ==> r == RaceStart::Done(Tier0Outcome::Cancelled),
        cached@.len() > 0 && !cancelled ==> (r matches RaceStart::Race(race, probes)
            && probes@ == spec_race_entries(cached@)
            && race.pending() == probes@.len()
            && probes@.len() > 0),
{
    if cached.len() == 0 {
        return RaceStart::Done(Tier0Outcome::Miss);
    }
    if cancelled {
        return RaceStart::Done(Tier0Outcome::Cancelled);
    }
    let n = race_width(cached.len());
    let mut probes: Vec<Candidate> = Vec::new();
    let mut i: usize = 0;
    while i < n
        invariant
            n <= cached@.len(),
            i <= n,
            probes@ == cached@.take(i as int).map_values(|e: (Candidate, u32)| e.0),
        decreases n - i,
    {
        probes.push(cached[i].0);
        proof {
            assert(cached@.take(i + 1).map_values(|e: (Candidate, u32)| e.0)
                =~= cached@.take(i as int).map_values(|e: (Candidate, u32)| e.0).push(cached@[i as int].0));
        }
        i += 1;
    }
    RaceStart::Race(Tier0Race { outstanding: n }, probes)
}

impl Tier0Race {
    /// Raced probes that have not come back yet.
    pub closed spec fn pending(&self) -> usize {
        self.outstanding
    }

    /// Takes in one event of the round and says whether it is over: a
    /// cancel ends it `Cancelled`; the first endpoint that passes wins and
    /// is recorded in the cache; when the last probe fails it is a miss.
    pub fn on_event(&mut self, ev: RaceEvent, ironclad: bool) -> (r: Option<(Tier0Outcome, Option<CacheRecord>)>)
        requires
            ev is Probe ==> old(self).pending() > 0,
        ensures
            match ev {
                RaceEvent::Cancel => r == Some((Tier0Outcome::Cancelled, None::<CacheRecord>))
                    && final(self).pending() == old(self).pending(),
                RaceEvent::Probe(Some(pr)) => r == Some((Tier0Outcome::Winner(pr), Some(spec_cache_record(pr, ironclad))))
                    && final(self).pending() == old(self).pending() - 1,
                RaceEvent::Probe(None) => final(self).pending() == old(self).pending() - 1
                    && r == (if final(self).pending() == 0 {
                        Some((Tier0Outcome::Miss, None::<CacheRecord>))
                    } else {
                        None::<(Tier0Outcome, Option<CacheRecord>)>
                    }),
            },
    {
        match ev {
            RaceEvent::Cancel => Some((Tier0Outcome::Cancelled, None)),
            RaceEvent::Probe(res) => {
                self.outstanding = self.outstanding - 1;
                match res {
                    Some(pr) => Some((Tier0Outcome::Winner(pr), Some(cache_record(pr, ironclad)))),
                    None => if self.outstanding == 0 {
                        Some((Tier0Outcome::Miss, None))
                    } else {
                        None
                    },
                }
            },
        }
    }
}

/// What the hunt does with the first round's outcome: a winner is the
/// hunt's answer, a cancel ends the hunt with `NoCleanEndpoint`, a miss
/// goes on to the full scan (`None`).
pub fn tier0_verdict(o: Tier0Outcome) -> (r: Option<Result<ProbeResult>>)
    ensures
        match o {
            Tier0Outcome::Winner(pr) => r matches Some(Ok(x)) && x == pr,
            Tier0Outcome::Cancelled => r matches Some(Err(e)) && e is NoCleanEndpoint,
            Tier0Outcome::Miss => r is None,
        },
{
    match o {
        Tier0Outcome::Winner(pr) => Some(Ok(pr)),
        Tier0Outcome::Cancelled => Some(Err(AetherError::NoCleanEndpoint)),
        Tier0Outcome::Miss => None,
    }
}

} // verus!
