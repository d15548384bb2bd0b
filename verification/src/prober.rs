//! Scan planning: address families and scan modes, the strategy each mode
//! runs with, candidate ordering and capping, the scan registry that Stop
//! requests go through, and progress accounting.
use vstd::prelude::*;

use crate::cache::Measurement;
pub use crate::hunt::ProbeResult;
use crate::text::{eq_str, fold, folded, lemma_folded_plain};

verus! {

/// Which address families a scan covers.
#[derive(Debug, Clone, Copy, PartialEq, Eq, Structural)]
pub enum IpScan {
    V4,
    V6,
    Both,
}

/// `6`, `v6`, `ipv6` name IPv6; `both`, `all`, `dual` both families; any
/// other value IPv4 (case and surrounding whitespace ignored).
pub open spec fn spec_ip_scan(s: Seq<char>) -> IpScan {
    let f = folded(s);
    if f == "6"@ || f == "v6"@ || f == "ipv6"@ {
        IpScan::V6
    } else if f == "both"@ || f == "all"@ || f == "dual"@ {
        IpScan::Both
    } else {
        IpScan::V4
    }
}

pub open spec fn spec_ip_scan_label(m: IpScan) -> Seq<char> {
    match m {
        IpScan::V4 => "ipv4"@,
        IpScan::V6 => "ipv6"@,
        IpScan::Both => "dual-stack"@,
    }
}

impl IpScan {
    pub fn parse(s: &str) -> (m: IpScan)
        ensures
            m == spec_ip_scan(s@),
    {
        let f = fold(s);
        if eq_str(&f, "6") || eq_str(&f, "v6") || eq_str(&f, "ipv6") {
            IpScan::V6
        } else if eq_str(&f, "both") || eq_str(&f, "all") || eq_str(&f, "dual") {
            IpScan::Both
        } else {
            IpScan::V4
        }
    }

    pub fn label(&self) -> (r: &'static str)
        ensures
            r@ == spec_ip_scan_label(*self),
    {
        match self {
            IpScan::V4 => "ipv4",
            IpScan::V6 => "ipv6",
            IpScan::Both => "dual-stack",
        }
    }

    /// IPv4 is scanned.
    pub open spec fn wants_v4(self) -> bool {
        self == IpScan::V4 || self == IpScan::Both
    }

    /// IPv6 is scanned.
    pub open spec fn wants_v6(self) -> bool {
        self == IpScan::V6 || self == IpScan::Both
    }

    pub fn want_v4(&self) -> (b: bool)
        ensures
            b == (*self == IpScan::V4 || *self == IpScan::Both),
            b == self.wants_v4(),
    {
        match self {
            IpScan::V4 | IpScan::Both => true,
            IpScan::V6 => false,
        }
    }

    pub fn want_v6(&self) -> (b: bool)
        ensures
            b == (*self == IpScan::V6 || *self == IpScan::Both),
            b == self.wants_v6(),
    {
        match self {
            IpScan::V6 | IpScan::Both => true,
            IpScan::V4 => false,
        }
    }
}

/// How hard a scan works.
#[derive(Debug, Clone, Copy, PartialEq, Eq, Structural)]
pub enum ScanMode {
    Turbo,
    Balanced,
    Thorough,
    Stealth,
    Ironclad,
}

/// One spelling per mode plus its aliases; anything else, a misspelling
/// included, is `Balanced`.
pub open spec fn spec_scan_mode(s: Seq<char>) -> ScanMode {
    let f = folded(s);
    if f == "turbo"@ || f == "fast"@ {
        ScanMode::Turbo
    } else if f == "thorough"@ || f == "deep"@ || f == "pro"@ {
        ScanMode::Thorough
    } else if f == "stealth"@ || f == "quiet"@ {
        ScanMode::Stealth
    } else if f == "ironclad"@ || f == "real"@ || f == "verify"@ || f == "guaranteed"@ {
        ScanMode::Ironclad
    } else {
        ScanMode::Balanced
    }
}

pub open spec fn spec_scan_mode_label(m: ScanMode) -> Seq<char> {
    match m {
        ScanMode::Turbo => "turbo"@,
        ScanMode::Balanced => "balanced"@,
        ScanMode::Thorough => "thorough"@,
        ScanMode::Stealth => "stealth"@,
        ScanMode::Ironclad => "ironclad"@,
    }
}

impl ScanMode {
    pub fn parse(s: &str) -> (m: ScanMode)
        ensures
            m == spec_scan_mode(s@),
    {
        let f = fold(s);
        if eq_str(&f, "turbo") || eq_str(&f, "fast") {
            ScanMode::Turbo
        } else if eq_str(&f, "thorough") || eq_str(&f, "deep") || eq_str(&f, "pro") {
            ScanMode::Thorough
        } else if eq_str(&f, "stealth") || eq_str(&f, "quiet") {
            ScanMode::Stealth
        } else if eq_str(&f, "ironclad") || eq_str(&f, "real") || eq_str(&f, "verify") || eq_str(
            &f,
            "guaranteed",
        ) {
            ScanMode::Ironclad
        } else {
            ScanMode::Balanced
        }
    }

    pub fn label(&self) -> (r: &'static str)
        ensures
            r@ == spec_scan_mode_label(*self),
    {
        match self {
            ScanMode::Turbo => "turbo",
            ScanMode::Balanced => "balanced",
            ScanMode::Thorough => "thorough",
            ScanMode::Stealth => "stealth",
            ScanMode::Ironclad => "ironclad",
        }
    }
}

/// Every mode's label parses back to that mode.
pub proof fn lemma_scan_mode_label_roundtrip(m: ScanMode)
    ensures
        spec_scan_mode(spec_scan_mode_label(m)) == m,
{
    reveal_strlit("turbo");
    reveal_strlit("fast");
    reveal_strlit("balanced");
    reveal_strlit("thorough");
    reveal_strlit("deep");
    reveal_strlit("pro");
    reveal_strlit("stealth");
    reveal_strlit("quiet");
    reveal_strlit("ironclad");
    reveal_strlit("real");
    reveal_strlit("verify");
    reveal_strlit("guaranteed");
    let l = spec_scan_mode_label(m);
    lemma_folded_plain(l);
}

/// Per-protocol tuning for the scan modes.
#[derive(Debug, Clone, Copy)]
pub struct StrategyProfile {
    pub turbo_sample: usize,
    pub balanced_target: usize,
    pub balanced_sample: usize,
    pub stealth_target: usize,
    pub stealth_sample: usize,
}

/// What a scan runs with. Durations are in milliseconds; a deadline of zero
/// means none.
#[derive(Debug, Clone, Copy)]
pub struct Strategy {
    pub concurrency: usize,
    pub per_probe_timeout_ms: u64,
    pub overall_deadline_ms: u64,
    pub quiet_after_first_ms: u64,
    pub target_successes: usize,
    pub early_exit_first: bool,
    pub full_subnet: bool,
    pub sample_per_cidr: usize,
}

pub open spec fn mk_strategy(
    concurrency: usize,
    per_probe_timeout_ms: u64,
    overall_deadline_ms: u64,
    quiet_after_first_ms: u64,
    target_successes: usize,
    early_exit_first: bool,
    full_subnet: bool,
    sample_per_cidr: usize,
) -> Strategy {
    Strategy {
        concurrency,
        per_probe_timeout_ms,
        overall_deadline_ms,
        quiet_after_first_ms,
        target_successes,
        early_exit_first,
        full_subnet,
        sample_per_cidr,
    }
}

/// The strategy table: one row per mode.
pub open spec fn spec_strategy(m: ScanMode, p: StrategyProfile) -> Strategy {
    match m {
        ScanMode::Turbo => mk_strategy(250, 1000, 15000, 0, 1, true, false, p.turbo_sample),
        ScanMode::Balanced => mk_strategy(
            200,
            1200,
            30000,
            8000,
            p.balanced_target,
            false,
            false,
            p.balanced_sample,
        ),
        ScanMode::Thorough => mk_strategy(250, 1500, 60000, 10000, 0, false, true, 0),
        ScanMode::Stealth => mk_strategy(
            8,
            3000,
            90000,
            15000,
            p.stealth_target,
            false,
            false,
            p.stealth_sample,
        ),
        ScanMode::Ironclad => mk_strategy(6, 5000, 120000, 15000, 3, false, false, p.balanced_sample),
    }
}

impl ScanMode {
    pub fn strategy(&self, profile: &StrategyProfile) -> (st: Strategy)
        ensures
            st == spec_strategy(*self, *profile),
    {
        match self {
            ScanMode::Turbo => Strategy {
                concurrency: 250,
                per_probe_timeout_ms: 1000,
                overall_deadline_ms: 15000,
                quiet_after_first_ms: 0,
                target_successes: 1,
                early_exit_first: true,
                full_subnet: false,
                sample_per_cidr: profile.turbo_sample,
            },
            ScanMode::Balanced => Strategy {
                concurrency: 200,
                per_probe_timeout_ms: 1200,
                overall_deadline_ms: 30000,
                quiet_after_first_ms: 8000,
                target_successes: profile.balanced_target,
                early_exit_first: false,
                full_subnet: false,
                sample_per_cidr: profile.balanced_sample,
            },
            ScanMode::Thorough => Strategy {
                concurrency: 250,
                per_probe_timeout_ms: 1500,
                overall_deadline_ms: 60000,
                quiet_after_first_ms: 10000,
                target_successes: 0,
                early_exit_first: false,
                full_subnet: true,
                sample_per_cidr: 0,
            },
            ScanMode::Stealth => Strategy {
                concurrency: 8,
                per_probe_timeout_ms: 3000,
                overall_deadline_ms: 90000,
                quiet_after_first_ms: 15000,
                target_successes: profile.stealth_target,
                early_exit_first: false,
                full_subnet: false,
                sample_per_cidr: profile.stealth_sample,
            },
            ScanMode::Ironclad => Strategy {
                concurrency: 6,
                per_probe_timeout_ms: 5000,
                overall_deadline_ms: 120000,
                quiet_after_first_ms: 15000,
                target_successes: 3,
                early_exit_first: false,
                full_subnet: false,
                sample_per_cidr: profile.balanced_sample,
            },
        }
    }
}

/// Which cache slot a scan reads and writes.
#[derive(Debug, Clone, Copy, PartialEq, Eq, Structural)]
pub enum CacheKind {
    Masque,
    WireGuard,
}

/// How expensive one verify probe is.
#[derive(Debug, Clone, Copy, PartialEq, Eq, Structural)]
pub enum VerifyCost {
    Cheap,
    Expensive,
}

/// Ceiling on a sized scan budget.
pub const MAX_SCAN_DEADLINE_MS: u64 = 300000;
/// Per-probe floor for expensive verification.
pub const EXPENSIVE_MIN_TIMEOUT_MS: u64 = 6000;
pub const EXPENSIVE_DEFAULT_CONCURRENCY: usize = 8;
pub const EXPENSIVE_MAX_CONCURRENCY: usize = 16;
/// Ceiling on any scan's concurrency.
pub const MAX_CONCURRENCY: usize = 1000;

/// Static description of the address pool and cache slot a scan uses.
pub struct ProbeConfig {
    pub verify_cost: VerifyCost,
    pub cidrs_v4: &'static [&'static str],
    pub cidrs_v6: &'static [&'static str],
    pub cidr_weights_v4: &'static [(&'static str, u8)],
    pub seeds_v4: &'static [&'static str],
    pub seeds_v6: &'static [&'static str],
    pub cache_kind: CacheKind,
    /// Human-readable label for log lines.
    pub label: &'static str,
    /// Path the cache is persisted under.
    pub config_path: String,
    /// Protocol-specific strategy tuning.
    pub profile: StrategyProfile,
}

impl ProbeConfig {
    /// A small fixed configuration for exercising the planner.
    pub fn for_test() -> (c: ProbeConfig)
        ensures
            c.verify_cost == VerifyCost::Cheap,
            c.cache_kind == CacheKind::Masque,
            c.cidrs_v4@.len() == 1,
            c.cidrs_v6@.len() == 0,
            c.cidr_weights_v4@.len() == 1,
            c.cidr_weights_v4@[0].1 == 1,
            c.seeds_v4@.len() == 2,
            c.seeds_v6@.len() == 0,
            c.config_path@.len() == 0,
            c.profile.turbo_sample == 2 && c.profile.balanced_target == 1
                && c.profile.balanced_sample == 2 && c.profile.stealth_target == 1
                && c.profile.stealth_sample == 2,
    {
        ProbeConfig {
            verify_cost: VerifyCost::Cheap,
            cidrs_v4: &["10.0.0.0/24"],
            cidrs_v6: &[],
            cidr_weights_v4: &[("10.0.0.0/24", 1)],
            seeds_v4: &["10.0.0.1", "10.0.0.2"],
            seeds_v6: &[],
            cache_kind: CacheKind::Masque,
            label: "test",
            config_path: String::new(),
            profile: StrategyProfile {
                turbo_sample: 2,
                balanced_target: 1,
                balanced_sample: 2,
                stealth_target: 1,
                stealth_sample: 2,
            },
        }
    }
}

pub open spec fn min_u64(a: u64, b: u64) -> u64 {
    if a <= b { a } else { b }
}

pub open spec fn max_u64(a: u64, b: u64) -> u64 {
    if a >= b { a } else { b }
}

pub open spec fn min_usize(a: usize, b: usize) -> usize {
    if a <= b { a } else { b }
}

pub open spec fn max_usize(a: usize, b: usize) -> usize {
    if a >= b { a } else { b }
}

/// The strategy a scan finally runs with: the expensive-probe baseline, then
/// the user's overrides, then the safety limits no setting can lift, then the
/// exhaustive switch.
pub open spec fn spec_effective_strategy(
    st: Strategy,
    cost: VerifyCost,
    concurrency_override: Option<usize>,
    timeout_override_ms: Option<u64>,
    exhaustive: bool,
) -> Strategy {
    let expensive = cost == VerifyCost::Expensive;
    let c0 = if expensive { min_usize(st.concurrency, EXPENSIVE_DEFAULT_CONCURRENCY) } else { st.concurrency };
    let t0 = if expensive { max_u64(st.per_probe_timeout_ms, EXPENSIVE_MIN_TIMEOUT_MS) } else { st.per_probe_timeout_ms };
    let c1 = match concurrency_override { Some(c) => max_usize(c, 1), None => c0 };
    let t1 = match timeout_override_ms { Some(t) => t, None => t0 };
    let c2 = min_usize(c1, MAX_CONCURRENCY);
    let c3 = if expensive { min_usize(c2, EXPENSIVE_MAX_CONCURRENCY) } else { c2 };
    let t3 = if expensive { max_u64(t1, EXPENSIVE_MIN_TIMEOUT_MS) } else { t1 };
    Strategy {
        concurrency: c3,
        per_probe_timeout_ms: t3,
        overall_deadline_ms: if exhaustive { 0 } else { st.overall_deadline_ms },
        quiet_after_first_ms: if exhaustive { 0 } else { st.quiet_after_first_ms },
        target_successes: if exhaustive { 0 } else { st.target_successes },
        early_exit_first: if exhaustive { false } else { st.early_exit_first },
        full_subnet: st.full_subnet,
        sample_per_cidr: st.sample_per_cidr,
    }
}

/// An exhaustive scan has no stopping rule of its own: whatever mode and
/// overrides it starts from, it neither exits on its first hit nor stops at
/// a target, a deadline or the end of a quiet window; a scan that is not
/// exhaustive keeps its mode's stopping rules as they are. Neither touches
/// how the pool is drawn.
pub proof fn lemma_exhaustive_runs_until_stopped(
    st: Strategy,
    cost: VerifyCost,
    concurrency_override: Option<usize>,
    timeout_override_ms: Option<u64>,
)
    ensures
        ({
            let r = spec_effective_strategy(st, cost, concurrency_override, timeout_override_ms, true);
            &&& !r.early_exit_first
            &&& r.target_successes == 0
            &&& r.overall_deadline_ms == 0
            &&& r.quiet_after_first_ms == 0
            &&& r.full_subnet == st.full_subnet && r.sample_per_cidr == st.sample_per_cidr
        }),
        ({
            let r = spec_effective_strategy(st, cost, concurrency_override, timeout_override_ms, false);
            &&& r.early_exit_first == st.early_exit_first
            &&& r.target_successes == st.target_successes
            &&& r.overall_deadline_ms == st.overall_deadline_ms
            &&& r.quiet_after_first_ms == st.quiet_after_first_ms
        }),
{
}

/// Applies the cost baseline, the `AETHER_SCAN_CONCURRENCY` and
/// `AETHER_SCAN_TIMEOUT_MS` overrides, the safety limits and the exhaustive
/// switch to a mode's strategy.
pub fn effective_strategy(
    st: Strategy,
    cost: VerifyCost,
    concurrency_override: Option<usize>,
    timeout_override_ms: Option<u64>,
    exhaustive: bool,
) -> (r: Strategy)
    ensures
        r == spec_effective_strategy(st, cost, concurrency_override, timeout_override_ms, exhaustive),
        1 <= r.concurrency || st.concurrency == 0 && concurrency_override is None,
        r.concurrency <= MAX_CONCURRENCY,
        cost == VerifyCost::Expensive ==> r.concurrency <= EXPENSIVE_MAX_CONCURRENCY
            && r.per_probe_timeout_ms >= EXPENSIVE_MIN_TIMEOUT_MS,
        exhaustive ==> !r.early_exit_first && r.target_successes == 0 && r.overall_deadline_ms == 0
            && r.quiet_after_first_ms == 0,
        !exhaustive ==> r.early_exit_first == st.early_exit_first && r.target_successes == st.target_successes
            && r.overall_deadline_ms == st.overall_deadline_ms && r.quiet_after_first_ms == st.quiet_after_first_ms,
        r.full_subnet == st.full_subnet && r.sample_per_cidr == st.sample_per_cidr,
{
    let mut st = st;
    let expensive = match cost {
        VerifyCost::Expensive => true,
        VerifyCost::Cheap => false,
    };
    if expensive {
        if st.per_probe_timeout_ms < EXPENSIVE_MIN_TIMEOUT_MS {
            st.per_probe_timeout_ms = EXPENSIVE_MIN_TIMEOUT_MS;
        }
        if st.concurrency > EXPENSIVE_DEFAULT_CONCURRENCY {
            st.concurrency = EXPENSIVE_DEFAULT_CONCURRENCY;
        }
    }
    if let Some(c) = concurrency_override {
        st.concurrency = if c < 1 { 1 } else { c };
    }
    if let Some(ms) = timeout_override_ms {
        st.per_probe_timeout_ms = ms;
    }
    if st.concurrency > MAX_CONCURRENCY {
        st.concurrency = MAX_CONCURRENCY;
    }
    if expensive {
        if st.per_probe_timeout_ms < EXPENSIVE_MIN_TIMEOUT_MS {
            st.per_probe_timeout_ms = EXPENSIVE_MIN_TIMEOUT_MS;
        }
        if st.concurrency > EXPENSIVE_MAX_CONCURRENCY {
            st.concurrency = EXPENSIVE_MAX_CONCURRENCY;
        }
    }
    if exhaustive {
        st.target_successes = 0;
        st.early_exit_first = false;
        st.overall_deadline_ms = 0;
        st.quiet_after_first_ms = 0;
    }
    st
}

/// `x * y`, or `u64::MAX` when that does not fit.
pub open spec fn sat_mul(x: u64, y: u64) -> u64 {
    if x * y <= u64::MAX { (x * y) as u64 } else { u64::MAX }
}

/// The budget sized from the queued work: waves of `concurrency` probes, each
/// costing at most the per-probe timeout, plus two waves of slack (the wave
/// count taken modulo 2^32, as the duration arithmetic takes it), never below
/// the mode's own deadline and never above the ceiling.
pub open spec fn spec_sized_deadline(st: Strategy, total_candidates: usize) -> u64 {
    let conc = if st.concurrency == 0 { 1 } else { st.concurrency as int };
    let waves = (total_candidates as int + conc - 1) / conc;
    let factor = ((if waves + 2 <= u64::MAX { waves + 2 } else { u64::MAX as int }) % 0x1_0000_0000) as u64;
    min_u64(max_u64(sat_mul(st.per_probe_timeout_ms, factor), st.overall_deadline_ms), MAX_SCAN_DEADLINE_MS)
}

/// Overall deadline for a non-exhaustive scan of `total_candidates`.
pub fn sized_deadline(st: &Strategy, total_candidates: usize) -> (d: u64)
    ensures
        d == spec_sized_deadline(*st, total_candidates),
        d <= MAX_SCAN_DEADLINE_MS,
{
    let conc: usize = if st.concurrency == 0 { 1 } else { st.concurrency };
    let q = total_candidates / conc;
    let r = total_candidates % conc;
    proof {
        assert(r != 0 ==> q < total_candidates) by (nonlinear_arith)
            requires
                conc >= 1,
                q == total_candidates / conc,
                r == total_candidates % conc,
        ;
    }
    let waves: u64 = (q + if r != 0 { 1 } else { 0 }) as u64;
    proof {
        let c = conc as int;
        let t = total_candidates as int;
        assert((t + c - 1) / c == t / c + if t % c != 0 { 1int } else { 0int }) by (nonlinear_arith)
            requires c >= 1, t >= 0;
    }
    let w2: u64 = waves.saturating_add(2);
    let factor: u64 = w2 % 0x1_0000_0000;
    let needed: u64 = match st.per_probe_timeout_ms.checked_mul(factor) {
        Some(v) => v,
        None => u64::MAX,
    };
    let a = if needed >= st.overall_deadline_ms { needed } else { st.overall_deadline_ms };
    if a <= MAX_SCAN_DEADLINE_MS { a } else { MAX_SCAN_DEADLINE_MS }
}

/// The scan registry seen as values: the newest generation handed out, the
/// live scans in registration order with whether each was cancelled, and the
/// newest generation a Stop was requested against.
pub struct RegistryView {
    pub generation: u64,
    pub live: Seq<(u64, bool)>,
    pub stop: u64,
}

/// Generations of live scans increase along the list, none is newer than the
/// counter, and no Stop names a generation not yet handed out.
pub open spec fn registry_wf(v: RegistryView) -> bool {
    &&& forall|i: int, j: int| 0 <= i < j < v.live.len() ==> v.live[i].0 < v.live[j].0
    &&& forall|i: int| 0 <= i < v.live.len() ==> 1 <= #[trigger] v.live[i].0 <= v.generation
    &&& v.stop <= v.generation
}

/// Registering a scan hands out the next generation, not cancelled.
pub open spec fn spec_register(v: RegistryView) -> RegistryView {
    RegistryView {
        generation: (v.generation + 1) as u64,
        live: v.live.push(((v.generation + 1) as u64, false)),
        stop: v.stop,
    }
}

/// A Stop covers the generation current now and cancels every live scan.
pub open spec fn spec_request_cancel(v: RegistryView) -> RegistryView {
    RegistryView {
        generation: v.generation,
        live: v.live.map_values(|e: (u64, bool)| (e.0, true)),
        stop: v.generation,
    }
}

/// A cancel of one scan's own token: that scan is marked cancelled and
/// nothing else changes.
pub open spec fn spec_cancel_scan(v: RegistryView, gen: u64) -> RegistryView {
    RegistryView {
        generation: v.generation,
        live: v.live.map_values(|e: (u64, bool)| if e.0 == gen { (e.0, true) } else { e }),
        stop: v.stop,
    }
}

/// Whether `gen` is a live scan that was cancelled.
pub open spec fn live_cancelled(v: RegistryView, gen: u64) -> bool {
    exists|i: int| 0 <= i < v.live.len() && v.live[i].0 == gen && v.live[i].1
}

/// Whether `gen` is live at all.
pub open spec fn is_live(v: RegistryView, gen: u64) -> bool {
    exists|i: int| 0 <= i < v.live.len() && v.live[i].0 == gen
}

/// Cancellation as one scan sees it: a Stop raised while it or a newer scan
/// was live, or a cancel of its own token.
pub open spec fn spec_cancelled_for(v: RegistryView, gen: u64) -> bool {
    (v.stop != 0 && v.stop >= gen) || live_cancelled(v, gen)
}

/// Cancellation as the newest scan sees it, or any live scan cancelled.
pub open spec fn spec_any_cancelled(v: RegistryView) -> bool {
    (v.stop != 0 && v.stop >= v.generation) || exists|i: int|
        0 <= i < v.live.len() && #[trigger] v.live[i].1
}

/// Retiring a scan drops its own entry and nothing else.
pub open spec fn spec_retire(v: RegistryView, gen: u64) -> RegistryView {
    if is_live(v, gen) {
        let i = choose|i: int| 0 <= i < v.live.len() && v.live[i].0 == gen;
        RegistryView { generation: v.generation, live: v.live.remove(i), stop: v.stop }
    } else {
        v
    }
}

/// Live scans and the Stop requests raised against them.
pub struct ScanRegistry {
    generation: u64,
    tokens: Vec<(u64, bool)>,
    cancelled_through: u64,
}

impl View for ScanRegistry {
    type V = RegistryView;

    closed spec fn view(&self) -> RegistryView {
        RegistryView { generation: self.generation, live: self.tokens@, stop: self.cancelled_through }
    }
}

impl ScanRegistry {
    pub fn new() -> (r: ScanRegistry)
        ensures
            r@.generation == 0,
            r@.live.len() == 0,
            r@.stop == 0,
            registry_wf(r@),
    {
        ScanRegistry { generation: 0, tokens: Vec::new(), cancelled_through: 0 }
    }

    /// Mints a run id for one scan.
    pub fn register(&mut self) -> (gen: u64)
        requires
            registry_wf(old(self)@),
            old(self)@.generation < u64::MAX,
        ensures
            final(self)@ == spec_register(old(self)@),
            gen == final(self)@.generation,
            gen > old(self)@.generation,
            registry_wf(final(self)@),
    {
        let ghost old_live = self.tokens@;
        let ghost old_gen = self.generation;
        assert(old(self)@.live == old_live);
        self.generation = self.generation + 1;
        let gen = self.generation;
        self.tokens.push((gen, false));
        proof {
            assert forall|i: int, j: int| 0 <= i < j < self.tokens@.len() implies self.tokens@[i].0
                < self.tokens@[j].0 by {
                assert(self.tokens@[i] == old_live[i]);
                assert(1 <= old_live[i].0 <= old_gen);
                if j < old_live.len() {
                    assert(self.tokens@[j] == old_live[j]);
                    assert(old_live[i].0 < old_live[j].0);
                }
            }
            assert forall|i: int| 0 <= i < self.tokens@.len() implies 1 <= #[trigger] self.tokens@[i].0
                <= self.generation by {
                if i < old_live.len() {
                    assert(self.tokens@[i] == old_live[i]);
                    assert(1 <= old_live[i].0 <= old_gen);
                }
            }
        }
        gen
    }

    /// A Stop: covers the current generation and cancels every live scan.
    /// Returns `true` when nothing was running, so the Stop goes nowhere.
    pub fn request_cancel(&mut self) -> (stale: bool)
        requires
            registry_wf(old(self)@),
        ensures
            final(self)@ == spec_request_cancel(old(self)@),
            stale == (old(self)@.live.len() == 0),
            registry_wf(final(self)@),
    {
        self.cancelled_through = self.generation;
        let stale = self.tokens.len() == 0;
        let ghost old_live = self.tokens@;
        let ghost g0 = self.generation;
        assert(old_live =~= old(self)@.live);
        assert(registry_wf(old(self)@));
        let mut i: usize = 0;
        while i < self.tokens.len()
            invariant
                self.generation == g0,
                self.cancelled_through == g0,
                self.tokens@.len() == old_live.len(),
                i <= self.tokens@.len(),
                forall|k: int| 0 <= k < i ==> #[trigger] self.tokens@[k] == (old_live[k].0, true),
                forall|k: int| i <= k < self.tokens@.len() ==> #[trigger] self.tokens@[k] == old_live[k],
            decreases self.tokens@.len() - i,
        {
            let g = self.tokens[i].0;
            self.tokens.set(i, (g, true));
            i += 1;
        }
        assert(self.tokens@ =~= old_live.map_values(|e: (u64, bool)| (e.0, true)));
        assert forall|a: int, b: int| 0 <= a < b < self.tokens@.len() implies self.tokens@[a].0
            < self.tokens@[b].0 by {
            assert(self.tokens@[a].0 == old_live[a].0);
            assert(self.tokens@[b].0 == old_live[b].0);
            assert(old(self)@.live[a].0 < old(self)@.live[b].0);
        }
        assert forall|a: int| 0 <= a < self.tokens@.len() implies 1 <= #[trigger] self.tokens@[a].0
            <= self.generation by {
            assert(self.tokens@[a].0 == old_live[a].0);
            assert(1 <= old(self)@.live[a].0 <= old(self)@.generation);
        }
        stale
    }

    /// Cancels scan `gen` through its own token; returns whether it was live.
    pub fn cancel_scan(&mut self, gen: u64) -> (found: bool)
        requires
            registry_wf(old(self)@),
        ensures
            final(self)@ == spec_cancel_scan(old(self)@, gen),
            found == is_live(old(self)@, gen),
            registry_wf(final(self)@),
    {
        let ghost old_live = self.tokens@;
        assert(old_live =~= old(self)@.live);
        let mut found = false;
        let mut i: usize = 0;
        while i < self.tokens.len()
            invariant
                self.generation == old(self)@.generation,
                self.cancelled_through == old(self)@.stop,
                self.tokens@.len() == old_live.len(),
                i <= self.tokens@.len(),
                forall|k: int| 0 <= k < i ==> #[trigger] self.tokens@[k] == (if old_live[k].0 == gen {
                    (old_live[k].0, true)
                } else {
                    old_live[k]
                }),
                forall|k: int| i <= k < self.tokens@.len() ==> #[trigger] self.tokens@[k] == old_live[k],
                found == exists|k: int| 0 <= k < i && old_live[k].0 == gen,
            decreases self.tokens@.len() - i,
        {
            let (g, c) = self.tokens[i];
            if g == gen {
                self.tokens.set(i, (g, true));
                found = true;
            }
            proof {
                if !found || g != gen {
                    assert((exists|k: int| 0 <= k < i + 1 && old_live[k].0 == gen) == (exists|k: int| 0 <= k < i && old_live[k].0 == gen));
                } else {
                    assert(old_live[i as int].0 == gen);
                }
            }
            i += 1;
        }
        assert(self@.live =~= spec_cancel_scan(old(self)@, gen).live) by {
            assert forall|k: int| 0 <= k < self@.live.len() implies self@.live[k] == spec_cancel_scan(old(self)@, gen).live[k] by {
                assert(old(self)@.live[k] == old_live[k]);
            }
        }
        assert forall|a: int, b: int| 0 <= a < b < self.tokens@.len() implies self.tokens@[a].0
            < self.tokens@[b].0 by {
            assert(self.tokens@[a].0 == old_live[a].0);
            assert(self.tokens@[b].0 == old_live[b].0);
            assert(old(self)@.live[a].0 < old(self)@.live[b].0);
        }
        assert forall|a: int| 0 <= a < self.tokens@.len() implies 1 <= #[trigger] self.tokens@[a].0
            <= self.generation by {
            assert(self.tokens@[a].0 == old_live[a].0);
            assert(1 <= old(self)@.live[a].0 <= old(self)@.generation);
        }
        found
    }

    /// Whether the newest scan, or any live scan, has been cancelled.
    pub fn any_cancelled(&self) -> (b: bool)
        ensures
            b == spec_any_cancelled(self@),
    {
        if self.cancelled_through != 0 && self.cancelled_through >= self.generation {
            return true;
        }
        let mut i: usize = 0;
        while i < self.tokens.len()
            invariant
                i <= self.tokens@.len(),
                forall|k: int| 0 <= k < i ==> !(#[trigger] self.tokens@[k]).1,
            decreases self.tokens@.len() - i,
        {
            if self.tokens[i].1 {
                assert(self@.live[i as int].1);
                return true;
            }
            i += 1;
        }
        false
    }

    /// Whether scan `gen` has been cancelled.
    pub fn cancelled_for(&self, gen: u64) -> (b: bool)
        ensures
            b == spec_cancelled_for(self@, gen),
    {
        if self.cancelled_through != 0 && self.cancelled_through >= gen {
            return true;
        }
        let mut i: usize = 0;
        while i < self.tokens.len()
            invariant
                i <= self.tokens@.len(),
                forall|k: int| 0 <= k < i ==> !((#[trigger] self.tokens@[k]).0 == gen && self.tokens@[k].1),
            decreases self.tokens@.len() - i,
        {
            if self.tokens[i].0 == gen && self.tokens[i].1 {
                assert(self@.live[i as int].0 == gen && self@.live[i as int].1);
                return true;
            }
            i += 1;
        }
        false
    }

    /// Retires scan `gen`; returns whether it was live.
    pub fn retire(&mut self, gen: u64) -> (found: bool)
        requires
            registry_wf(old(self)@),
        ensures
            final(self)@ == spec_retire(old(self)@, gen),
            found == is_live(old(self)@, gen),
            registry_wf(final(self)@),
    {
        let ghost v = self@;
        let mut i: usize = 0;
        while i < self.tokens.len()
            invariant
                self@ == v,
                v == old(self)@,
                registry_wf(v),
                i <= self.tokens@.len(),
                forall|k: int| 0 <= k < i ==> (#[trigger] self.tokens@[k]).0 != gen,
            decreases self.tokens@.len() - i,
        {
            if self.tokens[i].0 == gen {
                proof {
                    assert(v.live[i as int].0 == gen);
                    let j = choose|j: int| 0 <= j < v.live.len() && v.live[j].0 == gen;
                    if j < i {
                        assert(v.live[j].0 < v.live[i as int].0);
                    } else if j > i {
                        assert(v.live[i as int].0 < v.live[j].0);
                    }
                    assert(j == i);
                    assert(is_live(v, gen));
                }
                self.tokens.remove(i);
                assert(self@.live =~= v.live.remove(i as int));
                return true;
            }
            i += 1;
        }
        false
    }
}

/// A Stop pressed before a scan registers never reaches that scan.
pub proof fn lemma_stale_stop_not_inherited(v: RegistryView)
    requires
        registry_wf(v),
        v.generation < u64::MAX,
    ensures
        !spec_cancelled_for(
            spec_register(spec_request_cancel(v)),
            spec_register(spec_request_cancel(v)).generation,
        ),
{
    let w = spec_register(spec_request_cancel(v));
    let g = w.generation;
    assert forall|i: int| 0 <= i < w.live.len() && w.live[i].0 == g implies !w.live[i].1 by {
        if i < v.live.len() {
            assert(w.live[i] == (v.live[i].0, true));
            assert(v.live[i].0 <= v.generation);
        }
    }
}

/// A scan whose own token is cancelled sees itself cancelled, and no other
/// scan's state changes.
pub proof fn lemma_token_cancel_reaches_its_scan(v: RegistryView, gen: u64, other: u64)
    requires
        registry_wf(v),
        is_live(v, gen),
        other != gen,
    ensures
        spec_cancelled_for(spec_cancel_scan(v, gen), gen),
        spec_cancelled_for(spec_cancel_scan(v, gen), other) == spec_cancelled_for(v, other),
        is_live(spec_cancel_scan(v, gen), other) == is_live(v, other),
{
    let w = spec_cancel_scan(v, gen);
    let i = choose|i: int| 0 <= i < v.live.len() && v.live[i].0 == gen;
    assert(w.live[i] == (gen, true));
    if live_cancelled(v, other) {
        let j = choose|j: int| 0 <= j < v.live.len() && v.live[j].0 == other && v.live[j].1;
        assert(w.live[j] == v.live[j]);
    }
    if live_cancelled(w, other) {
        let j = choose|j: int| 0 <= j < w.live.len() && w.live[j].0 == other && w.live[j].1;
        assert(w.live[j] == v.live[j]);
    }
    if is_live(v, other) {
        let j = choose|j: int| 0 <= j < v.live.len() && v.live[j].0 == other;
        assert(w.live[j].0 == other);
    }
    if is_live(w, other) {
        let j = choose|j: int| 0 <= j < w.live.len() && w.live[j].0 == other;
        assert(v.live[j].0 == other);
    }
}

/// A Stop reaches every scan that is live when it is pressed.
pub proof fn lemma_stop_reaches_every_live_scan(v: RegistryView, gen: u64)
    requires
        registry_wf(v),
        is_live(v, gen),
    ensures
        spec_cancelled_for(spec_request_cancel(v), gen),
{
    let i = choose|i: int| 0 <= i < v.live.len() && v.live[i].0 == gen;
    assert(1 <= v.live[i].0 <= v.generation);
}

/// Retiring one scan leaves every other scan's state as it was.
pub proof fn lemma_retire_is_local(v: RegistryView, gen: u64, other: u64)
    requires
        registry_wf(v),
        other != gen,
    ensures
        is_live(spec_retire(v, gen), other) == is_live(v, other),
        spec_cancelled_for(spec_retire(v, gen), other) == spec_cancelled_for(v, other),
{
    if is_live(v, gen) {
        let i = choose|i: int| 0 <= i < v.live.len() && v.live[i].0 == gen;
        let w = spec_retire(v, gen);
        assert(w.live == v.live.remove(i));
        if is_live(v, other) {
            let j = choose|j: int| 0 <= j < v.live.len() && v.live[j].0 == other;
            if j < i {
                assert(w.live[j] == v.live[j]);
            } else {
                assert(w.live[j - 1] == v.live[j]);
            }
        }
        if is_live(w, other) {
            let j = choose|j: int| 0 <= j < w.live.len() && w.live[j].0 == other;
            if j < i {
                assert(w.live[j] == v.live[j]);
            } else {
                assert(w.live[j] == v.live[j + 1]);
            }
        }
        if live_cancelled(v, other) {
            let j = choose|j: int| 0 <= j < v.live.len() && v.live[j].0 == other && v.live[j].1;
            if j < i {
                assert(w.live[j] == v.live[j]);
            } else {
                assert(w.live[j - 1] == v.live[j]);
            }
        }
        if live_cancelled(w, other) {
            let j = choose|j: int| 0 <= j < w.live.len() && w.live[j].0 == other && w.live[j].1;
            if j < i {
                assert(w.live[j] == v.live[j]);
            } else {
                assert(w.live[j] == v.live[j + 1]);
            }
        }
    }
}

/// The run id of one scan; handing it back to the registry retires the scan.
pub struct ScanRunGuard(pub u64);

impl ScanRunGuard {
    /// Retires this guard's scan, whatever else is live.
    pub fn release(self, reg: &mut ScanRegistry) -> (found: bool)
        requires
            registry_wf(old(reg)@),
        ensures
            final(reg)@ == spec_retire(old(reg)@, self.0),
            found == is_live(old(reg)@, self.0),
            registry_wf(final(reg)@),
    {
        reg.retire(self.0)
    }
}

/// Stop every live scan; `true` when nothing was running.
pub fn request_scan_cancel(reg: &mut ScanRegistry) -> (stale: bool)
    requires
        registry_wf(old(reg)@),
    ensures
        final(reg)@ == spec_request_cancel(old(reg)@),
        stale == (old(reg)@.live.len() == 0),
        registry_wf(final(reg)@),
{
    reg.request_cancel()
}

/// Whether the newest scan, or any live one, has been cancelled.
pub fn scan_cancelled(reg: &ScanRegistry) -> (b: bool)
    ensures
        b == spec_any_cancelled(reg@),
{
    reg.any_cancelled()
}

/// Cancellation as seen by scan `gen`.
pub fn scan_cancelled_for(reg: &ScanRegistry, gen: u64) -> (b: bool)
    ensures
        b == spec_cancelled_for(reg@, gen),
{
    reg.cancelled_for(gen)
}

/// Registers a new scan and returns its run id.
pub fn register_scan_session(reg: &mut ScanRegistry) -> (gen: u64)
    requires
        registry_wf(old(reg)@),
        old(reg)@.generation < u64::MAX,
    ensures
        final(reg)@ == spec_register(old(reg)@),
        gen == final(reg)@.generation,
        registry_wf(final(reg)@),
{
    reg.register()
}

/// Progress accounting for one scan: queued candidates done, drill-down
/// probes (never queued, so counted apart), and the total announced up front.
#[derive(Debug, Clone, Copy, PartialEq, Eq)]
pub struct ScanTally {
    scanned: usize,
    drill_probes: usize,
    total: usize,
}

impl Default for ScanTally {
    fn default() -> (t: ScanTally)
        ensures
            t.scanned_count() == 0 && t.drill_count() == 0 && t.total_count() == 0,
    {
        ScanTally { scanned: 0, drill_probes: 0, total: 0 }
    }
}

impl ScanTally {
    pub closed spec fn scanned_count(&self) -> usize {
        self.scanned
    }

    pub closed spec fn drill_count(&self) -> usize {
        self.drill_probes
    }

    pub closed spec fn total_count(&self) -> usize {
        self.total
    }

    /// What the UI may be told: never more than the total it was promised.
    pub open spec fn spec_reported(&self) -> usize {
        min_usize(self.scanned_count(), self.total_count())
    }

    pub open spec fn spec_is_complete(&self) -> bool {
        self.scanned_count() >= self.total_count()
    }

    pub fn new(total: usize) -> (t: ScanTally)
        ensures
            t.scanned_count() == 0,
            t.drill_count() == 0,
            t.total_count() == total,
    {
        ScanTally { scanned: 0, drill_probes: 0, total }
    }

    /// One queued candidate came back, hit or miss.
    /// (The count stops at `usize::MAX`, which no sweep can reach.)
    pub fn candidate_done(&mut self)
        ensures
            old(self).scanned_count() < usize::MAX ==> final(self).scanned_count() == old(self).scanned_count() + 1,
            old(self).scanned_count() == usize::MAX ==> final(self).scanned_count() == usize::MAX,
            final(self).drill_count() == old(self).drill_count(),
            final(self).total_count() == old(self).total_count(),
    {
        self.scanned = self.scanned.saturating_add(1);
    }

    /// A drill-down wave examined `examined` neighbours nobody queued.
    pub fn drill_down_done(&mut self, examined: usize)
        ensures
            final(self).scanned_count() == old(self).scanned_count(),
            old(self).drill_count() + examined <= usize::MAX ==> final(self).drill_count()
                == old(self).drill_count() + examined,
            old(self).drill_count() + examined > usize::MAX ==> final(self).drill_count() == usize::MAX,
            final(self).total_count() == old(self).total_count(),
    {
        self.drill_probes = self.drill_probes.saturating_add(examined);
    }

    pub fn reported(&self) -> (n: usize)
        ensures
            n == self.spec_reported(),
            n <= self.total_count(),
    {
        if self.scanned <= self.total { self.scanned } else { self.total }
    }

    pub fn drill_probes(&self) -> (n: usize)
        ensures
            n == self.drill_count(),
    {
        self.drill_probes
    }

    /// Total probe work, saturating.
    pub fn probes_sent(&self) -> (n: usize)
        ensures
            self.scanned_count() + self.drill_count() <= usize::MAX ==> n == self.scanned_count()
                + self.drill_count(),
            self.scanned_count() + self.drill_count() > usize::MAX ==> n == usize::MAX,
    {
        self.scanned.saturating_add(self.drill_probes)
    }

    /// Terminal condition; overshoot cannot strand it.
    pub fn is_complete(&self) -> (b: bool)
        ensures
            b == self.spec_is_complete(),
    {
        self.scanned >= self.total
    }

    /// A progress event every 50 candidates, and always at completion.
    pub fn should_report(&self) -> (b: bool)
        ensures
            b == (self.spec_reported() % 50 == 0 || self.spec_is_complete()),
            self.spec_is_complete() ==> b,
    {
        self.reported() % 50 == 0 || self.is_complete()
    }
}

/// What a tally is told, in order: a queued candidate came back (`true`),
/// or a drill-down wave finished (`false`).
pub open spec fn candidates_in(events: Seq<bool>) -> nat
    decreases events.len(),
{
    if events.len() == 0 {
        0
    } else {
        candidates_in(events.drop_last()) + if events.last() { 1nat } else { 0nat }
    }
}

/// The scanned count after `events` on a fresh tally, each candidate
/// counted as `candidate_done` counts it and each wave leaving it as
/// `drill_down_done` does.
pub open spec fn scanned_after(events: Seq<bool>) -> usize
    decreases events.len(),
{
    if events.len() == 0 {
        0
    } else {
        let s = scanned_after(events.drop_last());
        if events.last() && s < usize::MAX { (s + 1) as usize } else { s }
    }
}

proof fn lemma_scanned_after(events: Seq<bool>)
    ensures
        scanned_after(events) == (if candidates_in(events) <= usize::MAX { candidates_in(events) } else { usize::MAX as nat }),
    decreases events.len(),
{
    if events.len() > 0 {
        lemma_scanned_after(events.drop_last());
    }
}

/// Whatever mix of candidates and drill-down waves a fresh tally over
/// `total` candidates was told, with `k` candidates among them: it reports
/// `min(k, total)`, never more than the total, and it is complete exactly
/// when `k >= total`, however far `k` overshoots; drill-down waves change
/// neither.
pub proof fn lemma_tally_reports_queued_work(t: ScanTally, events: Seq<bool>)
    requires
        t.scanned_count() == scanned_after(events),
    ensures
        t.spec_reported() == (if candidates_in(events) <= t.total_count() { candidates_in(events) } else { t.total_count() as nat }),
        t.spec_reported() <= t.total_count(),
        t.spec_is_complete() == (candidates_in(events) >= t.total_count()),
        scanned_after(events.push(false)) == scanned_after(events),
{
    lemma_scanned_after(events);
    assert(events.push(false).drop_last() =~= events);
}

/// Both directions from `current`, saturating and confined to the usable
/// hosts of a /24: the neighbours in offset order, each once, never `current`.
pub open spec fn neighbor_candidates(current: u32, offsets: Seq<u32>) -> Seq<u32>
    decreases offsets.len(),
{
    if offsets.len() == 0 {
        seq![]
    } else {
        let o = offsets.last();
        let up = if current + o <= u32::MAX { (current + o) as u32 } else { u32::MAX };
        let down = if current >= o { (current - o) as u32 } else { 0u32 };
        neighbor_candidates(current, offsets.drop_last()).push(up).push(down)
    }
}

/// Keeps, in order, the first occurrence of each value that is a usable host
/// other than `current`.
pub open spec fn keep_hosts(current: u32, cands: Seq<u32>) -> Seq<u32>
    decreases cands.len(),
{
    if cands.len() == 0 {
        seq![]
    } else {
        let prev = keep_hosts(current, cands.drop_last());
        let h = cands.last();
        if h != current && 1 <= h <= 254 && !prev.contains(h) {
            prev.push(h)
        } else {
            prev
        }
    }
}

pub open spec fn spec_neighbor_hosts(current: u32, offsets: Seq<u32>) -> Seq<u32> {
    keep_hosts(current, neighbor_candidates(current, offsets))
}

proof fn lemma_keep_hosts_props(current: u32, cands: Seq<u32>)
    ensures
        forall|i: int| 0 <= i < keep_hosts(current, cands).len() ==> {
            let h = #[trigger] keep_hosts(current, cands)[i];
            h != current && 1 <= h <= 254
        },
        forall|i: int, j: int| 0 <= i < j < keep_hosts(current, cands).len() ==> keep_hosts(current, cands)[i]
            != keep_hosts(current, cands)[j],
    decreases cands.len(),
{
    if cands.len() > 0 {
        let prev = keep_hosts(current, cands.drop_last());
        lemma_keep_hosts_props(current, cands.drop_last());
        let h = cands.last();
        let k = keep_hosts(current, cands);
        if h != current && 1 <= h <= 254 && !prev.contains(h) {
            assert(k == prev.push(h));
            assert forall|i: int| 0 <= i < prev.len() implies prev[i] != h by {
                if prev[i] == h {
                    assert(prev.contains(h));
                }
            }
            assert forall|i: int, j: int| 0 <= i < j < k.len() implies k[i] != k[j] by {
                if j < prev.len() {
                    assert(k[i] == prev[i] && k[j] == prev[j]);
                } else {
                    assert(k[j] == h && k[i] == prev[i]);
                }
            }
            assert forall|i: int| 0 <= i < k.len() implies {
                let x = #[trigger] k[i];
                x != current && 1 <= x <= 254
            } by {
                if i < prev.len() {
                    assert(k[i] == prev[i]);
                }
            }
        } else {
            assert(k == prev);
        }
    }
}

/// Stage-2 neighbours of a hit at host `current` of a /24.
pub fn v4_neighbor_hosts(current: u32, offsets: &[u32]) -> (out: Vec<u32>)
    ensures
        out@ == spec_neighbor_hosts(current, offsets@),
        forall|i: int| 0 <= i < out@.len() ==> out@[i] != current && 1 <= #[trigger] out@[i] <= 254,
        forall|i: int, j: int| 0 <= i < j < out@.len() ==> out@[i] != out@[j],
{
    let mut out: Vec<u32> = Vec::new();
    let mut k: usize = 0;
    while k < offsets.len()
        invariant
            k <= offsets@.len(),
            out@ == keep_hosts(current, neighbor_candidates(current, offsets@.take(k as int))),
        decreases offsets@.len() - k,
    {
        let offset = offsets[k];
        let up = current.saturating_add(offset);
        let down = current.saturating_sub(offset);
        let ghost c0 = neighbor_candidates(current, offsets@.take(k as int));
        proof {
            assert(offsets@.take(k + 1).drop_last() =~= offsets@.take(k as int));
            assert(offsets@.take(k + 1).last() == offset);
            assert(neighbor_candidates(current, offsets@.take(k + 1)) == c0.push(up).push(down));
            assert(c0.push(up).drop_last() =~= c0);
            assert(c0.push(up).push(down).drop_last() =~= c0.push(up));
        }
        if up != current && 1 <= up && up <= 254 && !contains_u32(&out, up) {
            out.push(up);
        }
        assert(out@ == keep_hosts(current, c0.push(up)));
        if down != current && 1 <= down && down <= 254 && !contains_u32(&out, down) {
            out.push(down);
        }
        assert(out@ == keep_hosts(current, c0.push(up).push(down)));
        k += 1;
    }
    assert(offsets@.take(offsets@.len() as int) =~= offsets@);
    proof {
        lemma_keep_hosts_props(current, neighbor_candidates(current, offsets@));
    }
    out
}

/// Whether `v` holds `x`.
pub fn contains_u32(v: &Vec<u32>, x: u32) -> (b: bool)
    ensures
        b == v@.contains(x),
{
    let mut i: usize = 0;
    while i < v.len()
        invariant
            i <= v@.len(),
            forall|k: int| 0 <= k < i ==> v@[k] != x,
        decreases v@.len() - i,
    {
        if v[i] == x {
            assert(v@[i as int] == x);
            return true;
        }
        i += 1;
    }
    false
}

/// Which measurement a cached RTT represents: an Ironclad hit is a real HTTP
/// round trip, anything else a handshake probe.
pub fn measured_as(ironclad: bool) -> (m: Measurement)
    ensures
        m == (if ironclad { Measurement::HttpRoundTrip } else { Measurement::HandshakeProbe }),
{
    if ironclad {
        Measurement::HttpRoundTrip
    } else {
        Measurement::HandshakeProbe
    }
}

/// Weight-proportional sample size for one v4 CIDR; zero when the whole
/// subnet is enumerated or sampling is off.
pub open spec fn spec_sample_for_weight(st: Strategy, weight: u8, max_weight: usize) -> int {
    if st.full_subnet || st.sample_per_cidr == 0 {
        0
    } else {
        let base = st.sample_per_cidr as int;
        let scaled = (base * weight) / (max_weight as int);
        let a = if scaled >= base / 5 { scaled } else { base / 5 };
        if a >= 8 { a } else { 8 }
    }
}

pub fn sample_for_weight(st: &Strategy, weight: u8, max_weight: usize) -> (n: usize)
    requires
        max_weight > 0,
        st.full_subnet || st.sample_per_cidr * weight <= usize::MAX,
    ensures
        n == spec_sample_for_weight(*st, weight, max_weight),
{
    if st.full_subnet || st.sample_per_cidr == 0 {
        return 0;
    }
    let base = st.sample_per_cidr;
    let scaled = (base * weight as usize) / max_weight;
    let a = if scaled >= base / 5 { scaled } else { base / 5 };
    if a >= 8 { a } else { 8 }
}

/// Total candidates a scan may queue.
pub const MAX_CANDIDATES: usize = 20000;
/// Alternate-port candidates kept however large the pool.
pub const TIER3_FLOOR: usize = 1000;

/// How many of each tier survive the cap: seeds always; then a floor of tier
/// 3; then tier 1, tier 2, and tier 3 again out of what is left.
pub open spec fn spec_keep_counts(seeds: nat, t1: nat, t2: nat, t3: nat) -> (nat, nat, nat) {
    if seeds + t1 + t2 + t3 <= MAX_CANDIDATES {
        (t1, t2, t3)
    } else {
        let budget: nat = if seeds <= MAX_CANDIDATES { (MAX_CANDIDATES - seeds) as nat } else { 0 };
        let t3_floor: nat = if t3 <= TIER3_FLOOR { if t3 <= budget { t3 } else { budget } } else if TIER3_FLOOR <= budget { TIER3_FLOOR as nat } else { budget };
        let rest: nat = (budget - t3_floor) as nat;
        let t1_keep: nat = if t1 <= rest { t1 } else { rest };
        let rest2: nat = (rest - t1_keep) as nat;
        let t2_keep: nat = if t2 <= rest2 { t2 } else { rest2 };
        let rest3: nat = (rest2 - t2_keep) as nat;
        let t3_keep: nat = if t3_floor + rest3 <= t3 { t3_floor + rest3 } else { t3 };
        (t1_keep, t2_keep, t3_keep)
    }
}

/// Candidates in probe order, capped: all seeds, then the kept prefix of each
/// tier in turn.
pub open spec fn spec_cap_and_order<T>(seeds: Seq<T>, t1: Seq<T>, t2: Seq<T>, t3: Seq<T>) -> Seq<T> {
    let k = spec_keep_counts(seeds.len(), t1.len(), t2.len(), t3.len());
    seeds + t1.take(k.0 as int) + t2.take(k.1 as int) + t3.take(k.2 as int)
}

/// Caps the candidate list while guaranteeing the alternate-port tier a floor,
/// and returns it in probe order: seeds, then tiers 1, 2 and 3.
pub fn cap_and_order<T>(seeds: Vec<T>, t1: Vec<T>, t2: Vec<T>, t3: Vec<T>) -> (r: Vec<T>)
    requires
        seeds@.len() + t1@.len() + t2@.len() + t3@.len() <= usize::MAX,
    ensures
        r@ == spec_cap_and_order(seeds@, t1@, t2@, t3@),
        seeds@.len() <= MAX_CANDIDATES ==> r@.len() <= MAX_CANDIDATES,
{
    let mut seeds = seeds;
    let mut t1 = t1;
    let mut t2 = t2;
    let mut t3 = t3;
    let total = seeds.len() + t1.len() + t2.len() + t3.len();
    if total > MAX_CANDIDATES {
        let budget = if seeds.len() <= MAX_CANDIDATES { MAX_CANDIDATES - seeds.len() } else { 0 };
        let a = if t3.len() <= TIER3_FLOOR { t3.len() } else { TIER3_FLOOR };
        let t3_floor = if a <= budget { a } else { budget };
        let rest = budget - t3_floor;
        let t1_keep = if t1.len() <= rest { t1.len() } else { rest };
        let rest = rest - t1_keep;
        let t2_keep = if t2.len() <= rest { t2.len() } else { rest };
        let rest = rest - t2_keep;
        let t3_keep = if t3_floor + rest <= t3.len() { t3_floor + rest } else { t3.len() };
        t1.truncate(t1_keep);
        t2.truncate(t2_keep);
        t3.truncate(t3_keep);
    }
    let ghost s0 = seeds@;
    let ghost a1 = t1@;
    let ghost a2 = t2@;
    let ghost a3 = t3@;
    seeds.append(&mut t1);
    seeds.append(&mut t2);
    seeds.append(&mut t3);
    proof {
        assert(seeds@ =~= s0 + a1 + a2 + a3);
    }
    seeds
}

/// Whether a WireGuard session inserted at `inserted_at_ms` is still usable at
/// `now_ms`: younger than the TTL, or stamped in the future (a clock that went
/// backwards keeps the session).
pub open spec fn spec_session_fresh(inserted_at_ms: u64, now_ms: u64, ttl_ms: u64) -> bool {
    now_ms <= inserted_at_ms || now_ms - inserted_at_ms < ttl_ms
}

pub fn wg_session_fresh(inserted_at_ms: u64, now_ms: u64, ttl_ms: u64) -> (b: bool)
    ensures
        b == spec_session_fresh(inserted_at_ms, now_ms, ttl_ms),
{
    if now_ms <= inserted_at_ms {
        return true;
    }
    now_ms - inserted_at_ms < ttl_ms
}

/// A v4 CIDR as its base address (big-endian) and prefix length: the text
/// before the first `/` must be an address and the text after it a `u8`.
pub open spec fn spec_parse_cidr_v4(cidr: Seq<char>) -> Option<(int, u8)> {
    let k = crate::text::first_index_char(cidr, '/');
    if k < cidr.len() {
        match (crate::ip::spec_parse_ipv4(cidr.take(k)), crate::text::parse_unsigned(cidr.skip(k + 1), 255)) {
            (Some(o), Some(p)) => Some((crate::ip::spec_ipv4_u32(o), p as u8)),
            _ => None,
        }
    } else {
        None
    }
}

pub fn parse_cidr_v4(cidr: &str) -> (r: Option<(u32, u8)>)
    ensures
        match r {
            Some((b, p)) => spec_parse_cidr_v4(cidr@) == Some((b as int, p)),
            None => spec_parse_cidr_v4(cidr@) is None,
        },
{
    let v = crate::text::chars_of(cidr);
    let k = crate::text::find_char(&v, '/');
    proof {
        crate::text::lemma_first_index_char(v@, '/');
    }
    if k >= v.len() {
        return None;
    }
    let ip = crate::text::string_of(&crate::text::slice_chars(&v, 0, k));
    let rest = crate::text::slice_chars(&v, k + 1, v.len());
    assert(rest@ =~= v@.skip(k + 1));
    match (crate::ip::parse_ipv4(ip.as_str()), crate::text::parse_unsigned_chars(&rest, 255)) {
        (Some(o), Some(p)) => Some((crate::ip::ipv4_to_u32(o), p as u8)),
        _ => None,
    }
}

/// Enumeration never goes past 2^12 hosts.
pub const MAX_ENUM_HOST_BITS: u32 = 12;

/// Every usable host of a v4 CIDR, capped at its first 4096 addresses: the
/// addresses base+1 up to the last but one of the (capped) block, or the
/// base itself for a /32; nothing when the CIDR does not parse.
pub open spec fn spec_enumerate_cidr_v4(cidr: Seq<char>) -> Seq<u32> {
    match spec_parse_cidr_v4(cidr) {
        None => seq![],
        Some((base, prefix)) => {
            let host_bits: int = if prefix >= 32 { 0 } else { 32 - prefix };
            if host_bits == 0 {
                seq![base as u32]
            } else {
                let size: int = crate::account::pow2((if host_bits <= 12 { host_bits } else { 12 }) as nat);
                Seq::new((size - 2) as nat, |i: int| if base + i + 1 <= u32::MAX { (base + i + 1) as u32 } else { u32::MAX })
            }
        },
    }
}

pub fn enumerate_cidr_v4(cidr: &str) -> (out: Vec<u32>)
    ensures
        out@ == spec_enumerate_cidr_v4(cidr@),
        out@.len() <= 4096,
{
    let (base, prefix) = match parse_cidr_v4(cidr) {
        Some(v) => v,
        None => return Vec::new(),
    };
    let host_bits: u32 = if prefix >= 32 { 0 } else { 32 - prefix as u32 };
    if host_bits == 0 {
        let mut one: Vec<u32> = Vec::new();
        one.push(base);
        assert(one@ =~= seq![base]);
        return one;
    }
    let bits = if host_bits <= MAX_ENUM_HOST_BITS { host_bits } else { MAX_ENUM_HOST_BITS };
    let mut size: u32 = 1;
    let mut b: u32 = 0;
    while b < bits
        invariant
            b <= bits <= 12,
            size == crate::account::pow2(b as nat),
            size <= 4096,
        decreases bits - b,
    {
        proof {
            lemma_pow2_le(b as nat);
        }
        size = size * 2;
        b += 1;
    }
    proof {
        lemma_pow2_ge2(bits as nat);
    }
    let mut out: Vec<u32> = Vec::new();
    let mut off: u32 = 1;
    while off + 1 < size
        invariant
            1 <= off,
            2 <= size <= 4096,
            off <= size - 1,
            out@.len() == off - 1,
            forall|i: int| 0 <= i < out@.len() ==> out@[i] == (if base + i + 1 <= u32::MAX { (base + i + 1) as u32 } else { u32::MAX }),
        decreases size - off,
    {
        let h = base.saturating_add(off);
        out.push(h);
        off += 1;
    }
    assert(out@ =~= Seq::new((size - 2) as nat, |i: int| if base + i + 1 <= u32::MAX { (base + i + 1) as u32 } else { u32::MAX }));
    out
}

proof fn lemma_pow2_le(n: nat)
    requires
        n < 12,
    ensures
        crate::account::pow2(n) * 2 <= 4096,
        crate::account::pow2(n + 1) == crate::account::pow2(n) * 2,
{
    crate::account::lemma_pow2_mono(n, 11);
    assert(crate::account::pow2(11) == 2048) by {
        reveal_with_fuel(crate::account::pow2, 12);
    }
}

proof fn lemma_pow2_ge2(n: nat)
    requires
        1 <= n,
    ensures
        crate::account::pow2(n) >= 2,
{
    crate::account::lemma_pow2_mono(1, n);
    assert(crate::account::pow2(1) == 2) by {
        reveal_with_fuel(crate::account::pow2, 2);
    }
}

/// How long a WireGuard handshake stays reusable.
pub const WG_SESSION_TTL_MS: u64 = 175000;
/// How many peers keep a live handshake.
pub const WG_SESSION_CAPACITY: usize = 4;

/// Index of the oldest entry, the earliest one on a tie.
pub open spec fn first_min_index<K>(s: Seq<(K, u64)>) -> int
    decreases s.len(),
{
    if s.len() <= 1 {
        0
    } else {
        let j = first_min_index(s.drop_last());
        if s.last().1 < s[j].1 { s.len() - 1 } else { j }
    }
}

proof fn lemma_first_min_index<K>(s: Seq<(K, u64)>)
    requires
        s.len() > 0,
    ensures
        0 <= first_min_index(s) < s.len(),
        forall|j: int| 0 <= j < s.len() ==> s[first_min_index(s)].1 <= #[trigger] s[j].1,
        forall|j: int| 0 <= j < first_min_index(s) ==> s[first_min_index(s)].1 < #[trigger] s[j].1,
    decreases s.len(),
{
    if s.len() > 1 {
        let p = s.drop_last();
        lemma_first_min_index(p);
        let j = first_min_index(p);
        assert forall|t: int| 0 <= t < p.len() implies p[t] == s[t] by {}
    }
}

/// The keys of the `k` oldest entries, oldest first, earlier entries first on
/// a tie.
pub open spec fn oldest_keys<K>(s: Seq<(K, u64)>, k: nat) -> Seq<K>
    decreases k,
{
    if k == 0 || s.len() == 0 {
        seq![]
    } else {
        let m = first_min_index(s);
        seq![s[m].0] + oldest_keys(s.remove(m), (k - 1) as nat)
    }
}

/// The keys of the entries that are no longer fresh, in entry order.
pub open spec fn expired_keys<K>(s: Seq<(K, u64)>, now: u64, ttl: u64) -> Seq<K>
    decreases s.len(),
{
    if s.len() == 0 {
        seq![]
    } else if spec_session_fresh(s.last().1, now, ttl) {
        expired_keys(s.drop_last(), now, ttl)
    } else {
        expired_keys(s.drop_last(), now, ttl).push(s.last().0)
    }
}

/// The entries that are still fresh, in entry order.
pub open spec fn live_entries<K>(s: Seq<(K, u64)>, now: u64, ttl: u64) -> Seq<(K, u64)>
    decreases s.len(),
{
    if s.len() == 0 {
        seq![]
    } else if spec_session_fresh(s.last().1, now, ttl) {
        live_entries(s.drop_last(), now, ttl).push(s.last())
    } else {
        live_entries(s.drop_last(), now, ttl)
    }
}

/// Which sessions to drop before making room for one more: every expired
/// one, then the oldest live ones until at most `capacity - 1` remain.
pub open spec fn spec_wg_evictions<K>(s: Seq<(K, u64)>, now: u64, ttl: u64, capacity: usize) -> Seq<K> {
    let live = live_entries(s, now, ttl);
    let room: int = if capacity >= 1 { capacity - 1 } else { 0 };
    let overflow: int = if live.len() >= room { live.len() - room } else { 0 };
    expired_keys(s, now, ttl) + oldest_keys(live, overflow as nat)
}

/// Index of the oldest entry of a non-empty list.
fn oldest_index<K: Copy>(v: &Vec<(K, u64)>) -> (m: usize)
    requires
        v@.len() > 0,
    ensures
        m == first_min_index(v@),
        m < v@.len(),
{
    let mut m: usize = 0;
    let mut i: usize = 1;
    while i < v.len()
        invariant
            v@.len() > 0,
            1 <= i <= v@.len(),
            m < i,
            forall|j: int| 0 <= j < i ==> v@[m as int].1 <= #[trigger] v@[j].1,
            forall|j: int| 0 <= j < m ==> v@[m as int].1 < #[trigger] v@[j].1,
        decreases v@.len() - i,
    {
        if v[i].1 < v[m].1 {
            m = i;
        }
        i += 1;
    }
    proof {
        lemma_first_min_index(v@);
        let f = first_min_index(v@);
        if f < m {
            assert(v@[m as int].1 < v@[f].1);
            assert(v@[f].1 <= v@[m as int].1);
        }
        if m < f {
            assert(v@[f].1 < v@[m as int].1);
            assert(v@[m as int].1 <= v@[f].1);
        }
    }
    m
}

/// Which peers to drop before one more session is cached: everything
/// expired, then the oldest live sessions until `capacity - 1` remain.
pub fn wg_evictions<K: Copy>(entries: &[(K, u64)], now_ms: u64, ttl_ms: u64, capacity: usize) -> (drop: Vec<K>)
    ensures
        drop@ == spec_wg_evictions(entries@, now_ms, ttl_ms, capacity),
{
    let mut drop: Vec<K> = Vec::new();
    let mut alive: Vec<(K, u64)> = Vec::new();
    let mut i: usize = 0;
    while i < entries.len()
        invariant
            i <= entries@.len(),
            drop@ == expired_keys(entries@.take(i as int), now_ms, ttl_ms),
            alive@ == live_entries(entries@.take(i as int), now_ms, ttl_ms),
        decreases entries@.len() - i,
    {
        let e = entries[i];
        proof {
            assert(entries@.take(i + 1).drop_last() =~= entries@.take(i as int));
            assert(entries@.take(i + 1).last() == e);
        }
        if wg_session_fresh(e.1, now_ms, ttl_ms) {
            alive.push(e);
        } else {
            drop.push(e.0);
        }
        i += 1;
    }
    assert(entries@.take(entries@.len() as int) =~= entries@);
    let room = if capacity >= 1 { capacity - 1 } else { 0 };
    let overflow = if alive.len() >= room { alive.len() - room } else { 0 };
    let ghost live = alive@;
    let ghost exp = drop@;
    let mut k: usize = 0;
    while k < overflow
        invariant
            k <= overflow,
            overflow <= live.len(),
            alive@.len() == live.len() - k,
            exp + oldest_keys(live, overflow as nat) == drop@ + oldest_keys(alive@, (overflow - k) as nat),
        decreases overflow - k,
    {
        let m = oldest_index(&alive);
        let ghost pre = alive@;
        let ghost before = drop@;
        let ghost r: nat = (overflow - k) as nat;
        let e = alive.remove(m);
        drop.push(e.0);
        proof {
            assert(oldest_keys(pre, r) == seq![pre[m as int].0] + oldest_keys(pre.remove(m as int), (r - 1) as nat));
            assert(drop@ =~= before + seq![e.0]);
            assert(before + oldest_keys(pre, r) =~= drop@ + oldest_keys(alive@, (r - 1) as nat));
        }
        k += 1;
    }
    proof {
        assert(oldest_keys(alive@, 0) == Seq::<K>::empty());
        assert(drop@ =~= exp + oldest_keys(live, overflow as nat));
    }
    drop
}


proof fn lemma_oldest_keys_len<K>(s: Seq<(K, u64)>, k: nat)
    ensures
        oldest_keys(s, k).len() == if k <= s.len() { k as int } else { s.len() as int },
    decreases k,
{
    if k > 0 && s.len() > 0 {
        lemma_first_min_index(s);
        lemma_oldest_keys_len(s.remove(first_min_index(s)), (k - 1) as nat);
    }
}

proof fn lemma_split_len<K>(s: Seq<(K, u64)>, now: u64, ttl: u64)
    ensures
        expired_keys(s, now, ttl).len() + live_entries(s, now, ttl).len() == s.len(),
    decreases s.len(),
{
    if s.len() > 0 {
        lemma_split_len(s.drop_last(), now, ttl);
    }
}

/// Making room for one more session leaves at most `capacity - 1` of the
/// cached ones, and while there is room no live session is dropped: only
/// the expired ones go.
pub proof fn lemma_evictions_make_room<K>(s: Seq<(K, u64)>, now: u64, ttl: u64, capacity: usize)
    ensures
        capacity >= 1 ==> s.len() - spec_wg_evictions(s, now, ttl, capacity).len() <= capacity - 1,
        capacity == 0 ==> spec_wg_evictions(s, now, ttl, capacity).len() == s.len(),
        live_entries(s, now, ttl).len() < capacity ==> spec_wg_evictions(s, now, ttl, capacity)
            == expired_keys(s, now, ttl),
{
    let live = live_entries(s, now, ttl);
    let room: int = if capacity >= 1 { capacity - 1 } else { 0 };
    let overflow: int = if live.len() >= room { live.len() - room } else { 0 };
    lemma_split_len(s, now, ttl);
    lemma_oldest_keys_len(live, overflow as nat);
    if live.len() < capacity {
        assert(oldest_keys(live, 0) =~= Seq::<K>::empty());
        assert(expired_keys(s, now, ttl) + oldest_keys(live, 0) =~= expired_keys(s, now, ttl));
    }
}

/// The host room a v4 CIDR's sampler draws from: the block size (2^32-1 for
/// a /0), and nothing to draw for blocks of at most two addresses.
pub open spec fn v4_block_size(prefix: u8) -> int {
    let host_bits: int = if prefix >= 32 { 0 } else { 32 - prefix };
    if host_bits >= 32 { u32::MAX as int } else { crate::account::pow2(host_bits as nat) }
}

/// Whether sampling a v4 CIDR stays inside the address space: its base plus
/// its last usable offset is still an IPv4 address (or it does not parse).
pub open spec fn cidr_fits(cidr: Seq<char>) -> bool {
    match spec_parse_cidr_v4(cidr) {
        None => true,
        Some((base, prefix)) => v4_block_size(prefix) <= 2 || base + v4_block_size(prefix) - 2 <= u32::MAX,
    }
}

fn block_size(prefix: u8) -> (size: u32)
    ensures
        size == v4_block_size(prefix),
{
    let host_bits: u32 = if prefix >= 32 { 0 } else { 32 - prefix as u32 };
    if host_bits >= 32 {
        return u32::MAX;
    }
    let mut size: u32 = 1;
    let mut b: u32 = 0;
    while b < host_bits
        invariant
            b <= host_bits < 32,
            size == crate::account::pow2(b as nat),
        decreases host_bits - b,
    {
        proof {
            crate::account::lemma_pow2_mono(b as nat, 30);
            assert(crate::account::pow2(30) == 0x4000_0000) by {
                reveal_with_fuel(crate::account::pow2, 31);
            }
        }
        size = size * 2;
        b += 1;
    }
    size
}

/// Whether a v4 CIDR can be sampled without leaving the address space.
pub fn cidr_fits_exec(cidr: &str) -> (b: bool)
    ensures
        b == cidr_fits(cidr@),
{
    match parse_cidr_v4(cidr) {
        None => true,
        Some((base, prefix)) => {
            let size = block_size(prefix);
            size <= 2 || (base as u64) + (size as u64) - 2 <= u32::MAX as u64
        },
    }
}

/// A reordering keeps the length, the members, and the absence of repeats.
pub proof fn lemma_reordering<A>(a: Seq<A>, b: Seq<A>)
    requires
        a.to_multiset() == b.to_multiset(),
    ensures
        a.len() == b.len(),
        forall|x: A| a.contains(x) <==> b.contains(x),
        a.no_duplicates() ==> b.no_duplicates(),
{
    a.to_multiset_ensures();
    b.to_multiset_ensures();
    assert forall|x: A| a.contains(x) <==> b.contains(x) by {
        vstd::seq_lib::to_multiset_contains(a, x);
        vstd::seq_lib::to_multiset_contains(b, x);
    }
    if a.no_duplicates() {
        a.lemma_multiset_has_no_duplicates();
        b.lemma_multiset_has_no_duplicates_conv();
    }
}

/// What a sample of `n` hosts of an IPv4 CIDR is (see `sample_cidr_v4`):
/// nothing for text that is no CIDR, the base of a block of at most two
/// addresses, else `min(n, size - 2)` distinct usable hosts.
pub open spec fn v4_sample_ok(cidr: Seq<char>, n: usize, out: Seq<u32>) -> bool {
    &&& spec_parse_cidr_v4(cidr) is None ==> out.len() == 0
    &&& spec_parse_cidr_v4(cidr) matches Some((base, prefix)) ==> {
        let size = v4_block_size(prefix);
        if size <= 2 {
            out == seq![base as u32]
        } else {
            let want: int = if (n as u32) <= size - 2 { (n as u32) as int } else { size - 2 };
            &&& out.len() == want
            &&& forall|i: int| 0 <= i < out.len() ==> base + 1 <= #[trigger] out[i] <= base + size - 2
            &&& out.no_duplicates()
        }
    }
}

/// What a sample of `n` hosts of an IPv6 CIDR is (see `sample_cidr_v6`).
pub open spec fn v6_sample_ok(cidr: Seq<char>, n: usize, out: Seq<u128>) -> bool {
    &&& spec_parse_cidr_v6(cidr) is None ==> out.len() == 0
    &&& spec_parse_cidr_v6(cidr) matches Some((base, prefix)) ==> if prefix >= 128 {
        out == seq![base as u128]
    } else {
        &&& out.len() == n
        &&& forall|i: int| 0 <= i < out.len() ==> carries_v4_host(base as u128, #[trigger] out[i])
    }
}

/// Up to `n` distinct random hosts of a v4 CIDR: the base itself for a
/// block of at most two addresses, else `min(n, size - 2)` distinct
/// addresses `base + 1 ..= base + size - 2`, in random order; nothing when
/// the CIDR does not parse.
pub fn sample_cidr_v4(cidr: &str, n: usize) -> (out: Vec<u32>)
    requires
        cidr_fits(cidr@),
    ensures
        v4_sample_ok(cidr@, n, out@),
        spec_parse_cidr_v4(cidr@) is None ==> out@.len() == 0,
        spec_parse_cidr_v4(cidr@) matches Some((base, prefix)) ==> {
            let size = v4_block_size(prefix);
            if size <= 2 {
                out@ == seq![base as u32]
            } else {
                let want: int = if (n as u32) <= size - 2 { (n as u32) as int } else { size - 2 };
                &&& out@.len() == want
                &&& forall|i: int| 0 <= i < out@.len() ==> base + 1 <= #[trigger] out@[i] <= base + size - 2
                &&& out@.no_duplicates()
            }
        },
{
    let (base, prefix) = match parse_cidr_v4(cidr) {
        Some(v) => v,
        None => return Vec::new(),
    };
    let size = block_size(prefix);
    if size <= 2 {
        let mut one: Vec<u32> = Vec::new();
        one.push(base);
        assert(one@ =~= seq![base]);
        return one;
    }
    let usable = size - 2;
    let want: u32 = if (n as u32) <= usable { n as u32 } else { usable };
    // Floyd's selection: `want` distinct offsets in 1..=usable, one draw each.
    let start: u64 = (usable - want) as u64 + 1;
    let mut chosen: Vec<u32> = Vec::new();
    let mut k: u32 = 0;
    while k < want
        invariant
            want <= usable,
            start == (usable - want) + 1,
            k <= want,
            chosen@.len() == k,
            forall|i: int| 0 <= i < chosen@.len() ==> 1 <= #[trigger] chosen@[i] < start + k,
            chosen@.no_duplicates(),
        decreases want - k,
    {
        let j: u64 = start + k as u64;
        let t = crate::rng::random_between(1, j as usize);
        let t = t as u32;
        let pick: u32 = if contains_u32(&chosen, t) { j as u32 } else { t };
        proof {
            assert forall|i: int| 0 <= i < chosen@.len() implies chosen@[i] != pick by {
                if pick == t {
                    assert(!chosen@.contains(t));
                }
            }
        }
        let ghost before = chosen@;
        chosen.push(pick);
        proof {
            assert forall|a: int, b: int| 0 <= a < chosen@.len() && 0 <= b < chosen@.len() && a != b
                implies chosen@[a] != chosen@[b] by {
                if a < before.len() && b < before.len() {
                    assert(before[a] != before[b]);
                }
            }
        }
        k += 1;
    }
    let order = crate::rng::shuffle_u32(chosen);
    proof {
        lemma_reordering(chosen@, order@);
        assert forall|i: int| 0 <= i < order@.len() implies 1 <= #[trigger] order@[i] <= usable by {
            assert(chosen@.contains(order@[i]));
        }
    }
    let mut out: Vec<u32> = Vec::new();
    let mut i: usize = 0;
    while i < order.len()
        invariant
            i <= order@.len(),
            base + size - 2 <= u32::MAX,
            usable == size - 2,
            forall|q: int| 0 <= q < order@.len() ==> 1 <= #[trigger] order@[q] <= usable,
            out@.len() == i,
            forall|q: int| 0 <= q < i ==> out@[q] == base + order@[q],
        decreases order@.len() - i,
    {
        out.push(base + order[i]);
        i += 1;
    }
    proof {
        assert forall|a: int, b: int| 0 <= a < out@.len() && 0 <= b < out@.len() && a != b
            implies out@[a] != out@[b] by {
            assert(order@[a] != order@[b]);
        }
    }
    out
}


/// A v6 CIDR as its base address and prefix length: the text before the
/// first `/` must be an IPv6 address and the text after it a `u8`.
pub open spec fn spec_parse_cidr_v6(cidr: Seq<char>) -> Option<(int, u8)> {
    let k = crate::text::first_index_char(cidr, '/');
    if k < cidr.len() {
        match (crate::ip::spec_parse_ipv6(cidr.take(k)), crate::text::parse_unsigned(cidr.skip(k + 1), 255)) {
            (Some(w), Some(p)) => Some((crate::ip::words_value(w), p as u8)),
            _ => None,
        }
    } else {
        None
    }
}

pub fn parse_cidr_v6(cidr: &str) -> (r: Option<(u128, u8)>)
    ensures
        match r {
            Some((b, p)) => spec_parse_cidr_v6(cidr@) == Some((b as int, p)),
            None => spec_parse_cidr_v6(cidr@) is None,
        },
{
    let v = crate::text::chars_of(cidr);
    let k = crate::text::find_char(&v, '/');
    proof {
        crate::text::lemma_first_index_char(v@, '/');
    }
    if k >= v.len() {
        return None;
    }
    let ip = crate::text::string_of(&crate::text::slice_chars(&v, 0, k));
    let rest = crate::text::slice_chars(&v, k + 1, v.len());
    assert(rest@ =~= v@.skip(k + 1));
    match (crate::ip::parse_ipv6(ip.as_str()), crate::text::parse_unsigned_chars(&rest, 255)) {
        (Some(w), Some(p)) => Some((crate::ip::words_to_u128(w), p as u8)),
        _ => None,
    }
}

/// The parsed v4 CIDRs of a list, skipping those that do not parse.
pub open spec fn parsed_cidrs_v4(c: Seq<&str>) -> Seq<(int, u8)>
    decreases c.len(),
{
    if c.len() == 0 {
        seq![]
    } else {
        match spec_parse_cidr_v4(c.last()@) {
            Some(x) => parsed_cidrs_v4(c.drop_last()).push(x),
            None => parsed_cidrs_v4(c.drop_last()),
        }
    }
}

fn parse_cidrs_v4(c: &[&str]) -> (r: Vec<(u32, u8)>)
    ensures
        r@.len() == parsed_cidrs_v4(c@).len(),
        forall|i: int| 0 <= i < r@.len() ==> (#[trigger] r@[i]).0 as int == parsed_cidrs_v4(c@)[i].0
            && r@[i].1 == parsed_cidrs_v4(c@)[i].1,
{
    let mut r: Vec<(u32, u8)> = Vec::new();
    let mut i: usize = 0;
    while i < c.len()
        invariant
            i <= c@.len(),
            r@.len() == parsed_cidrs_v4(c@.take(i as int)).len(),
            forall|q: int| 0 <= q < r@.len() ==> (#[trigger] r@[q]).0 as int == parsed_cidrs_v4(c@.take(i as int))[q].0
                && r@[q].1 == parsed_cidrs_v4(c@.take(i as int))[q].1,
        decreases c@.len() - i,
    {
        assert(c@.take(i + 1).drop_last() =~= c@.take(i as int));
        assert(c@.take(i + 1).last() == c@[i as int]);
        match parse_cidr_v4(c[i]) {
            Some(x) => {
                r.push(x);
            },
            None => {},
        }
        i += 1;
    }
    assert(c@.take(c@.len() as int) =~= c@);
    r
}

pub open spec fn host_in_low_bits(base: u128, x: u128, e: u32) -> bool {
    x == base | (e as u128)
}

/// Whether `x` is `base` with some 32-bit value OR-ed into its low bits.
pub open spec fn carries_v4_host(base: u128, x: u128) -> bool {
    exists|e: u32| #[trigger] host_in_low_bits(base, x, e)
}

/// `n` random addresses of a v6 CIDR, each its base with the low 32 bits
/// OR-ed with a random IPv4 host (drawn from one of `v4_cidrs` when any
/// parses, else any 32-bit value); the base alone for a /128; nothing when
/// the CIDR does not parse.
pub fn sample_cidr_v6(cidr: &str, n: usize, v4_cidrs: &[&str]) -> (out: Vec<u128>)
    ensures
        v6_sample_ok(cidr@, n, out@),
        spec_parse_cidr_v6(cidr@) is None ==> out@.len() == 0,
        spec_parse_cidr_v6(cidr@) matches Some((base, prefix)) ==> if prefix >= 128 {
            out@ == seq![base as u128]
        } else {
            &&& out@.len() == n
            &&& forall|i: int| 0 <= i < out@.len() ==> carries_v4_host(base as u128, #[trigger] out@[i])
        },
{
    let (base, prefix) = match parse_cidr_v6(cidr) {
        Some(v) => v,
        None => return Vec::new(),
    };
    if prefix >= 128 {
        let mut one: Vec<u128> = Vec::new();
        one.push(base);
        assert(one@ =~= seq![base]);
        return one;
    }
    let v4 = parse_cidrs_v4(v4_cidrs);
    let mut out: Vec<u128> = Vec::new();
    let mut k: usize = 0;
    while k < n
        invariant
            k <= n,
            out@.len() == k,
            forall|i: int| 0 <= i < out@.len() ==> carries_v4_host(base, #[trigger] out@[i]),
        decreases n - k,
    {
        let embedded: u32 = if v4.len() == 0 {
            crate::rng::random_u32()
        } else {
            let (b, p) = v4[crate::rng::random_below(v4.len())];
            let host_bits: u32 = if p >= 32 { 0 } else { 32 - p as u32 };
            let host: u32 = if host_bits == 0 {
                0
            } else if host_bits >= 32 {
                crate::rng::random_u32()
            } else {
                let top: u32 = 1u32 << host_bits;
                assert(top >= 1) by (bit_vector)
                    requires
                        top == 1u32 << host_bits,
                        host_bits < 32,
                ;
                crate::rng::random_u32() & (top - 1)
            };
            b | host
        };
        let a = base | (embedded as u128);
        out.push(a);
        proof {
            assert(host_in_low_bits(base, out@[k as int], embedded));
        }
        k += 1;
    }
    out
}

/// One scan candidate: an address (IPv4 in the low 32 bits) and a port.
#[derive(Debug, Clone, Copy, PartialEq, Eq, Structural)]
pub struct Candidate {
    pub v6: bool,
    pub ip: u128,
    pub port: u16,
}

/// The items of `items` that are neither in `seen` nor repeats of an
/// earlier item, in order.
pub open spec fn fresh_after(seen: Seq<Candidate>, items: Seq<Candidate>) -> Seq<Candidate>
    decreases items.len(),
{
    if items.len() == 0 {
        seq![]
    } else {
        let r = fresh_after(seen, items.drop_last());
        if seen.contains(items.last()) || r.contains(items.last()) {
            r
        } else {
            r.push(items.last())
        }
    }
}

/// What `fresh_after` keeps: no repeats, nothing already seen, only items.
pub proof fn lemma_fresh_after(seen: Seq<Candidate>, items: Seq<Candidate>)
    ensures
        fresh_after(seen, items).no_duplicates(),
        forall|c: Candidate| #[trigger] fresh_after(seen, items).contains(c) ==> !seen.contains(c) && items.contains(c),
        forall|c: Candidate| items.contains(c) && !seen.contains(c) ==> #[trigger] fresh_after(seen, items).contains(c),
    decreases items.len(),
{
    if items.len() > 0 {
        let p = items.drop_last();
        let r = fresh_after(seen, p);
        lemma_fresh_after(seen, p);
        let x = items.last();
        assert forall|c: Candidate| p.contains(c) implies items.contains(c) by {
            let k = choose|k: int| 0 <= k < p.len() && p[k] == c;
            assert(items[k] == c);
        }
        assert forall|c: Candidate| items.contains(c) && !seen.contains(c) implies #[trigger] fresh_after(seen, items).contains(c) by {
            let k = choose|k: int| 0 <= k < items.len() && items[k] == c;
            if k < items.len() - 1 {
                assert(p[k] == c);
                assert(p.contains(c));
                assert(r.contains(c));
                let j = choose|j: int| 0 <= j < r.len() && r[j] == c;
                if !(seen.contains(x) || r.contains(x)) {
                    assert(r.push(x)[j] == c);
                }
            } else {
                assert(c == x);
                if !(seen.contains(x) || r.contains(x)) {
                    assert(r.push(x)[r.len() as int] == x);
                }
            }
        }
        if !(seen.contains(x) || r.contains(x)) {
            let f = r.push(x);
            assert forall|i: int, j: int| 0 <= i < f.len() && 0 <= j < f.len() && i != j implies f[i] != f[j] by {
                if i < r.len() && j < r.len() {
                    assert(r[i] != r[j]);
                } else if i < r.len() {
                    assert(r.contains(r[i]));
                } else {
                    assert(r.contains(r[j]));
                }
            }
            assert forall|c: Candidate| #[trigger] f.contains(c) implies !seen.contains(c) && items.contains(c) by {
                let k = choose|k: int| 0 <= k < f.len() && f[k] == c;
                if k < r.len() {
                    assert(r.contains(c));
                } else {
                    assert(items[items.len() - 1] == c);
                }
            }
        }
    }
}

pub fn contains_candidate(v: &Vec<Candidate>, x: Candidate) -> (b: bool)
    ensures
        b == v@.contains(x),
{
    let mut i: usize = 0;
    while i < v.len()
        invariant
            i <= v@.len(),
            forall|k: int| 0 <= k < i ==> v@[k] != x,
        decreases v@.len() - i,
    {
        if v[i] == x {
            assert(v@[i as int] == x);
            return true;
        }
        i += 1;
    }
    false
}

/// Appends the items not seen before, remembering them as seen.
fn push_all_fresh(seen: &mut Vec<Candidate>, out: &mut Vec<Candidate>, items: &Vec<Candidate>)
    ensures
        final(out)@ == old(out)@ + fresh_after(old(seen)@, items@),
        final(seen)@ == old(seen)@ + fresh_after(old(seen)@, items@),
{
    let ghost seen0 = seen@;
    let ghost out0 = out@;
    let mut i: usize = 0;
    while i < items.len()
        invariant
            i <= items@.len(),
            out@ == out0 + fresh_after(seen0, items@.take(i as int)),
            seen@ == seen0 + fresh_after(seen0, items@.take(i as int)),
        decreases items@.len() - i,
    {
        let c = items[i];
        let ghost r = fresh_after(seen0, items@.take(i as int));
        proof {
            assert(items@.take(i + 1).drop_last() =~= items@.take(i as int));
            assert(items@.take(i + 1).last() == c);
            assert((seen0 + r).contains(c) == (seen0.contains(c) || r.contains(c))) by {
                if (seen0 + r).contains(c) {
                    let k = choose|k: int| 0 <= k < (seen0 + r).len() && (seen0 + r)[k] == c;
                    if k < seen0.len() {
                        assert(seen0[k] == c);
                    } else {
                        assert(r[k - seen0.len()] == c);
                    }
                }
                if seen0.contains(c) {
                    let k = choose|k: int| 0 <= k < seen0.len() && seen0[k] == c;
                    assert((seen0 + r)[k] == c);
                }
                if r.contains(c) {
                    let k = choose|k: int| 0 <= k < r.len() && r[k] == c;
                    assert((seen0 + r)[seen0.len() + k] == c);
                }
            }
        }
        if !contains_candidate(seen, c) {
            seen.push(c);
            out.push(c);
            assert(seen@ =~= seen0 + r.push(c));
            assert(out@ =~= out0 + r.push(c));
        }
        i += 1;
    }
    assert(items@.take(items@.len() as int) =~= items@);
}

/// The seed pairs for one port: every v4 seed (when v4 is wanted), then every
/// v6 seed (when v6 is wanted).
pub open spec fn pairs_for_port(v4: Seq<u32>, v6: Seq<u128>, p: u16, ip: IpScan) -> Seq<Candidate> {
    (if ip.wants_v4() {
        Seq::new(v4.len(), |i: int| Candidate { v6: false, ip: v4[i] as u128, port: p })
    } else {
        seq![]
    }) + (if ip.wants_v6() {
        Seq::new(v6.len(), |i: int| Candidate { v6: true, ip: v6[i], port: p })
    } else {
        seq![]
    })
}

/// Seed pairs port by port, in port order.
pub open spec fn seed_pairs(v4: Seq<u32>, v6: Seq<u128>, ports: Seq<u16>, ip: IpScan) -> Seq<Candidate>
    decreases ports.len(),
{
    if ports.len() == 0 {
        seq![]
    } else {
        seed_pairs(v4, v6, ports.drop_last(), ip) + pairs_for_port(v4, v6, ports.last(), ip)
    }
}

fn seed_pairs_exec(v4: &Vec<u32>, v6: &Vec<u128>, ports: &Vec<u16>, ip: IpScan) -> (r: Vec<Candidate>)
    ensures
        r@ == seed_pairs(v4@, v6@, ports@, ip),
{
    let mut r: Vec<Candidate> = Vec::new();
    let mut k: usize = 0;
    while k < ports.len()
        invariant
            k <= ports@.len(),
            r@ == seed_pairs(v4@, v6@, ports@.take(k as int), ip),
        decreases ports@.len() - k,
    {
        let p = ports[k];
        let ghost before = r@;
        proof {
            assert(ports@.take(k + 1).drop_last() =~= ports@.take(k as int));
            assert(ports@.take(k + 1).last() == p);
        }
        let mut part: Vec<Candidate> = Vec::new();
        if ip.want_v4() {
            let mut i: usize = 0;
            while i < v4.len()
                invariant
                    i <= v4@.len(),
                    part@ == Seq::new(i as nat, |q: int| Candidate { v6: false, ip: v4@[q] as u128, port: p }),
                decreases v4@.len() - i,
            {
                part.push(Candidate { v6: false, ip: v4[i] as u128, port: p });
                i += 1;
                assert(part@ =~= Seq::new(i as nat, |q: int| Candidate { v6: false, ip: v4@[q] as u128, port: p }));
            }
        }
        let ghost a = part@;
        if ip.want_v6() {
            let mut i: usize = 0;
            while i < v6.len()
                invariant
                    i <= v6@.len(),
                    part@ == a + Seq::new(i as nat, |q: int| Candidate { v6: true, ip: v6@[q], port: p }),
                decreases v6@.len() - i,
            {
                part.push(Candidate { v6: true, ip: v6[i], port: p });
                i += 1;
                assert(part@ =~= a + Seq::new(i as nat, |q: int| Candidate { v6: true, ip: v6@[q], port: p }));
            }
        }
        assert(part@ =~= pairs_for_port(v4@, v6@, p, ip));
        r.append(&mut part);
        k += 1;
    }
    assert(ports@.take(ports@.len() as int) =~= ports@);
    r
}

/// Ports without repeats, first occurrence kept.
pub open spec fn dedup_u16(s: Seq<u16>) -> Seq<u16>
    decreases s.len(),
{
    if s.len() == 0 {
        seq![]
    } else {
        let d = dedup_u16(s.drop_last());
        if d.contains(s.last()) { d } else { d.push(s.last()) }
    }
}

/// The ports a scan uses, in the caller's priority order without repeats;
/// 443 alone when none are given.
pub open spec fn spec_dedup_ports(s: Seq<u16>) -> Seq<u16> {
    if dedup_u16(s).len() == 0 { seq![443] } else { dedup_u16(s) }
}

pub fn contains_u16_vec(v: &Vec<u16>, x: u16) -> (b: bool)
    ensures
        b == v@.contains(x),
{
    let mut i: usize = 0;
    while i < v.len()
        invariant
            i <= v@.len(),
            forall|k: int| 0 <= k < i ==> v@[k] != x,
        decreases v@.len() - i,
    {
        if v[i] == x {
            assert(v@[i as int] == x);
            return true;
        }
        i += 1;
    }
    false
}

pub fn dedup_ports(ports: &[u16]) -> (r: Vec<u16>)
    ensures
        r@ == spec_dedup_ports(ports@),
{
    let mut d: Vec<u16> = Vec::new();
    let mut i: usize = 0;
    while i < ports.len()
        invariant
            i <= ports@.len(),
            d@ == dedup_u16(ports@.take(i as int)),
        decreases ports@.len() - i,
    {
        assert(ports@.take(i + 1).drop_last() =~= ports@.take(i as int));
        if !contains_u16_vec(&d, ports[i]) {
            d.push(ports[i]);
        }
        i += 1;
    }
    assert(ports@.take(ports@.len() as int) =~= ports@);
    if d.len() == 0 {
        let mut one: Vec<u16> = Vec::new();
        one.push(443);
        assert(one@ =~= seq![443u16]);
        return one;
    }
    d
}

/// The three port tiers: the ports in `t1set` (or `fallback` when there are
/// none), those in `t2set`, and the rest, each in the given order.
pub open spec fn spec_port_tiers(ports: Seq<u16>, t1set: Seq<u16>, t2set: Seq<u16>, fallback: Seq<u16>) -> (Seq<u16>, Seq<u16>, Seq<u16>) {
    let t1 = ports.filter(|p: u16| t1set.contains(p));
    let t2 = ports.filter(|p: u16| t2set.contains(p));
    let t3 = ports.filter(|p: u16| !t1set.contains(p) && !t2set.contains(p));
    (if t1.len() == 0 { fallback } else { t1 }, t2, t3)
}

pub fn port_tiers(ports: &Vec<u16>, t1set: &Vec<u16>, t2set: &Vec<u16>, fallback: &Vec<u16>) -> (r: (Vec<u16>, Vec<u16>, Vec<u16>))
    ensures
        (r.0@, r.1@, r.2@) == spec_port_tiers(ports@, t1set@, t2set@, fallback@),
{
    let ghost f1 = |p: u16| t1set@.contains(p);
    let ghost f2 = |p: u16| t2set@.contains(p);
    let ghost f3 = |p: u16| !t1set@.contains(p) && !t2set@.contains(p);
    let mut t1: Vec<u16> = Vec::new();
    let mut t2: Vec<u16> = Vec::new();
    let mut t3: Vec<u16> = Vec::new();
    let mut i: usize = 0;
    while i < ports.len()
        invariant
            i <= ports@.len(),
            f1 == (|p: u16| t1set@.contains(p)),
            f2 == (|p: u16| t2set@.contains(p)),
            f3 == (|p: u16| !t1set@.contains(p) && !t2set@.contains(p)),
            t1@ == ports@.take(i as int).filter(f1),
            t2@ == ports@.take(i as int).filter(f2),
            t3@ == ports@.take(i as int).filter(f3),
        decreases ports@.len() - i,
    {
        proof {
            reveal(Seq::filter);
            assert(ports@.take(i + 1).drop_last() =~= ports@.take(i as int));
        }
        let p = ports[i];
        let in1 = contains_u16_vec(t1set, p);
        let in2 = contains_u16_vec(t2set, p);
        if in1 {
            t1.push(p);
        }
        if in2 {
            t2.push(p);
        }
        if !in1 && !in2 {
            t3.push(p);
        }
        i += 1;
    }
    assert(ports@.take(ports@.len() as int) =~= ports@);
    if t1.len() == 0 {
        (crate::bytes::copy_u16s(fallback), t2, t3)
    } else {
        (t1, t2, t3)
    }
}

/// The weighted CIDRs heaviest first, in list order among equal weights
/// (weights `k - 1` down to 0).
pub open spec fn rank_from(s: Seq<(&'static str, u8)>, k: nat) -> Seq<(&'static str, u8)>
    decreases k,
{
    if k == 0 {
        seq![]
    } else {
        s.filter(|e: (&'static str, u8)| e.1 == (k - 1) as u8) + rank_from(s, (k - 1) as nat)
    }
}

pub open spec fn spec_ranked(s: Seq<(&'static str, u8)>) -> Seq<(&'static str, u8)> {
    rank_from(s, 256)
}

proof fn lemma_rank_members(s: Seq<(&'static str, u8)>, k: nat)
    ensures
        forall|i: int| 0 <= i < rank_from(s, k).len() ==> s.contains(#[trigger] rank_from(s, k)[i]),
    decreases k,
{
    if k > 0 {
        lemma_rank_members(s, (k - 1) as nat);
        let f = s.filter(|e: (&'static str, u8)| e.1 == (k - 1) as u8);
        let r = rank_from(s, (k - 1) as nat);
        assert forall|i: int| 0 <= i < (f + r).len() implies s.contains(#[trigger] (f + r)[i]) by {
            if i < f.len() {
                assert(f.contains(f[i]));
                s.lemma_filter_contains_rev(|e: (&'static str, u8)| e.1 == (k - 1) as u8, f[i]);
            } else {
                assert((f + r)[i] == r[i - f.len()]);
            }
        }
    }
}

fn ranked_weights(w: &[(&'static str, u8)]) -> (r: Vec<(&'static str, u8)>)
    ensures
        r@ == spec_ranked(w@),
{
    let mut r: Vec<(&'static str, u8)> = Vec::new();
    let mut k: usize = 256;
    let ghost done: Seq<(&'static str, u8)> = seq![];
    while k > 0
        invariant
            k <= 256,
            r@ + rank_from(w@, k as nat) == spec_ranked(w@),
        decreases k,
    {
        let weight = (k - 1) as u8;
        let ghost f = |e: (&'static str, u8)| e.1 == weight;
        let ghost r0 = r@;
        let mut i: usize = 0;
        while i < w.len()
            invariant
                i <= w@.len(),
                f == (|e: (&'static str, u8)| e.1 == weight),
                r@ == r0 + w@.take(i as int).filter(f),
            decreases w@.len() - i,
        {
            proof {
                reveal(Seq::filter);
                assert(w@.take(i + 1).drop_last() =~= w@.take(i as int));
            }
            if w[i].1 == weight {
                r.push(w[i]);
            }
            i += 1;
        }
        assert(w@.take(w@.len() as int) =~= w@);
        assert(rank_from(w@, k as nat) == w@.filter(f) + rank_from(w@, (k - 1) as nat));
        assert(r0 + (w@.filter(f) + rank_from(w@, (k - 1) as nat)) =~= r@ + rank_from(w@, (k - 1) as nat));
        k -= 1;
    }
    assert(r@ + rank_from(w@, 0) =~= r@);
    r
}

/// The v4 seeds that parse, as numbers, in order.
pub open spec fn parsed_seeds_v4(strs: Seq<&'static str>) -> Seq<u32>
    decreases strs.len(),
{
    if strs.len() == 0 {
        seq![]
    } else {
        match crate::ip::spec_parse_ipv4(strs.last()@) {
            Some(o) => parsed_seeds_v4(strs.drop_last()).push(crate::ip::spec_ipv4_u32(o) as u32),
            None => parsed_seeds_v4(strs.drop_last()),
        }
    }
}

/// The v6 seeds that parse, as numbers, in order.
pub open spec fn parsed_seeds_v6(strs: Seq<&'static str>) -> Seq<u128>
    decreases strs.len(),
{
    if strs.len() == 0 {
        seq![]
    } else {
        match crate::ip::spec_parse_ipv6(strs.last()@) {
            Some(w) => parsed_seeds_v6(strs.drop_last()).push(crate::ip::words_value(w) as u128),
            None => parsed_seeds_v6(strs.drop_last()),
        }
    }
}

fn parse_seeds_v4(strs: &[&'static str]) -> (r: Vec<u32>)
    ensures
        r@ == parsed_seeds_v4(strs@),
{
    let mut r: Vec<u32> = Vec::new();
    let mut i: usize = 0;
    while i < strs.len()
        invariant
            i <= strs@.len(),
            r@ == parsed_seeds_v4(strs@.take(i as int)),
        decreases strs@.len() - i,
    {
        assert(strs@.take(i + 1).drop_last() =~= strs@.take(i as int));
        assert(strs@.take(i + 1).last() == strs@[i as int]);
        match crate::ip::parse_ipv4(strs[i]) {
            Some(o) => r.push(crate::ip::ipv4_to_u32(o)),
            None => {},
        }
        i += 1;
    }
    assert(strs@.take(strs@.len() as int) =~= strs@);
    r
}

fn parse_seeds_v6(strs: &[&'static str]) -> (r: Vec<u128>)
    ensures
        r@ == parsed_seeds_v6(strs@),
{
    let mut r: Vec<u128> = Vec::new();
    let mut i: usize = 0;
    while i < strs.len()
        invariant
            i <= strs@.len(),
            r@ == parsed_seeds_v6(strs@.take(i as int)),
        decreases strs@.len() - i,
    {
        assert(strs@.take(i + 1).drop_last() =~= strs@.take(i as int));
        assert(strs@.take(i + 1).last() == strs@[i as int]);
        match crate::ip::parse_ipv6(strs[i]) {
            Some(w) => r.push(crate::ip::words_to_u128(w)),
            None => {},
        }
        i += 1;
    }
    assert(strs@.take(strs@.len() as int) =~= strs@);
    r
}

/// A block of new candidates: no repeats, nothing seen before, every port
/// from `ports`, every family one the scan wants.
pub open spec fn fresh_block(seen0: Seq<Candidate>, added: Seq<Candidate>, ports: Seq<u16>, ip: IpScan) -> bool {
    &&& added.no_duplicates()
    &&& forall|c: Candidate| #[trigger] added.contains(c) ==> !seen0.contains(c) && ports.contains(c.port)
        && (c.v6 ==> ip.wants_v6()) && (!c.v6 ==> ip.wants_v4())
}

/// Every item is on one of `ports` and of a family the scan wants.
pub open spec fn items_fit(items: Seq<Candidate>, ports: Seq<u16>, ip: IpScan) -> bool {
    forall|c: Candidate| #[trigger] items.contains(c) ==> ports.contains(c.port) && (c.v6 ==> ip.wants_v6())
        && (!c.v6 ==> ip.wants_v4())
}

proof fn lemma_extend_block(seen0: Seq<Candidate>, added: Seq<Candidate>, items: Seq<Candidate>, ports: Seq<u16>, ip: IpScan)
    requires
        fresh_block(seen0, added, ports, ip),
        items_fit(items, ports, ip),
    ensures
        fresh_block(seen0, added + fresh_after(seen0 + added, items), ports, ip),
{
    let f = fresh_after(seen0 + added, items);
    lemma_fresh_after(seen0 + added, items);
    assert forall|c: Candidate| (seen0 + added).contains(c) <== seen0.contains(c) || added.contains(c) by {
        if seen0.contains(c) {
            let k = choose|k: int| 0 <= k < seen0.len() && seen0[k] == c;
            assert((seen0 + added)[k] == c);
        }
        if added.contains(c) {
            let k = choose|k: int| 0 <= k < added.len() && added[k] == c;
            assert((seen0 + added)[seen0.len() + k] == c);
        }
    }
    assert forall|i: int, j: int| 0 <= i < added.len() && 0 <= j < f.len() implies added[i] != f[j] by {
        assert(f.contains(f[j]));
        assert(added.contains(added[i]));
    }
    vstd::seq_lib::lemma_no_dup_in_concat(added, f);
    let g = added + f;
    assert forall|c: Candidate| #[trigger] g.contains(c) implies !seen0.contains(c) && ports.contains(c.port)
        && (c.v6 ==> ip.wants_v6()) && (!c.v6 ==> ip.wants_v4()) by {
        let k = choose|k: int| 0 <= k < g.len() && g[k] == c;
        if k < added.len() {
            assert(added[k] == c);
            assert(added.contains(c));
        } else {
            assert(f[k - added.len()] == c);
            assert(f.contains(c));
        }
    }
}

/// Every IPv4 host on every port, host by host, ports in the given order.
pub open spec fn spec_v4_items(hosts: Seq<u32>, ports: Seq<u16>) -> Seq<Candidate>
    decreases hosts.len(),
{
    if hosts.len() == 0 {
        seq![]
    } else {
        spec_v4_items(hosts.drop_last(), ports)
            + ports.map_values(|p: u16| Candidate { v6: false, ip: hosts.last() as u128, port: p })
    }
}

/// Every IPv6 host on every port, host by host, ports in the given order.
pub open spec fn spec_v6_items(hosts: Seq<u128>, ports: Seq<u16>) -> Seq<Candidate>
    decreases hosts.len(),
{
    if hosts.len() == 0 {
        seq![]
    } else {
        spec_v6_items(hosts.drop_last(), ports)
            + ports.map_values(|p: u16| Candidate { v6: true, ip: hosts.last(), port: p })
    }
}

fn v4_host_items(hosts: &Vec<u32>, ports: &Vec<u16>, ip: IpScan) -> (r: Vec<Candidate>)
    requires
        ip.wants_v4(),
    ensures
        r@ == spec_v4_items(hosts@, ports@),
        items_fit(r@, ports@, ip),
{
    let mut r: Vec<Candidate> = Vec::new();
    assert(hosts@.take(0) =~= Seq::<u32>::empty());
    let mut i: usize = 0;
    while i < hosts.len()
        invariant
            ip.wants_v4(),
            i <= hosts@.len(),
            items_fit(r@, ports@, ip),
            r@ == spec_v4_items(hosts@.take(i as int), ports@),
        decreases hosts@.len() - i,
    {
        let mut j: usize = 0;
        assert(ports@.take(0).map_values(|p: u16| Candidate { v6: false, ip: (hosts@[i as int] as u128), port: p }) =~= Seq::<Candidate>::empty());
        while j < ports.len()
            invariant
                ip.wants_v4(),
                i < hosts@.len(),
                j <= ports@.len(),
                items_fit(r@, ports@, ip),
                r@ == spec_v4_items(hosts@.take(i as int), ports@)
                    + ports@.take(j as int).map_values(|p: u16| Candidate { v6: false, ip: (hosts@[i as int] as u128), port: p }),
            decreases ports@.len() - j,
        {
            let c = Candidate { v6: false, ip: hosts[i] as u128, port: ports[j] };
            let ghost r0 = r@;
            r.push(c);
            proof {
                assert(ports@.contains(ports@[j as int]));
                assert forall|x: Candidate| #[trigger] r@.contains(x) implies ports@.contains(x.port)
                    && (x.v6 ==> ip.wants_v6()) && (!x.v6 ==> ip.wants_v4()) by {
                    let k = choose|k: int| 0 <= k < r@.len() && r@[k] == x;
                    if k < r0.len() {
                        assert(r0[k] == x);
                        assert(r0.contains(x));
                    }
                }
            }
            proof {
                assert(ports@.take(j + 1).map_values(|p: u16| Candidate { v6: false, ip: (hosts@[i as int] as u128), port: p })
                    =~= ports@.take(j as int).map_values(|p: u16| Candidate { v6: false, ip: (hosts@[i as int] as u128), port: p }).push(c));
                assert(r@ =~= spec_v4_items(hosts@.take(i as int), ports@)
                    + ports@.take(j + 1).map_values(|p: u16| Candidate { v6: false, ip: (hosts@[i as int] as u128), port: p }));
            }
            j += 1;
        }
        proof {
            assert(ports@.take(ports@.len() as int) =~= ports@);
            assert(hosts@.take(i + 1).drop_last() =~= hosts@.take(i as int));
            assert(hosts@.take(i + 1).last() == hosts@[i as int]);
        }
        i += 1;
    }
    assert(hosts@.take(hosts@.len() as int) =~= hosts@);
    r
}

fn v6_host_items(hosts: &Vec<u128>, ports: &Vec<u16>, ip: IpScan) -> (r: Vec<Candidate>)
    requires
        ip.wants_v6(),
    ensures
        r@ == spec_v6_items(hosts@, ports@),
        items_fit(r@, ports@, ip),
{
    let mut r: Vec<Candidate> = Vec::new();
    assert(hosts@.take(0) =~= Seq::<u128>::empty());
    let mut i: usize = 0;
    while i < hosts.len()
        invariant
            ip.wants_v6(),
            i <= hosts@.len(),
            items_fit(r@, ports@, ip),
            r@ == spec_v6_items(hosts@.take(i as int), ports@),
        decreases hosts@.len() - i,
    {
        let mut j: usize = 0;
        assert(ports@.take(0).map_values(|p: u16| Candidate { v6: true, ip: hosts@[i as int], port: p }) =~= Seq::<Candidate>::empty());
        while j < ports.len()
            invariant
                ip.wants_v6(),
                i < hosts@.len(),
                j <= ports@.len(),
                items_fit(r@, ports@, ip),
                r@ == spec_v6_items(hosts@.take(i as int), ports@)
                    + ports@.take(j as int).map_values(|p: u16| Candidate { v6: true, ip: hosts@[i as int], port: p }),
            decreases ports@.len() - j,
        {
            let c = Candidate { v6: true, ip: hosts[i], port: ports[j] };
            let ghost r0 = r@;
            r.push(c);
            proof {
                assert(ports@.contains(ports@[j as int]));
                assert forall|x: Candidate| #[trigger] r@.contains(x) implies ports@.contains(x.port)
                    && (x.v6 ==> ip.wants_v6()) && (!x.v6 ==> ip.wants_v4()) by {
                    let k = choose|k: int| 0 <= k < r@.len() && r@[k] == x;
                    if k < r0.len() {
                        assert(r0[k] == x);
                        assert(r0.contains(x));
                    }
                }
            }
            proof {
                assert(ports@.take(j + 1).map_values(|p: u16| Candidate { v6: true, ip: hosts@[i as int], port: p })
                    =~= ports@.take(j as int).map_values(|p: u16| Candidate { v6: true, ip: hosts@[i as int], port: p }).push(c));
                assert(r@ =~= spec_v6_items(hosts@.take(i as int), ports@)
                    + ports@.take(j + 1).map_values(|p: u16| Candidate { v6: true, ip: hosts@[i as int], port: p }));
            }
            j += 1;
        }
        proof {
            assert(ports@.take(ports@.len() as int) =~= ports@);
            assert(hosts@.take(i + 1).drop_last() =~= hosts@.take(i as int));
            assert(hosts@.take(i + 1).last() == hosts@[i as int]);
        }
        i += 1;
    }
    assert(hosts@.take(hosts@.len() as int) =~= hosts@);
    r
}

/// Every weighted v4 CIDR of the configuration can be sampled.
pub open spec fn config_hosts_fit(config: &ProbeConfig) -> bool {
    forall|i: int| 0 <= i < config.cidr_weights_v4@.len() ==> cidr_fits(#[trigger] config.cidr_weights_v4@[i].0@)
}

impl ProbeConfig {
    /// Whether every weighted v4 CIDR can be sampled without leaving the
    /// address space.
    pub fn hosts_fit(&self) -> (b: bool)
        ensures
            b == config_hosts_fit(self),
    {
        let mut i: usize = 0;
        while i < self.cidr_weights_v4.len()
            invariant
                i <= self.cidr_weights_v4@.len(),
                forall|k: int| 0 <= k < i ==> cidr_fits(#[trigger] self.cidr_weights_v4@[k].0@),
            decreases self.cidr_weights_v4@.len() - i,
        {
            if !cidr_fits_exec(self.cidr_weights_v4[i].0) {
                return false;
            }
            i += 1;
        }
        true
    }
}

/// Whether a strategy's sample sizes stay in range for any weight.
pub open spec fn samples_fit(st: Strategy) -> bool {
    st.full_subnet || st.sample_per_cidr * 255 <= usize::MAX
}

/// The sample size a weight is scaled against: the heaviest weight of the
/// ranked list, at least 1.
pub open spec fn max_weight_of(w: Seq<(&'static str, u8)>) -> usize {
    if w.len() > 0 && w[0].1 >= 1 { w[0].1 as usize } else { 1 }
}

/// Whether `v4h` holds, for each weighted v4 CIDR heaviest first, its hosts:
/// every host for a full sweep, else a sample of the weight's size.
pub open spec fn v4_hosts_ok(config: &ProbeConfig, st: Strategy, v4h: Seq<Seq<u32>>) -> bool {
    let w = spec_ranked(config.cidr_weights_v4@);
    &&& v4h.len() == w.len()
    &&& forall|i: int| 0 <= i < w.len() ==> if st.full_subnet {
        #[trigger] v4h[i] == spec_enumerate_cidr_v4(w[i].0@)
    } else {
        v4_sample_ok(w[i].0@, spec_sample_for_weight(st, w[i].1, max_weight_of(w)) as usize, v4h[i])
    }
}

/// Hosts drawn from each v6 CIDR: the configured sample size, or 96.
pub open spec fn v6_per(st: Strategy) -> usize {
    if st.sample_per_cidr == 0 { 96 } else { st.sample_per_cidr }
}

/// Whether `v6h` holds, for each v6 CIDR in order, a sample of its hosts.
pub open spec fn v6_hosts_ok(config: &ProbeConfig, st: Strategy, v6h: Seq<Seq<u128>>) -> bool {
    &&& v6h.len() == config.cidrs_v6@.len()
    &&& forall|i: int| 0 <= i < v6h.len() ==> v6_sample_ok(config.cidrs_v6@[i]@, v6_per(st), #[trigger] v6h[i])
}

/// Whether the host lists of a pool were drawn as the strategy says, for
/// each family the scan wants.
pub open spec fn pool_hosts_ok(config: &ProbeConfig, st: Strategy, ip: IpScan, v4h: Seq<Seq<u32>>, v6h: Seq<Seq<u128>>) -> bool {
    &&& ip.wants_v4() ==> v4_hosts_ok(config, st, v4h)
    &&& ip.wants_v6() ==> v6_hosts_ok(config, st, v6h)
}

/// The candidate blocks of a pool, one per CIDR: the v4 hosts' blocks, then
/// the v6 hosts', each family only when the scan wants it.
pub open spec fn pool_blocks(v4h: Seq<Seq<u32>>, v6h: Seq<Seq<u128>>, ports: Seq<u16>, ip: IpScan) -> Seq<Seq<Candidate>> {
    (if ip.wants_v4() { v4h.map_values(|h: Seq<u32>| spec_v4_items(h, ports)) } else { seq![] })
        + (if ip.wants_v6() { v6h.map_values(|h: Seq<u128>| spec_v6_items(h, ports)) } else { seq![] })
}

/// What the blocks add, block by block, to what was `seen`: each block's
/// items not seen before nor added by an earlier block.
pub open spec fn pool_fold(seen: Seq<Candidate>, blocks: Seq<Seq<Candidate>>) -> Seq<Candidate>
    decreases blocks.len(),
{
    if blocks.len() == 0 {
        seq![]
    } else {
        let a = pool_fold(seen, blocks.drop_last());
        a + fresh_after(seen + a, blocks.last())
    }
}

/// Appends the hosts of the configured CIDRs on `port_set` that were not
/// seen yet: the weighted v4 CIDRs heaviest first (every host for a full
/// sweep, else a weight-proportional random sample), then random hosts of
/// each v6 CIDR.
pub fn cidr_pool(
    config: &ProbeConfig,
    st: &Strategy,
    ip: IpScan,
    port_set: &Vec<u16>,
    seen: &mut Vec<Candidate>,
    out: &mut Vec<Candidate>,
)
    requires
        config_hosts_fit(config),
        samples_fit(*st),
    ensures
        (exists|v4h: Seq<Seq<u32>>, v6h: Seq<Seq<u128>>|
            #![trigger pool_blocks(v4h, v6h, port_set@, ip)]
            pool_hosts_ok(config, *st, ip, v4h, v6h)
                && final(out)@ == old(out)@ + pool_fold(old(seen)@, pool_blocks(v4h, v6h, port_set@, ip))
                && final(seen)@ == old(seen)@ + pool_fold(old(seen)@, pool_blocks(v4h, v6h, port_set@, ip))),
        final(out)@ == old(out)@ + final(out)@.skip(old(out)@.len() as int),
        final(seen)@ == old(seen)@ + final(out)@.skip(old(out)@.len() as int),
        fresh_block(old(seen)@, final(out)@.skip(old(out)@.len() as int), port_set@, ip),
{
    let ghost seen0 = seen@;
    let ghost out0 = out@;
    let ghost mut added: Seq<Candidate> = seq![];
    let ghost mut blocks: Seq<Seq<Candidate>> = seq![];
    let ghost mut v4h: Seq<Seq<u32>> = seq![];
    let ghost mut v6h: Seq<Seq<u128>> = seq![];
    assert(fresh_block(seen0, added, port_set@, ip));
    assert(out@ =~= out0 + added);
    assert(seen@ =~= seen0 + added);
    if ip.want_v4() {
        let weighted = ranked_weights(config.cidr_weights_v4);
        proof {
            lemma_rank_members(config.cidr_weights_v4@, 256);
        }
        let max_weight: usize = if weighted.len() > 0 {
            if weighted[0].1 >= 1 { weighted[0].1 as usize } else { 1 }
        } else {
            1
        };
        assert(max_weight == max_weight_of(weighted@));
        let mut i: usize = 0;
        while i < weighted.len()
            invariant
                config_hosts_fit(config),
                samples_fit(*st),
                ip.wants_v4(),
                max_weight >= 1,
                weighted@ == spec_ranked(config.cidr_weights_v4@),
                max_weight == max_weight_of(weighted@),
                forall|q: int| 0 <= q < weighted@.len() ==> config.cidr_weights_v4@.contains(#[trigger] weighted@[q]),
                i <= weighted@.len(),
                out@ == out0 + added,
                seen@ == seen0 + added,
                fresh_block(seen0, added, port_set@, ip),
                v4h.len() == i,
                forall|q: int| 0 <= q < i ==> if st.full_subnet {
                    #[trigger] v4h[q] == spec_enumerate_cidr_v4(weighted@[q].0@)
                } else {
                    v4_sample_ok(weighted@[q].0@, spec_sample_for_weight(*st, weighted@[q].1, max_weight) as usize, v4h[q])
                },
                blocks == v4h.map_values(|h: Seq<u32>| spec_v4_items(h, port_set@)),
                added == pool_fold(seen0, blocks),
            decreases weighted@.len() - i,
        {
            let (cidr, weight) = weighted[i];
            proof {
                assert(config.cidr_weights_v4@.contains(weighted@[i as int]));
                let k = choose|k: int| 0 <= k < config.cidr_weights_v4@.len() && config.cidr_weights_v4@[k] == weighted@[i as int];
                assert(cidr_fits(config.cidr_weights_v4@[k].0@));
                if !st.full_subnet {
                    assert(st.sample_per_cidr * weight <= st.sample_per_cidr * 255) by (nonlinear_arith)
                        requires weight <= 255;
                }
            }
            let hosts = if st.full_subnet {
                enumerate_cidr_v4(cidr)
            } else {
                sample_cidr_v4(cidr, sample_for_weight(st, weight, max_weight))
            };
            let items = v4_host_items(&hosts, port_set, ip);
            let ghost before = seen@;
            push_all_fresh(seen, out, &items);
            proof {
                lemma_extend_block(seen0, added, items@, port_set@, ip);
                let f = fresh_after(before, items@);
                assert(out@ =~= out0 + (added + f));
                assert(seen@ =~= seen0 + (added + f));
                let nb = blocks.push(items@);
                assert(nb.drop_last() =~= blocks);
                assert(pool_fold(seen0, nb) == added + f);
                let nh = v4h.push(hosts@);
                assert(nh.map_values(|h: Seq<u32>| spec_v4_items(h, port_set@)) =~= nb);
                added = added + f;
                blocks = nb;
                v4h = nh;
            }
            i += 1;
        }
    }
    let ghost b4 = blocks;
    assert(b4 == (if ip.wants_v4() { v4h.map_values(|h: Seq<u32>| spec_v4_items(h, port_set@)) } else { seq![] }));
    if ip.want_v6() {
        let per: usize = if st.sample_per_cidr == 0 { 96 } else { st.sample_per_cidr };
        let mut i: usize = 0;
        assert(blocks =~= b4 + v6h.map_values(|h: Seq<u128>| spec_v6_items(h, port_set@)));
        while i < config.cidrs_v6.len()
            invariant
                ip.wants_v6(),
                per == v6_per(*st),
                i <= config.cidrs_v6@.len(),
                out@ == out0 + added,
                seen@ == seen0 + added,
                fresh_block(seen0, added, port_set@, ip),
                v6h.len() == i,
                forall|q: int| 0 <= q < i ==> v6_sample_ok(config.cidrs_v6@[q]@, per, #[trigger] v6h[q]),
                blocks == b4 + v6h.map_values(|h: Seq<u128>| spec_v6_items(h, port_set@)),
                added == pool_fold(seen0, blocks),
            decreases config.cidrs_v6@.len() - i,
        {
            let hosts = sample_cidr_v6(config.cidrs_v6[i], per, config.cidrs_v4);
            let items = v6_host_items(&hosts, port_set, ip);
            let ghost before = seen@;
            push_all_fresh(seen, out, &items);
            proof {
                lemma_extend_block(seen0, added, items@, port_set@, ip);
                let f = fresh_after(before, items@);
                assert(out@ =~= out0 + (added + f));
                assert(seen@ =~= seen0 + (added + f));
                let nb = blocks.push(items@);
                assert(nb.drop_last() =~= blocks);
                assert(pool_fold(seen0, nb) == added + f);
                let nh = v6h.push(hosts@);
                assert(b4 + nh.map_values(|h: Seq<u128>| spec_v6_items(h, port_set@)) =~= nb);
                added = added + f;
                blocks = nb;
                v6h = nh;
            }
            i += 1;
        }
    }
    proof {
        assert(blocks =~= pool_blocks(v4h, v6h, port_set@, ip));
        if ip.wants_v4() {
            assert(v4_hosts_ok(config, *st, v4h));
        }
        if ip.wants_v6() {
            assert(v6_hosts_ok(config, *st, v6h));
        }
    }
    assert(out@.skip(out0.len() as int) =~= added);
}

proof fn lemma_keep_counts_bounded(s: nat, t1: nat, t2: nat, t3: nat)
    ensures
        spec_keep_counts(s, t1, t2, t3).0 <= t1,
        spec_keep_counts(s, t1, t2, t3).1 <= t2,
        spec_keep_counts(s, t1, t2, t3).2 <= t3,
{
}

/// Whether a configuration scans for MASQUE gateways (its label says so).
pub open spec fn spec_is_masque(config: &ProbeConfig) -> bool {
    crate::text::has_infix(config.label@, "gateway"@)
}

/// The port tiers a scan uses: MASQUE's (443; 500, 1701, 4500; the rest),
/// or WireGuard's from its two tier lists, over the deduplicated ports.
pub open spec fn spec_scan_tiers(config: &ProbeConfig, ports: Seq<u16>, wg_t1: Seq<u16>, wg_t2: Seq<u16>) -> (Seq<u16>, Seq<u16>, Seq<u16>) {
    let d = spec_dedup_ports(ports);
    if spec_is_masque(config) {
        spec_port_tiers(d, seq![443u16], seq![500u16, 1701, 4500], seq![443u16])
    } else {
        spec_port_tiers(d, wg_t1, wg_t2, seq![500u16, 4500])
    }
}

/// All tiered ports, tier 1 first.
pub open spec fn spec_tiered_ports(config: &ProbeConfig, ports: Seq<u16>, wg_t1: Seq<u16>, wg_t2: Seq<u16>) -> Seq<u16> {
    let t = spec_scan_tiers(config, ports, wg_t1, wg_t2);
    t.0 + t.1 + t.2
}

/// Whether `r` opens with the seed pairs built from `v4p` and `v6p` (some
/// order of the configured seeds) over the tiered ports.
pub open spec fn seeds_lead(
    r: Seq<Candidate>,
    v4p: Seq<u32>,
    v6p: Seq<u128>,
    config: &ProbeConfig,
    tiered: Seq<u16>,
    ip: IpScan,
) -> bool {
    let s = fresh_after(seq![], seed_pairs(v4p, v6p, tiered, ip));
    &&& v4p.to_multiset() == parsed_seeds_v4(config.seeds_v4@).to_multiset()
    &&& v6p.to_multiset() == parsed_seeds_v6(config.seeds_v6@).to_multiset()
    &&& s.len() <= r.len()
    &&& r.take(s.len() as int) == s
}

/// The scan's candidates for seed orders `v4p`/`v6p` and drawn host lists
/// (`a*` for tier 1, `b*` and `c*` for WireGuard's tiers 2 and 3): the seed
/// pairs over all tiered ports, then each tier's pool of what was not
/// queued before, capped by `spec_cap_and_order`.
pub open spec fn spec_candidates(
    config: &ProbeConfig,
    ports: Seq<u16>,
    wg_t1: Seq<u16>,
    wg_t2: Seq<u16>,
    ip: IpScan,
    v4p: Seq<u32>,
    v6p: Seq<u128>,
    a4: Seq<Seq<u32>>,
    a6: Seq<Seq<u128>>,
    b4: Seq<Seq<u32>>,
    b6: Seq<Seq<u128>>,
    c4: Seq<Seq<u32>>,
    c6: Seq<Seq<u128>>,
) -> Seq<Candidate> {
    let t = spec_scan_tiers(config, ports, wg_t1, wg_t2);
    let s = fresh_after(seq![], seed_pairs(v4p, v6p, t.0 + t.1 + t.2, ip));
    let p1 = pool_fold(s, pool_blocks(a4, a6, t.0, ip));
    let p2 = if spec_is_masque(config) { seq![] } else { pool_fold(s + p1, pool_blocks(b4, b6, t.1, ip)) };
    let p3 = if spec_is_masque(config) { seq![] } else { pool_fold(s + p1 + p2, pool_blocks(c4, c6, t.2, ip)) };
    spec_cap_and_order(s, p1, p2, p3)
}

proof fn lemma_seed_pairs_fit(v4: Seq<u32>, v6: Seq<u128>, ports: Seq<u16>, ip: IpScan)
    ensures
        items_fit(seed_pairs(v4, v6, ports, ip), ports, ip),
    decreases ports.len(),
{
    if ports.len() > 0 {
        let q = ports.drop_last();
        lemma_seed_pairs_fit(v4, v6, q, ip);
        let a = seed_pairs(v4, v6, q, ip);
        let b = pairs_for_port(v4, v6, ports.last(), ip);
        assert forall|c: Candidate| #[trigger] (a + b).contains(c) implies ports.contains(c.port)
            && (c.v6 ==> ip.wants_v6()) && (!c.v6 ==> ip.wants_v4()) by {
            let k = choose|k: int| 0 <= k < (a + b).len() && (a + b)[k] == c;
            if k < a.len() {
                assert(a[k] == c);
                assert(a.contains(c));
                let j = choose|j: int| 0 <= j < q.len() && q[j] == c.port;
                assert(ports[j] == c.port);
            } else {
                assert(b[k - a.len()] == c);
                assert(ports[ports.len() - 1] == c.port);
            }
        }
    }
}

proof fn lemma_block_join(seen: Seq<Candidate>, added: Seq<Candidate>, ports: Seq<u16>, all: Seq<u16>, ip: IpScan)
    requires
        seen.no_duplicates(),
        fresh_block(seen, added, ports, ip),
        forall|p: u16| ports.contains(p) ==> all.contains(p),
    ensures
        (seen + added).no_duplicates(),
        items_fit(added, all, ip),
{
    assert forall|i: int, j: int| 0 <= i < seen.len() && 0 <= j < added.len() implies seen[i] != added[j] by {
        assert(added.contains(added[j]));
        assert(seen.contains(seen[i]));
    }
    vstd::seq_lib::lemma_no_dup_in_concat(seen, added);
}

proof fn lemma_parts_fit(a: Seq<Candidate>, b: Seq<Candidate>, c: Seq<Candidate>, d: Seq<Candidate>, all: Seq<u16>, ip: IpScan)
    requires
        items_fit(a, all, ip),
        items_fit(b, all, ip),
        items_fit(c, all, ip),
        items_fit(d, all, ip),
    ensures
        items_fit(a + b + c + d, all, ip),
{
    let w = a + b + c + d;
    assert forall|e: Candidate| #[trigger] w.contains(e) implies all.contains(e.port) && (e.v6 ==> ip.wants_v6())
        && (!e.v6 ==> ip.wants_v4()) by {
        let k = choose|k: int| 0 <= k < w.len() && w[k] == e;
        let n0 = a.len();
        let n1 = n0 + b.len();
        let n2 = n1 + c.len();
        if k < n0 {
            assert(a[k] == e && a.contains(e));
        } else if k < n1 {
            assert(b[k - n0] == e && b.contains(e));
        } else if k < n2 {
            assert(c[k - n1] == e && c.contains(e));
        } else {
            assert(d[k - n2] == e && d.contains(e));
        }
    }
}

proof fn lemma_ports_within(part: Seq<u16>, offset: int, all: Seq<u16>)
    requires
        0 <= offset,
        offset + part.len() <= all.len(),
        all.subrange(offset, offset + part.len()) == part,
    ensures
        forall|p: u16| part.contains(p) ==> all.contains(p),
{
    assert forall|p: u16| part.contains(p) implies all.contains(p) by {
        let k = choose|k: int| 0 <= k < part.len() && part[k] == p;
        assert(all.subrange(offset, offset + part.len())[k] == p);
        assert(all[offset + k] == p);
    }
}

/// A prefix of each part of a repeat-free concatenation is still free of
/// repeats and its members come from the whole.
proof fn lemma_take_parts(a: Seq<Candidate>, b: Seq<Candidate>, c: Seq<Candidate>, d: Seq<Candidate>, x: int, y: int, z: int)
    requires
        (a + b + c + d).no_duplicates(),
        0 <= x <= b.len(),
        0 <= y <= c.len(),
        0 <= z <= d.len(),
    ensures
        (a + b.take(x) + c.take(y) + d.take(z)).no_duplicates(),
        forall|e: Candidate| (a + b.take(x) + c.take(y) + d.take(z)).contains(e) ==> (a + b + c + d).contains(e),
{
    let w = a + b + c + d;
    let r = a + b.take(x) + c.take(y) + d.take(z);
    let map = |i: int| if i < a.len() { i } else if i < a.len() + x { i } else if i < a.len() + x + y {
        i - x + b.len()
    } else {
        i - x - y + b.len() + c.len()
    };
    assert forall|i: int| 0 <= i < r.len() implies 0 <= #[trigger] map(i) < w.len() && r[i] == w[map(i)] by {}
    assert forall|i: int, j: int| 0 <= i < r.len() && 0 <= j < r.len() && i != j implies r[i] != r[j] by {
        assert(r[i] == w[map(i)] && r[j] == w[map(j)]);
    }
    assert forall|e: Candidate| r.contains(e) implies w.contains(e) by {
        let k = choose|k: int| 0 <= k < r.len() && r[k] == e;
        assert(w[map(k)] == e);
    }
}

/// The scan's candidates in probe order: every seed address on every tiered
/// port first (seeds in random order), then random hosts of the CIDRs on
/// the tier-1 ports and (for WireGuard) on the tier-2 and tier-3 ports, no
/// pair twice, capped as `cap_and_order` caps. WireGuard's port tiers are
/// `wg_t1` and `wg_t2`.
#[verifier::spinoff_prover]
#[verifier::rlimit(40)]
pub fn build_candidates(
    config: &ProbeConfig,
    st: &Strategy,
    ports: &[u16],
    ip: IpScan,
    wg_t1: &[u16],
    wg_t2: &[u16],
) -> (r: Vec<Candidate>)
    requires
        config_hosts_fit(config),
        samples_fit(*st),
    ensures
        r@.no_duplicates(),
        forall|c: Candidate| #[trigger] r@.contains(c) ==> spec_tiered_ports(config, ports@, wg_t1@, wg_t2@).contains(c.port)
            && (c.v6 ==> ip.wants_v6()) && (!c.v6 ==> ip.wants_v4()),
        exists|v4p: Seq<u32>, v6p: Seq<u128>| #[trigger] seeds_lead(r@, v4p, v6p, config, spec_tiered_ports(config, ports@, wg_t1@, wg_t2@), ip),
        (exists|v4p: Seq<u32>, v6p: Seq<u128>, a4: Seq<Seq<u32>>, a6: Seq<Seq<u128>>, b4: Seq<Seq<u32>>, b6: Seq<Seq<u128>>, c4: Seq<Seq<u32>>, c6: Seq<Seq<u128>>|
            #![trigger spec_candidates(config, ports@, wg_t1@, wg_t2@, ip, v4p, v6p, a4, a6, b4, b6, c4, c6)]
            v4p.to_multiset() == parsed_seeds_v4(config.seeds_v4@).to_multiset()
                && v6p.to_multiset() == parsed_seeds_v6(config.seeds_v6@).to_multiset()
                && pool_hosts_ok(config, *st, ip, a4, a6)
                && (!spec_is_masque(config) ==> pool_hosts_ok(config, *st, ip, b4, b6) && pool_hosts_ok(config, *st, ip, c4, c6))
                && r@ == spec_candidates(config, ports@, wg_t1@, wg_t2@, ip, v4p, v6p, a4, a6, b4, b6, c4, c6)),
{
    let dedup = dedup_ports(ports);
    let label = crate::text::chars_of(config.label);
    let is_masque = crate::text::contains_str(&label, "gateway");
    let (t1_ports, t2_ports, t3_ports) = if is_masque {
        let a: Vec<u16> = vec![443u16];
        let b: Vec<u16> = vec![500u16, 1701, 4500];
        let f: Vec<u16> = vec![443u16];
        assert(a@ =~= seq![443u16] && b@ =~= seq![500u16, 1701, 4500] && f@ =~= seq![443u16]);
        port_tiers(&dedup, &a, &b, &f)
    } else {
        let a = crate::bytes::copy_u16s(wg_t1);
        let b = crate::bytes::copy_u16s(wg_t2);
        let f: Vec<u16> = vec![500u16, 4500];
        assert(f@ =~= seq![500u16, 4500]);
        port_tiers(&dedup, &a, &b, &f)
    };
    let ghost tiered = t1_ports@ + t2_ports@ + t3_ports@;
    assert(tiered == spec_tiered_ports(config, ports@, wg_t1@, wg_t2@));
    let mut tiered_ports: Vec<u16> = crate::bytes::copy_u16s(&t1_ports);
    let mut t2c = crate::bytes::copy_u16s(&t2_ports);
    let mut t3c = crate::bytes::copy_u16s(&t3_ports);
    tiered_ports.append(&mut t2c);
    tiered_ports.append(&mut t3c);
    assert(tiered_ports@ =~= tiered);

    let v4_seeds = crate::rng::shuffle_u32(parse_seeds_v4(config.seeds_v4));
    let v6_seeds = crate::rng::shuffle_u128(parse_seeds_v6(config.seeds_v6));
    let pairs = seed_pairs_exec(&v4_seeds, &v6_seeds, &tiered_ports, ip);
    let mut seen: Vec<Candidate> = Vec::new();
    let mut seeds_out: Vec<Candidate> = Vec::new();
    push_all_fresh(&mut seen, &mut seeds_out, &pairs);
    let ghost s0 = fresh_after(seq![], pairs@);
    proof {
        lemma_fresh_after(seq![], pairs@);
        lemma_seed_pairs_fit(v4_seeds@, v6_seeds@, tiered, ip);
        assert(seen@ =~= s0);
        assert(seeds_out@ =~= s0);
        assert forall|c: Candidate| #[trigger] s0.contains(c) implies tiered.contains(c.port) && (c.v6 ==> ip.wants_v6())
            && (!c.v6 ==> ip.wants_v4()) by {
            assert(pairs@.contains(c));
        }
        assert(items_fit(s0, tiered, ip));
    }
    let mut tier1_out: Vec<Candidate> = Vec::new();
    let mut tier2_out: Vec<Candidate> = Vec::new();
    let mut tier3_out: Vec<Candidate> = Vec::new();
    let ghost seen1 = seen@;
    let ghost mut b4: Seq<Seq<u32>> = seq![];
    let ghost mut b6: Seq<Seq<u128>> = seq![];
    let ghost mut c4: Seq<Seq<u32>> = seq![];
    let ghost mut c6: Seq<Seq<u128>> = seq![];
    cidr_pool(config, st, ip, &t1_ports, &mut seen, &mut tier1_out);
    let ghost (a4, a6) = choose|v4h: Seq<Seq<u32>>, v6h: Seq<Seq<u128>>|
        #![trigger pool_blocks(v4h, v6h, t1_ports@, ip)]
        pool_hosts_ok(config, *st, ip, v4h, v6h)
            && tier1_out@ == seq![] + pool_fold(seen1, pool_blocks(v4h, v6h, t1_ports@, ip))
            && seen@ == seen1 + pool_fold(seen1, pool_blocks(v4h, v6h, t1_ports@, ip));
    proof {
        assert(tier1_out@ =~= pool_fold(seen1, pool_blocks(a4, a6, t1_ports@, ip)));
        assert(tier1_out@.skip(0) =~= tier1_out@);
        assert(tiered.subrange(0, t1_ports@.len() as int) =~= t1_ports@);
        lemma_ports_within(t1_ports@, 0, tiered);
        lemma_block_join(seen1, tier1_out@, t1_ports@, tiered, ip);
    }
    if !is_masque {
        let ghost seen2 = seen@;
        cidr_pool(config, st, ip, &t2_ports, &mut seen, &mut tier2_out);
        let ghost (x4, x6) = choose|v4h: Seq<Seq<u32>>, v6h: Seq<Seq<u128>>|
            #![trigger pool_blocks(v4h, v6h, t2_ports@, ip)]
            pool_hosts_ok(config, *st, ip, v4h, v6h)
                && tier2_out@ == seq![] + pool_fold(seen2, pool_blocks(v4h, v6h, t2_ports@, ip))
                && seen@ == seen2 + pool_fold(seen2, pool_blocks(v4h, v6h, t2_ports@, ip));
        proof {
            b4 = x4;
            b6 = x6;
            assert(tier2_out@ =~= pool_fold(seen2, pool_blocks(b4, b6, t2_ports@, ip)));
            assert(tier2_out@.skip(0) =~= tier2_out@);
            let o = t1_ports@.len() as int;
            assert(tiered.subrange(o, o + t2_ports@.len()) =~= t2_ports@);
            lemma_ports_within(t2_ports@, o, tiered);
            lemma_block_join(seen2, tier2_out@, t2_ports@, tiered, ip);
        }
        let ghost seen3 = seen@;
        cidr_pool(config, st, ip, &t3_ports, &mut seen, &mut tier3_out);
        let ghost (y4, y6) = choose|v4h: Seq<Seq<u32>>, v6h: Seq<Seq<u128>>|
            #![trigger pool_blocks(v4h, v6h, t3_ports@, ip)]
            pool_hosts_ok(config, *st, ip, v4h, v6h)
                && tier3_out@ == seq![] + pool_fold(seen3, pool_blocks(v4h, v6h, t3_ports@, ip))
                && seen@ == seen3 + pool_fold(seen3, pool_blocks(v4h, v6h, t3_ports@, ip));
        proof {
            c4 = y4;
            c6 = y6;
            assert(tier3_out@ =~= pool_fold(seen3, pool_blocks(c4, c6, t3_ports@, ip)));
            assert(tier3_out@.skip(0) =~= tier3_out@);
            let o = (t1_ports@.len() + t2_ports@.len()) as int;
            assert(tiered.subrange(o, o + t3_ports@.len()) =~= t3_ports@);
            lemma_ports_within(t3_ports@, o, tiered);
            lemma_block_join(seen3, tier3_out@, t3_ports@, tiered, ip);
        }
    }
    let ghost whole = seeds_out@ + tier1_out@ + tier2_out@ + tier3_out@;
    proof {
        assert(seen@ =~= whole);
        assert(items_fit(seeds_out@, tiered, ip));
        lemma_parts_fit(seeds_out@, tier1_out@, tier2_out@, tier3_out@, tiered, ip);
    }
    let total = seen.len();
    assert(total == whole.len());
    let ghost a0 = seeds_out@;
    let ghost a1 = tier1_out@;
    let ghost a2 = tier2_out@;
    let ghost a3 = tier3_out@;
    let r = cap_and_order(seeds_out, tier1_out, tier2_out, tier3_out);
    proof {
        let k = spec_keep_counts(a0.len(), a1.len(), a2.len(), a3.len());
        lemma_keep_counts_bounded(a0.len(), a1.len(), a2.len(), a3.len());
        lemma_take_parts(a0, a1, a2, a3, k.0 as int, k.1 as int, k.2 as int);
        assert(r@ == a0 + a1.take(k.0 as int) + a2.take(k.1 as int) + a3.take(k.2 as int));
        assert(r@.take(a0.len() as int) =~= a0);
        assert(seeds_lead(r@, v4_seeds@, v6_seeds@, config, tiered, ip));
        let t = spec_scan_tiers(config, ports@, wg_t1@, wg_t2@);
        assert(t.0 == t1_ports@ && t.1 == t2_ports@ && t.2 == t3_ports@);
        assert(r@ == spec_candidates(config, ports@, wg_t1@, wg_t2@, ip, v4_seeds@, v6_seeds@, a4, a6, b4, b6, c4, c6));
        assert forall|c: Candidate| #[trigger] r@.contains(c) implies tiered.contains(c.port)
            && (c.v6 ==> ip.wants_v6()) && (!c.v6 ==> ip.wants_v4()) by {
            assert(whole.contains(c));
        }
    }
    r
}

} // verus!
