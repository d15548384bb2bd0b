//! The endpoint cache's vocabulary: which transport and which kind of
//! measurement an entry records, and what a cache mutation or a sanitising
//! pass reports.
use vstd::prelude::*;

pub use crate::ip::SockAddr;
use crate::paths::{joined, parent_of, path_join, path_parent};
use crate::text::owned;

verus! {

/// Which transport produced a measurement.
#[derive(Debug, Clone, Copy, PartialEq, Eq, Structural)]
pub enum TransportKind {
    Quic,
    H2,
}

impl Default for TransportKind {
    fn default() -> (t: TransportKind)
        ensures
            t == TransportKind::Quic,
    {
        TransportKind::Quic
    }
}

/// The transport the MASQUE tunnel uses, given whether HTTP/2 is switched on.
pub fn active_masque_transport(h2_enabled: bool) -> (t: TransportKind)
    ensures
        t == (if h2_enabled { TransportKind::H2 } else { TransportKind::Quic }),
{
    if h2_enabled {
        TransportKind::H2
    } else {
        TransportKind::Quic
    }
}

/// What sanitising a persisted cache had to throw away.
#[derive(Debug, Clone, Copy, PartialEq, Eq, Structural)]
pub struct Rejected {
    pub future_timestamp: u32,
    pub implausible_address: u32,
    pub clamped_counters: u32,
    pub implausible_rtt: u32,
}

impl Default for Rejected {
    fn default() -> (r: Rejected)
        ensures
            r.future_timestamp == 0 && r.implausible_address == 0 && r.clamped_counters == 0
                && r.implausible_rtt == 0,
    {
        Rejected { future_timestamp: 0, implausible_address: 0, clamped_counters: 0, implausible_rtt: 0 }
    }
}

impl Rejected {
    /// Entries dropped outright: stamped in the future or at an implausible
    /// address (clamped ones are kept).
    pub fn dropped(&self) -> (n: u64)
        ensures
            n == self.future_timestamp + self.implausible_address,
    {
        self.future_timestamp as u64 + self.implausible_address as u64
    }

    /// Nothing was thrown away.
    pub fn is_empty(&self) -> (b: bool)
        ensures
            b == (self.future_timestamp == 0 && self.implausible_address == 0
                && self.clamped_counters == 0 && self.implausible_rtt == 0),
    {
        self.future_timestamp == 0 && self.implausible_address == 0 && self.clamped_counters == 0
            && self.implausible_rtt == 0
    }
}

/// Whether a cache read-modify-write happened or was skipped on a held lock.
#[derive(Debug, Clone, Copy, PartialEq, Eq, Structural)]
pub enum Mutation {
    Applied,
    Skipped,
}

impl Mutation {
    pub fn was_skipped(self) -> (b: bool)
        ensures
            b == (self == Mutation::Skipped),
    {
        match self {
            Mutation::Skipped => true,
            Mutation::Applied => false,
        }
    }
}

/// Which act produced an RTT number.
#[derive(Debug, Clone, Copy, PartialEq, Eq, Structural)]
pub enum Measurement {
    /// A QUIC/TLS or WireGuard handshake probe.
    HandshakeProbe,
    /// A real HTTP round trip through a live tunnel.
    HttpRoundTrip,
}

impl Default for Measurement {
    fn default() -> (m: Measurement)
        ensures
            m == Measurement::HandshakeProbe,
    {
        Measurement::HandshakeProbe
    }
}

/// File name of the endpoint cache.
pub const CACHE_FILE: &'static str = "aether-endpoints.json";

/// Where the endpoint cache lives for a config path: inside it when it is a
/// directory, else beside it, else in the working directory.
pub open spec fn spec_cache_path(base: Seq<char>, is_dir: bool) -> Seq<char> {
    if is_dir {
        joined(base, CACHE_FILE@)
    } else {
        match parent_of(base) {
            Some(p) => if p.len() == 0 { CACHE_FILE@ } else { joined(p, CACHE_FILE@) },
            None => CACHE_FILE@,
        }
    }
}

/// The endpoint cache's path; `is_dir` says whether the config path names a
/// directory.
pub fn cache_path(base_config: &str, is_dir: bool) -> (r: String)
    ensures
        r@ == spec_cache_path(base_config@, is_dir),
{
    if is_dir {
        return path_join(base_config, CACHE_FILE);
    }
    match path_parent(base_config) {
        Some(p) => if p.as_str().unicode_len() == 0 {
            owned(CACHE_FILE)
        } else {
            path_join(p.as_str(), CACHE_FILE)
        },
        None => owned(CACHE_FILE),
    }
}


/// Most endpoints cached per protocol.
pub const MAX_CACHED: usize = 10;
/// Entries older than this (6 hours) are dropped on load.
pub const STALE_THRESHOLD_SECS: u64 = 21600;
/// Consecutive failures, with no success between, that evict an entry.
pub const EVICT_AFTER_CONSECUTIVE_FAILURES: u32 = 3;
/// The schema version every writer stamps.
pub const CACHE_VERSION: u32 = 2;
/// How far ahead of the clock a stamp may be before it counts as fabricated.
pub const MAX_FUTURE_SKEW_SECS: u64 = 300;
/// The most successes or failures an entry can plausibly have seen.
pub const MAX_SUCCESSES: u32 = 1000;
/// Anything above this is no measured round trip (60 s).
pub const MAX_PLAUSIBLE_RTT_MS: u32 = 60000;


/// One learned endpoint: when it was last seen, its round trip in ms (0 for
/// unknown), its connection history, and which transport and measurement
/// produced it.
#[derive(Debug, Clone, Copy, PartialEq, Eq, Structural)]
pub struct CachedEndpoint {
    pub addr: SockAddr,
    pub timestamp: u64,
    pub rtt_ms: u32,
    pub successes: u32,
    pub failures: u32,
    pub consecutive_failures: u32,
    pub transport: TransportKind,
    pub measurement: Measurement,
}

/// The persisted cache: its schema version (0 when written before there was
/// one), when it was written, and the two endpoint lists.
#[derive(Debug, Clone)]
pub struct EndpointsCache {
    pub version: u32,
    pub written_at: u64,
    pub masque: Vec<CachedEndpoint>,
    pub wireguard: Vec<CachedEndpoint>,
}

impl EndpointsCache {
    /// An empty cache with no version, as a missing file reads.
    pub fn empty() -> (c: EndpointsCache)
        ensures
            c.version == 0 && c.written_at == 0 && c.masque@.len() == 0 && c.wireguard@.len() == 0,
    {
        EndpointsCache { version: 0, written_at: 0, masque: Vec::new(), wireguard: Vec::new() }
    }

    /// Stamps the schema version and the write time, as every writer does.
    pub fn stamp(&mut self, now: u64)
        ensures
            final(self).version == CACHE_VERSION,
            final(self).written_at == now,
            final(self).masque@ == old(self).masque@,
            final(self).wireguard@ == old(self).wireguard@,
    {
        self.version = CACHE_VERSION;
        self.written_at = now;
    }
}

/// Whether an address may come out of the cache: never a loopback, an
/// unspecified, a link-local or a multicast address.
pub open spec fn spec_address_is_plausible(a: SockAddr) -> bool {
    if !a.v6 {
        let o0 = (a.ip >> 24u128) & 0xff;
        let o1 = (a.ip >> 16u128) & 0xff;
        !(o0 == 127 || a.ip == 0 || (o0 == 169 && o1 == 254) || (224 <= o0 && o0 <= 239))
    } else {
        let seg0 = a.ip >> 112u128;
        !(a.ip == 1 || a.ip == 0 || (seg0 & 0xffc0) == 0xfe80 || (seg0 >> 8u128) == 0xff)
    }
}

pub fn address_is_plausible(a: SockAddr) -> (b: bool)
    ensures
        b == spec_address_is_plausible(a),
{
    if !a.v6 {
        let o0 = (a.ip >> 24u128) & 0xff;
        let o1 = (a.ip >> 16u128) & 0xff;
        !(o0 == 127 || a.ip == 0 || (o0 == 169 && o1 == 254) || (224 <= o0 && o0 <= 239))
    } else {
        let seg0 = a.ip >> 112u128;
        !(a.ip == 1 || a.ip == 0 || (seg0 & 0xffc0) == 0xfe80 || (seg0 >> 8u128) == 0xff)
    }
}

pub open spec fn sat_add(a: u64, b: u64) -> u64 {
    if a + b <= u64::MAX { (a + b) as u64 } else { u64::MAX }
}

/// An entry with its counters clamped to `MAX_SUCCESSES` and an implausible
/// round trip read as unknown.
pub open spec fn clamped(e: CachedEndpoint) -> CachedEndpoint {
    CachedEndpoint {
        successes: if e.successes <= MAX_SUCCESSES { e.successes } else { MAX_SUCCESSES },
        failures: if e.failures <= MAX_SUCCESSES { e.failures } else { MAX_SUCCESSES },
        rtt_ms: if e.rtt_ms > MAX_PLAUSIBLE_RTT_MS { 0 } else { e.rtt_ms },
        ..e
    }
}

pub open spec fn is_future(e: CachedEndpoint, now: u64) -> bool {
    e.timestamp > sat_add(now, MAX_FUTURE_SKEW_SECS)
}

/// Whether sanitising keeps an entry: stamped no later than the allowed skew,
/// at a plausible address.
pub open spec fn survives(e: CachedEndpoint, now: u64) -> bool {
    !is_future(e, now) && spec_address_is_plausible(e.addr)
}

/// The entries sanitising keeps, clamped, in order.
pub open spec fn sanitised(s: Seq<CachedEndpoint>, now: u64) -> Seq<CachedEndpoint>
    decreases s.len(),
{
    if s.len() == 0 {
        seq![]
    } else if survives(s.last(), now) {
        sanitised(s.drop_last(), now).push(clamped(s.last()))
    } else {
        sanitised(s.drop_last(), now)
    }
}

/// How many entries of `s` satisfy `p`.
pub open spec fn count_where(s: Seq<CachedEndpoint>, p: spec_fn(CachedEndpoint) -> bool) -> nat
    decreases s.len(),
{
    if s.len() == 0 {
        0
    } else {
        count_where(s.drop_last(), p) + if p(s.last()) { 1nat } else { 0nat }
    }
}

/// The tally sanitising reports: entries stamped in the future, entries at an
/// implausible address (among the others), entries whose counters were
/// clamped, and entries whose round trip was implausible.
pub open spec fn spec_rejected(s: Seq<CachedEndpoint>, now: u64) -> (nat, nat, nat, nat) {
    (
        count_where(s, |e: CachedEndpoint| is_future(e, now)),
        count_where(s, |e: CachedEndpoint| !is_future(e, now) && !spec_address_is_plausible(e.addr)),
        count_where(s, |e: CachedEndpoint| e.successes > MAX_SUCCESSES || e.failures > MAX_SUCCESSES),
        count_where(s, |e: CachedEndpoint| e.rtt_ms > MAX_PLAUSIBLE_RTT_MS),
    )
}

proof fn lemma_count_le(s: Seq<CachedEndpoint>, p: spec_fn(CachedEndpoint) -> bool)
    ensures
        count_where(s, p) <= s.len(),
    decreases s.len(),
{
    if s.len() > 0 {
        lemma_count_le(s.drop_last(), p);
    }
}

/// Validates untrusted cache entries in place: clamps counters and
/// implausible round trips, drops entries stamped in the future or at an
/// implausible address, and reports what it did.
pub fn sanitise(endpoints: &mut Vec<CachedEndpoint>, now: u64) -> (r: Rejected)
    requires
        old(endpoints)@.len() <= u32::MAX,
    ensures
        final(endpoints)@ == sanitised(old(endpoints)@, now),
        (r.future_timestamp as nat, r.implausible_address as nat, r.clamped_counters as nat, r.implausible_rtt as nat)
            == spec_rejected(old(endpoints)@, now),
{
    let ghost s = endpoints@;
    let limit = now.saturating_add(MAX_FUTURE_SKEW_SECS);
    let mut out = Rejected { future_timestamp: 0, implausible_address: 0, clamped_counters: 0, implausible_rtt: 0 };
    let mut kept: Vec<CachedEndpoint> = Vec::new();
    let mut i: usize = 0;
    while i < endpoints.len()
        invariant
            s == endpoints@,
            s.len() <= u32::MAX,
            i <= s.len(),
            limit == sat_add(now, MAX_FUTURE_SKEW_SECS),
            kept@ == sanitised(s.take(i as int), now),
            (out.future_timestamp as nat, out.implausible_address as nat, out.clamped_counters as nat, out.implausible_rtt as nat)
                == spec_rejected(s.take(i as int), now),
        decreases s.len() - i,
    {
        let ghost t = s.take(i + 1);
        proof {
            assert(t.drop_last() =~= s.take(i as int));
            let f = |e: CachedEndpoint| is_future(e, now);
            let g = |e: CachedEndpoint| !is_future(e, now) && !spec_address_is_plausible(e.addr);
            let h = |e: CachedEndpoint| e.successes > MAX_SUCCESSES || e.failures > MAX_SUCCESSES;
            let k = |e: CachedEndpoint| e.rtt_ms > MAX_PLAUSIBLE_RTT_MS;
            lemma_count_le(s.take(i as int), f);
            lemma_count_le(s.take(i as int), g);
            lemma_count_le(s.take(i as int), h);
            lemma_count_le(s.take(i as int), k);
        }
        let mut e = endpoints[i];
        if e.successes > MAX_SUCCESSES || e.failures > MAX_SUCCESSES {
            out.clamped_counters += 1;
            if e.successes > MAX_SUCCESSES {
                e.successes = MAX_SUCCESSES;
            }
            if e.failures > MAX_SUCCESSES {
                e.failures = MAX_SUCCESSES;
            }
        }
        if e.rtt_ms > MAX_PLAUSIBLE_RTT_MS {
            out.implausible_rtt += 1;
            e.rtt_ms = 0;
        }
        assert(e == clamped(s[i as int]));
        if e.timestamp > limit {
            out.future_timestamp += 1;
        } else if !address_is_plausible(e.addr) {
            out.implausible_address += 1;
        } else {
            kept.push(e);
        }
        i += 1;
    }
    assert(s.take(s.len() as int) =~= s);
    *endpoints = kept;
    out
}

/// Drops entries at least `STALE_THRESHOLD_SECS` old (by the clock reading
/// `now`), then sanitises what is left.
pub fn decay_stale_at(endpoints: &mut Vec<CachedEndpoint>, now: u64) -> (r: Rejected)
    requires
        old(endpoints)@.len() <= u32::MAX,
    ensures
        final(endpoints)@ == sanitised(fresh_entries(old(endpoints)@, now), now),
        (r.future_timestamp as nat, r.implausible_address as nat, r.clamped_counters as nat, r.implausible_rtt as nat)
            == spec_rejected(fresh_entries(old(endpoints)@, now), now),
{
    let ghost s = endpoints@;
    let mut fresh: Vec<CachedEndpoint> = Vec::new();
    let mut i: usize = 0;
    while i < endpoints.len()
        invariant
            s == endpoints@,
            i <= s.len(),
            fresh@ == fresh_entries(s.take(i as int), now),
            fresh@.len() <= i,
        decreases s.len() - i,
    {
        assert(s.take(i + 1).drop_last() =~= s.take(i as int));
        let e = endpoints[i];
        let age = now.saturating_sub(e.timestamp);
        if age < STALE_THRESHOLD_SECS {
            fresh.push(e);
        }
        i += 1;
    }
    assert(s.take(s.len() as int) =~= s);
    *endpoints = fresh;
    sanitise(endpoints, now)
}

/// `sanitise`, also adding the entries it dropped to the shared
/// rejected-entries counter when there were any.
pub fn sanitise_counted(endpoints: &mut Vec<CachedEndpoint>, now: u64, rejected_counter: &std::sync::atomic::AtomicU64) -> (r: Rejected)
    requires
        old(endpoints)@.len() <= u32::MAX,
    ensures
        final(endpoints)@ == sanitised(old(endpoints)@, now),
        (r.future_timestamp as nat, r.implausible_address as nat, r.clamped_counters as nat, r.implausible_rtt as nat)
            == spec_rejected(old(endpoints)@, now),
{
    let r = sanitise(endpoints, now);
    let dropped = r.dropped();
    if dropped > 0 {
        crate::counters::bump_by(rejected_counter, dropped);
    }
    r
}

/// The entries younger than `STALE_THRESHOLD_SECS` at `now` (a stamp in the
/// future counts as age 0), in order.
pub open spec fn fresh_entries(s: Seq<CachedEndpoint>, now: u64) -> Seq<CachedEndpoint>
    decreases s.len(),
{
    if s.len() == 0 {
        seq![]
    } else {
        let age: int = if now >= s.last().timestamp { now - s.last().timestamp } else { 0 };
        if age < STALE_THRESHOLD_SECS {
            fresh_entries(s.drop_last(), now).push(s.last())
        } else {
            fresh_entries(s.drop_last(), now)
        }
    }
}

/// `decay_stale_at` by the wall clock.
pub fn decay_stale(endpoints: &mut Vec<CachedEndpoint>) -> (r: Rejected)
    requires
        old(endpoints)@.len() <= u32::MAX,
    ensures
        exists|now: u64| #![trigger fresh_entries(old(endpoints)@, now)]
            final(endpoints)@ == sanitised(fresh_entries(old(endpoints)@, now), now),
{
    let now = crate::rng::unix_time_secs();
    let r = decay_stale_at(endpoints, now);
    r
}

/// Index of the first entry for `addr` over `t`, or the length.
pub open spec fn find_entry(s: Seq<CachedEndpoint>, addr: SockAddr, t: TransportKind) -> int
    decreases s.len(),
{
    if s.len() == 0 {
        0
    } else if s[0].addr == addr && s[0].transport == t {
        0
    } else {
        1 + find_entry(s.drop_first(), addr, t)
    }
}

proof fn lemma_find_entry(s: Seq<CachedEndpoint>, addr: SockAddr, t: TransportKind)
    ensures
        0 <= find_entry(s, addr, t) <= s.len(),
        forall|j: int| 0 <= j < find_entry(s, addr, t) ==> !(s[j].addr == addr && s[j].transport == t),
        find_entry(s, addr, t) < s.len() ==> s[find_entry(s, addr, t)].addr == addr
            && s[find_entry(s, addr, t)].transport == t,
    decreases s.len(),
{
    if s.len() > 0 && !(s[0].addr == addr && s[0].transport == t) {
        lemma_find_entry(s.drop_first(), addr, t);
        assert forall|j: int| 0 <= j < find_entry(s, addr, t) implies !(s[j].addr == addr && s[j].transport == t) by {
            if j > 0 {
                assert(s[j] == s.drop_first()[j - 1]);
            }
        }
    }
}

fn position(list: &Vec<CachedEndpoint>, addr: SockAddr, t: TransportKind) -> (k: usize)
    ensures
        k == find_entry(list@, addr, t),
{
    let mut k: usize = 0;
    while k < list.len() && !(list[k].addr == addr && list[k].transport == t)
        invariant
            k <= list@.len(),
            forall|j: int| 0 <= j < k ==> !(list@[j].addr == addr && list@[j].transport == t),
        decreases list@.len() - k,
    {
        k += 1;
    }
    proof {
        lemma_find_entry(list@, addr, t);
        let f = find_entry(list@, addr, t);
        if f < k {
            assert(list@[f].addr == addr && list@[f].transport == t);
        }
    }
    k
}

pub open spec fn sat_inc(x: u32) -> u32 {
    if x < u32::MAX { (x + 1) as u32 } else { u32::MAX }
}

/// The list after a successful connection to `addr` over `t` at `now`: the
/// entry's successes go up, its failure streak resets and its stamp moves;
/// an unknown endpoint is added in front with one success (the list then
/// kept to `MAX_CACHED`).
pub open spec fn after_success(s: Seq<CachedEndpoint>, addr: SockAddr, t: TransportKind, now: u64) -> Seq<CachedEndpoint> {
    let k = find_entry(s, addr, t);
    if k < s.len() {
        s.update(k, CachedEndpoint { successes: sat_inc(s[k].successes), consecutive_failures: 0, timestamp: now, ..s[k] })
    } else {
        let e = CachedEndpoint {
            addr,
            timestamp: now,
            rtt_ms: 0,
            successes: 1,
            failures: 0,
            consecutive_failures: 0,
            transport: t,
            measurement: Measurement::HandshakeProbe,
        };
        let l = seq![e] + s;
        if l.len() > MAX_CACHED { l.take(MAX_CACHED as int) } else { l }
    }
}

/// The list after a failed attempt on `addr` over `t` at `now`: the entry's
/// failures and failure streak go up and its stamp moves, and it is dropped
/// once the streak reaches `EVICT_AFTER_CONSECUTIVE_FAILURES`; an unknown
/// endpoint changes nothing.
pub open spec fn after_failure(s: Seq<CachedEndpoint>, addr: SockAddr, t: TransportKind, now: u64) -> Seq<CachedEndpoint> {
    let k = find_entry(s, addr, t);
    if k < s.len() {
        let e = CachedEndpoint {
            failures: sat_inc(s[k].failures),
            consecutive_failures: sat_inc(s[k].consecutive_failures),
            timestamp: now,
            ..s[k]
        };
        if e.consecutive_failures >= EVICT_AFTER_CONSECUTIVE_FAILURES { s.remove(k) } else { s.update(k, e) }
    } else {
        s
    }
}

/// Records a successful connection on the list it belongs to.
pub fn record_success_on(list: &mut Vec<CachedEndpoint>, addr: SockAddr, transport: TransportKind, now: u64)
    ensures
        final(list)@ == after_success(old(list)@, addr, transport, now),
{
    let k = position(list, addr, transport);
    if k < list.len() {
        let mut e = list[k];
        e.successes = e.successes.saturating_add(1);
        e.consecutive_failures = 0;
        e.timestamp = now;
        list.set(k, e);
    } else {
        let e = CachedEndpoint {
            addr,
            timestamp: now,
            rtt_ms: 0,
            successes: 1,
            failures: 0,
            consecutive_failures: 0,
            transport,
            measurement: Measurement::HandshakeProbe,
        };
        let ghost before = list@;
        list.insert(0, e);
        assert(list@ =~= seq![e] + before);
        list.truncate(MAX_CACHED);
    }
}

/// Records a failed attempt on the list it belongs to, evicting the entry
/// after `EVICT_AFTER_CONSECUTIVE_FAILURES` failures in a row.
pub fn record_failure_on(list: &mut Vec<CachedEndpoint>, addr: SockAddr, transport: TransportKind, now: u64)
    ensures
        final(list)@ == after_failure(old(list)@, addr, transport, now),
{
    let k = position(list, addr, transport);
    if k < list.len() {
        let mut e = list[k];
        e.failures = e.failures.saturating_add(1);
        e.consecutive_failures = e.consecutive_failures.saturating_add(1);
        e.timestamp = now;
        if e.consecutive_failures >= EVICT_AFTER_CONSECUTIVE_FAILURES {
            list.remove(k);
        } else {
            list.set(k, e);
        }
    }
}

proof fn lemma_filter_single_out(x: CachedEndpoint, p: spec_fn(CachedEndpoint) -> bool)
    requires
        !p(x),
    ensures
        seq![x].filter(p) == Seq::<CachedEndpoint>::empty(),
{
    reveal_with_fuel(Seq::filter, 2);
    assert(seq![x].drop_last() =~= Seq::<CachedEndpoint>::empty());
}

/// A failure over one transport leaves every entry of another transport as
/// it was: strikes land only on the transport that failed.
pub proof fn lemma_failure_spares_other_transports(
    s: Seq<CachedEndpoint>,
    addr: SockAddr,
    t: TransportKind,
    other: TransportKind,
    now: u64,
)
    requires
        other != t,
    ensures
        after_failure(s, addr, t, now).filter(|e: CachedEndpoint| e.transport == other)
            == s.filter(|e: CachedEndpoint| e.transport == other),
{
    let k = find_entry(s, addr, t);
    lemma_find_entry(s, addr, t);
    let p = |e: CachedEndpoint| e.transport == other;
    if k < s.len() {
        let e = CachedEndpoint {
            failures: sat_inc(s[k].failures),
            consecutive_failures: sat_inc(s[k].consecutive_failures),
            timestamp: now,
            ..s[k]
        };
        assert(!p(s[k]) && !p(e));
        if e.consecutive_failures >= EVICT_AFTER_CONSECUTIVE_FAILURES {
            assert(s =~= s.take(k) + seq![s[k]] + s.skip(k + 1));
            assert(s.remove(k) =~= s.take(k) + s.skip(k + 1));
            Seq::filter_distributes_over_add(s.take(k) + seq![s[k]], s.skip(k + 1), p);
            Seq::filter_distributes_over_add(s.take(k), seq![s[k]], p);
            Seq::filter_distributes_over_add(s.take(k), s.skip(k + 1), p);
            lemma_filter_single_out(s[k], p);
        } else {
            let u = s.update(k, e);
            assert(s =~= s.take(k) + seq![s[k]] + s.skip(k + 1));
            assert(u =~= s.take(k) + seq![e] + s.skip(k + 1));
            Seq::filter_distributes_over_add(s.take(k) + seq![s[k]], s.skip(k + 1), p);
            Seq::filter_distributes_over_add(s.take(k), seq![s[k]], p);
            Seq::filter_distributes_over_add(s.take(k) + seq![e], s.skip(k + 1), p);
            Seq::filter_distributes_over_add(s.take(k), seq![e], p);
            lemma_filter_single_out(s[k], p);
            lemma_filter_single_out(e, p);
        }
    }
}

/// A success over one transport leaves the other transports' entries as
/// they were, unless it adds an entry to a full list (which then loses its
/// last entry).
pub proof fn lemma_success_spares_other_transports(
    s: Seq<CachedEndpoint>,
    addr: SockAddr,
    t: TransportKind,
    other: TransportKind,
    now: u64,
)
    requires
        other != t,
        find_entry(s, addr, t) < s.len() || s.len() < MAX_CACHED,
    ensures
        after_success(s, addr, t, now).filter(|e: CachedEndpoint| e.transport == other)
            == s.filter(|e: CachedEndpoint| e.transport == other),
{
    let k = find_entry(s, addr, t);
    lemma_find_entry(s, addr, t);
    let p = |e: CachedEndpoint| e.transport == other;
    if k < s.len() {
        let e = CachedEndpoint { successes: sat_inc(s[k].successes), consecutive_failures: 0, timestamp: now, ..s[k] };
        let u = s.update(k, e);
        assert(s =~= s.take(k) + seq![s[k]] + s.skip(k + 1));
        assert(u =~= s.take(k) + seq![e] + s.skip(k + 1));
        Seq::filter_distributes_over_add(s.take(k) + seq![s[k]], s.skip(k + 1), p);
        Seq::filter_distributes_over_add(s.take(k), seq![s[k]], p);
        Seq::filter_distributes_over_add(s.take(k) + seq![e], s.skip(k + 1), p);
        Seq::filter_distributes_over_add(s.take(k), seq![e], p);
        lemma_filter_single_out(s[k], p);
        lemma_filter_single_out(e, p);
    } else {
        let e = CachedEndpoint {
            addr,
            timestamp: now,
            rtt_ms: 0,
            successes: 1,
            failures: 0,
            consecutive_failures: 0,
            transport: t,
            measurement: Measurement::HandshakeProbe,
        };
        Seq::filter_distributes_over_add(seq![e], s, p);
        lemma_filter_single_out(e, p);
        assert(Seq::<CachedEndpoint>::empty() + s.filter(p) =~= s.filter(p));
    }
}

/// How many entries of `s` are for `addr` over `t`.
pub open spec fn matches_count(s: Seq<CachedEndpoint>, addr: SockAddr, t: TransportKind) -> nat
    decreases s.len(),
{
    if s.len() == 0 {
        0
    } else {
        matches_count(s.drop_first(), addr, t) + if s[0].addr == addr && s[0].transport == t { 1nat } else { 0nat }
    }
}

proof fn lemma_count_find(s: Seq<CachedEndpoint>, addr: SockAddr, t: TransportKind)
    ensures
        (matches_count(s, addr, t) == 0) == (find_entry(s, addr, t) == s.len()),
    decreases s.len(),
{
    if s.len() > 0 {
        lemma_count_find(s.drop_first(), addr, t);
    }
}

proof fn lemma_count_remove(s: Seq<CachedEndpoint>, k: int, addr: SockAddr, t: TransportKind)
    requires
        0 <= k < s.len(),
        s[k].addr == addr && s[k].transport == t,
    ensures
        matches_count(s.remove(k), addr, t) + 1 == matches_count(s, addr, t),
    decreases k,
{
    if k == 0 {
        assert(s.remove(0) =~= s.drop_first());
    } else {
        assert(s.remove(k).drop_first() =~= s.drop_first().remove(k - 1));
        assert(s.remove(k)[0] == s[0]);
        lemma_count_remove(s.drop_first(), k - 1, addr, t);
    }
}

proof fn lemma_update_keeps(s: Seq<CachedEndpoint>, k: int, e: CachedEndpoint, addr: SockAddr, t: TransportKind)
    requires
        0 <= k < s.len(),
        find_entry(s, addr, t) == k,
        e.addr == addr && e.transport == t,
    ensures
        find_entry(s.update(k, e), addr, t) == k,
        matches_count(s.update(k, e), addr, t) == matches_count(s, addr, t),
    decreases k,
{
    lemma_find_entry(s, addr, t);
    if k == 0 {
        assert(s.update(0, e).drop_first() =~= s.drop_first());
    } else {
        assert(s.update(k, e).drop_first() =~= s.drop_first().update(k - 1, e));
        assert(s.update(k, e)[0] == s[0]);
        lemma_update_keeps(s.drop_first(), k - 1, e, addr, t);
    }
}

proof fn lemma_count_take(s: Seq<CachedEndpoint>, n: int, addr: SockAddr, t: TransportKind)
    requires
        0 <= n <= s.len(),
    ensures
        matches_count(s.take(n), addr, t) <= matches_count(s, addr, t),
    decreases s.len(),
{
    if n > 0 {
        assert(s.take(n).drop_first() =~= s.drop_first().take(n - 1));
        lemma_count_take(s.drop_first(), n - 1, addr, t);
    } else {
        assert(s.take(0).len() == 0);
    }
}

/// After a success the entry is there, first of its kind, with a clean
/// failure streak, and still the only one when it was at most one before.
proof fn lemma_success_entry(s: Seq<CachedEndpoint>, addr: SockAddr, t: TransportKind, now: u64)
    requires
        matches_count(s, addr, t) <= 1,
    ensures
        ({
            let r = after_success(s, addr, t, now);
            let k = find_entry(r, addr, t);
            &&& k < r.len()
            &&& r[k].consecutive_failures == 0
            &&& matches_count(r, addr, t) == 1
        }),
{
    let k = find_entry(s, addr, t);
    lemma_find_entry(s, addr, t);
    lemma_count_find(s, addr, t);
    if k < s.len() {
        let e = CachedEndpoint { successes: sat_inc(s[k].successes), consecutive_failures: 0, timestamp: now, ..s[k] };
        lemma_update_keeps(s, k, e, addr, t);
    } else {
        let e = CachedEndpoint {
            addr,
            timestamp: now,
            rtt_ms: 0,
            successes: 1,
            failures: 0,
            consecutive_failures: 0,
            transport: t,
            measurement: Measurement::HandshakeProbe,
        };
        let l = seq![e] + s;
        assert(l.drop_first() =~= s);
        assert(matches_count(l, addr, t) == 1);
        let r = after_success(s, addr, t, now);
        if l.len() > MAX_CACHED {
            lemma_count_take(l, MAX_CACHED as int, addr, t);
            assert(r[0] == e);
        }
        assert(r[0] == e);
        assert(find_entry(r, addr, t) == 0);
        lemma_count_find(r, addr, t);
    }
}

/// One failure on the only entry for `addr` over `t`, whose streak is `n`.
proof fn lemma_failure_step(s: Seq<CachedEndpoint>, addr: SockAddr, t: TransportKind, now: u64)
    requires
        find_entry(s, addr, t) < s.len(),
        matches_count(s, addr, t) == 1,
        s[find_entry(s, addr, t)].consecutive_failures < 3,
    ensures
        ({
            let r = after_failure(s, addr, t, now);
            let k = find_entry(s, addr, t);
            if s[k].consecutive_failures + 1 >= 3 {
                matches_count(r, addr, t) == 0 && find_entry(r, addr, t) == r.len()
            } else {
                &&& find_entry(r, addr, t) == k
                &&& matches_count(r, addr, t) == 1
                &&& r[k].consecutive_failures == s[k].consecutive_failures + 1
            }
        }),
{
    let k = find_entry(s, addr, t);
    lemma_find_entry(s, addr, t);
    let e = CachedEndpoint {
        failures: sat_inc(s[k].failures),
        consecutive_failures: sat_inc(s[k].consecutive_failures),
        timestamp: now,
        ..s[k]
    };
    if e.consecutive_failures >= EVICT_AFTER_CONSECUTIVE_FAILURES {
        lemma_count_remove(s, k, addr, t);
        lemma_count_find(s.remove(k), addr, t);
    } else {
        lemma_update_keeps(s, k, e, addr, t);
    }
}

/// A success followed by three failures in a row over the same transport
/// evicts the endpoint (when the list held at most one entry for it), and
/// two are not enough.
pub proof fn lemma_three_strikes_evict(
    s: Seq<CachedEndpoint>,
    addr: SockAddr,
    t: TransportKind,
    n0: u64,
    n1: u64,
    n2: u64,
    n3: u64,
)
    requires
        matches_count(s, addr, t) <= 1,
    ensures
        ({
            let a = after_success(s, addr, t, n0);
            let b = after_failure(after_failure(a, addr, t, n1), addr, t, n2);
            let c = after_failure(b, addr, t, n3);
            &&& find_entry(b, addr, t) < b.len()
            &&& find_entry(c, addr, t) == c.len()
        }),
{
    let a = after_success(s, addr, t, n0);
    lemma_success_entry(s, addr, t, n0);
    lemma_failure_step(a, addr, t, n1);
    let a1 = after_failure(a, addr, t, n1);
    lemma_failure_step(a1, addr, t, n2);
    let b = after_failure(a1, addr, t, n2);
    lemma_failure_step(b, addr, t, n3);
}

/// Index of the first entry for `addr` over any transport, or the length.
pub open spec fn find_addr(s: Seq<CachedEndpoint>, addr: SockAddr) -> int
    decreases s.len(),
{
    if s.len() == 0 {
        0
    } else if s[0].addr == addr {
        0
    } else {
        1 + find_addr(s.drop_first(), addr)
    }
}

/// `s` without its entries for `addr`.
pub open spec fn drop_addr(s: Seq<CachedEndpoint>, addr: SockAddr) -> Seq<CachedEndpoint>
    decreases s.len(),
{
    if s.len() == 0 {
        seq![]
    } else if s.last().addr == addr {
        drop_addr(s.drop_last(), addr)
    } else {
        drop_addr(s.drop_last(), addr).push(s.last())
    }
}

/// One scan hit put in front of the list: its address's older entries go,
/// their success and failure counts (of the first one) carry over, the
/// failure streak starts clean.
pub open spec fn upsert_one(
    s: Seq<CachedEndpoint>,
    addr: SockAddr,
    rtt_ms: u32,
    t: TransportKind,
    m: Measurement,
    now: u64,
) -> Seq<CachedEndpoint> {
    let k = find_addr(s, addr);
    let e = CachedEndpoint {
        addr,
        timestamp: now,
        rtt_ms,
        successes: if k < s.len() { s[k].successes } else { 0 },
        failures: if k < s.len() { s[k].failures } else { 0 },
        consecutive_failures: 0,
        transport: t,
        measurement: m,
    };
    seq![e] + drop_addr(s, addr)
}

/// The hits put in front one by one from the last, so that the first hit
/// ends up first.
pub open spec fn upsert_all(
    s: Seq<CachedEndpoint>,
    eps: Seq<(SockAddr, u32)>,
    t: TransportKind,
    m: Measurement,
    now: u64,
) -> Seq<CachedEndpoint>
    decreases eps.len(),
{
    if eps.len() == 0 {
        s
    } else {
        upsert_all(upsert_one(s, eps.last().0, eps.last().1, t, m, now), eps.drop_last(), t, m, now)
    }
}

/// The list after a batch of scan hits, kept to `MAX_CACHED` entries.
pub open spec fn spec_upsert(
    s: Seq<CachedEndpoint>,
    eps: Seq<(SockAddr, u32)>,
    t: TransportKind,
    m: Measurement,
    now: u64,
) -> Seq<CachedEndpoint> {
    let l = upsert_all(s, eps, t, m, now);
    if l.len() > MAX_CACHED { l.take(MAX_CACHED as int) } else { l }
}

proof fn lemma_find_addr(s: Seq<CachedEndpoint>, addr: SockAddr)
    ensures
        0 <= find_addr(s, addr) <= s.len(),
        forall|j: int| 0 <= j < find_addr(s, addr) ==> s[j].addr != addr,
        find_addr(s, addr) < s.len() ==> s[find_addr(s, addr)].addr == addr,
    decreases s.len(),
{
    if s.len() > 0 && s[0].addr != addr {
        lemma_find_addr(s.drop_first(), addr);
        assert forall|j: int| 0 <= j < find_addr(s, addr) implies s[j].addr != addr by {
            if j > 0 {
                assert(s[j] == s.drop_first()[j - 1]);
            }
        }
    }
}

proof fn lemma_drop_addr(s: Seq<CachedEndpoint>, addr: SockAddr)
    ensures
        forall|j: int| 0 <= j < drop_addr(s, addr).len() ==> (#[trigger] drop_addr(s, addr)[j]).addr != addr,
        drop_addr(s, addr).len() <= s.len(),
    decreases s.len(),
{
    if s.len() > 0 {
        lemma_drop_addr(s.drop_last(), addr);
    }
}

fn find_addr_exec(list: &Vec<CachedEndpoint>, addr: SockAddr) -> (k: usize)
    ensures
        k == find_addr(list@, addr),
{
    let mut k: usize = 0;
    while k < list.len() && list[k].addr != addr
        invariant
            k <= list@.len(),
            forall|j: int| 0 <= j < k ==> list@[j].addr != addr,
        decreases list@.len() - k,
    {
        k += 1;
    }
    proof {
        lemma_find_addr(list@, addr);
        let f = find_addr(list@, addr);
        if f < k {
            assert(list@[f].addr == addr);
        }
    }
    k
}

fn upsert_hit(list: &mut Vec<CachedEndpoint>, addr: SockAddr, rtt_ms: u32, transport: TransportKind, measurement: Measurement, now: u64)
    ensures
        final(list)@ == upsert_one(old(list)@, addr, rtt_ms, transport, measurement, now),
{
    let k = find_addr_exec(list, addr);
    let (successes, failures) = if k < list.len() { (list[k].successes, list[k].failures) } else { (0, 0) };
    let ghost s = list@;
    let mut rest: Vec<CachedEndpoint> = Vec::new();
    let mut i: usize = 0;
    while i < list.len()
        invariant
            s == list@,
            i <= s.len(),
            rest@ == drop_addr(s.take(i as int), addr),
        decreases s.len() - i,
    {
        assert(s.take(i + 1).drop_last() =~= s.take(i as int));
        if list[i].addr != addr {
            rest.push(list[i]);
        }
        i += 1;
    }
    assert(s.take(s.len() as int) =~= s);
    let e = CachedEndpoint {
        addr,
        timestamp: now,
        rtt_ms,
        successes,
        failures,
        consecutive_failures: 0,
        transport,
        measurement,
    };
    rest.insert(0, e);
    assert(rest@ =~= seq![e] + drop_addr(s, addr));
    *list = rest;
}

/// Puts a batch of scan hits (address and round trip) in front of the list,
/// keeping what each known address had accrued, and keeps the list to
/// `MAX_CACHED` entries. `now` is the stamp the hits get.
pub fn upsert(
    list: &mut Vec<CachedEndpoint>,
    endpoints: Vec<(SockAddr, u32)>,
    transport: TransportKind,
    measurement: Measurement,
    now: u64,
)
    ensures
        final(list)@ == spec_upsert(old(list)@, endpoints@, transport, measurement, now),
{
    let ghost s = list@;
    let ghost eps = endpoints@;
    let mut j: usize = endpoints.len();
    assert(eps.take(eps.len() as int) =~= eps);
    while j > 0
        invariant
            j <= eps.len(),
            eps == endpoints@,
            upsert_all(list@, eps.take(j as int), transport, measurement, now)
                == upsert_all(s, eps, transport, measurement, now),
        decreases j,
    {
        let (addr, rtt) = endpoints[j - 1];
        let ghost before = list@;
        upsert_hit(list, addr, rtt, transport, measurement, now);
        assert(eps.take(j as int).drop_last() =~= eps.take(j - 1));
        assert(eps.take(j as int).last() == eps[j - 1]);
        j -= 1;
    }
    assert(eps.take(0) =~= Seq::<(SockAddr, u32)>::empty());
    assert(eps.take(eps.len() as int) =~= eps);
    list.truncate(MAX_CACHED);
}

/// Re-adding a known address keeps its accrued history, moves it to the
/// front with the new round trip and stamp, and leaves no second entry for
/// it.
pub proof fn lemma_readding_keeps_history(
    s: Seq<CachedEndpoint>,
    addr: SockAddr,
    rtt_ms: u32,
    t: TransportKind,
    m: Measurement,
    now: u64,
)
    requires
        find_addr(s, addr) < s.len(),
    ensures
        ({
            let r = upsert_one(s, addr, rtt_ms, t, m, now);
            let k = find_addr(s, addr);
            &&& r[0].addr == addr && r[0].rtt_ms == rtt_ms && r[0].timestamp == now
            &&& r[0].successes == s[k].successes && r[0].failures == s[k].failures
            &&& r[0].consecutive_failures == 0
            &&& forall|j: int| 1 <= j < r.len() ==> r[j].addr != addr
        }),
{
    let r = upsert_one(s, addr, rtt_ms, t, m, now);
    lemma_drop_addr(s, addr);
    assert forall|j: int| 1 <= j < r.len() implies r[j].addr != addr by {
        assert(r[j] == drop_addr(s, addr)[j - 1]);
    }
}

/// The entries measured over `t`, in order.
pub fn entries_for(list: &Vec<CachedEndpoint>, t: TransportKind) -> (r: Vec<CachedEndpoint>)
    ensures
        r@ == list@.filter(|e: CachedEndpoint| e.transport == t),
{
    let ghost p = |e: CachedEndpoint| e.transport == t;
    let mut r: Vec<CachedEndpoint> = Vec::new();
    let mut i: usize = 0;
    while i < list.len()
        invariant
            i <= list@.len(),
            p == (|e: CachedEndpoint| e.transport == t),
            r@ == list@.take(i as int).filter(p),
        decreases list@.len() - i,
    {
        proof {
            reveal(Seq::filter);
            assert(list@.take(i + 1).drop_last() =~= list@.take(i as int));
        }
        if list[i].transport == t {
            r.push(list[i]);
        }
        i += 1;
    }
    assert(list@.take(list@.len() as int) =~= list@);
    r
}

/// How long provisioning waits for another process's lock, in seconds.
pub const PROVISION_LOCK_WAIT_SECS: u64 = 60;

/// The provisioning lock beside the endpoint cache.
pub fn provision_lock_path(cache_file: &str) -> (p: String)
    ensures
        p@ == cache_file@ + ".provision.lock"@,
{
    crate::text::join2(cache_file, ".provision.lock")
}

/// What the holder of the lock writes into it (and its owner file).
pub fn owner_record(pid: u32) -> (r: String)
    ensures
        r@ == "pid="@ + crate::text::decimal(pid as nat) + "\n"@,
{
    let n = crate::text::decimal_string(pid as u64);
    let mut r = crate::text::join2("pid=", n.as_str());
    r.append("\n");
    r
}

/// `s` with every leading copy of `p` removed.
pub open spec fn strip_all_prefix(s: Seq<char>, p: Seq<char>) -> Seq<char>
    decreases s.len(),
{
    if p.len() > 0 && s.len() >= p.len() && s.take(p.len() as int) == p {
        strip_all_prefix(s.skip(p.len() as int), p)
    } else {
        s
    }
}

/// The first line that starts with `pid=`, if any.
pub open spec fn first_pid_line(lines: Seq<Seq<char>>) -> Option<Seq<char>>
    decreases lines.len(),
{
    if lines.len() == 0 {
        None
    } else if lines[0].len() >= 4 && lines[0].take(4) == "pid="@ {
        Some(lines[0])
    } else {
        first_pid_line(lines.drop_first())
    }
}

/// The pid a lock names: on its first `pid=` line, the rest after the
/// `pid=` prefixes, trimmed; `unknown` when there is no such line.
pub open spec fn spec_owner_pid_text(content: Seq<char>) -> Seq<char> {
    match first_pid_line(crate::text::split_on(content, '\n')) {
        Some(l) => crate::text::trim(strip_all_prefix(l, "pid="@)),
        None => "unknown"@,
    }
}

fn strip_pid_prefixes(v: &Vec<char>) -> (r: Vec<char>)
    ensures
        r@ == strip_all_prefix(v@, "pid="@),
{
    proof {
        reveal_strlit("pid=");
    }
    assert(v@.skip(0) =~= v@);
    let mut i: usize = 0;
    while i < v.len() && v.len() - i >= 4 && v[i] == 'p' && v[i + 1] == 'i' && v[i + 2] == 'd' && v[i + 3] == '='
        invariant
            i <= v@.len(),
            "pid="@ == seq!['p', 'i', 'd', '='],
            strip_all_prefix(v@, "pid="@) == strip_all_prefix(v@.skip(i as int), "pid="@),
        decreases v@.len() - i,
    {
        assert(v@.skip(i as int).take(4) =~= "pid="@);
        assert(v@.skip(i as int).skip(4) =~= v@.skip(i + 4));
        i += 4;
    }
    proof {
        let t = v@.skip(i as int);
        if t.len() >= 4 && t.take(4) == "pid="@ {
            assert(t.take(4)[0] == 'p' && t.take(4)[1] == 'i' && t.take(4)[2] == 'd' && t.take(4)[3] == '=');
            assert(v@[i as int] == t[0] && v@[i + 1] == t[1] && v@[i + 2] == t[2] && v@[i + 3] == t[3]);
        }
    }
    let r = crate::text::slice_chars(v, i, v.len());
    assert(r@ =~= v@.skip(i as int));
    r
}

/// The pid text of a lock's content.
pub fn owner_pid_text(content: &str) -> (r: String)
    ensures
        r@ == spec_owner_pid_text(content@),
{
    let v = crate::text::chars_of(content);
    let lines = crate::text::split_chars(&v, '\n');
    let ghost ls = lines@.map_values(|x: Vec<char>| x@);
    assert(ls.skip(0) =~= ls);
    let mut i: usize = 0;
    while i < lines.len()
        invariant
            i <= lines@.len(),
            ls == lines@.map_values(|x: Vec<char>| x@),
            ls == crate::text::split_on(content@, '\n'),
            first_pid_line(ls) == first_pid_line(ls.skip(i as int)),
        decreases lines@.len() - i,
    {
        proof {
            reveal_strlit("pid=");
            assert(ls.skip(i as int)[0] == lines@[i as int]@);
            assert(ls.skip(i as int).drop_first() =~= ls.skip(i + 1));
        }
        if crate::text::starts_with_str(&lines[i], "pid=") {
            let stripped = strip_pid_prefixes(&lines[i]);
            let s = crate::text::string_of(&stripped);
            let t = crate::text::string_of(&crate::text::trimmed(s.as_str()));
            assert(first_pid_line(ls.skip(i as int)) == Some(lines@[i as int]@));
            assert(ls == crate::text::split_on(content@, '\n'));
            assert(t@ == crate::text::trim(strip_all_prefix(lines@[i as int]@, "pid="@)));
            return t;
        }
        i += 1;
    }
    proof {
        assert(ls.skip(i as int).len() == 0);
    }
    crate::text::owned("unknown")
}


/// The pid a lock names, when its pid text reads as a `u32`.
pub fn owner_pid(content: &str) -> (r: Option<u32>)
    ensures
        r == (match crate::text::parse_unsigned(spec_owner_pid_text(content@), u32::MAX as nat) {
            Some(n) => Some(n as u32),
            None => None::<u32>,
        }),
{
    let t = owner_pid_text(content);
    let v = crate::text::chars_of(t.as_str());
    match crate::text::parse_unsigned_chars(&v, 0xffff_ffff) {
        Some(n) => Some(n as u32),
        None => None,
    }
}

/// What a timed-out wait says of the lock's holder, from the lock's content:
/// the pid and whether that process is alive (`alive`, asked of the system
/// for that pid), or, when no pid reads from it, the content itself quoted.
pub open spec fn spec_owner_diagnostic(content: Seq<char>, alive: bool) -> Seq<char> {
    match crate::text::parse_unsigned(spec_owner_pid_text(content), u32::MAX as nat) {
        Some(pid) => "held by pid="@ + crate::text::decimal(pid) + " (alive="@
            + (if alive { "true"@ } else { "false"@ }) + ")"@,
        None => "raw lock content: "@ + crate::text::debug_quoted(content),
    }
}

pub fn owner_diagnostic(content: &str, alive: bool) -> (r: String)
    ensures
        r@ == spec_owner_diagnostic(content@, alive),
{
    match owner_pid(content) {
        Some(pid) => {
            let n = crate::text::decimal_string(pid as u64);
            let mut r = crate::text::join2("held by pid=", n.as_str());
            r.append(" (alive=");
            if alive {
                r.append("true");
            } else {
                r.append("false");
            }
            r.append(")");
            r
        },
        None => {
            let q = crate::text::debug_str(content);
            crate::text::join2("raw lock content: ", q.as_str())
        },
    }
}

/// The error of a wait for the provisioning lock that ran out after
/// `wait_secs` seconds, naming the lock and what is known of its holder.
pub open spec fn spec_lock_timeout_message(wait_secs: u64, lock_path: Seq<char>, diag: Seq<char>) -> Seq<char> {
    "provisioning lock acquisition timed out after "@ + crate::text::decimal(wait_secs as nat) + "s on "@ + lock_path
        + " ["@ + diag + "]"@
}

pub fn lock_timeout_message(wait_secs: u64, lock_path: &str, diag: &str) -> (r: String)
    ensures
        r@ == spec_lock_timeout_message(wait_secs, lock_path@, diag@),
{
    let n = crate::text::decimal_string(wait_secs);
    let mut r = crate::text::join2("provisioning lock acquisition timed out after ", n.as_str());
    r.append("s on ");
    r.append(lock_path);
    r.append(" [");
    r.append(diag);
    r.append("]");
    r
}

} // verus!
