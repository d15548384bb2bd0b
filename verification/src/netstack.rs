//! The userspace network stack's admission rules: socket buffer budgets,
//! per-class socket caps, the bounded ingress and egress rings, ephemeral
//! port allocation, the round-robin drain over its inputs, and the
//! destinations no tunnel flow may reach.
use vstd::prelude::*;
use std::collections::VecDeque;

use crate::settings::spec_truthy;
use crate::text::{opt_view, parse_unsigned, parse_unsigned_chars, slice_chars, chars_of};

verus! {

pub const UDP_BUF: usize = 131072;
/// Total memory all socket buffers may commit.
pub const MEM_BUDGET_TOTAL: usize = 134217728;
/// While this much stays uncommitted a new flow gets full-size buffers.
pub const MEM_BUDGET_HEADROOM: usize = 16777216;
pub const TCP_RX_FULL: usize = 1048576;
pub const TCP_TX_FULL: usize = 262144;
pub const TCP_RX_LOW: usize = 131072;
pub const TCP_TX_LOW: usize = 65536;
/// The smallest TCP pair worth admitting.
pub const TCP_MIN_PAIR: usize = 196608;
/// One UDP association's footprint.
pub const UDP_PAIR: usize = 262144;

/// The budget left when `reserved` is committed, saturating at zero.
pub open spec fn free_budget(reserved: usize) -> int {
    if reserved <= MEM_BUDGET_TOTAL { MEM_BUDGET_TOTAL - reserved } else { 0 }
}

/// A new TCP flow's buffer pair: full size while the headroom lasts,
/// degraded while a minimal pair fits, else refused.
pub open spec fn spec_tcp_admission(reserved: usize) -> Option<(usize, usize)> {
    let free = free_budget(reserved);
    if free >= MEM_BUDGET_HEADROOM {
        Some((TCP_RX_FULL, TCP_TX_FULL))
    } else if free >= TCP_MIN_PAIR {
        Some((TCP_RX_LOW, TCP_TX_LOW))
    } else {
        None
    }
}

pub fn tcp_admission(reserved: usize) -> (r: Option<(usize, usize)>)
    ensures
        r == spec_tcp_admission(reserved),
        r matches Some((rx, tx)) ==> rx + tx <= free_budget(reserved),
{
    let free = MEM_BUDGET_TOTAL.saturating_sub(reserved);
    if free >= MEM_BUDGET_HEADROOM {
        Some((TCP_RX_FULL, TCP_TX_FULL))
    } else if free >= TCP_MIN_PAIR {
        Some((TCP_RX_LOW, TCP_TX_LOW))
    } else {
        None
    }
}

/// UDP is admitted whole or not at all.
pub fn udp_admission(reserved: usize) -> (r: Option<usize>)
    ensures
        r == (if free_budget(reserved) >= UDP_PAIR { Some(UDP_BUF) } else { None::<usize> }),
        r is Some ==> 2 * UDP_BUF <= free_budget(reserved),
{
    if MEM_BUDGET_TOTAL.saturating_sub(reserved) >= UDP_PAIR {
        Some(UDP_BUF)
    } else {
        None
    }
}

/// Committing more memory never earns a flow bigger buffers.
pub proof fn lemma_admission_degrades_with_load(a: usize, b: usize)
    requires
        a <= b,
    ensures
        spec_tcp_admission(b) matches Some((rx, _)) ==> spec_tcp_admission(a) matches Some((rx2, _)) && rx <= rx2,
        spec_tcp_admission(a) is None ==> spec_tcp_admission(b) is None,
{
}

pub const MAX_UDP_PROXY: usize = 96;
pub const MAX_UDP_RESOLVER: usize = 32;
pub const MAX_TCP_PROXY: usize = 480;
pub const MAX_TCP_RESOLVER: usize = 32;

/// Which socket budget a flow draws from.
#[derive(Clone, Copy, Debug, PartialEq, Eq, Structural)]
pub enum SocketClass {
    /// Client traffic relayed through the proxies.
    Proxy,
    /// The engine's own lookups, which must keep working when the proxy is
    /// at its limit.
    Resolver,
}

impl SocketClass {
    pub fn for_resolver(resolver: bool) -> (c: SocketClass)
        ensures
            c == (if resolver { SocketClass::Resolver } else { SocketClass::Proxy }),
    {
        if resolver {
            SocketClass::Resolver
        } else {
            SocketClass::Proxy
        }
    }

    pub fn tcp_cap(self) -> (n: usize)
        ensures
            n == (match self {
                SocketClass::Proxy => MAX_TCP_PROXY,
                SocketClass::Resolver => MAX_TCP_RESOLVER,
            }),
    {
        match self {
            SocketClass::Proxy => MAX_TCP_PROXY,
            SocketClass::Resolver => MAX_TCP_RESOLVER,
        }
    }

    pub fn udp_cap(self) -> (n: usize)
        ensures
            n == (match self {
                SocketClass::Proxy => MAX_UDP_PROXY,
                SocketClass::Resolver => MAX_UDP_RESOLVER,
            }),
    {
        match self {
            SocketClass::Proxy => MAX_UDP_PROXY,
            SocketClass::Resolver => MAX_UDP_RESOLVER,
        }
    }

    pub fn label(self) -> (s: &'static str)
        ensures
            s@ == (match self {
                SocketClass::Proxy => "proxy"@,
                SocketClass::Resolver => "resolver"@,
            }),
    {
        match self {
            SocketClass::Proxy => "proxy",
            SocketClass::Resolver => "resolver",
        }
    }
}

/// Frames the egress ring holds before `transmit` refuses.
pub const TX_RING: usize = 256;
/// Frames the ingress ring holds before frames are dropped.
pub const RX_RING: usize = 512;
/// Extra room the reply paired with an ingress frame may use past the ring.
pub const TX_EGRESS_SLACK: usize = 32;
/// Bytes the ingress ring may hold.
pub const RX_BYTE_BUDGET: usize = 8388608;

/// The stack's packet device: an ingress and an egress ring of IP frames
/// with their admission counters.
pub struct StackDevice {
    rx: VecDeque<Vec<u8>>,
    tx: VecDeque<Vec<u8>>,
    mtu: usize,
    /// Frames refused because the egress ring was full.
    pub tx_deferred: u64,
    /// Inbound frames dropped at the ingress cap.
    pub rx_dropped: u64,
    /// Bytes currently queued for ingress.
    pub rx_bytes: usize,
}

/// Total length of the frames in `q`.
pub open spec fn total_len(q: Seq<Vec<u8>>) -> int
    decreases q.len(),
{
    if q.len() == 0 { 0 } else { total_len(q.drop_last()) + q.last()@.len() }
}

impl StackDevice {
    pub closed spec fn rx_queue(&self) -> Seq<Vec<u8>> {
        self.rx@
    }

    pub closed spec fn tx_queue(&self) -> Seq<Vec<u8>> {
        self.tx@
    }

    pub closed spec fn mtu_value(&self) -> usize {
        self.mtu
    }

    pub closed spec fn deferred(&self) -> u64 {
        self.tx_deferred
    }

    pub closed spec fn dropped(&self) -> u64 {
        self.rx_dropped
    }

    pub closed spec fn queued_bytes(&self) -> usize {
        self.rx_bytes
    }

    /// Both rings within their caps, and the byte count exact.
    pub closed spec fn wf(&self) -> bool {
        &&& self.rx_queue().len() <= RX_RING
        &&& self.rx_bytes == total_len(self.rx_queue())
        &&& self.rx_bytes <= RX_BYTE_BUDGET
        &&& self.tx_queue().len() <= TX_RING + TX_EGRESS_SLACK
    }

    pub fn new(mtu: usize) -> (d: StackDevice)
        ensures
            d.wf(),
            d.rx_queue().len() == 0 && d.tx_queue().len() == 0,
            d.mtu_value() == mtu,
            d.deferred() == 0 && d.dropped() == 0 && d.queued_bytes() == 0,
    {
        StackDevice { rx: VecDeque::new(), tx: VecDeque::new(), mtu, tx_deferred: 0, rx_dropped: 0, rx_bytes: 0 }
    }

    /// Admits one inbound frame when the ring has a slot and the byte budget
    /// has room; otherwise drops it and counts the drop.
    pub fn push_ingress(&mut self, pkt: Vec<u8>) -> (accepted: bool)
        requires
            old(self).wf(),
            old(self).dropped() < u64::MAX,
        ensures
            final(self).wf(),
            accepted == (old(self).rx_queue().len() < RX_RING && old(self).queued_bytes() + pkt@.len() <= RX_BYTE_BUDGET),
            accepted ==> final(self).rx_queue() == old(self).rx_queue().push(pkt)
                && final(self).dropped() == old(self).dropped(),
            !accepted ==> final(self).rx_queue() == old(self).rx_queue()
                && final(self).dropped() == old(self).dropped() + 1,
            final(self).tx_queue() == old(self).tx_queue(),
            final(self).deferred() == old(self).deferred(),
    {
        if self.rx.len() >= RX_RING || pkt.len() > RX_BYTE_BUDGET - self.rx_bytes {
            self.rx_dropped += 1;
            return false;
        }
        let ghost q0 = self.rx@;
        self.rx_bytes += pkt.len();
        self.rx.push_back(pkt);
        assert(self.rx@.drop_last() =~= q0);
        true
    }

    /// The next ingress frame, if any, with the byte count released.
    pub fn pop_ingress(&mut self) -> (r: Option<Vec<u8>>)
        requires
            old(self).wf(),
        ensures
            final(self).wf(),
            old(self).rx_queue().len() == 0 ==> r is None && final(self).rx_queue() == old(self).rx_queue(),
            old(self).rx_queue().len() > 0 ==> r == Some(old(self).rx_queue()[0])
                && final(self).rx_queue() == old(self).rx_queue().drop_first(),
            final(self).tx_queue() == old(self).tx_queue(),
    {
        let r = self.rx.pop_front();
        match r {
            Some(pkt) => {
                proof {
                    lemma_total_len_front(old(self).rx_queue());
                }
                self.rx_bytes = self.rx_bytes - pkt.len();
                Some(pkt)
            },
            None => None,
        }
    }

    /// Whether egress may take one more frame; a full ring is refused and
    /// counted.
    pub fn transmit_ready(&mut self) -> (ok: bool)
        requires
            old(self).wf(),
            old(self).deferred() < u64::MAX,
        ensures
            final(self).wf(),
            ok == (old(self).tx_queue().len() < TX_RING),
            final(self).deferred() == (if ok { old(self).deferred() } else { (old(self).deferred() + 1) as u64 }),
            final(self).tx_queue() == old(self).tx_queue(),
            final(self).rx_queue() == old(self).rx_queue(),
    {
        if self.tx.len() >= TX_RING {
            self.tx_deferred += 1;
            return false;
        }
        true
    }

    /// Queues an outbound frame under `cap` (the ring for bulk egress, the
    /// ring plus slack for a reply); past the cap it is dropped and counted.
    pub fn queue_egress(&mut self, frame: Vec<u8>, cap: usize) -> (queued: bool)
        requires
            old(self).wf(),
            cap <= TX_RING + TX_EGRESS_SLACK,
            old(self).deferred() < u64::MAX,
        ensures
            final(self).wf(),
            queued == (old(self).tx_queue().len() < cap),
            queued ==> final(self).tx_queue() == old(self).tx_queue().push(frame),
            !queued ==> final(self).tx_queue() == old(self).tx_queue()
                && final(self).deferred() == old(self).deferred() + 1,
            final(self).rx_queue() == old(self).rx_queue(),
    {
        if self.tx.len() < cap {
            self.tx.push_back(frame);
            true
        } else {
            self.tx_deferred += 1;
            false
        }
    }

    /// Frames waiting to leave.
    pub fn tx_len(&self) -> (n: usize)
        ensures
            n == self.tx_queue().len(),
    {
        self.tx.len()
    }

    /// Frames waiting to be processed.
    pub fn rx_len(&self) -> (n: usize)
        ensures
            n == self.rx_queue().len(),
    {
        self.rx.len()
    }
}

proof fn lemma_total_len_front(q: Seq<Vec<u8>>)
    requires
        q.len() > 0,
    ensures
        total_len(q) == q[0]@.len() + total_len(q.drop_first()),
        total_len(q.drop_first()) >= 0,
    decreases q.len(),
{
    if q.len() == 1 {
        assert(q.drop_first() =~= Seq::<Vec<u8>>::empty());
        assert(q.drop_last() =~= Seq::<Vec<u8>>::empty());
    } else {
        lemma_total_len_front(q.drop_last());
        assert(q.drop_last().drop_first() =~= q.drop_first().drop_last());
        assert(q.drop_first().last() == q.last());
    }
    lemma_total_len_nonneg(q.drop_first());
}

proof fn lemma_total_len_nonneg(q: Seq<Vec<u8>>)
    ensures
        total_len(q) >= 0,
    decreases q.len(),
{
    if q.len() > 0 {
        lemma_total_len_nonneg(q.drop_last());
    }
}

/// An inbound frame handed to the stack.
pub struct StackRxToken(pub Vec<u8>);

/// Permission to queue one outbound frame under a cap.
pub struct StackTxToken {
    pub cap: usize,
}

/// First port of the ephemeral band.
pub const EPHEMERAL_BASE: u16 = 49152;
/// Size of the ephemeral band, 2^14.
pub const EPHEMERAL_SPAN: u16 = 16384;

/// The cursor after one allocation: `stride` further on, wrapped back into
/// the band.
pub open spec fn spec_advance(p: u16, stride: u16) -> u16 {
    let next = ((p + stride) % 65536) as u16;
    if next < EPHEMERAL_BASE { (EPHEMERAL_BASE + next % EPHEMERAL_SPAN) as u16 } else { next }
}

/// Hands out the port at the cursor and moves the cursor on.
pub fn alloc_port(p: &mut u16, stride: u16) -> (port: u16)
    ensures
        port == *old(p),
        *final(p) == spec_advance(*old(p), stride),
        EPHEMERAL_BASE <= *final(p),
{
    let port = *p;
    let next = port.wrapping_add(stride);
    *p = if next < EPHEMERAL_BASE {
        EPHEMERAL_BASE + (next % EPHEMERAL_SPAN)
    } else {
        next
    };
    port
}

/// The cursor one allocation after `from`.
pub fn next_ephemeral(from: u16, stride: u16) -> (r: u16)
    ensures
        r == spec_advance(from, stride),
{
    let mut cursor = from;
    alloc_port(&mut cursor, stride);
    cursor
}

/// Inside the band the cursor is a rotation by `stride` modulo the band's
/// size, which an odd stride walks through completely.
pub proof fn lemma_advance_rotates(x: u16, stride: u16)
    requires
        x < EPHEMERAL_SPAN,
    ensures
        spec_advance((EPHEMERAL_BASE + x) as u16, stride) == EPHEMERAL_BASE + (x + stride) % (EPHEMERAL_SPAN as int),
{
    let p = (EPHEMERAL_BASE + x) as u16;
    let t = (p + stride) as int;
    assert(t % 65536 % 16384 == (x + stride) % 16384) by (nonlinear_arith)
        requires t == 49152 + x + stride, x < 16384, stride < 65536;
    if t % 65536 >= 49152 {
        assert(t % 65536 == 49152 + t % 65536 % 16384) by (nonlinear_arith)
            requires t % 65536 >= 49152, t >= 0;
    }
}

/// The cursor after `k` allocations from `start`.
pub open spec fn orbit(start: u16, stride: u16, k: nat) -> u16
    decreases k,
{
    if k == 0 { start } else { spec_advance(orbit(start, stride, (k - 1) as nat), stride) }
}

/// First port on the `start`/`stride` cycle, within one band's worth of
/// allocations, that nothing in `taken` holds.
pub fn pick_free_port(taken: &[u16], start: u16, stride: u16) -> (r: Option<u16>)
    ensures
        match r {
            Some(c) => exists|k: nat| k < EPHEMERAL_SPAN && c == orbit(start, stride, k) && !taken@.contains(c)
                && forall|j: nat| j < k ==> taken@.contains(#[trigger] orbit(start, stride, j)),
            None => forall|k: nat| k < EPHEMERAL_SPAN ==> taken@.contains(#[trigger] orbit(start, stride, k)),
        },
{
    let mut cursor = start;
    let mut n: u16 = 0;
    while n < EPHEMERAL_SPAN
        invariant
            n <= EPHEMERAL_SPAN,
            cursor == orbit(start, stride, n as nat),
            forall|j: nat| j < n ==> taken@.contains(#[trigger] orbit(start, stride, j)),
        decreases EPHEMERAL_SPAN - n,
    {
        let cand = alloc_port(&mut cursor, stride);
        if !contains_u16(taken, cand) {
            return Some(cand);
        }
        assert(orbit(start, stride, (n + 1) as nat) == spec_advance(orbit(start, stride, n as nat), stride));
        n += 1;
    }
    None
}

/// Whether `v` holds `x`.
pub fn contains_u16(v: &[u16], x: u16) -> (b: bool)
    ensures
        b == v@.contains(x),
{
    let mut i: usize = 0;
    while i < v.len()
        invariant
            i <= v@.len(),
            forall|k: int| 0 <= k < i ==> v@[k] != x,
        decreases v@.len() - i,
    {
        if v[i] == x {
            assert(v@[i as int] == x);
            return true;
        }
        i += 1;
    }
    false
}

/// A cursor seed drawn from two random numbers: a start inside the band and
/// an odd stride of at least 17.
pub fn port_cursor_from(r1: u16, r2: u16) -> (r: (u16, u16))
    ensures
        r.0 == EPHEMERAL_BASE + r1 % EPHEMERAL_SPAN,
        r.1 % 2 == 1,
        r.1 >= 17,
        r.1 < EPHEMERAL_SPAN,
{
    let start = EPHEMERAL_BASE + (r1 % EPHEMERAL_SPAN);
    let a = ((r2 | 1) % (EPHEMERAL_SPAN - 1)) | 1;
    assert(a % 2 == 1 && a < 16384) by (bit_vector)
        requires a == ((r2 | 1u16) % 16383u16) | 1u16;
    let stride = if a >= 17 { a } else { 17 };
    (start, stride)
}

/// A random start plus an odd stride inside the ephemeral band.
pub fn seed_port_cursor() -> (r: (u16, u16))
    ensures
        EPHEMERAL_BASE <= r.0,
        r.1 % 2 == 1,
        17 <= r.1 < EPHEMERAL_SPAN,
{
    let r1 = crate::rng::random_u16();
    let r2 = crate::rng::random_u16();
    port_cursor_from(r1, r2)
}

/// Which input a drain pass served.
#[derive(Clone, Copy, Debug, PartialEq, Eq, Structural)]
pub enum DrainSrc {
    Ingest,
    Cmd,
    Data,
}

pub const MAX_INGEST_PER_TICK: usize = 256;
pub const MAX_CMDS_PER_TICK: usize = 64;
pub const MAX_APPDATA_PER_TICK: usize = 128;

pub open spec fn drain_cap(i: int) -> usize {
    if i == 0 { MAX_INGEST_PER_TICK } else if i == 1 { MAX_CMDS_PER_TICK } else { MAX_APPDATA_PER_TICK }
}

/// Round-robin over the three input channels within one pass: each source
/// served at most its cap, the rotation moving past whichever was served.
#[derive(Clone, Copy, Debug)]
pub struct DrainState {
    served_ingest: usize,
    served_cmd: usize,
    served_data: usize,
    cursor: usize,
}

/// A drain pass as values: per-source counts and the rotation cursor.
pub struct DrainView {
    pub served: Seq<usize>,
    pub cursor: int,
}

pub open spec fn can_serve(v: DrainView, ready: Seq<bool>, i: int) -> bool {
    ready[i] && v.served[i] < drain_cap(i)
}

/// The source picked next: the first ready one with budget, starting at the
/// cursor.
pub open spec fn spec_drain_pick(v: DrainView, ready: Seq<bool>) -> Option<int> {
    let a = v.cursor % 3;
    let b = (v.cursor + 1) % 3;
    let c = (v.cursor + 2) % 3;
    if can_serve(v, ready, a) {
        Some(a)
    } else if can_serve(v, ready, b) {
        Some(b)
    } else if can_serve(v, ready, c) {
        Some(c)
    } else {
        None
    }
}

/// The pass after one step.
pub open spec fn spec_drain_step(v: DrainView, ready: Seq<bool>) -> DrainView {
    match spec_drain_pick(v, ready) {
        Some(i) => DrainView { served: v.served.update(i, (v.served[i] + 1) as usize), cursor: (i + 1) % 3 },
        None => v,
    }
}

pub open spec fn src_index(s: DrainSrc) -> int {
    match s {
        DrainSrc::Ingest => 0,
        DrainSrc::Cmd => 1,
        DrainSrc::Data => 2,
    }
}

impl View for DrainState {
    type V = DrainView;

    closed spec fn view(&self) -> DrainView {
        DrainView {
            served: seq![self.served_ingest, self.served_cmd, self.served_data],
            cursor: self.cursor as int,
        }
    }
}

impl Default for DrainState {
    fn default() -> (d: DrainState)
        ensures
            d@.served == seq![0usize, 0usize, 0usize],
            d@.cursor == 0,
    {
        DrainState { served_ingest: 0, served_cmd: 0, served_data: 0, cursor: 0 }
    }
}

impl DrainState {
    pub closed spec fn wf(&self) -> bool {
        self.cursor < 3
    }

    fn served_at(&self, i: usize) -> (n: usize)
        requires
            i < 3,
        ensures
            n == self@.served[i as int],
    {
        if i == 0 { self.served_ingest } else if i == 1 { self.served_cmd } else { self.served_data }
    }

    /// Picks the next source with work and budget left, or `None` to end the
    /// pass.
    pub fn next(&mut self, ready: [bool; 3]) -> (r: Option<DrainSrc>)
        requires
            old(self).wf(),
        ensures
            final(self).wf(),
            final(self)@ == spec_drain_step(old(self)@, ready@),
            match spec_drain_pick(old(self)@, ready@) {
                Some(i) => r matches Some(s) && src_index(s) == i,
                None => r is None,
            },
    {
        let mut step: usize = 0;
        while step < 3
            invariant
                self.wf(),
                *self == *old(self),
                step <= 3,
                step >= 1 ==> !can_serve(self@, ready@, self@.cursor % 3),
                step >= 2 ==> !can_serve(self@, ready@, (self@.cursor + 1) % 3),
                step >= 3 ==> !can_serve(self@, ready@, (self@.cursor + 2) % 3),
            decreases 3 - step,
        {
            let idx = (self.cursor + step) % 3;
            let cap = if idx == 0 { MAX_INGEST_PER_TICK } else if idx == 1 { MAX_CMDS_PER_TICK } else { MAX_APPDATA_PER_TICK };
            if ready[idx] && self.served_at(idx) < cap {
                let ghost v0 = self@;
                if idx == 0 {
                    self.served_ingest = self.served_ingest + 1;
                } else if idx == 1 {
                    self.served_cmd = self.served_cmd + 1;
                } else {
                    self.served_data = self.served_data + 1;
                }
                self.cursor = (idx + 1) % 3;
                assert(self@.served =~= v0.served.update(idx as int, (v0.served[idx as int] + 1) as usize));
                return if idx == 0 {
                    Some(DrainSrc::Ingest)
                } else if idx == 1 {
                    Some(DrainSrc::Cmd)
                } else {
                    Some(DrainSrc::Data)
                };
            }
            step += 1;
        }
        None
    }
}

/// No ready source with budget waits more than three steps: the rotation
/// reaches it even while the others stay ready.
pub proof fn lemma_drain_reaches_every_ready_source(v: DrainView, ready: Seq<bool>, i: int)
    requires
        v.served.len() == 3,
        ready.len() == 3,
        0 <= v.cursor < 3,
        0 <= i < 3,
        can_serve(v, ready, i),
    ensures
        spec_drain_pick(v, ready) == Some(i)
            || spec_drain_pick(spec_drain_step(v, ready), ready) == Some(i)
            || spec_drain_pick(spec_drain_step(spec_drain_step(v, ready), ready), ready) == Some(i),
{
    let v1 = spec_drain_step(v, ready);
    let v2 = spec_drain_step(v1, ready);
    if spec_drain_pick(v, ready) != Some(i) {
        assert(v1.served[i] == v.served[i]);
        if spec_drain_pick(v1, ready) != Some(i) {
            assert(v2.served[i] == v.served[i]);
        }
    }
}

/// The part of an address before a `/prefix`.
pub open spec fn spec_strip_cidr(s: Seq<char>) -> Seq<char> {
    let k = crate::text::first_index_char(s, '/');
    if k < s.len() { s.take(k) } else { s }
}

pub fn strip_cidr(s: &str) -> (r: String)
    ensures
        r@ == spec_strip_cidr(s@),
{
    let v = chars_of(s);
    let k = crate::text::find_char(&v, '/');
    proof {
        crate::text::lemma_first_index_char(v@, '/');
    }
    let head = slice_chars(&v, 0, k);
    assert(k == v@.len() ==> head@ =~= v@);
    crate::text::string_of(&head)
}

/// The prefix length after the first `/`, when it reads as a `u8`.
pub open spec fn spec_cidr_prefix(s: Seq<char>) -> Option<u8> {
    let k = crate::text::first_index_char(s, '/');
    if k < s.len() {
        match parse_unsigned(s.skip(k + 1), 255) {
            Some(n) => Some(n as u8),
            None => None,
        }
    } else {
        None
    }
}

pub fn cidr_prefix(s: &str) -> (r: Option<u8>)
    ensures
        r == spec_cidr_prefix(s@),
{
    let v = chars_of(s);
    let k = crate::text::find_char(&v, '/');
    proof {
        crate::text::lemma_first_index_char(v@, '/');
    }
    if k >= v.len() {
        return None;
    }
    let rest = slice_chars(&v, k + 1, v.len());
    assert(rest@ =~= v@.skip(k + 1));
    match parse_unsigned_chars(&rest, 255) {
        Some(n) => Some(n as u8),
        None => None,
    }
}

/// An interface address setting: nothing when blank, else the address
/// before any `/prefix` and the prefix (32 when none is given).
pub open spec fn spec_parse_v4(s: Seq<char>) -> core::result::Result<Option<(Seq<u8>, u8)>, Seq<char>> {
    if s.len() == 0 {
        Ok(None)
    } else {
        match crate::ip::spec_parse_ipv4(spec_strip_cidr(s)) {
            None => Err("bad ipv4 "@ + s),
            Some(o) => Ok(Some((o, match spec_cidr_prefix(s) { Some(p) => p, None => 32u8 }))),
        }
    }
}

pub fn parse_v4(s: &str) -> (r: crate::error::Result<Option<([u8; 4], u8)>>)
    ensures
        match spec_parse_v4(s@) {
            Ok(None) => r matches Ok(None),
            Ok(Some((o, p))) => r matches Ok(Some((a, q))) && a@ == o && q == p,
            Err(m) => r matches Err(crate::error::AetherError::Other(e)) && e@ == m,
        },
{
    if s.unicode_len() == 0 {
        return Ok(None);
    }
    let ip = strip_cidr(s);
    match crate::ip::parse_ipv4(ip.as_str()) {
        None => Err(crate::error::AetherError::Other(crate::text::join2("bad ipv4 ", s))),
        Some(o) => {
            let p = match cidr_prefix(s) {
                Some(p) => p,
                None => 32,
            };
            Ok(Some((o, p)))
        },
    }
}

/// An interface IPv6 setting: nothing when blank, else the address before
/// any `/prefix` and the prefix (128 when none is given).
pub open spec fn spec_parse_v6(s: Seq<char>) -> core::result::Result<Option<(Seq<u16>, u8)>, Seq<char>> {
    if s.len() == 0 {
        Ok(None)
    } else {
        match crate::ip::spec_parse_ipv6(spec_strip_cidr(s)) {
            None => Err("bad ipv6 "@ + s),
            Some(w) => Ok(Some((w, match spec_cidr_prefix(s) { Some(p) => p, None => 128u8 }))),
        }
    }
}

pub fn parse_v6(s: &str) -> (r: crate::error::Result<Option<([u16; 8], u8)>>)
    ensures
        match spec_parse_v6(s@) {
            Ok(None) => r matches Ok(None),
            Ok(Some((w, p))) => r matches Ok(Some((a, q))) && a@ == w && q == p,
            Err(m) => r matches Err(crate::error::AetherError::Other(e)) && e@ == m,
        },
{
    if s.unicode_len() == 0 {
        return Ok(None);
    }
    let ip = strip_cidr(s);
    match crate::ip::parse_ipv6(ip.as_str()) {
        None => Err(crate::error::AetherError::Other(crate::text::join2("bad ipv6 ", s))),
        Some(w) => {
            let p = match cidr_prefix(s) {
                Some(p) => p,
                None => 128,
            };
            Ok(Some((w, p)))
        },
    }
}

/// A host route (/31, /32) becomes its /24, so the rest of the subnet stays
/// reachable through the tunnel.
pub fn routable_prefix_v4(p: u8) -> (r: u8)
    ensures
        r == (if p >= 31 { 24 } else { p }),
{
    if p >= 31 { 24 } else { p }
}

/// A host route (/127, /128) becomes its /64.
pub fn routable_prefix_v6(p: u8) -> (r: u8)
    ensures
        r == (if p >= 127 { 64 } else { p }),
{
    if p >= 127 { 64 } else { p }
}

/// An IP address as plain values: four octets or eight 16-bit words.
#[derive(Debug, Clone, Copy, PartialEq, Eq)]
pub enum IpAddress {
    V4([u8; 4]),
    V6([u16; 8]),
}

/// Why an IPv4 destination is refused: loopback, "this network", link-local
/// (the instance metadata service), carrier-grade NAT, multicast, and the
/// private ranges when LAN targets are blocked.
pub open spec fn spec_forbidden_v4(o: Seq<u8>, blocked_lan: bool) -> Option<Seq<char>> {
    if o[0] == 127 {
        Some("loopback"@)
    } else if o[0] == 0 {
        Some("unspecified/this-network"@)
    } else if o[0] == 169 && o[1] == 254 {
        Some("link-local (instance metadata)"@)
    } else if o[0] == 100 && 64 <= o[1] <= 127 {
        Some("carrier-grade NAT (100.64.0.0/10)"@)
    } else if 224 <= o[0] <= 239 {
        Some("multicast"@)
    } else if blocked_lan && (o[0] == 10 || (o[0] == 172 && 16 <= o[1] <= 31) || (o[0] == 192 && o[1] == 168)) {
        Some("private (AETHER_BLOCK_LAN_TARGETS)"@)
    } else {
        None
    }
}

/// The IPv4 address an IPv6 literal is really addressed to: IPv4-mapped,
/// the old IPv4-compatible form, or 6to4.
pub open spec fn spec_embedded_ipv4(f: Seq<u16>) -> Option<Seq<u8>> {
    if f[0] == 0 && f[1] == 0 && f[2] == 0 && f[3] == 0 && f[4] == 0 && f[5] == 0xffff {
        Some(words_to_octets(f[6], f[7]))
    } else if f[0] == 0 && f[1] == 0 && f[2] == 0 && f[3] == 0 && f[4] == 0 && f[5] == 0 && (f[6] != 0 || f[7] != 0) {
        Some(words_to_octets(f[6], f[7]))
    } else if f[0] == 0x2002 {
        Some(words_to_octets(f[1], f[2]))
    } else {
        None
    }
}

pub open spec fn words_to_octets(a: u16, b: u16) -> Seq<u8> {
    seq![(a / 256) as u8, (a % 256) as u8, (b / 256) as u8, (b % 256) as u8]
}

pub open spec fn all_zero_but_last(f: Seq<u16>) -> bool {
    f[0] == 0 && f[1] == 0 && f[2] == 0 && f[3] == 0 && f[4] == 0 && f[5] == 0 && f[6] == 0
}

/// Why a destination is refused, if it is. Every IPv4 rule applies to the
/// IPv4 address an IPv6 literal carries.
pub open spec fn spec_forbidden(ip: IpAddress, blocked_lan: bool) -> Option<Seq<char>> {
    match ip {
        IpAddress::V4(o) => spec_forbidden_v4(o@, blocked_lan),
        IpAddress::V6(f) => {
            let w = f@;
            if all_zero_but_last(w) && w[7] == 1 {
                Some("loopback (::1)"@)
            } else if all_zero_but_last(w) && w[7] == 0 {
                Some("unspecified (::)"@)
            } else if spec_embedded_ipv4(w) is Some {
                spec_forbidden_v4(spec_embedded_ipv4(w)->0, blocked_lan)
            } else if w[0] & 0xfe00 == 0xfc00 {
                Some("unique local (fc00::/7)"@)
            } else if w[0] & 0xffc0 == 0xfe80 {
                Some("link-local (fe80::/10)"@)
            } else if w[0] == 0x2001 && w[1] == 0 {
                Some("teredo (2001:0::/32)"@)
            } else if w[0] == 0xff02 || w[0] & 0xff00 == 0xff00 {
                Some("multicast"@)
            } else {
                None
            }
        },
    }
}

fn forbidden_v4(o: [u8; 4], blocked_lan: bool) -> (r: Option<&'static str>)
    ensures
        match r {
            Some(s) => spec_forbidden_v4(o@, blocked_lan) == Some(s@),
            None => spec_forbidden_v4(o@, blocked_lan) is None,
        },
{
    if o[0] == 127 {
        Some("loopback")
    } else if o[0] == 0 {
        Some("unspecified/this-network")
    } else if o[0] == 169 && o[1] == 254 {
        Some("link-local (instance metadata)")
    } else if o[0] == 100 && 64 <= o[1] && o[1] <= 127 {
        Some("carrier-grade NAT (100.64.0.0/10)")
    } else if 224 <= o[0] && o[0] <= 239 {
        Some("multicast")
    } else if blocked_lan && (o[0] == 10 || (o[0] == 172 && 16 <= o[1] && o[1] <= 31) || (o[0] == 192
        && o[1] == 168)) {
        Some("private (AETHER_BLOCK_LAN_TARGETS)")
    } else {
        None
    }
}

fn embedded_ipv4(f: [u16; 8]) -> (r: Option<[u8; 4]>)
    ensures
        match r {
            Some(o) => spec_embedded_ipv4(f@) == Some(o@),
            None => spec_embedded_ipv4(f@) is None,
        },
{
    let head_zero = f[0] == 0 && f[1] == 0 && f[2] == 0 && f[3] == 0 && f[4] == 0;
    if head_zero && f[5] == 0xffff {
        let o = [(f[6] / 256) as u8, (f[6] % 256) as u8, (f[7] / 256) as u8, (f[7] % 256) as u8];
        assert(o@ =~= words_to_octets(f[6], f[7]));
        return Some(o);
    }
    if head_zero && f[5] == 0 && (f[6] != 0 || f[7] != 0) {
        let o = [(f[6] / 256) as u8, (f[6] % 256) as u8, (f[7] / 256) as u8, (f[7] % 256) as u8];
        assert(o@ =~= words_to_octets(f[6], f[7]));
        return Some(o);
    }
    if f[0] == 0x2002 {
        let o = [(f[1] / 256) as u8, (f[1] % 256) as u8, (f[2] / 256) as u8, (f[2] % 256) as u8];
        assert(o@ =~= words_to_octets(f[1], f[2]));
        return Some(o);
    }
    None
}

/// Whether the tunnel must refuse to reach `ip`, and why. `block_lan_setting`
/// is `AETHER_BLOCK_LAN_TARGETS`.
pub fn forbidden_destination(ip: IpAddress, block_lan_setting: Option<&str>) -> (r: Option<&'static str>)
    ensures
        match r {
            Some(s) => spec_forbidden(ip, crate::settings::spec_flag(opt_view(block_lan_setting))) == Some(s@),
            None => spec_forbidden(ip, crate::settings::spec_flag(opt_view(block_lan_setting))) is None,
        },
{
    let blocked_lan = crate::settings::env_truthy(block_lan_setting);
    match ip {
        IpAddress::V4(o) => forbidden_v4(o, blocked_lan),
        IpAddress::V6(f) => {
            let zero7 = f[0] == 0 && f[1] == 0 && f[2] == 0 && f[3] == 0 && f[4] == 0 && f[5] == 0 && f[6] == 0;
            if zero7 && f[7] == 1 {
                return Some("loopback (::1)");
            }
            if zero7 && f[7] == 0 {
                return Some("unspecified (::)");
            }
            if let Some(inner) = embedded_ipv4(f) {
                return forbidden_v4(inner, blocked_lan);
            }
            if f[0] & 0xfe00 == 0xfc00 {
                Some("unique local (fc00::/7)")
            } else if f[0] & 0xffc0 == 0xfe80 {
                Some("link-local (fe80::/10)")
            } else if f[0] == 0x2001 && f[1] == 0 {
                Some("teredo (2001:0::/32)")
            } else if f[0] == 0xff02 || f[0] & 0xff00 == 0xff00 {
                Some("multicast")
            } else {
                None
            }
        },
    }
}

/// The IP address a socket address points at.
pub fn ip_of(a: crate::ip::SockAddr) -> (ip: IpAddress)
    ensures
        ip == (if a.v6 {
            IpAddress::V6(spec_words_array(a.ip))
        } else {
            IpAddress::V4(spec_octets_array(a.ip))
        }),
{
    let x = a.ip;
    if a.v6 {
        IpAddress::V6([
            (x >> 112u128) as u16, (x >> 96u128) as u16, (x >> 80u128) as u16, (x >> 64u128) as u16,
            (x >> 48u128) as u16, (x >> 32u128) as u16, (x >> 16u128) as u16, x as u16,
        ])
    } else {
        IpAddress::V4([(x >> 24u128) as u8, (x >> 16u128) as u8, (x >> 8u128) as u8, x as u8])
    }
}

pub open spec fn spec_words_array(x: u128) -> [u16; 8] {
    [
        (x >> 112u128) as u16, (x >> 96u128) as u16, (x >> 80u128) as u16, (x >> 64u128) as u16,
        (x >> 48u128) as u16, (x >> 32u128) as u16, (x >> 16u128) as u16, x as u16,
    ]
}

pub open spec fn spec_octets_array(x: u128) -> [u8; 4] {
    [(x >> 24u128) as u8, (x >> 16u128) as u8, (x >> 8u128) as u8, x as u8]
}

pub open spec fn class_label(c: SocketClass) -> Seq<char> {
    match c {
        SocketClass::Proxy => "proxy"@,
        SocketClass::Resolver => "resolver"@,
    }
}

/// Whether a TCP connect may go ahead, and with which buffer pair: a
/// forbidden destination is refused first, then a class at its cap, then a
/// full memory budget. The two local refusals both start "too many TCP
/// connections", which is how a local refusal is told apart from one that
/// came back through the tunnel.
pub open spec fn spec_tcp_open(
    dst: crate::ip::SockAddr,
    blocked_lan: bool,
    in_class: usize,
    class: SocketClass,
    reserved: usize,
) -> core::result::Result<(usize, usize), Seq<char>> {
    let ip = if dst.v6 { IpAddress::V6(spec_words_array(dst.ip)) } else { IpAddress::V4(spec_octets_array(dst.ip)) };
    let cap = match class {
        SocketClass::Proxy => MAX_TCP_PROXY,
        SocketClass::Resolver => MAX_TCP_RESOLVER,
    };
    match spec_forbidden(ip, blocked_lan) {
        Some(reason) => Err("destination "@ + crate::ip::spec_sockaddr_text(dst)
            + " is not reachable through the tunnel: "@ + reason),
        None => if in_class >= cap {
            Err("too many TCP connections ("@ + class_label(class) + ")"@)
        } else {
            match spec_tcp_admission(reserved) {
                Some(pair) => Ok(pair),
                None => Err("too many TCP connections ("@ + class_label(class)
                    + "): memory admission budget is full"@),
            }
        },
    }
}

pub fn tcp_open_check(
    dst: crate::ip::SockAddr,
    block_lan_setting: Option<&str>,
    in_class: usize,
    class: SocketClass,
    reserved: usize,
) -> (r: core::result::Result<(usize, usize), String>)
    ensures
        match r {
            Ok(pair) => spec_tcp_open(dst, crate::settings::spec_flag(opt_view(block_lan_setting)), in_class, class, reserved) == Ok::<(usize, usize), Seq<char>>(pair),
            Err(m) => spec_tcp_open(dst, crate::settings::spec_flag(opt_view(block_lan_setting)), in_class, class, reserved) == Err::<(usize, usize), Seq<char>>(m@),
        },
{
    if let Some(reason) = forbidden_destination(ip_of(dst), block_lan_setting) {
        let d = crate::ip::sockaddr_text(dst);
        let mut m = crate::text::join2("destination ", d.as_str());
        m.append(" is not reachable through the tunnel: ");
        m.append(reason);
        return Err(m);
    }
    if in_class >= class.tcp_cap() {
        let mut m = crate::text::join2("too many TCP connections (", class.label());
        m.append(")");
        return Err(m);
    }
    match tcp_admission(reserved) {
        Some(pair) => Ok(pair),
        None => {
            let mut m = crate::text::join2("too many TCP connections (", class.label());
            m.append("): memory admission budget is full");
            Err(m)
        },
    }
}

/// Whether a UDP association may be opened, and its buffer size.
pub fn udp_open_check(in_class: usize, class: SocketClass, reserved: usize) -> (r: core::result::Result<usize, String>)
    ensures
        in_class >= (match class {
            SocketClass::Proxy => MAX_UDP_PROXY,
            SocketClass::Resolver => MAX_UDP_RESOLVER,
        }) ==> (r matches Err(m) && m@ == "too many UDP associations ("@ + class_label(class) + ")"@),
        in_class < (match class {
            SocketClass::Proxy => MAX_UDP_PROXY,
            SocketClass::Resolver => MAX_UDP_RESOLVER,
        }) ==> match r {
            Ok(cap) => free_budget(reserved) >= UDP_PAIR && cap == UDP_BUF,
            Err(m) => free_budget(reserved) < UDP_PAIR && m@ == "too many UDP associations ("@ + class_label(class)
                + "): memory admission budget is full"@,
        },
{
    if in_class >= class.udp_cap() {
        let mut m = crate::text::join2("too many UDP associations (", class.label());
        m.append(")");
        return Err(m);
    }
    match udp_admission(reserved) {
        Some(cap) => Ok(cap),
        None => {
            let mut m = crate::text::join2("too many UDP associations (", class.label());
            m.append("): memory admission budget is full");
            Err(m)
        },
    }
}

/// The sockets a stack holds, counted by protocol and class, and the
/// buffer memory they have committed.
pub struct BudgetView {
    pub tcp_proxy: usize,
    pub tcp_resolver: usize,
    pub udp_proxy: usize,
    pub udp_resolver: usize,
    pub reserved: usize,
}

pub open spec fn empty_budget() -> BudgetView {
    BudgetView { tcp_proxy: 0, tcp_resolver: 0, udp_proxy: 0, udp_resolver: 0, reserved: 0 }
}

pub open spec fn udp_count(v: BudgetView, class: SocketClass) -> usize {
    match class {
        SocketClass::Proxy => v.udp_proxy,
        SocketClass::Resolver => v.udp_resolver,
    }
}

pub open spec fn tcp_count(v: BudgetView, class: SocketClass) -> usize {
    match class {
        SocketClass::Proxy => v.tcp_proxy,
        SocketClass::Resolver => v.tcp_resolver,
    }
}

pub open spec fn udp_cap_of(class: SocketClass) -> usize {
    match class {
        SocketClass::Proxy => MAX_UDP_PROXY,
        SocketClass::Resolver => MAX_UDP_RESOLVER,
    }
}

pub open spec fn tcp_cap_of(class: SocketClass) -> usize {
    match class {
        SocketClass::Proxy => MAX_TCP_PROXY,
        SocketClass::Resolver => MAX_TCP_RESOLVER,
    }
}

/// Counts within their caps and memory within the budget.
pub open spec fn budget_wf(v: BudgetView) -> bool {
    &&& v.tcp_proxy <= MAX_TCP_PROXY
    &&& v.tcp_resolver <= MAX_TCP_RESOLVER
    &&& v.udp_proxy <= MAX_UDP_PROXY
    &&& v.udp_resolver <= MAX_UDP_RESOLVER
    &&& v.reserved <= MEM_BUDGET_TOTAL
}

/// The budget once a UDP association of `class` is admitted, or `None`
/// when it is refused (its class at its cap, or no pair of buffers left).
pub open spec fn spec_admit_udp(v: BudgetView, class: SocketClass) -> Option<BudgetView> {
    if udp_count(v, class) >= udp_cap_of(class) || free_budget(v.reserved) < UDP_PAIR {
        None
    } else {
        Some(match class {
            SocketClass::Proxy => BudgetView { udp_proxy: (v.udp_proxy + 1) as usize, reserved: (v.reserved + UDP_PAIR) as usize, ..v },
            SocketClass::Resolver => BudgetView { udp_resolver: (v.udp_resolver + 1) as usize, reserved: (v.reserved + UDP_PAIR) as usize, ..v },
        })
    }
}

/// The budget after `n` UDP associations of `class` are asked for in turn,
/// or `None` when one of them is refused.
pub open spec fn fill_udp(v: BudgetView, class: SocketClass, n: nat) -> Option<BudgetView>
    decreases n,
{
    if n == 0 {
        Some(v)
    } else {
        match fill_udp(v, class, (n - 1) as nat) {
            None => None,
            Some(w) => spec_admit_udp(w, class),
        }
    }
}

/// The stack's socket budget: what each class holds, and what memory is
/// committed. A flow is checked, then charged once it is really installed,
/// and released with it.
pub struct SocketBudget {
    tcp_proxy: usize,
    tcp_resolver: usize,
    udp_proxy: usize,
    udp_resolver: usize,
    reserved: usize,
}

impl View for SocketBudget {
    type V = BudgetView;

    closed spec fn view(&self) -> BudgetView {
        BudgetView {
            tcp_proxy: self.tcp_proxy,
            tcp_resolver: self.tcp_resolver,
            udp_proxy: self.udp_proxy,
            udp_resolver: self.udp_resolver,
            reserved: self.reserved,
        }
    }
}

impl SocketBudget {
    pub fn new() -> (b: SocketBudget)
        ensures
            b@ == empty_budget(),
    {
        SocketBudget { tcp_proxy: 0, tcp_resolver: 0, udp_proxy: 0, udp_resolver: 0, reserved: 0 }
    }

    /// Live TCP connections of one class.
    pub fn tcp_in_class(&self, class: SocketClass) -> (n: usize)
        ensures
            n == tcp_count(self@, class),
    {
        match class {
            SocketClass::Proxy => self.tcp_proxy,
            SocketClass::Resolver => self.tcp_resolver,
        }
    }

    /// Live UDP associations of one class.
    pub fn udp_in_class(&self, class: SocketClass) -> (n: usize)
        ensures
            n == udp_count(self@, class),
    {
        match class {
            SocketClass::Proxy => self.udp_proxy,
            SocketClass::Resolver => self.udp_resolver,
        }
    }

    /// Buffer memory committed.
    pub fn reserved(&self) -> (n: usize)
        ensures
            n == self@.reserved,
    {
        self.reserved
    }

    /// Whether a TCP connect to `dst` may go ahead now (see `tcp_open_check`).
    pub fn check_tcp(&self, dst: crate::ip::SockAddr, block_lan_setting: Option<&str>, class: SocketClass) -> (r: core::result::Result<(usize, usize), String>)
        ensures
            match r {
                Ok(pair) => spec_tcp_open(dst, crate::settings::spec_flag(opt_view(block_lan_setting)), tcp_count(self@, class), class, self@.reserved) == Ok::<(usize, usize), Seq<char>>(pair),
                Err(m) => spec_tcp_open(dst, crate::settings::spec_flag(opt_view(block_lan_setting)), tcp_count(self@, class), class, self@.reserved) == Err::<(usize, usize), Seq<char>>(m@),
            },
    {
        tcp_open_check(dst, block_lan_setting, self.tcp_in_class(class), class, self.reserved)
    }

    /// Whether a UDP association may be opened now: `Ok` with its buffer
    /// size exactly when the budget admits it.
    pub fn check_udp(&self, class: SocketClass) -> (r: core::result::Result<usize, String>)
        ensures
            r is Ok <==> spec_admit_udp(self@, class) is Some,
            r matches Ok(cap) ==> cap == UDP_BUF,
    {
        udp_open_check(self.udp_in_class(class), class, self.reserved)
    }

    /// Charges an admitted TCP connection once its socket is installed.
    pub fn charge_tcp(&mut self, class: SocketClass, pair: (usize, usize))
        requires
            budget_wf(old(self)@),
            tcp_count(old(self)@, class) < tcp_cap_of(class),
            spec_tcp_admission(old(self)@.reserved) == Some(pair),
        ensures
            budget_wf(final(self)@),
            final(self)@ == (match class {
                SocketClass::Proxy => BudgetView { tcp_proxy: (old(self)@.tcp_proxy + 1) as usize, reserved: (old(self)@.reserved + pair.0 + pair.1) as usize, ..old(self)@ },
                SocketClass::Resolver => BudgetView { tcp_resolver: (old(self)@.tcp_resolver + 1) as usize, reserved: (old(self)@.reserved + pair.0 + pair.1) as usize, ..old(self)@ },
            }),
    {
        match class {
            SocketClass::Proxy => self.tcp_proxy = self.tcp_proxy + 1,
            SocketClass::Resolver => self.tcp_resolver = self.tcp_resolver + 1,
        }
        self.reserved = self.reserved + pair.0 + pair.1;
    }

    /// Charges an admitted UDP association once its socket is installed.
    pub fn charge_udp(&mut self, class: SocketClass)
        requires
            budget_wf(old(self)@),
            spec_admit_udp(old(self)@, class) is Some,
        ensures
            budget_wf(final(self)@),
            spec_admit_udp(old(self)@, class) == Some(final(self)@),
    {
        match class {
            SocketClass::Proxy => self.udp_proxy = self.udp_proxy + 1,
            SocketClass::Resolver => self.udp_resolver = self.udp_resolver + 1,
        }
        self.reserved = self.reserved + UDP_PAIR;
    }

    /// Releases a TCP connection that held `amount` bytes of buffers.
    pub fn release_tcp(&mut self, class: SocketClass, amount: usize)
        requires
            budget_wf(old(self)@),
        ensures
            budget_wf(final(self)@),
            final(self)@.reserved == (if old(self)@.reserved >= amount { old(self)@.reserved - amount } else { 0 }),
            tcp_count(final(self)@, class) == (if tcp_count(old(self)@, class) > 0 { tcp_count(old(self)@, class) - 1 } else { 0 }),
            final(self)@.udp_proxy == old(self)@.udp_proxy && final(self)@.udp_resolver == old(self)@.udp_resolver,
            class is Proxy ==> final(self)@.tcp_resolver == old(self)@.tcp_resolver,
            class is Resolver ==> final(self)@.tcp_proxy == old(self)@.tcp_proxy,
    {
        match class {
            SocketClass::Proxy => self.tcp_proxy = self.tcp_proxy.saturating_sub(1),
            SocketClass::Resolver => self.tcp_resolver = self.tcp_resolver.saturating_sub(1),
        }
        self.reserved = self.reserved.saturating_sub(amount);
    }

    /// Releases a UDP association that held `amount` bytes of buffers.
    pub fn release_udp(&mut self, class: SocketClass, amount: usize)
        requires
            budget_wf(old(self)@),
        ensures
            budget_wf(final(self)@),
            final(self)@.reserved == (if old(self)@.reserved >= amount { old(self)@.reserved - amount } else { 0 }),
            udp_count(final(self)@, class) == (if udp_count(old(self)@, class) > 0 { udp_count(old(self)@, class) - 1 } else { 0 }),
            final(self)@.tcp_proxy == old(self)@.tcp_proxy && final(self)@.tcp_resolver == old(self)@.tcp_resolver,
            class is Proxy ==> final(self)@.udp_resolver == old(self)@.udp_resolver,
            class is Resolver ==> final(self)@.udp_proxy == old(self)@.udp_proxy,
    {
        match class {
            SocketClass::Proxy => self.udp_proxy = self.udp_proxy.saturating_sub(1),
            SocketClass::Resolver => self.udp_resolver = self.udp_resolver.saturating_sub(1),
        }
        self.reserved = self.reserved.saturating_sub(amount);
    }
}

proof fn lemma_fill_udp(v: BudgetView, class: SocketClass, n: nat)
    requires
        udp_count(v, class) + n <= udp_cap_of(class),
        v.reserved + n * UDP_PAIR <= MEM_BUDGET_TOTAL,
    ensures
        fill_udp(v, class, n) == Some(match class {
            SocketClass::Proxy => BudgetView { udp_proxy: (v.udp_proxy + n) as usize, reserved: (v.reserved + n * UDP_PAIR) as usize, ..v },
            SocketClass::Resolver => BudgetView { udp_resolver: (v.udp_resolver + n) as usize, reserved: (v.reserved + n * UDP_PAIR) as usize, ..v },
        }),
    decreases n,
{
    if n > 0 {
        let m = (n - 1) as nat;
        assert(m * UDP_PAIR + UDP_PAIR == n * UDP_PAIR) by (nonlinear_arith)
            requires m + 1 == n;
        assert(m * UDP_PAIR <= n * UDP_PAIR) by (nonlinear_arith)
            requires m + 1 == n;
        lemma_fill_udp(v, class, m);
    }
}

/// Proxy traffic cannot take name resolution down with it: after the proxy
/// class has filled every UDP association it may hold, a further proxy
/// association is refused, yet the resolver is still admitted for each
/// association of its own class, and after that a TCP connect of either
/// class still finds its class open and buffers to spare.
pub proof fn lemma_proxy_saturation_leaves_resolver_budget()
    ensures
        fill_udp(empty_budget(), SocketClass::Proxy, MAX_UDP_PROXY as nat) matches Some(p) && {
            &&& p.udp_proxy == MAX_UDP_PROXY && p.udp_resolver == 0
            &&& spec_admit_udp(p, SocketClass::Proxy) is None
            &&& fill_udp(p, SocketClass::Resolver, MAX_UDP_RESOLVER as nat) matches Some(q) && {
                &&& q.udp_resolver == MAX_UDP_RESOLVER
                &&& q.tcp_proxy < MAX_TCP_PROXY && q.tcp_resolver < MAX_TCP_RESOLVER
                &&& spec_tcp_admission(q.reserved) is Some
            }
        },
{
    let e = empty_budget();
    assert(MAX_UDP_PROXY * UDP_PAIR == 25165824);
    lemma_fill_udp(e, SocketClass::Proxy, MAX_UDP_PROXY as nat);
    let p = fill_udp(e, SocketClass::Proxy, MAX_UDP_PROXY as nat)->0;
    assert(MAX_UDP_RESOLVER * UDP_PAIR == 8388608);
    lemma_fill_udp(p, SocketClass::Resolver, MAX_UDP_RESOLVER as nat);
}

/// Bytes an app may queue on one TCP flow before the flow is closed.
pub const MAX_PENDING_PER_CONN: usize = 524288;
/// Reads handed to the app per flow per poll.
pub const MAX_RECV_CHUNKS: usize = 64;

/// What one egress attempt did with a flow's queued bytes.
#[derive(Clone, Copy, Debug, PartialEq, Eq, Structural)]
pub enum Egress {
    /// The socket took this many bytes; the rest waits for the next poll.
    Accepted(usize),
    /// The socket cannot take data in its state: nothing queued will leave.
    Dead,
}

/// The app side of one TCP flow: whether it finished connecting, whether
/// the app closed its half, whether it is dead, and the bytes waiting for
/// room in the socket.
pub struct TcpFlow {
    established: bool,
    half_closed: bool,
    dead: bool,
    pending: Vec<u8>,
}

impl TcpFlow {
    pub closed spec fn pending_view(&self) -> Seq<u8> {
        self.pending@
    }

    pub closed spec fn spec_established(&self) -> bool {
        self.established
    }

    pub closed spec fn spec_half_closed(&self) -> bool {
        self.half_closed
    }

    pub closed spec fn spec_dead(&self) -> bool {
        self.dead
    }

    pub fn established(&self) -> (b: bool)
        ensures
            b == self.spec_established(),
    {
        self.established
    }

    pub fn half_closed(&self) -> (b: bool)
        ensures
            b == self.spec_half_closed(),
    {
        self.half_closed
    }

    pub fn dead(&self) -> (b: bool)
        ensures
            b == self.spec_dead(),
    {
        self.dead
    }

    /// The handshake completed.
    pub fn mark_established(&mut self)
        ensures
            final(self).spec_established(),
            final(self).spec_half_closed() == old(self).spec_half_closed(),
            final(self).spec_dead() == old(self).spec_dead(),
            final(self).pending_view() == old(self).pending_view(),
    {
        self.established = true;
    }

    /// The app closed its half of the flow.
    pub fn close_requested(&mut self)
        ensures
            final(self).spec_half_closed(),
            final(self).spec_established() == old(self).spec_established(),
            final(self).spec_dead() == old(self).spec_dead(),
            final(self).pending_view() == old(self).pending_view(),
    {
        self.half_closed = true;
    }

    pub fn new() -> (f: TcpFlow)
        ensures
            !f.spec_established() && !f.spec_half_closed() && !f.spec_dead(),
            f.pending_view().len() == 0,
    {
        TcpFlow { established: false, half_closed: false, dead: false, pending: Vec::new() }
    }

    /// Queues app data; past the per-flow limit the flow is closed and
    /// marked dead instead, and nothing is queued.
    pub fn queue(&mut self, data: &[u8]) -> (accepted: bool)
        ensures
            accepted == (old(self).pending_view().len() + data@.len() <= MAX_PENDING_PER_CONN),
            accepted ==> final(self).pending_view() == old(self).pending_view() + data@
                && final(self).spec_half_closed() == old(self).spec_half_closed() && final(self).spec_dead() == old(self).spec_dead(),
            !accepted ==> final(self).pending_view() == old(self).pending_view() && final(self).spec_half_closed()
                && final(self).spec_dead(),
            final(self).spec_established() == old(self).spec_established(),
    {
        if self.pending.len() > MAX_PENDING_PER_CONN || data.len() > MAX_PENDING_PER_CONN - self.pending.len() {
            self.half_closed = true;
            self.dead = true;
            false
        } else {
            crate::bytes::extend(&mut self.pending, data);
            true
        }
    }

    /// The bytes waiting to be written.
    pub fn pending(&self) -> (p: &[u8])
        ensures
            p@ == self.pending_view(),
    {
        self.pending.as_slice()
    }

    /// Takes in the outcome of one write of the pending bytes: what the
    /// socket took is dropped from the front; a dead socket ends the flow
    /// and its backlog.
    pub fn egress(&mut self, outcome: Egress)
        requires
            outcome matches Egress::Accepted(n) ==> n <= old(self).pending_view().len(),
        ensures
            match outcome {
                Egress::Accepted(n) => final(self).pending_view() == old(self).pending_view().skip(n as int)
                    && final(self).spec_half_closed() == old(self).spec_half_closed() && final(self).spec_dead() == old(self).spec_dead(),
                Egress::Dead => final(self).pending_view().len() == 0 && final(self).spec_half_closed() && final(self).spec_dead(),
            },
            final(self).spec_established() == old(self).spec_established(),
    {
        match outcome {
            Egress::Accepted(n) => {
                if n > 0 {
                    let rest = crate::bytes::copy_range(self.pending.as_slice(), n, self.pending.len());
                    self.pending = rest;
                } else {
                    assert(self.pending@.skip(0) =~= self.pending@);
                }
            },
            Egress::Dead => {
                self.pending = Vec::new();
                self.half_closed = true;
                self.dead = true;
            },
        }
    }

    /// A half-closed flow is closed once its backlog has gone out.
    pub fn close_now(&self) -> (b: bool)
        ensures
            b == (self.spec_half_closed() && self.pending_view().len() == 0),
    {
        self.half_closed && self.pending.len() == 0
    }
}

/// The TCP states a socket goes through.
#[derive(Clone, Copy, Debug, PartialEq, Eq, Structural)]
pub enum TcpPhase {
    Closed,
    Listen,
    SynSent,
    SynReceived,
    Established,
    FinWait1,
    FinWait2,
    CloseWait,
    Closing,
    LastAck,
    TimeWait,
}

/// What a poll learns about a connect in progress.
#[derive(Clone, Copy, Debug, PartialEq, Eq, Structural)]
pub enum ConnectEdge {
    /// The handshake just completed: hand the caller its connection.
    Opened,
    /// It never will: answer the caller "connection refused".
    Refused,
    Unchanged,
}

pub fn connect_edge(was_established: bool, state: TcpPhase) -> (e: ConnectEdge)
    ensures
        e == (if !was_established && state == TcpPhase::Established {
            ConnectEdge::Opened
        } else if !was_established && (state == TcpPhase::Closed || state == TcpPhase::TimeWait) {
            ConnectEdge::Refused
        } else {
            ConnectEdge::Unchanged
        }),
{
    if !was_established && state == TcpPhase::Established {
        ConnectEdge::Opened
    } else if !was_established && (state == TcpPhase::Closed || state == TcpPhase::TimeWait) {
        ConnectEdge::Refused
    } else {
        ConnectEdge::Unchanged
    }
}

/// What a poll does with a flow after reading from it.
#[derive(Clone, Copy, Debug, PartialEq, Eq, Structural)]
pub enum AfterRead {
    /// The peer closed its half: close ours.
    Close,
    /// An established flow is gone: drop the socket and the flow.
    Remove,
    Keep,
}

pub fn after_read(state: TcpPhase, established: bool) -> (a: AfterRead)
    ensures
        a == (if state == TcpPhase::CloseWait {
            AfterRead::Close
        } else if state == TcpPhase::Closed && established {
            AfterRead::Remove
        } else {
            AfterRead::Keep
        }),
{
    if state == TcpPhase::CloseWait {
        AfterRead::Close
    } else if state == TcpPhase::Closed && established {
        AfterRead::Remove
    } else {
        AfterRead::Keep
    }
}

/// The answer a pending connect gets when its flow is abandoned: none once
/// the caller holds its connection.
pub fn abandon_reason(established: bool) -> (r: Option<&'static str>)
    ensures
        established ==> r is None,
        !established ==> (r matches Some(m) && m@ == "connection abandoned before it completed"@),
{
    if established { None } else { Some("connection abandoned before it completed") }
}

} // verus!
