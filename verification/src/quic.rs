//! The decisions the QUIC/H3 tunnel makes around its connection: which names
//! it presents, how a `:status` line is read, what counts as data-plane proof,
//! the version-2 bait packet and the keepalive budget.
use vstd::prelude::*;

use crate::bytes::{be32, push_be32};
use crate::consts::{CONNECT_SNI, QUIC_V2_VERSION};
use crate::settings::{nonblank, nonblank_owned, spec_nonblank, spec_truthy, truthy};
use crate::text::{join2, opt_string_view, opt_view, owned, parse_unsigned, parse_unsigned_chars, trim, trimmed};
use crate::varint::spec_varint_decode;

verus! {

/// The name chosen from an H3-specific override, then a generic one, then the
/// consumer front; blank values count as unset.
pub open spec fn spec_h3_sni(h3: Option<Seq<char>>, generic: Option<Seq<char>>) -> Seq<char> {
    match spec_nonblank(h3) {
        Some(s) => s,
        None => match spec_nonblank(generic) {
            Some(s) => s,
            None => CONNECT_SNI@,
        },
    }
}

/// SNI for the H3 MASQUE path from the two override values.
pub fn resolve_h3_sni_from(h3_override: Option<String>, generic: Option<String>) -> (r: String)
    ensures
        r@ == spec_h3_sni(opt_string_view(h3_override), opt_string_view(generic)),
{
    match nonblank_owned(h3_override) {
        Some(s) => s,
        None => match nonblank_owned(generic) {
            Some(s) => s,
            None => owned(CONNECT_SNI),
        },
    }
}

/// SNI for the H3 MASQUE path, from the `AETHER_MASQUE_H3_SNI` and
/// `AETHER_MASQUE_SNI` settings.
pub fn resolve_h3_sni(h3_setting: Option<&str>, generic_setting: Option<&str>) -> (r: String)
    ensures
        r@ == spec_h3_sni(opt_view(h3_setting), opt_view(generic_setting)),
{
    match nonblank(h3_setting) {
        Some(s) => s,
        None => match nonblank(generic_setting) {
            Some(s) => s,
            None => owned(CONNECT_SNI),
        },
    }
}

pub fn default_authority() -> (r: &'static str)
    ensures
        r@ == "cloudflareaccess.com"@,
{
    "cloudflareaccess.com"
}

pub fn default_path() -> (r: &'static str)
    ensures
        r@ == "/"@,
{
    "/"
}

/// A setting value, or `default` when it is absent or blank.
pub open spec fn spec_or_default(v: Option<Seq<char>>, default: Seq<char>) -> Seq<char> {
    match spec_nonblank(v) {
        Some(s) => s,
        None => default,
    }
}

/// The CONNECT-IP `:authority`, from the `AETHER_MASQUE_H3_AUTHORITY` setting.
pub fn resolve_h3_authority(setting: Option<&str>) -> (r: String)
    ensures
        r@ == spec_or_default(opt_view(setting), "cloudflareaccess.com"@),
{
    match nonblank(setting) {
        Some(s) => s,
        None => owned(default_authority()),
    }
}

/// The CONNECT-IP `:path`, from the `AETHER_MASQUE_H3_PATH` setting.
pub fn resolve_h3_path(setting: Option<&str>) -> (r: String)
    ensures
        r@ == spec_or_default(opt_view(setting), "/"@),
{
    match nonblank(setting) {
        Some(s) => s,
        None => owned(default_path()),
    }
}

/// What the tunnel does with a `:status` line.
#[derive(Debug, Clone, Copy, PartialEq, Eq, Structural)]
pub enum StatusAction {
    Ignore,
    Interim,
    Ready,
    Fatal,
}

/// Only the CONNECT stream's status counts; 1xx is interim, 2xx ready, and
/// anything else, or no number at all, fatal.
pub open spec fn spec_classify_status(stream_id: u64, req_stream: u64, status: Seq<char>) -> StatusAction {
    if stream_id != req_stream {
        StatusAction::Ignore
    } else {
        match parse_unsigned(trim(status), 65535) {
            None => StatusAction::Fatal,
            Some(code) => if 100 <= code <= 199 {
                StatusAction::Interim
            } else if 200 <= code <= 299 {
                StatusAction::Ready
            } else {
                StatusAction::Fatal
            },
        }
    }
}

pub fn classify_status(stream_id: u64, req_stream: u64, status: &str) -> (r: StatusAction)
    ensures
        r == spec_classify_status(stream_id, req_stream, status@),
{
    if stream_id != req_stream {
        return StatusAction::Ignore;
    }
    let t = trimmed(status);
    match parse_unsigned_chars(&t, 65535) {
        None => StatusAction::Fatal,
        Some(code) => if 100 <= code && code <= 199 {
            StatusAction::Interim
        } else if 200 <= code && code <= 299 {
            StatusAction::Ready
        } else {
            StatusAction::Fatal
        },
    }
}

/// What the CONNECT-IP probe does with a `:status` line.
#[derive(Debug, Clone, PartialEq, Eq)]
pub enum ProbeStatus {
    /// Interim or off-stream: keep polling.
    Wait,
    /// Final 2xx: go prove the data plane.
    Ready,
    /// Refused, or not a status at all.
    Failed(String),
}

/// The probe reads a status exactly as the tunnel does.
pub fn probe_decision(stream_id: u64, req_stream: u64, status: &str) -> (r: ProbeStatus)
    ensures
        match spec_classify_status(stream_id, req_stream, status@) {
            StatusAction::Ignore | StatusAction::Interim => r is Wait,
            StatusAction::Ready => r is Ready,
            StatusAction::Fatal => r matches ProbeStatus::Failed(m) && m@ == "status "@ + status@,
        },
{
    match classify_status(stream_id, req_stream, status) {
        StatusAction::Ignore | StatusAction::Interim => ProbeStatus::Wait,
        StatusAction::Ready => ProbeStatus::Ready,
        StatusAction::Fatal => ProbeStatus::Failed(join2("status ", status)),
    }
}

/// An ICMP payload that is an echo reply (type 0), not an error.
pub open spec fn spec_is_echo_reply(payload: Seq<u8>) -> bool {
    payload.len() > 0 && payload[0] == 0
}

pub fn is_echo_reply(payload: &[u8]) -> (b: bool)
    ensures
        b == spec_is_echo_reply(payload@),
{
    payload.len() > 0 && payload[0] == 0
}

/// A packet that proves the path forwards traffic: an IPv4 or IPv6 packet
/// carrying a transport payload or an ICMP echo reply. ICMP errors, empty
/// payloads and truncated headers prove nothing.
pub open spec fn spec_is_forwardable(pkt: Seq<u8>) -> bool {
    if pkt.len() == 0 {
        false
    } else if pkt[0] >> 4u8 == 4 {
        let ihl = ((pkt[0] & 0x0f) as int) * 4;
        if pkt.len() < 13 || ihl < 20 || pkt.len() < ihl {
            false
        } else {
            let payload = pkt.subrange(ihl, pkt.len() as int);
            let proto = pkt[9];
            if proto == 1 {
                spec_is_echo_reply(payload)
            } else if proto == 6 || proto == 17 || proto == 41 {
                payload.len() > 0
            } else {
                false
            }
        }
    } else if pkt[0] >> 4u8 == 6 {
        if pkt.len() < 40 {
            false
        } else {
            let payload = pkt.subrange(40, pkt.len() as int);
            let proto = pkt[6];
            if proto == 58 {
                spec_is_echo_reply(payload)
            } else if proto == 6 || proto == 17 || proto == 43 || proto == 44 {
                payload.len() > 0
            } else {
                false
            }
        }
    } else {
        false
    }
}

pub fn is_forwardable_ip_packet(pkt: &[u8]) -> (b: bool)
    ensures
        b == spec_is_forwardable(pkt@),
{
    if pkt.len() == 0 {
        return false;
    }
    let first = pkt[0];
    if first >> 4 == 4 {
        if pkt.len() - 1 < 12 {
            return false;
        }
        let ihl = ((first & 0x0f) as usize) * 4;
        if ihl < 20 || pkt.len() < ihl {
            return false;
        }
        let proto = pkt[9];
        if proto == 1 {
            pkt.len() > ihl && pkt[ihl] == 0
        } else if proto == 6 || proto == 17 || proto == 41 {
            pkt.len() > ihl
        } else {
            false
        }
    } else if first >> 4 == 6 {
        if pkt.len() < 40 {
            return false;
        }
        let proto = pkt[6];
        if proto == 58 {
            pkt.len() > 40 && pkt[40] == 0
        } else if proto == 6 || proto == 17 || proto == 43 || proto == 44 {
            pkt.len() > 40
        } else {
            false
        }
    } else {
        false
    }
}

/// Whether the QUIC version-2 bait is sent, from the `AETHER_QUIC_V2` setting:
/// on unless set to an explicit negative (`0`, `false`, `no`, `off`).
pub open spec fn spec_bait_enabled(setting: Option<Seq<char>>) -> bool {
    match setting {
        Some(v) => !crate::settings::spec_falsy(v),
        None => true,
    }
}

pub fn quic_v2_bait_enabled(setting: Option<&str>) -> (b: bool)
    ensures
        b == spec_bait_enabled(opt_view(setting)),
{
    match setting {
        Some(v) => !crate::settings::falsy(v),
        None => true,
    }
}

/// Length of the version-2 bait, the QUIC minimum for an Initial.
pub const QUIC_V2_BAIT_LEN: usize = 1200;

/// A two-byte QUIC varint of the low 14 bits of `value`.
pub open spec fn spec_varint2(value: u64) -> Seq<u8> {
    seq![(0x40u64 | ((value >> 8u64) & 0x3f)) as u8, (value & 0xff) as u8]
}

pub fn quic_varint2(value: u64) -> (r: [u8; 2])
    ensures
        r@ == spec_varint2(value),
        spec_varint_decode(r@) == Some(((value & 0x3fff) as u64, 2nat)),
{
    let b0 = (0x40u64 | ((value >> 8) & 0x3f)) as u8;
    let b1 = (value & 0xff) as u8;
    let r = [b0, b1];
    proof {
        assert(b0 >= 0x40 && b0 < 0x80) by (bit_vector)
            requires
                b0 == (0x40u64 | ((value >> 8u64) & 0x3f)) as u8,
        ;
        assert((((b0 & 0x3f) as u64) << 8u64) | (b1 as u64) == value & 0x3fff) by (bit_vector)
            requires
                b0 == (0x40u64 | ((value >> 8u64) & 0x3f)) as u8,
                b1 == (value & 0xff) as u8,
        ;
        assert(r@ =~= spec_varint2(value));
    }
    r
}

/// The bait datagram: a long-header Initial carrying the v2 version number,
/// the given connection ids and packet number, zero-padded to the minimum size.
pub open spec fn spec_version_bait(dcid: Seq<u8>, scid: Seq<u8>, pn: Seq<u8>) -> Seq<u8> {
    let head = seq![0xc3u8] + be32(QUIC_V2_VERSION) + seq![8u8] + dcid + seq![8u8] + scid + seq![0u8]
        + spec_varint2((QUIC_V2_BAIT_LEN - 26) as u64) + pn;
    head + Seq::new((QUIC_V2_BAIT_LEN - head.len()) as nat, |i: int| 0u8)
}

/// The bait for given connection ids and packet number.
pub fn version_bait_with(dcid: &[u8], scid: &[u8], pn: &[u8]) -> (pkt: Vec<u8>)
    requires
        dcid@.len() == 8,
        scid@.len() == 8,
        pn@.len() == 4,
    ensures
        pkt@ == spec_version_bait(dcid@, scid@, pn@),
{
    let mut pkt: Vec<u8> = Vec::new();
    pkt.push(0xc3);
    push_be32(&mut pkt, QUIC_V2_VERSION);
    pkt.push(8);
    crate::bytes::extend(&mut pkt, dcid);
    pkt.push(8);
    crate::bytes::extend(&mut pkt, scid);
    pkt.push(0);
    let remaining = QUIC_V2_BAIT_LEN - pkt.len() - 2;
    let len = quic_varint2(remaining as u64);
    pkt.push(len[0]);
    pkt.push(len[1]);
    crate::bytes::extend(&mut pkt, pn);
    let ghost head = pkt@;
    proof {
        assert(head =~= seq![0xc3u8] + be32(QUIC_V2_VERSION) + seq![8u8] + dcid@ + seq![8u8] + scid@
            + seq![0u8] + spec_varint2((QUIC_V2_BAIT_LEN - 26) as u64) + pn@);
    }
    while pkt.len() < QUIC_V2_BAIT_LEN
        invariant
            head.len() == 30,
            30 <= pkt@.len() <= QUIC_V2_BAIT_LEN,
            pkt@ == head + Seq::new((pkt@.len() - 30) as nat, |i: int| 0u8),
        decreases QUIC_V2_BAIT_LEN - pkt@.len(),
    {
        pkt.push(0);
        assert(pkt@ =~= head + Seq::new((pkt@.len() - 30) as nat, |i: int| 0u8));
    }
    pkt
}

/// A version-2 bait with fresh random connection ids and packet number.
pub fn build_version_bait() -> (pkt: Vec<u8>)
    ensures
        exists|dcid: Seq<u8>, scid: Seq<u8>, pn: Seq<u8>|
            dcid.len() == 8 && scid.len() == 8 && pn.len() == 4
                && pkt@ == spec_version_bait(dcid, scid, pn),
{
    let dcid = crate::rng::random_bytes(8);
    let scid = crate::rng::random_bytes(8);
    let pn = crate::rng::random_bytes(4);
    version_bait_with(&dcid, &scid, &pn)
}

/// What an H3 endpoint negotiated in its SETTINGS.
#[derive(Debug, Clone, Copy)]
pub struct H3Fingerprint {
    pub reachable: bool,
    pub ext_connect: bool,
    pub dgram: bool,
}

impl H3Fingerprint {
    /// MASQUE-capable: extended CONNECT and H3 DATAGRAM both negotiated.
    pub fn is_masque(&self) -> (b: bool)
        ensures
            b == (self.ext_connect && self.dgram),
    {
        self.ext_connect && self.dgram
    }
}

/// Milliseconds between keepalive probes.
pub const KEEPALIVE_INTERVAL_MS: u64 = 15000;

/// Probes that may go unanswered before the session is declared dead.
pub const KEEPALIVE_MAX_UNANSWERED: u32 = 2;

/// The idle timeout the QUIC transport is configured with, in milliseconds.
pub const IDLE_TIMEOUT_MS: u64 = 45000;

/// Counts keepalive probes that have not been answered yet.
#[derive(Debug, PartialEq, Eq)]
pub struct Keepalive {
    unanswered: u32,
}

/// The outcome of a keepalive tick.
#[derive(Debug, PartialEq, Eq, Structural)]
pub enum KeepaliveTick {
    Send,
    GiveUp { unanswered: u32 },
}

impl Default for Keepalive {
    fn default() -> (k: Keepalive)
        ensures
            k.count() == 0,
    {
        Keepalive { unanswered: 0 }
    }
}

impl Keepalive {
    pub closed spec fn count(&self) -> u32 {
        self.unanswered
    }

    /// The count never passes the budget.
    pub open spec fn wf(&self) -> bool {
        self.count() <= KEEPALIVE_MAX_UNANSWERED
    }

    /// One interval tick: send a probe, or report that the tunnel is dead once
    /// the budget of unanswered probes is spent.
    pub fn tick(&mut self) -> (r: KeepaliveTick)
        ensures
            old(self).count() >= KEEPALIVE_MAX_UNANSWERED ==> r == (KeepaliveTick::GiveUp {
                unanswered: old(self).count(),
            }) && final(self).count() == old(self).count(),
            old(self).count() < KEEPALIVE_MAX_UNANSWERED ==> r == KeepaliveTick::Send
                && final(self).count() == old(self).count() + 1,
            old(self).wf() ==> final(self).wf(),
    {
        if self.unanswered >= KEEPALIVE_MAX_UNANSWERED {
            return KeepaliveTick::GiveUp { unanswered: self.unanswered };
        }
        self.unanswered += 1;
        KeepaliveTick::Send
    }

    /// Any inbound packet answers every probe sent so far.
    pub fn inbound(&mut self)
        ensures
            final(self).count() == 0,
    {
        self.unanswered = 0;
    }

    pub fn unanswered(&self) -> (n: u32)
        ensures
            n == self.count(),
    {
        self.unanswered
    }
}

/// The keepalive gives up within the idle timeout: the budget of unanswered
/// probes plus the tick that notices it fits inside the transport's timer.
pub proof fn lemma_keepalive_within_idle_timeout()
    ensures
        KEEPALIVE_INTERVAL_MS * (KEEPALIVE_MAX_UNANSWERED + 1) <= IDLE_TIMEOUT_MS,
{
}

/// A tunnel that has heard no UDP reply this long gives up (milliseconds).
pub const NO_UDP_FAST_FAIL_MS: u64 = 6000;
/// A tunnel whose handshake has not completed this long gives up.
pub const NO_HANDSHAKE_FAST_FAIL_MS: u64 = 12000;
pub const NO_UDP_REPLY: &'static str = "no UDP reply from gateway; the network may be blocking QUIC/UDP (try HTTP/2 or WireGuard)";
pub const NO_HANDSHAKE: &'static str = "QUIC handshake did not complete; the path may be interfering with QUIC (try HTTP/2 or WireGuard)";

/// Whether the tunnel bails out early on a QUIC-hostile path, and why: only
/// before the data plane is up, after six seconds with no UDP reply at all,
/// or after twelve with replies but no completed handshake.
pub fn tunnel_fast_fail(dataplane_ok: bool, udp_seen: bool, established_ever: bool, elapsed_ms: u64) -> (r: Option<&'static str>)
    ensures
        r == (if dataplane_ok {
            None::<&'static str>
        } else if !udp_seen && elapsed_ms >= NO_UDP_FAST_FAIL_MS {
            Some(NO_UDP_REPLY)
        } else if udp_seen && !established_ever && elapsed_ms >= NO_HANDSHAKE_FAST_FAIL_MS {
            Some(NO_HANDSHAKE)
        } else {
            None::<&'static str>
        }),
{
    if dataplane_ok {
        None
    } else if !udp_seen && elapsed_ms >= NO_UDP_FAST_FAIL_MS {
        Some(NO_UDP_REPLY)
    } else if udp_seen && !established_ever && elapsed_ms >= NO_HANDSHAKE_FAST_FAIL_MS {
        Some(NO_HANDSHAKE)
    } else {
        None
    }
}

/// After the CONNECT-IP 200, how long the tunnel waits for an edge-assigned
/// address before probing from its own (milliseconds).
pub const PROBE_GRACE_MS: u64 = 2000;
/// The least time between two data-plane probes.
pub const PROBE_INTERVAL_MS: u64 = 700;
/// How long the data plane has to prove itself after the 200.
pub const DATAPLANE_VERIFY_MS: u64 = 8000;
pub const DATAPLANE_TIMEOUT: &'static str = "h3 data-plane verify timeout (CONNECT ok, no traffic)";

/// What one pass of the tunnel loop does about the data-plane proof.
#[derive(Debug, Clone, Copy, PartialEq, Eq, Structural)]
pub struct DataplaneTick {
    /// Send one DNS probe through the tunnel now.
    pub send_probe: bool,
    /// The proof did not come in time: the tunnel fails.
    pub timed_out: bool,
}

/// The data-plane proof schedule: when the 200 arrived and when the last
/// probe went out (times in milliseconds on the caller's clock).
pub struct DataplaneProbe {
    ready_since_ms: Option<u64>,
    last_probe_ms: Option<u64>,
}

impl DataplaneProbe {
    pub closed spec fn ready_since(&self) -> Option<u64> {
        self.ready_since_ms
    }

    pub closed spec fn last_probe(&self) -> Option<u64> {
        self.last_probe_ms
    }

    pub fn new() -> (p: DataplaneProbe)
        ensures
            p.ready_since() is None,
            p.last_probe() is None,
    {
        DataplaneProbe { ready_since_ms: None, last_probe_ms: None }
    }

    /// One pass after the 200 while the data plane is unproven, at `now_ms`.
    /// The first pass starts the clock. A probe goes out once an address was
    /// assigned or the grace period is over, at most every 700 ms; eight
    /// seconds after the 200 the tunnel has timed out.
    pub fn tick(&mut self, now_ms: u64, addr_assigned: bool) -> (t: DataplaneTick)
        requires
            old(self).ready_since() matches Some(r) ==> r <= now_ms,
            old(self).last_probe() matches Some(l) ==> l <= now_ms,
        ensures
            final(self).ready_since() == Some(match old(self).ready_since() {
                Some(r) => r,
                None => now_ms,
            }),
            ({
                let since = final(self).ready_since()->0;
                let may_probe = addr_assigned || now_ms - since >= PROBE_GRACE_MS;
                let due = match old(self).last_probe() {
                    Some(l) => now_ms - l >= PROBE_INTERVAL_MS,
                    None => true,
                };
                &&& t.send_probe == (may_probe && due)
                &&& final(self).last_probe() == (if t.send_probe { Some(now_ms) } else { old(self).last_probe() })
                &&& t.timed_out == (now_ms - since >= DATAPLANE_VERIFY_MS)
            }),
    {
        let since = match self.ready_since_ms {
            Some(r) => r,
            None => {
                self.ready_since_ms = Some(now_ms);
                now_ms
            },
        };
        let may_probe = addr_assigned || now_ms - since >= PROBE_GRACE_MS;
        let due = match self.last_probe_ms {
            Some(l) => now_ms - l >= PROBE_INTERVAL_MS,
            None => true,
        };
        let send_probe = may_probe && due;
        if send_probe {
            self.last_probe_ms = Some(now_ms);
        }
        DataplaneTick { send_probe, timed_out: now_ms - since >= DATAPLANE_VERIFY_MS }
    }
}

/// A closed connection is retried once with the server's ECH retry configs
/// when it never came up, was not retried yet, and was using ECH.
pub fn ech_retry_allowed(established_ever: bool, ech_retried: bool, has_ech: bool) -> (b: bool)
    ensures
        b == (!established_ever && !ech_retried && has_ech),
{
    !established_ever && !ech_retried && has_ech
}

/// How a closed tunnel ends: a failure it recorded, then an error the peer
/// sent, make it fail; a teardown it asked for is a clean end; any other
/// close is an error too, so the endpoint is never credited for it.
pub fn close_result(fatal: Option<String>, peer_reason: Option<String>, local_shutdown: bool) -> (r: crate::error::Result<()>)
    ensures
        match fatal {
            Some(f) => r matches Err(crate::error::AetherError::Masque(m)) && m@ == "tunnel died: "@ + f@,
            None => match peer_reason {
                Some(p) => r matches Err(crate::error::AetherError::Masque(m)) && m@ == "peer closed the tunnel: "@ + p@,
                None => if local_shutdown {
                    r is Ok
                } else {
                    r matches Err(crate::error::AetherError::Masque(m))
                        && m@ == "connection closed without a local shutdown request"@
                },
            },
        },
{
    match fatal {
        Some(f) => Err(crate::error::AetherError::Masque(join2("tunnel died: ", f.as_str()))),
        None => match peer_reason {
            Some(p) => Err(crate::error::AetherError::Masque(join2("peer closed the tunnel: ", p.as_str()))),
            None => if local_shutdown {
                Ok(())
            } else {
                Err(crate::error::AetherError::Masque(owned("connection closed without a local shutdown request")))
            },
        },
    }
}

/// The source address of data-plane probes: the `AETHER_PROBE_SRC` override
/// when it is an IPv4 address, else the tunnel's own.
pub fn probe_source(setting: Option<&str>, local_ipv4: [u8; 4]) -> (o: [u8; 4])
    ensures
        o@ == (match opt_view(setting) {
            Some(v) => match crate::ip::spec_parse_ipv4(v) {
                Some(p) => p,
                None => local_ipv4@,
            },
            None => local_ipv4@,
        }),
{
    match setting {
        Some(v) => match crate::ip::parse_ipv4(v) {
            Some(p) => p,
            None => local_ipv4,
        },
        None => local_ipv4,
    }
}

/// A probe that heard no UDP reply this long gives up (milliseconds).
pub const VERIFY_NO_UDP_MS: u64 = 2000;
/// The most a probe waits for its data-plane reply after the 200.
pub const VERIFY_DATAPLANE_MS: u64 = 3500;
pub const VERIFY_NO_UDP: &'static str = "verify timeout (no UDP reply \u{2014} QUIC may be filtered)";
pub const VERIFY_NO_200: &'static str = "verify timeout (UDP ok, no connect-ip 200)";
pub const VERIFY_NO_TRAFFIC: &'static str = "data-plane probe timeout (200 ok, no traffic)";

/// Whether a verification probe gives up at `elapsed_ms` of its budget, and
/// why: out of budget (saying whether UDP ever answered), or two seconds
/// without any UDP reply.
pub fn verify_check(elapsed_ms: u64, budget_ms: u64, saw_udp: bool) -> (r: Option<&'static str>)
    ensures
        r == (if elapsed_ms >= budget_ms {
            Some(if saw_udp { VERIFY_NO_200 } else { VERIFY_NO_UDP })
        } else if !saw_udp && elapsed_ms >= VERIFY_NO_UDP_MS {
            Some(VERIFY_NO_UDP)
        } else {
            None::<&'static str>
        }),
{
    if elapsed_ms >= budget_ms {
        Some(if saw_udp { VERIFY_NO_200 } else { VERIFY_NO_UDP })
    } else if !saw_udp && elapsed_ms >= VERIFY_NO_UDP_MS {
        Some(VERIFY_NO_UDP)
    } else {
        None
    }
}

/// How long a probe waits next: the QUIC timer when it comes before the end
/// of the budget, else the rest of the budget; and whether the connection is
/// told it timed out when the wait ends. That test (the wait is no longer
/// than the QUIC timer) holds whenever there is a QUIC timer at all.
pub fn verify_wait(quic_timeout_ms: Option<u64>, remaining_ms: u64) -> (r: (u64, bool))
    ensures
        r.0 == (match quic_timeout_ms {
            Some(t) => if t <= remaining_ms { t } else { remaining_ms },
            None => remaining_ms,
        }),
        r.1 == quic_timeout_ms is Some,
{
    match quic_timeout_ms {
        Some(t) => {
            let w = if t <= remaining_ms { t } else { remaining_ms };
            (w, w <= t)
        },
        None => (remaining_ms, false),
    }
}

/// How long a probe waits for its data-plane reply: 3.5 seconds, or what is
/// left of its budget if less.
pub fn verify_dataplane_budget_ms(remaining_ms: u64) -> (b: u64)
    ensures
        b == (if remaining_ms <= VERIFY_DATAPLANE_MS { remaining_ms } else { VERIFY_DATAPLANE_MS }),
{
    if remaining_ms <= VERIFY_DATAPLANE_MS { remaining_ms } else { VERIFY_DATAPLANE_MS }
}

fn hex_u64(x: u64) -> (r: Vec<char>)
    ensures
        r@ == crate::ip::hex_text(x as nat),
    decreases x,
{
    let d = x % 16;
    let c: char = if d < 10 { (48u8 + d as u8) as char } else { (87u8 + d as u8) as char };
    proof {
        assert(c == crate::ip::hex_char(d as int));
    }
    if x < 16 {
        let mut r: Vec<char> = Vec::new();
        r.push(c);
        assert(r@ =~= seq![crate::ip::hex_char(x as int)]);
        r
    } else {
        let mut r = hex_u64(x / 16);
        r.push(c);
        r
    }
}

/// What a `:status` line does to the tunnel: it is ready after its first
/// final 2xx on the CONNECT stream; a second final answer, or a refusal,
/// ends it. `ready` says whether it was ready before.
pub fn status_step(stream_id: u64, req_stream: u64, status: &str, ready: bool) -> (r: crate::error::Result<bool>)
    ensures
        match spec_classify_status(stream_id, req_stream, status@) {
            StatusAction::Ignore | StatusAction::Interim => r == Ok::<bool, crate::error::AetherError>(ready),
            StatusAction::Ready => if ready {
                r matches Err(crate::error::AetherError::Masque(m))
                    && m@ == "duplicate final response "@ + status@ + " on the connect stream"@
            } else {
                r == Ok::<bool, crate::error::AetherError>(true)
            },
            StatusAction::Fatal => r matches Err(crate::error::AetherError::Masque(m))
                && m@ == "the edge refused connect-ip with status "@ + status@,
        },
{
    match classify_status(stream_id, req_stream, status) {
        StatusAction::Ignore | StatusAction::Interim => Ok(ready),
        StatusAction::Ready => {
            if ready {
                let mut m = join2("duplicate final response ", status);
                m.append(" on the connect stream");
                Err(crate::error::AetherError::Masque(m))
            } else {
                Ok(true)
            }
        },
        StatusAction::Fatal => Err(crate::error::AetherError::Masque(join2("the edge refused connect-ip with status ", status))),
    }
}

/// The error of a CONNECT stream the edge ended: closed (`None`), or reset
/// with an error code, written in hex.
pub fn stream_end_error(reset_code: Option<u64>) -> (e: crate::error::AetherError)
    ensures
        match reset_code {
            None => e matches crate::error::AetherError::Masque(m) && m@ == "the edge closed the connect-ip stream"@,
            Some(c) => e matches crate::error::AetherError::Masque(m)
                && m@ == "the edge reset the connect-ip stream (code 0x"@ + crate::ip::hex_text(c as nat) + ")"@,
        },
{
    match reset_code {
        None => crate::error::AetherError::Masque(owned("the edge closed the connect-ip stream")),
        Some(c) => {
            let h = hex_u64(c);
            let mut m = owned("the edge reset the connect-ip stream (code 0x");
            let hs = crate::text::string_of(&h);
            m.append(hs.as_str());
            m.append(")");
            crate::error::AetherError::Masque(m)
        },
    }
}

} // verus!
