//! Settings of the HTTP/2 MASQUE transport.
use vstd::prelude::*;

use crate::settings::{spec_truthy, truthy};
use crate::text::{
    eq_str, first_index_char, fold, folded, lemma_first_index_char, opt_view, parse_unsigned,
    parse_unsigned_chars, slice_chars, trim, trimmed,
};

verus! {

/// The `AETHER_MASQUE_HTTP2` switch: on for `1`, `true`, `h2`, `yes` or
/// `on`, ignoring case and surrounding whitespace.
pub open spec fn spec_h2_enabled(setting: Option<Seq<char>>) -> bool {
    match setting {
        Some(v) => {
            let f = folded(v);
            f == "1"@ || f == "true"@ || f == "h2"@ || f == "yes"@ || f == "on"@
        },
        None => false,
    }
}

pub fn enabled(setting: Option<&str>) -> (b: bool)
    ensures
        b == spec_h2_enabled(opt_view(setting)),
{
    match setting {
        Some(v) => {
            let f = fold(v);
            eq_str(&f, "1") || eq_str(&f, "true") || eq_str(&f, "h2") || eq_str(&f, "yes")
                || eq_str(&f, "on")
        },
        None => false,
    }
}


/// A `u64` setting's value, or `default` when it does not parse.
pub open spec fn u64_or(s: Seq<char>, default: u64) -> u64 {
    match parse_unsigned(s, u64::MAX as nat) {
        Some(n) => n as u64,
        None => default,
    }
}

/// A range setting `lo-hi` (split at the first dash, each side trimmed, a
/// side that does not parse taking its default, the ends put in order), a
/// single value `v` meaning `v-v`, and a blank value the default range.
pub open spec fn spec_parse_range(spec: Seq<char>, default: (u64, u64)) -> (u64, u64) {
    let t = trim(spec);
    let k = first_index_char(t, '-');
    if t.len() == 0 {
        default
    } else if k < t.len() {
        let lo = u64_or(trim(t.take(k)), default.0);
        let hi = u64_or(trim(t.skip(k + 1)), default.1);
        if hi < lo { (hi, lo) } else { (lo, hi) }
    } else {
        let v = u64_or(t, default.0);
        (v, v)
    }
}

fn u64_or_chars(v: &[char], default: u64) -> (r: u64)
    ensures
        r == u64_or(v@, default),
{
    match parse_unsigned_chars(v, u64::MAX) {
        Some(n) => n,
        None => default,
    }
}

fn trim_vec(v: &[char]) -> (r: Vec<char>)
    ensures
        r@ == trim(v@),
{
    let (a, b) = crate::text::trim_bounds(v);
    slice_chars(v, a, b)
}

pub fn parse_range(spec: &str, default: (u64, u64)) -> (r: (u64, u64))
    ensures
        r == spec_parse_range(spec@, default),
{
    let t = trimmed(spec);
    if t.len() == 0 {
        return default;
    }
    let k = crate::text::find_char(&t, '-');
    proof {
        lemma_first_index_char(t@, '-');
    }
    if k < t.len() {
        let a = slice_chars(&t, 0, k);
        assert(a@ =~= t@.take(k as int));
        let b = slice_chars(&t, k + 1, t.len());
        assert(b@ =~= t@.skip(k + 1));
        let lo = u64_or_chars(&trim_vec(&a), default.0);
        let hi = u64_or_chars(&trim_vec(&b), default.1);
        if hi < lo { (hi, lo) } else { (lo, hi) }
    } else {
        let v = u64_or_chars(&t, default.0);
        (v, v)
    }
}

/// How the first write of the H2 transport (the TLS ClientHello) is split:
/// off, the legacy one-third split (`size_max == 0`), or random chunks of
/// `size_min..=size_max` bytes with a `delay_min_ms..=delay_max_ms` pause
/// between them.
#[derive(Debug, Clone, Copy, PartialEq, Eq, Structural)]
pub struct FragmentConfig {
    pub enabled: bool,
    pub size_min: usize,
    pub size_max: usize,
    pub delay_min_ms: u64,
    pub delay_max_ms: u64,
}

/// The fragmentation the three settings ask for (on/off, chunk sizes, delays).
pub open spec fn spec_fragment_config(
    fragment: Option<Seq<char>>,
    size: Option<Seq<char>>,
    delay: Option<Seq<char>>,
) -> FragmentConfig {
    let on = match fragment {
        Some(v) => spec_truthy(v),
        None => false,
    };
    if !on {
        FragmentConfig { enabled: false, size_min: 0, size_max: 0, delay_min_ms: 0, delay_max_ms: 0 }
    } else {
        let (s_lo, s_hi) = spec_parse_range(or_blank(size), (16, 32));
        let (d_lo, d_hi) = spec_parse_range(or_blank(delay), (2, 10));
        let m1: usize = (if s_lo >= 1 { s_lo } else { 1 }) as usize;
        let size_min: usize = if m1 >= 1 { m1 } else { 1 };
        let m2: usize = (if s_hi >= size_min { s_hi } else { size_min as u64 }) as usize;
        let size_max: usize = if m2 >= 1 { m2 } else { 1 };
        FragmentConfig {
            enabled: true,
            size_min,
            size_max,
            delay_min_ms: d_lo,
            delay_max_ms: if d_hi >= d_lo { d_hi } else { d_lo },
        }
    }
}

/// An absent setting read as the empty value.
pub open spec fn or_blank(v: Option<Seq<char>>) -> Seq<char> {
    match v {
        Some(s) => s,
        None => Seq::empty(),
    }
}

/// The legacy switch: `1`, `on` or `true` (either case), trimmed.
pub open spec fn spec_legacy_switch(v: Option<Seq<char>>) -> bool {
    match v {
        Some(s) => {
            let t = trim(s);
            t == "1"@ || crate::text::ascii_lower(t) == "on"@ || crate::text::ascii_lower(t) == "true"@
        },
        None => false,
    }
}

impl FragmentConfig {
    pub fn legacy_on() -> (c: FragmentConfig)
        ensures
            c == (FragmentConfig { enabled: true, size_min: 0, size_max: 0, delay_min_ms: 0, delay_max_ms: 0 }),
    {
        FragmentConfig { enabled: true, size_min: 0, size_max: 0, delay_min_ms: 0, delay_max_ms: 0 }
    }

    pub fn disabled() -> (c: FragmentConfig)
        ensures
            c == (FragmentConfig { enabled: false, size_min: 0, size_max: 0, delay_min_ms: 0, delay_max_ms: 0 }),
    {
        FragmentConfig { enabled: false, size_min: 0, size_max: 0, delay_min_ms: 0, delay_max_ms: 0 }
    }

    /// Full random fragmentation from its settings: on/off, the chunk size
    /// range (default 16-32 bytes) and the delay range (default 2-10 ms).
    pub fn from_settings(fragment: Option<&str>, size: Option<&str>, delay: Option<&str>) -> (c: FragmentConfig)
        ensures
            c == spec_fragment_config(opt_view(fragment), opt_view(size), opt_view(delay)),
    {
        let on = match fragment {
            Some(v) => truthy(v),
            None => false,
        };
        if !on {
            return FragmentConfig::disabled();
        }
        let (s_lo, s_hi) = parse_range(match size { Some(v) => v, None => "" }, (16, 32));
        let (d_lo, d_hi) = parse_range(match delay { Some(v) => v, None => "" }, (2, 10));
        proof {
            reveal_strlit("");
            assert(or_blank(opt_view(size)) == (match size { Some(v) => v@, None => ""@ }));
            assert(or_blank(opt_view(delay)) == (match delay { Some(v) => v@, None => ""@ }));
        }
        let m1 = (if s_lo >= 1 { s_lo } else { 1 }) as usize;
        let size_min = if m1 >= 1 { m1 } else { 1 };
        let m2 = (if s_hi >= size_min as u64 { s_hi } else { size_min as u64 }) as usize;
        let size_max = if m2 >= 1 { m2 } else { 1 };
        FragmentConfig {
            enabled: true,
            size_min,
            size_max,
            delay_min_ms: d_lo,
            delay_max_ms: if d_hi >= d_lo { d_hi } else { d_lo },
        }
    }

    /// The fragmentation a connection uses: full random mode when its
    /// settings ask for it, else the legacy split when that switch is on,
    /// else none.
    pub fn resolve(fragment: Option<&str>, size: Option<&str>, delay: Option<&str>, legacy: Option<&str>) -> (c: FragmentConfig)
        ensures
            spec_fragment_config(opt_view(fragment), opt_view(size), opt_view(delay)).enabled ==> c
                == spec_fragment_config(opt_view(fragment), opt_view(size), opt_view(delay)),
            !spec_fragment_config(opt_view(fragment), opt_view(size), opt_view(delay)).enabled ==> c == (
            if spec_legacy_switch(opt_view(legacy)) {
                FragmentConfig { enabled: true, size_min: 0, size_max: 0, delay_min_ms: 0, delay_max_ms: 0 }
            } else {
                FragmentConfig { enabled: false, size_min: 0, size_max: 0, delay_min_ms: 0, delay_max_ms: 0 }
            }),
    {
        let cfg = FragmentConfig::from_settings(fragment, size, delay);
        if cfg.enabled {
            return cfg;
        }
        let on = match legacy {
            Some(v) => {
                let t = trimmed(v);
                let l = crate::text::lower_range(&t, 0, t.len());
                proof {
                    assert(t@.subrange(0, t@.len() as int) =~= t@);
                }
                eq_str(&t, "1") || eq_str(&l, "on") || eq_str(&l, "true")
            },
            None => false,
        };
        if on { FragmentConfig::legacy_on() } else { FragmentConfig::disabled() }
    }

    /// The length of the next chunk of a first write with `remaining` bytes
    /// left: a third of it in legacy mode (at least 90, at most all but one
    /// byte, at least one), else a draw from the size range clipped to what
    /// is left.
    pub fn pick_chunk_len(&self, remaining: usize) -> (n: usize)
        ensures
            chunk_len_ok(*self, remaining, n),
    {
        if self.size_max == 0 {
            let third = remaining / 3;
            let a = if third >= 90 { third } else { 90 };
            let cap = if remaining >= 1 { remaining - 1 } else { 0 };
            let b = if a <= cap { a } else { cap };
            return if b >= 1 { b } else { 1 };
        }
        let hi = if self.size_max <= remaining { self.size_max } else { remaining };
        let lo = if self.size_min <= hi { self.size_min } else { hi };
        if lo >= hi {
            hi
        } else {
            crate::rng::random_between(lo, hi)
        }
    }

    /// The pause after a chunk, in ms: none when no delay is set, the
    /// minimum when the range is empty, else a draw from it.
    pub fn pick_delay(&self) -> (ms: u64)
        ensures
            self.delay_max_ms == 0 ==> ms == 0,
            self.delay_max_ms > 0 && self.delay_max_ms <= self.delay_min_ms ==> ms == self.delay_min_ms,
            self.delay_max_ms > 0 && self.delay_max_ms > self.delay_min_ms ==> self.delay_min_ms <= ms
                <= self.delay_max_ms,
    {
        if self.delay_max_ms == 0 {
            return 0;
        }
        if self.delay_max_ms <= self.delay_min_ms {
            self.delay_min_ms
        } else {
            crate::rng::random_between_u64(self.delay_min_ms, self.delay_max_ms)
        }
    }
}

/// The legacy chunk of a write with `remaining` bytes: a third of it, at
/// least 90, at most all but one byte, and at least one.
pub open spec fn legacy_chunk(remaining: usize) -> int {
    let a: int = if remaining / 3 >= 90 { (remaining / 3) as int } else { 90 };
    let cap: int = if remaining >= 1 { remaining - 1 } else { 0int };
    let b: int = if a <= cap { a } else { cap };
    if b >= 1 { b } else { 1 }
}

/// Whether `n` is a chunk length `c` may pick with `remaining` bytes left:
/// exactly the legacy chunk in legacy mode, else a length within the size
/// range clipped to what is left (its top when the range is empty).
pub open spec fn chunk_len_ok(c: FragmentConfig, remaining: usize, n: usize) -> bool {
    if c.size_max == 0 {
        n == legacy_chunk(remaining)
    } else {
        let hi: int = if c.size_max <= remaining { c.size_max as int } else { remaining as int };
        let lo: int = if c.size_min <= hi { c.size_min as int } else { hi };
        &&& lo <= n <= hi
        &&& lo >= hi ==> n == hi
    }
}

/// What the first-write splitter does with one write of `len` bytes.
#[derive(Debug, Clone, Copy, PartialEq, Eq, Structural)]
pub enum FragStep {
    /// Forward the write whole; the splitter is done from now on.
    Pass,
    /// Send the first `len` bytes; `last` when what is left after them no
    /// longer makes a chunk, which ends the splitting.
    Chunk { len: usize, last: bool },
}

impl FragmentConfig {
    /// One step of the splitter: writes after the first, writes when
    /// fragmentation is off and writes under 16 bytes pass through; others
    /// give up one chunk.
    pub fn first_write_step(&self, done: bool, len: usize) -> (step: FragStep)
        ensures
            (done || !self.enabled || len < 16) <==> step is Pass,
            step matches FragStep::Chunk { len: n, last } ==> n <= len && chunk_len_ok(*self, len, n)
                && last == (len - n < (if self.size_min >= 1 { self.size_min as int } else { 1 })),
    {
        if done || !self.enabled || len < 16 {
            return FragStep::Pass;
        }
        let n = self.pick_chunk_len(len);
        let floor = if self.size_min >= 1 { self.size_min } else { 1 };
        FragStep::Chunk { len: n, last: len - n < floor }
    }
}

/// The peer of the HTTP/2 transport: the `AETHER_MASQUE_H2_PEER` override
/// when it is a socket address (surrounding blanks ignored), else the QUIC
/// peer.
pub fn h2_peer(setting: Option<&str>, quic_peer: crate::ip::SockAddr) -> (p: crate::ip::SockAddr)
    ensures
        p == (match opt_view(setting) {
            Some(v) => match crate::ip::spec_parse_socket_addr(trim(v)) {
                Some(a) => a,
                None => quic_peer,
            },
            None => quic_peer,
        }),
{
    match setting {
        Some(v) => {
            let t = crate::text::string_of(&trimmed(v));
            match crate::ip::parse_socket_addr(t.as_str()) {
                Some(a) => a,
                None => quic_peer,
            }
        },
        None => quic_peer,
    }
}

/// The SNI of the TLS ClientHello: the `AETHER_MASQUE_SNI` front when set
/// and not blank (trimmed), else the configured MASQUE SNI.
pub fn handshake_sni(setting: Option<&str>, default_sni: &str) -> (s: String)
    ensures
        s@ == (match crate::settings::spec_nonblank(opt_view(setting)) {
            Some(v) => v,
            None => default_sni@,
        }),
{
    match crate::settings::nonblank(setting) {
        Some(v) => v,
        None => crate::text::owned(default_sni),
    }
}

/// The flow-control windows in bytes, `(stream, connection)`: the
/// `AETHER_H2_WINDOW_MB` setting (default 4) kept within 1 to 32 MiB for the
/// stream, twice that for the connection.
pub open spec fn spec_h2_windows(setting: Option<Seq<char>>) -> (u32, u32) {
    let mb = match setting {
        Some(v) => match parse_unsigned(trim(v), u32::MAX as nat) {
            Some(n) => n,
            None => 4,
        },
        None => 4,
    };
    let c = if mb < 1 { 1 } else if mb > 32 { 32 } else { mb };
    ((c * 1048576) as u32, (c * 2097152) as u32)
}

pub fn h2_windows(setting: Option<&str>) -> (w: (u32, u32))
    ensures
        w == spec_h2_windows(opt_view(setting)),
{
    let mb: u64 = match setting {
        Some(v) => {
            let t = trimmed(v);
            match parse_unsigned_chars(&t, u32::MAX as u64) {
                Some(n) => n,
                None => 4,
            }
        },
        None => 4,
    };
    let c: u32 = if mb < 1 { 1 } else if mb > 32 { 32 } else { mb as u32 };
    let stream = c * 1048576;
    (stream, stream * 2)
}

/// The CONNECT-IP request of the HTTP/2 transport, as plain values: the
/// target URI and the headers, in order.
pub struct H2Connect {
    pub uri: String,
    pub headers: Vec<(String, String)>,
}

/// The headers of the request, with an `x-pad` of `pad` characters `x`
/// that varies the frame size from one session to the next.
pub open spec fn connect_headers(pad: nat) -> Seq<(Seq<char>, Seq<char>)> {
    seq![
        ("cf-connect-proto"@, crate::masque::CF_CONNECT_PROTOCOL@),
        ("pq-enabled"@, "false"@),
        ("user-agent"@, seq![]),
        ("x-pad"@, Seq::new(pad, |i: int| 'x')),
    ]
}

pub open spec fn header_views(h: Seq<(String, String)>) -> Seq<(Seq<char>, Seq<char>)> {
    h.map_values(|p: (String, String)| (p.0@, p.1@))
}

/// Builds the CONNECT-IP request for `authority` on port 443, with a padding
/// header of a random length between 16 and 96.
pub fn build_connect_request(authority: &str) -> (r: H2Connect)
    ensures
        r.uri@ == "https://"@ + authority@ + ":443"@,
        exists|pad: nat| 16 <= pad <= 96 && header_views(r.headers@) == connect_headers(pad),
{
    let pad_len = crate::rng::random_between(16, 96);
    let mut padding = String::new();
    let mut i: usize = 0;
    while i < pad_len
        invariant
            i <= pad_len,
            padding@ == Seq::new(i as nat, |k: int| 'x'),
        decreases pad_len - i,
    {
        crate::text::push_char(&mut padding, 'x');
        assert(padding@ =~= Seq::new((i + 1) as nat, |k: int| 'x'));
        i += 1;
    }
    let mut uri = crate::text::owned("https://");
    uri.append(authority);
    uri.append(":443");
    let mut headers: Vec<(String, String)> = Vec::new();
    headers.push((crate::text::owned("cf-connect-proto"), crate::text::owned(crate::masque::CF_CONNECT_PROTOCOL)));
    headers.push((crate::text::owned("pq-enabled"), crate::text::owned("false")));
    headers.push((crate::text::owned("user-agent"), String::new()));
    headers.push((crate::text::owned("x-pad"), padding));
    assert(header_views(headers@) =~= connect_headers(pad_len as nat));
    H2Connect { uri, headers }
}

/// A CONNECT-IP answer other than 2xx ends the attempt.
pub fn connect_status(code: u16) -> (r: crate::error::Result<()>)
    ensures
        200 <= code <= 299 ==> r is Ok,
        !(200 <= code <= 299) ==> (r matches Err(crate::error::AetherError::Masque(m))
            && m@ == "h2 connect-ip status "@ + crate::text::decimal(code as nat)),
{
    if 200 <= code && code <= 299 {
        Ok(())
    } else {
        let n = crate::text::decimal_string(code as u64);
        Err(crate::error::AetherError::Masque(crate::text::join2("h2 connect-ip status ", n.as_str())))
    }
}

/// The size DATA frames are filled up to when packets are coalesced.
pub const FRAME_TARGET: usize = 32768;

/// Greedy coalescing of capsules into frames: the frames finished so far
/// and the one being filled. A capsule that would push a non-empty frame
/// past the target starts a new one.
pub open spec fn batch_fold(caps: Seq<Seq<u8>>) -> (Seq<Seq<u8>>, Seq<u8>)
    decreases caps.len(),
{
    if caps.len() == 0 {
        (seq![], seq![])
    } else {
        let (done, buf) = batch_fold(caps.drop_last());
        let c = caps.last();
        if buf.len() > 0 && buf.len() + c.len() > FRAME_TARGET {
            (done.push(buf), c)
        } else {
            (done, buf + c)
        }
    }
}

pub open spec fn capsules_of(packets: Seq<Seq<u8>>) -> Seq<Seq<u8>> {
    packets.map_values(|p: Seq<u8>| crate::masque::spec_encode_capsule(crate::masque::CAPSULE_DATAGRAM, p))
}

/// The frames a batch of IP packets goes out in: each packet as a DATAGRAM
/// capsule, coalesced greedily up to the target size.
pub open spec fn spec_frames(packets: Seq<Seq<u8>>) -> Seq<Seq<u8>> {
    let (done, buf) = batch_fold(capsules_of(packets));
    if buf.len() > 0 { done.push(buf) } else { done }
}

pub open spec fn bytes_views(v: Seq<Vec<u8>>) -> Seq<Seq<u8>> {
    v.map_values(|x: Vec<u8>| x@)
}

/// The frames one batch of outbound packets is sent in.
pub fn frame_batch(packets: &[Vec<u8>]) -> (frames: Vec<Vec<u8>>)
    requires
        forall|i: int| 0 <= i < packets@.len() ==> (#[trigger] packets@[i])@.len() <= crate::varint::VARINT_MAX,
    ensures
        bytes_views(frames@) == spec_frames(bytes_views(packets@)),
{
    let ghost ps = bytes_views(packets@);
    let ghost caps = capsules_of(ps);
    let mut frames: Vec<Vec<u8>> = Vec::new();
    let mut buf: Vec<u8> = Vec::new();
    let mut i: usize = 0;
    while i < packets.len()
        invariant
            i <= packets@.len(),
            ps == bytes_views(packets@),
            caps == capsules_of(ps),
            forall|k: int| 0 <= k < packets@.len() ==> (#[trigger] packets@[k])@.len() <= crate::varint::VARINT_MAX,
            (bytes_views(frames@), buf@) == batch_fold(caps.take(i as int)),
        decreases packets@.len() - i,
    {
        let framed = crate::masque::encode_datagram_capsule(packets[i].as_slice());
        proof {
            assert(caps.take(i + 1).drop_last() =~= caps.take(i as int));
            assert(caps.take(i + 1).last() == framed@);
        }
        if buf.len() > 0 && (buf.len() > FRAME_TARGET || framed.len() > FRAME_TARGET - buf.len()) {
            let full = buf;
            let ghost before = bytes_views(frames@);
            frames.push(full);
            assert(bytes_views(frames@) =~= before.push(full@));
            buf = framed;
        } else {
            crate::bytes::extend(&mut buf, framed.as_slice());
        }
        i += 1;
    }
    assert(caps.take(caps.len() as int) =~= caps);
    if buf.len() > 0 {
        let ghost before = bytes_views(frames@);
        frames.push(buf);
        assert(bytes_views(frames@) =~= before.push(buf@));
    }
    frames
}

/// What the sender's idle tick does: nothing has come in for 90 seconds,
/// so the edge is gone; or nothing went out for 25, so a small probe keeps
/// a half-open link from lingering; or nothing.
#[derive(Debug, Clone, Copy, PartialEq, Eq, Structural)]
pub enum IdleAction {
    Stall,
    Keepalive,
    Quiet,
}

pub const STALL_AFTER_MS: u64 = 90000;
pub const KEEPALIVE_AFTER_MS: u64 = 25000;
pub const H2_STALL: &'static str = "h2 stall: no data from edge for 90s";

pub fn idle_action(since_recv_ms: u64, since_send_ms: u64) -> (a: IdleAction)
    ensures
        a == (if since_recv_ms > STALL_AFTER_MS {
            IdleAction::Stall
        } else if since_send_ms > KEEPALIVE_AFTER_MS {
            IdleAction::Keepalive
        } else {
            IdleAction::Quiet
        }),
{
    if since_recv_ms > STALL_AFTER_MS {
        IdleAction::Stall
    } else if since_send_ms > KEEPALIVE_AFTER_MS {
        IdleAction::Keepalive
    } else {
        IdleAction::Quiet
    }
}

/// The source a data-plane probe uses after an ADDRESS_ASSIGN: the last
/// well-formed IPv4 address the edge assigned, and whether it changed (a
/// change sends the next probe at once).
pub open spec fn adopt_fold(addrs: Seq<(u8, Seq<u8>, u8)>, src: Seq<u8>) -> (Seq<u8>, bool)
    decreases addrs.len(),
{
    if addrs.len() == 0 {
        (src, false)
    } else {
        let (s, changed) = adopt_fold(addrs.drop_last(), src);
        let a = addrs.last();
        if a.0 == 4 && a.1.len() == 4 && a.1 != s { (a.1, true) } else { (s, changed) }
    }
}

pub fn adopt_assigned(addrs: &[crate::masque::AssignedAddress], src: [u8; 4]) -> (r: ([u8; 4], bool))
    ensures
        (r.0@, r.1) == adopt_fold(addrs@.map_values(|a: crate::masque::AssignedAddress| a@), src@),
{
    let ghost av = addrs@.map_values(|a: crate::masque::AssignedAddress| a@);
    let mut cur = src;
    let mut changed = false;
    let mut i: usize = 0;
    while i < addrs.len()
        invariant
            i <= addrs@.len(),
            av == addrs@.map_values(|a: crate::masque::AssignedAddress| a@),
            (cur@, changed) == adopt_fold(av.take(i as int), src@),
        decreases addrs@.len() - i,
    {
        let a = &addrs[i];
        proof {
            assert(av.take(i + 1).drop_last() =~= av.take(i as int));
            assert(av.take(i + 1).last() == a@);
        }
        if a.ip_version == 4 && a.address.len() == 4 {
            let n = [a.address[0], a.address[1], a.address[2], a.address[3]];
            assert(n@ =~= a.address@);
            if n[0] != cur[0] || n[1] != cur[1] || n[2] != cur[2] || n[3] != cur[3] {
                cur = n;
                changed = true;
            } else {
                assert(n@ =~= cur@);
            }
            proof {
                if n@ != cur@ {
                    assert(n[0] != cur[0] || n[1] != cur[1] || n[2] != cur[2] || n[3] != cur[3]);
                }
            }
        }
        proof {
            if a.ip_version == 4 && a.address@.len() == 4 {
                if a.address@ != adopt_fold(av.take(i as int), src@).0 {
                    assert(cur@ =~= a.address@);
                }
            }
        }
        i += 1;
    }
    assert(av.take(av.len() as int) =~= av);
    (cur, changed)
}

/// The bytes of a run of buffers, one after another.
pub open spec fn flat(s: Seq<Seq<u8>>) -> Seq<u8>
    decreases s.len(),
{
    if s.len() == 0 { seq![] } else { flat(s.drop_last()) + s.last() }
}

proof fn lemma_batch_fold_flat(caps: Seq<Seq<u8>>)
    ensures
        flat(batch_fold(caps).0) + batch_fold(caps).1 == flat(caps),
    decreases caps.len(),
{
    if caps.len() == 0 {
        assert(flat(Seq::<Seq<u8>>::empty()) + Seq::<u8>::empty() =~= Seq::<u8>::empty());
    } else {
        let prev = caps.drop_last();
        lemma_batch_fold_flat(prev);
        let (d, b) = batch_fold(prev);
        let c = caps.last();
        if b.len() > 0 && b.len() + c.len() > FRAME_TARGET {
            assert(d.push(b).drop_last() =~= d);
            assert(flat(d.push(b)) + c =~= flat(d) + b + c);
        } else {
            assert(flat(d) + (b + c) =~= flat(d) + b + c);
        }
    }
}

/// Coalescing loses, adds and reorders nothing: the frames of a batch,
/// one after another, are exactly its packets' capsules one after another.
pub proof fn lemma_frames_carry_every_capsule(packets: Seq<Seq<u8>>)
    ensures
        flat(spec_frames(packets)) == flat(capsules_of(packets)),
{
    let caps = capsules_of(packets);
    lemma_batch_fold_flat(caps);
    let (d, b) = batch_fold(caps);
    if b.len() > 0 {
        assert(d.push(b).drop_last() =~= d);
    } else {
        assert(flat(d) + b =~= flat(d));
    }
}

} // verus!
