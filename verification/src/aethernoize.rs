//! Junk-and-signature profiles for the WireGuard handshake.
use vstd::prelude::*;

use crate::obfuscation::{aethernoize_from_name, spec_aethernoize_from_name};
use crate::text::opt_string_view;

verus! {

/// Gap between intro packets of each enabled profile, in ms.
pub const JUNK_INTERVAL_LIGHT_MS: u64 = 8;
pub const JUNK_INTERVAL_BALANCED_MS: u64 = 12;
pub const JUNK_INTERVAL_AGGRESSIVE_MS: u64 = 16;

/// What the WireGuard obfuscator sends around the handshake: up to five
/// signature templates, junk packet counts and size range, the gap between
/// intro packets and a delay before the handshake (both in ms).
#[derive(Debug, Clone)]
pub struct AetherNoizeConfig {
    pub i1: Option<String>,
    pub i2: Option<String>,
    pub i3: Option<String>,
    pub i4: Option<String>,
    pub i5: Option<String>,
    pub jc: usize,
    pub jc_before_hs: usize,
    pub jc_after_i1: usize,
    pub jc_after_hs: usize,
    pub jmin: usize,
    pub jmax: usize,
    pub junk_interval_ms: u64,
    pub handshake_delay_ms: u64,
    pub allow_zero_size: bool,
}

/// An `AetherNoizeConfig` with its templates taken by their characters.
pub struct AetherNoizeShape {
    pub i1: Option<Seq<char>>,
    pub i2: Option<Seq<char>>,
    pub i3: Option<Seq<char>>,
    pub i4: Option<Seq<char>>,
    pub i5: Option<Seq<char>>,
    pub jc: usize,
    pub jc_before_hs: usize,
    pub jc_after_i1: usize,
    pub jc_after_hs: usize,
    pub jmin: usize,
    pub jmax: usize,
    pub junk_interval_ms: u64,
    pub handshake_delay_ms: u64,
    pub allow_zero_size: bool,
}

impl View for AetherNoizeConfig {
    type V = AetherNoizeShape;

    open spec fn view(&self) -> AetherNoizeShape {
        AetherNoizeShape {
            i1: opt_string_view(self.i1),
            i2: opt_string_view(self.i2),
            i3: opt_string_view(self.i3),
            i4: opt_string_view(self.i4),
            i5: opt_string_view(self.i5),
            jc: self.jc,
            jc_before_hs: self.jc_before_hs,
            jc_after_i1: self.jc_after_i1,
            jc_after_hs: self.jc_after_hs,
            jmin: self.jmin,
            jmax: self.jmax,
            junk_interval_ms: self.junk_interval_ms,
            handshake_delay_ms: self.handshake_delay_ms,
            allow_zero_size: self.allow_zero_size,
        }
    }
}

/// The enabled profiles share their junk counts and sizes and differ in
/// signatures and pacing.
pub open spec fn enabled_shape(
    i1: Seq<char>,
    i2: Seq<char>,
    i3: Option<Seq<char>>,
    i4: Option<Seq<char>>,
    i5: Option<Seq<char>>,
    interval: u64,
) -> AetherNoizeShape {
    AetherNoizeShape {
        i1: Some(i1),
        i2: Some(i2),
        i3,
        i4,
        i5,
        jc: 5,
        jc_before_hs: 5,
        jc_after_i1: 0,
        jc_after_hs: 0,
        jmin: 50,
        jmax: 128,
        junk_interval_ms: interval,
        handshake_delay_ms: 0,
        allow_zero_size: false,
    }
}

pub open spec fn spec_aether_off() -> AetherNoizeShape {
    AetherNoizeShape {
        i1: None,
        i2: None,
        i3: None,
        i4: None,
        i5: None,
        jc: 0,
        jc_before_hs: 0,
        jc_after_i1: 0,
        jc_after_hs: 0,
        jmin: 0,
        jmax: 0,
        junk_interval_ms: 0,
        handshake_delay_ms: 0,
        allow_zero_size: false,
    }
}

pub open spec fn spec_aether_light() -> AetherNoizeShape {
    enabled_shape("<b 0d0a0d0a><t><r 20-32>"@, "<rc 24-48>"@, None, None, None, JUNK_INTERVAL_LIGHT_MS)
}

pub open spec fn spec_aether_balanced() -> AetherNoizeShape {
    enabled_shape(
        "<b 0d0a0d0a><t><rc 20-40>"@,
        "<b 504f5354><rd 10-20><rc 20-30>"@,
        Some("<r 30-50>"@),
        None,
        None,
        JUNK_INTERVAL_BALANCED_MS,
    )
}

pub open spec fn spec_aether_aggressive() -> AetherNoizeShape {
    enabled_shape(
        "<b 0d0a0d0a><t><rc 40-64>"@,
        "<b 504f5354><t><rd 15-30><rc 30-50>"@,
        Some("<b 474554><rc 40-60>"@),
        Some("<r 60-100>"@),
        Some("<c><rd 20-40>"@),
        JUNK_INTERVAL_AGGRESSIVE_MS,
    )
}

pub open spec fn spec_aether_enabled(c: AetherNoizeShape) -> bool {
    c.jc > 0 || c.i1 is Some
}

impl AetherNoizeConfig {
    pub fn off() -> (c: AetherNoizeConfig)
        ensures
            c@ == spec_aether_off(),
    {
        AetherNoizeConfig {
            i1: None,
            i2: None,
            i3: None,
            i4: None,
            i5: None,
            jc: 0,
            jc_before_hs: 0,
            jc_after_i1: 0,
            jc_after_hs: 0,
            jmin: 0,
            jmax: 0,
            junk_interval_ms: 0,
            handshake_delay_ms: 0,
            allow_zero_size: false,
        }
    }

    pub fn light() -> (c: AetherNoizeConfig)
        ensures
            c@ == spec_aether_light(),
    {
        AetherNoizeConfig {
            i1: Some("<b 0d0a0d0a><t><r 20-32>".to_owned()),
            i2: Some("<rc 24-48>".to_owned()),
            i3: None,
            i4: None,
            i5: None,
            jc: 5,
            jc_before_hs: 5,
            jc_after_i1: 0,
            jc_after_hs: 0,
            jmin: 50,
            jmax: 128,
            junk_interval_ms: JUNK_INTERVAL_LIGHT_MS,
            handshake_delay_ms: 0,
            allow_zero_size: false,
        }
    }

    pub fn balanced() -> (c: AetherNoizeConfig)
        ensures
            c@ == spec_aether_balanced(),
    {
        AetherNoizeConfig {
            i1: Some("<b 0d0a0d0a><t><rc 20-40>".to_owned()),
            i2: Some("<b 504f5354><rd 10-20><rc 20-30>".to_owned()),
            i3: Some("<r 30-50>".to_owned()),
            i4: None,
            i5: None,
            jc: 5,
            jc_before_hs: 5,
            jc_after_i1: 0,
            jc_after_hs: 0,
            jmin: 50,
            jmax: 128,
            junk_interval_ms: JUNK_INTERVAL_BALANCED_MS,
            handshake_delay_ms: 0,
            allow_zero_size: false,
        }
    }

    pub fn aggressive() -> (c: AetherNoizeConfig)
        ensures
            c@ == spec_aether_aggressive(),
    {
        AetherNoizeConfig {
            i1: Some("<b 0d0a0d0a><t><rc 40-64>".to_owned()),
            i2: Some("<b 504f5354><t><rd 15-30><rc 30-50>".to_owned()),
            i3: Some("<b 474554><rc 40-60>".to_owned()),
            i4: Some("<r 60-100>".to_owned()),
            i5: Some("<c><rd 20-40>".to_owned()),
            jc: 5,
            jc_before_hs: 5,
            jc_after_i1: 0,
            jc_after_hs: 0,
            jmin: 50,
            jmax: 128,
            junk_interval_ms: JUNK_INTERVAL_AGGRESSIVE_MS,
            handshake_delay_ms: 0,
            allow_zero_size: false,
        }
    }

    pub fn is_enabled(&self) -> (b: bool)
        ensures
            b == spec_aether_enabled(self@),
    {
        self.jc > 0 || self.i1.is_some()
    }
}

/// The WireGuard profile for a name, through the shared vocabulary.
pub fn from_profile(name: &str) -> (c: AetherNoizeConfig)
    ensures
        c@ == spec_aethernoize_from_name(name@),
{
    aethernoize_from_name(name)
}

/// Every enabled WireGuard profile spaces its intro packets; `off` does not.
pub proof fn lemma_enabled_profiles_are_paced()
    ensures
        spec_aether_enabled(spec_aether_light()) && spec_aether_light().junk_interval_ms > 0,
        spec_aether_enabled(spec_aether_balanced()) && spec_aether_balanced().junk_interval_ms > 0,
        spec_aether_enabled(spec_aether_aggressive()) && spec_aether_aggressive().junk_interval_ms
            > 0,
        !spec_aether_enabled(spec_aether_off()) && spec_aether_off().junk_interval_ms == 0,
{
}

/// The size range one junk packet is drawn from, or `None` when the packet
/// is fixed: empty if zero sizes are allowed and no range is set, else a
/// single zero byte.
pub open spec fn spec_junk_bounds(c: AetherNoizeShape) -> Option<(usize, usize)> {
    let min = c.jmin;
    let max = c.jmax;
    if min == 0 && max == 0 {
        None
    } else if !c.allow_zero_size {
        let lo: usize = if min >= 1 { min } else { 1 };
        if max == 0 {
            Some((lo, lo))
        } else {
            Some((lo, if max >= min { max } else { min }))
        }
    } else {
        Some((min, if max >= min { max } else { min }))
    }
}

pub fn junk_bounds(cfg: &AetherNoizeConfig) -> (r: Option<(usize, usize)>)
    ensures
        r == spec_junk_bounds(cfg@),
        r matches Some((lo, hi)) ==> lo <= hi,
{
    let min = cfg.jmin;
    let max = cfg.jmax;
    if min == 0 && max == 0 {
        None
    } else if !cfg.allow_zero_size {
        let lo: usize = if min >= 1 { min } else { 1 };
        if max == 0 {
            Some((lo, lo))
        } else {
            Some((lo, if max >= min { max } else { min }))
        }
    } else {
        Some((min, if max >= min { max } else { min }))
    }
}


/// Whether `junk` is a junk packet the profile allows: inside its size
/// range, or the fixed packet when it sets none (empty if zero sizes are
/// allowed, else one zero byte).
pub open spec fn junk_fits(c: AetherNoizeShape, junk: Seq<u8>) -> bool {
    match spec_junk_bounds(c) {
        None => junk == (if c.allow_zero_size { Seq::<u8>::empty() } else { seq![0u8] }),
        Some((lo, hi)) => lo <= junk.len() <= hi,
    }
}

/// One junk packet of random bytes, its size drawn from the profile's range.
pub fn generate_junk(cfg: &AetherNoizeConfig) -> (junk: Vec<u8>)
    ensures
        junk_fits(cfg@, junk@),
{
    match junk_bounds(cfg) {
        None => {
            if cfg.allow_zero_size {
                Vec::new()
            } else {
                let mut v: Vec<u8> = Vec::new();
                v.push(0u8);
                assert(v@ =~= seq![0u8]);
                v
            }
        },
        Some((lo, hi)) => {
            let size = if lo == hi { lo } else { crate::rng::random_between(lo, hi) };
            if size == 0 {
                // A zero lower bound only comes with `allow_zero_size`.
                Vec::new()
            } else {
                crate::rng::random_bytes(size)
            }
        },
    }
}

/// The fixed part of the IKEv2 SA payload that follows the header: one
/// proposal with a single transform.
pub open spec fn ikev2_sa_body() -> Seq<u8> {
    seq![
        0x00u8, 0x00, 0x00, 0x14, 0x01, 0x01, 0x00, 0x04, 0x03, 0x00, 0x00, 0x08, 0x01, 0x00,
        0x00, 0x0c, 0x00, 0x00, 0x00, 0x00,
    ]
}

/// What `wrap_ikev2` sends for a non-empty payload: an IKE_SA_INIT header
/// (the payload's first eight bytes as initiator SPI when it has them, random
/// otherwise; a random responder SPI; next payload SA, version 2.0, exchange
/// 34, flags 0x08, message id 0, total length), the SA payload header and body,
/// then the payload.
pub open spec fn ikev2_frame(payload: Seq<u8>, out: Seq<u8>) -> bool {
    let n = payload.len();
    &&& out.len() == 52 + n
    &&& n >= 8 ==> out.take(8) == payload.take(8)
    &&& out.subrange(16, 24) == seq![0x21u8, 0x20, 0x22, 0x08, 0x00, 0x00, 0x00, 0x00]
    &&& out.subrange(24, 28) == crate::bytes::be32((52 + n) as u32)
    &&& out.subrange(28, 32) == seq![0x00u8, 0x00] + crate::bytes::be16((24 + n) as u16)
    &&& out.subrange(32, 52) == ikev2_sa_body()
    &&& out.skip(52) == payload
}

/// Frames a signature payload as an IKEv2 IKE_SA_INIT message so the first
/// packet on the wire reads as IPsec key exchange; an empty payload stays
/// empty.
pub fn wrap_ikev2(payload: &[u8]) -> (out: Vec<u8>)
    requires
        payload@.len() + 24 <= u16::MAX,
    ensures
        payload@.len() == 0 ==> out@.len() == 0,
        payload@.len() > 0 ==> ikev2_frame(payload@, out@),
{
    if payload.len() == 0 {
        return Vec::new();
    }
    let mut out: Vec<u8> = if payload.len() >= 8 {
        crate::bytes::copy_range(payload, 0, 8)
    } else {
        crate::rng::random_bytes(8)
    };
    let responder = crate::rng::random_bytes(8);
    crate::bytes::extend(&mut out, &responder);
    let ghost spis = out@;
    out.push(0x21);
    out.push(0x20);
    out.push(0x22);
    out.push(0x08);
    out.push(0x00);
    out.push(0x00);
    out.push(0x00);
    out.push(0x00);
    let ghost hdr = out@;
    let total: u32 = 52 + payload.len() as u32;
    crate::bytes::push_be32(&mut out, total);
    let ghost with_len = out@;
    out.push(0x00);
    out.push(0x00);
    crate::bytes::push_be16(&mut out, 24 + payload.len() as u16);
    let ghost sa_hdr = out@;
    let body: [u8; 20] = [
        0x00, 0x00, 0x00, 0x14, 0x01, 0x01, 0x00, 0x04, 0x03, 0x00, 0x00, 0x08, 0x01, 0x00,
        0x00, 0x0c, 0x00, 0x00, 0x00, 0x00,
    ];
    crate::bytes::extend(&mut out, &body);
    let ghost with_body = out@;
    crate::bytes::extend(&mut out, payload);
    proof {
        assert(body@ =~= ikev2_sa_body());
        assert(spis.len() == 16);
        assert(out@.subrange(16, 24) =~= hdr.subrange(16, 24));
        assert(hdr.subrange(16, 24) =~= seq![0x21u8, 0x20, 0x22, 0x08, 0x00, 0x00, 0x00, 0x00]);
        assert(out@.subrange(24, 28) =~= with_len.subrange(24, 28));
        assert(with_len.subrange(24, 28) =~= crate::bytes::be32(total));
        assert(out@.subrange(28, 32) =~= sa_hdr.subrange(28, 32));
        assert(sa_hdr.subrange(28, 32) =~= seq![0x00u8, 0x00] + crate::bytes::be16((24 + payload@.len()) as u16));
        assert(out@.subrange(32, 52) =~= with_body.subrange(32, 52));
        assert(out@.skip(52) =~= payload@);
        if payload@.len() >= 8 {
            assert(out@.take(8) =~= spis.take(8));
            assert(spis.take(8) =~= payload@.take(8));
        }
        let n = payload@.len();
        assert(out@.len() == 52 + n);
        assert(out@.subrange(24, 28) == crate::bytes::be32((52 + n) as u32));
        assert(out@.subrange(28, 32) == seq![0x00u8, 0x00] + crate::bytes::be16((24 + n) as u16));
        assert(out@.subrange(32, 52) == ikev2_sa_body());
    }
    out
}

/// The pause after a junk packet: the profile's interval plus 0 to 4 ms of
/// random noise, or none when the interval is zero.
pub fn jitter_from_cfg(cfg: &AetherNoizeConfig) -> (ms: u64)
    requires
        cfg.junk_interval_ms <= u64::MAX - 4,
    ensures
        cfg.junk_interval_ms == 0 ==> ms == 0,
        cfg.junk_interval_ms > 0 ==> cfg.junk_interval_ms <= ms <= cfg.junk_interval_ms + 4,
{
    if cfg.junk_interval_ms == 0 {
        return 0;
    }
    cfg.junk_interval_ms + crate::rng::random_between_u64(0, 4)
}

/// How many decoys one keepalive sends: a base of the pre-handshake junk
/// count (at least two) plus up to twice that again.
pub fn keepalive_decoy_count(cfg: &AetherNoizeConfig) -> (n: usize)
    requires
        cfg.jc_before_hs <= usize::MAX / 3,
    ensures
        ({
            let base: int = if cfg.jc_before_hs >= 2 { cfg.jc_before_hs as int } else { 2 };
            base <= n <= 3 * base
        }),
{
    let base = if cfg.jc_before_hs >= 2 { cfg.jc_before_hs } else { 2 };
    base + crate::rng::random_between(0, base * 2)
}

/// A data-phase decoy: a junk packet whose first byte is moved off the
/// WireGuard message types 1 to 4 (by adding 0x40), so it never reads as one.
pub fn keepalive_decoy(cfg: &AetherNoizeConfig) -> (junk: Vec<u8>)
    ensures
        junk@.len() > 0 ==> !(1 <= junk@[0] <= 4),
        exists|raw: Seq<u8>| #![trigger junk_fits(cfg@, raw)]
            junk_fits(cfg@, raw) && raw.len() == junk@.len() && raw.skip(1) == junk@.skip(1)
                && (raw.len() > 0 ==> junk@[0] == (if 1 <= raw[0] <= 4 { (raw[0] + 0x40) as u8 } else { raw[0] })),
{
    let mut junk = generate_junk(cfg);
    let ghost raw = junk@;
    if junk.len() > 0 && junk[0] >= 1 && junk[0] <= 4 {
        let first = junk[0] + 0x40;
        junk.set(0, first);
    }
    assert(raw.skip(1) =~= junk@.skip(1));
    assert(junk_fits(cfg@, raw));
    junk
}

} // verus!
