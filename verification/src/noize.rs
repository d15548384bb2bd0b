//! Junk-and-signature profiles for the MASQUE QUIC handshake.
use vstd::prelude::*;

use crate::text::opt_string_view;

verus! {

/// What the MASQUE obfuscator sends ahead of the QUIC handshake: junk
/// packets before the handshake and after the first signature, their size
/// range, two signature templates, and the gap between packets in ms.
#[derive(Debug, Clone)]
pub struct NoizeConfig {
    pub jc_before_hs: usize,
    pub jc_after_i1: usize,
    pub jmin: usize,
    pub jmax: usize,
    pub i1: Option<String>,
    pub i2: Option<String>,
    pub junk_interval_ms: u64,
}

/// A `NoizeConfig` with its templates taken by their characters.
pub struct NoizeShape {
    pub jc_before_hs: usize,
    pub jc_after_i1: usize,
    pub jmin: usize,
    pub jmax: usize,
    pub i1: Option<Seq<char>>,
    pub i2: Option<Seq<char>>,
    pub junk_interval_ms: u64,
}

impl View for NoizeConfig {
    type V = NoizeShape;

    open spec fn view(&self) -> NoizeShape {
        NoizeShape {
            jc_before_hs: self.jc_before_hs,
            jc_after_i1: self.jc_after_i1,
            jmin: self.jmin,
            jmax: self.jmax,
            i1: opt_string_view(self.i1),
            i2: opt_string_view(self.i2),
            junk_interval_ms: self.junk_interval_ms,
        }
    }
}

pub open spec fn spec_noize_off() -> NoizeShape {
    NoizeShape { jc_before_hs: 0, jc_after_i1: 0, jmin: 0, jmax: 0, i1: None, i2: None, junk_interval_ms: 0 }
}

pub open spec fn spec_noize_firewall() -> NoizeShape {
    NoizeShape {
        jc_before_hs: 2,
        jc_after_i1: 2,
        jmin: 48,
        jmax: 190,
        i1: Some("<b 0d0a0d0a><t><r 24>"@),
        i2: Some("<r 48>"@),
        junk_interval_ms: 4,
    }
}

pub open spec fn spec_noize_gfw() -> NoizeShape {
    NoizeShape {
        jc_before_hs: 2,
        jc_after_i1: 1,
        jmin: 64,
        jmax: 256,
        i1: Some("<b 0d0a0d0a><t><r 24>"@),
        i2: Some("<r 32>"@),
        junk_interval_ms: 5,
    }
}

pub open spec fn spec_noize_enabled(c: NoizeShape) -> bool {
    c.jc_before_hs > 0 || c.jc_after_i1 > 0 || c.i1 is Some
}

impl NoizeConfig {
    pub fn off() -> (c: NoizeConfig)
        ensures
            c@ == spec_noize_off(),
    {
        NoizeConfig { jc_before_hs: 0, jc_after_i1: 0, jmin: 0, jmax: 0, i1: None, i2: None, junk_interval_ms: 0 }
    }

    pub fn firewall() -> (c: NoizeConfig)
        ensures
            c@ == spec_noize_firewall(),
    {
        NoizeConfig {
            jc_before_hs: 2,
            jc_after_i1: 2,
            jmin: 48,
            jmax: 190,
            i1: Some("<b 0d0a0d0a><t><r 24>".to_owned()),
            i2: Some("<r 48>".to_owned()),
            junk_interval_ms: 4,
        }
    }

    pub fn gfw() -> (c: NoizeConfig)
        ensures
            c@ == spec_noize_gfw(),
    {
        NoizeConfig {
            jc_before_hs: 2,
            jc_after_i1: 1,
            jmin: 64,
            jmax: 256,
            i1: Some("<b 0d0a0d0a><t><r 24>".to_owned()),
            i2: Some("<r 32>".to_owned()),
            junk_interval_ms: 5,
        }
    }

    pub fn is_enabled(&self) -> (b: bool)
        ensures
            b == spec_noize_enabled(self@),
    {
        self.jc_before_hs > 0 || self.jc_after_i1 > 0 || self.i1.is_some()
    }
}

/// The MASQUE profile for an exact profile token: `off`/`none` off, `gfw`
/// the GFW profile, anything else the firewall profile.
pub open spec fn spec_noize_from_profile(name: Seq<char>) -> NoizeShape {
    if name == "off"@ || name == "none"@ {
        spec_noize_off()
    } else if name == "gfw"@ {
        spec_noize_gfw()
    } else {
        spec_noize_firewall()
    }
}

pub fn from_profile(name: &str) -> (c: NoizeConfig)
    ensures
        c@ == spec_noize_from_profile(name@),
{
    let v = crate::text::chars_of(name);
    if crate::text::eq_str(&v, "off") || crate::text::eq_str(&v, "none") {
        NoizeConfig::off()
    } else if crate::text::eq_str(&v, "gfw") {
        NoizeConfig::gfw()
    } else {
        NoizeConfig::firewall()
    }
}

/// The size range junk packets are drawn from: the profile's range when it
/// is a proper one, else 40 to 90 bytes.
pub open spec fn spec_junk_range(c: NoizeShape) -> (usize, usize) {
    if c.jmax > c.jmin && c.jmin > 0 {
        (c.jmin, c.jmax)
    } else {
        (40, 90)
    }
}

pub fn junk_range(cfg: &NoizeConfig) -> (r: (usize, usize))
    ensures
        r == spec_junk_range(cfg@),
        0 < r.0 <= r.1,
{
    if cfg.jmax > cfg.jmin && cfg.jmin > 0 {
        (cfg.jmin, cfg.jmax)
    } else {
        (40, 90)
    }
}


/// One junk packet of random bytes, its size drawn from `spec_junk_range`.
pub fn junk_packet(cfg: &NoizeConfig) -> (pkt: Vec<u8>)
    ensures
        spec_junk_range(cfg@).0 <= pkt@.len() <= spec_junk_range(cfg@).1,
{
    let (lo, hi) = junk_range(cfg);
    let size = crate::rng::random_between(lo, hi);
    crate::rng::random_bytes(size)
}

} // verus!
