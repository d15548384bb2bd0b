//! The one obfuscation vocabulary shared by the MASQUE and WireGuard
//! obfuscators: profile names, their aliases, what each resolves to on each
//! transport, and the custom knobs.
use vstd::prelude::*;

use crate::aethernoize::{
    spec_aether_aggressive, spec_aether_balanced, spec_aether_light, spec_aether_off,
    AetherNoizeConfig, AetherNoizeShape,
};
use crate::cps::{
    cps_tags, expand, expands_to, item_wf, lemma_template_items_wf, spec_cps_items, CpsTag,
};
use crate::error::AetherError;
use crate::noize::{spec_noize_firewall, spec_noize_gfw, spec_noize_off, NoizeConfig, NoizeShape};
use crate::text::{
    eq_str, fold, folded, join_with, opt_view, parse_unsigned, parse_unsigned_chars, spec_join, trim,
    trimmed, views_of, owned,
};

verus! {

/// Which transport a profile is resolved for.
#[derive(Debug, Clone, Copy, PartialEq, Eq, Structural)]
pub enum Transport {
    Masque,
    WireGuard,
}

/// The names the vocabulary accepts.
pub const RECOGNIZED_PROFILES: [&'static str; 14] = [
    "off",
    "none",
    "light",
    "low",
    "medium",
    "balanced",
    "firewall",
    "default",
    "high",
    "gfw",
    "max",
    "aggressive",
    "heavy",
    "custom",
];

/// Canonical profile name after alias resolution, ordered off < light <
/// medium < high < max; a blank name is `default`, an unknown one too.
pub open spec fn spec_normalize(name: Seq<char>) -> Seq<char> {
    let f = folded(name);
    if f.len() == 0 {
        "default"@
    } else if f == "off"@ || f == "none"@ {
        "off"@
    } else if f == "light"@ || f == "low"@ {
        "light"@
    } else if f == "medium"@ || f == "balanced"@ || f == "firewall"@ || f == "default"@ {
        "medium"@
    } else if f == "high"@ || f == "gfw"@ {
        "high"@
    } else if f == "max"@ || f == "aggressive"@ || f == "heavy"@ {
        "max"@
    } else if f == "custom"@ {
        "custom"@
    } else {
        "default"@
    }
}

pub fn normalize(name: &str) -> (r: &'static str)
    ensures
        r@ == spec_normalize(name@),
{
    let f = fold(name);
    if f.len() == 0 {
        "default"
    } else if eq_str(&f, "off") || eq_str(&f, "none") {
        "off"
    } else if eq_str(&f, "light") || eq_str(&f, "low") {
        "light"
    } else if eq_str(&f, "medium") || eq_str(&f, "balanced") || eq_str(&f, "firewall") || eq_str(
        &f,
        "default",
    ) {
        "medium"
    } else if eq_str(&f, "high") || eq_str(&f, "gfw") {
        "high"
    } else if eq_str(&f, "max") || eq_str(&f, "aggressive") || eq_str(&f, "heavy") {
        "max"
    } else if eq_str(&f, "custom") {
        "custom"
    } else {
        "default"
    }
}

/// A recognised profile token (a blank name included), ignoring case and
/// surrounding whitespace.
pub open spec fn spec_is_recognized(name: Seq<char>) -> bool {
    let f = folded(name);
    f.len() == 0 || f == "off"@ || f == "none"@ || f == "light"@ || f == "low"@ || f == "medium"@
        || f == "balanced"@ || f == "firewall"@ || f == "default"@ || f == "high"@ || f == "gfw"@
        || f == "max"@ || f == "aggressive"@ || f == "heavy"@ || f == "custom"@
}

pub fn is_recognized(name: &str) -> (b: bool)
    ensures
        b == spec_is_recognized(name@),
{
    let f = fold(name);
    f.len() == 0 || eq_str(&f, "off") || eq_str(&f, "none") || eq_str(&f, "light") || eq_str(
        &f,
        "low",
    ) || eq_str(&f, "medium") || eq_str(&f, "balanced") || eq_str(&f, "firewall") || eq_str(
        &f,
        "default",
    ) || eq_str(&f, "high") || eq_str(&f, "gfw") || eq_str(&f, "max") || eq_str(&f, "aggressive")
        || eq_str(&f, "heavy") || eq_str(&f, "custom")
}

/// The profile a transport uses when none is set.
pub fn default_profile(transport: Transport) -> (r: &'static str)
    ensures
        r@ == "medium"@,
{
    match transport {
        Transport::Masque => "medium",
        Transport::WireGuard => "medium",
    }
}

/// The refusal message for an unknown profile name: the name as given,
/// quoted, and the names that do work.
pub open spec fn refusal_message(name: Seq<char>) -> Seq<char> {
    "unknown obfuscation profile "@ + crate::text::debug_quoted(name)
        + "; refusing to substitute one nobody asked for. Recognised: "@ + spec_join(
        views_of(RECOGNIZED_PROFILES@),
        ", "@,
    )
}

/// Refuses a profile name neither transport has a definition for; a blank
/// name means the default and is accepted.
pub fn validate_profile_name(name: &str) -> (r: Result<(), AetherError>)
    ensures
        spec_is_recognized(name@) ==> r is Ok,
        !spec_is_recognized(name@) ==> (r matches Err(AetherError::Other(m)) && m@
            == refusal_message(name@)),
{
    let t = trimmed(name);
    if t.len() == 0 {
        return Ok(());
    }
    if is_recognized(name) {
        return Ok(());
    }
    let mut msg = owned("unknown obfuscation profile ");
    let q = crate::text::debug_str(name);
    msg.append(q.as_str());
    msg.append("; refusing to substitute one nobody asked for. Recognised: ");
    let list = join_with(&RECOGNIZED_PROFILES, ", ");
    msg.append(list.as_str());
    Err(AetherError::Other(msg))
}

/// The MASQUE profile a name resolves to: off, GFW for `high` and `max`
/// (only two real profiles exist), the firewall profile otherwise.
pub open spec fn spec_noize_from_name(name: Seq<char>) -> NoizeShape {
    let n = spec_normalize(name);
    if n == "off"@ {
        spec_noize_off()
    } else if n == "high"@ || n == "max"@ {
        spec_noize_gfw()
    } else {
        spec_noize_firewall()
    }
}

pub fn noize_from_name(name: &str) -> (c: NoizeConfig)
    ensures
        c@ == spec_noize_from_name(name@),
{
    let n = normalize(name);
    let v = crate::text::chars_of(n);
    if eq_str(&v, "off") {
        NoizeConfig::off()
    } else if eq_str(&v, "high") || eq_str(&v, "max") {
        NoizeConfig::gfw()
    } else {
        NoizeConfig::firewall()
    }
}

/// The WireGuard profile a name resolves to.
pub open spec fn spec_aethernoize_from_name(name: Seq<char>) -> AetherNoizeShape {
    let n = spec_normalize(name);
    if n == "off"@ {
        spec_aether_off()
    } else if n == "light"@ {
        spec_aether_light()
    } else if n == "max"@ {
        spec_aether_aggressive()
    } else {
        spec_aether_balanced()
    }
}

pub fn aethernoize_from_name(name: &str) -> (c: AetherNoizeConfig)
    ensures
        c@ == spec_aethernoize_from_name(name@),
{
    let n = normalize(name);
    let v = crate::text::chars_of(n);
    if eq_str(&v, "off") {
        AetherNoizeConfig::off()
    } else if eq_str(&v, "light") {
        AetherNoizeConfig::light()
    } else if eq_str(&v, "max") {
        AetherNoizeConfig::aggressive()
    } else {
        AetherNoizeConfig::balanced()
    }
}

/// Every name resolves to a profile on both transports, and that profile is
/// enabled exactly when the name means `off`.
pub proof fn lemma_profiles_enabled_unless_off(name: Seq<char>)
    ensures
        crate::noize::spec_noize_enabled(spec_noize_from_name(name)) == (spec_normalize(name)
            != "off"@),
        crate::aethernoize::spec_aether_enabled(spec_aethernoize_from_name(name)) == (
        spec_normalize(name) != "off"@),
{
}

/// The custom knobs, each read as a decimal `usize` when set.
#[derive(Debug, Clone, Copy)]
pub struct NoizeKnobs {
    pub jc: Option<usize>,
    pub jmin: Option<usize>,
    pub jmax: Option<usize>,
    pub interval_ms: Option<usize>,
}

/// A knob's value: the trimmed setting parsed as a `usize`, or nothing.
pub open spec fn spec_knob(setting: Option<Seq<char>>) -> Option<usize> {
    match setting {
        Some(v) => match parse_unsigned(trim(v), usize::MAX as nat) {
            Some(n) => Some(n as usize),
            None => None,
        },
        None => None,
    }
}

pub fn knob(setting: Option<&str>) -> (r: Option<usize>)
    ensures
        r == spec_knob(opt_view(setting)),
{
    match setting {
        None => None,
        Some(v) => {
            let t = trimmed(v);
            match parse_unsigned_chars(&t, usize::MAX as u64) {
                Some(n) => Some(n as usize),
                None => None,
            }
        },
    }
}

/// Reads the `AETHER_NOIZE_JC`, `AETHER_NOIZE_JMIN`, `AETHER_NOIZE_JMAX` and
/// `AETHER_NOIZE_INTERVAL_MS` settings.
pub fn knobs_from_settings(
    jc: Option<&str>,
    jmin: Option<&str>,
    jmax: Option<&str>,
    interval_ms: Option<&str>,
) -> (k: NoizeKnobs)
    ensures
        k.jc == spec_knob(opt_view(jc)),
        k.jmin == spec_knob(opt_view(jmin)),
        k.jmax == spec_knob(opt_view(jmax)),
        k.interval_ms == spec_knob(opt_view(interval_ms)),
{
    NoizeKnobs { jc: knob(jc), jmin: knob(jmin), jmax: knob(jmax), interval_ms: knob(interval_ms) }
}

/// The custom knobs applied to a MASQUE profile: a junk count replaces the
/// pre-handshake count and clears the post-signature one; the maximum size
/// never falls below the minimum.
pub open spec fn spec_apply_custom_noize(c: NoizeShape, k: NoizeKnobs) -> NoizeShape {
    let (b, a) = match k.jc { Some(v) => (v, 0usize), None => (c.jc_before_hs, c.jc_after_i1) };
    let jmin = match k.jmin { Some(v) => v, None => c.jmin };
    let jmax = match k.jmax { Some(v) => if v >= jmin { v } else { jmin }, None => c.jmax };
    NoizeShape {
        jc_before_hs: b,
        jc_after_i1: a,
        jmin,
        jmax,
        i1: c.i1,
        i2: c.i2,
        junk_interval_ms: match k.interval_ms { Some(ms) => ms as u64, None => c.junk_interval_ms },
    }
}

pub fn apply_custom_noize(cfg: NoizeConfig, knobs: &NoizeKnobs) -> (r: NoizeConfig)
    ensures
        r@ == spec_apply_custom_noize(cfg@, *knobs),
{
    let mut cfg = cfg;
    if let Some(v) = knobs.jc {
        cfg.jc_before_hs = v;
        cfg.jc_after_i1 = 0;
    }
    if let Some(v) = knobs.jmin {
        cfg.jmin = v;
    }
    if let Some(v) = knobs.jmax {
        cfg.jmax = if v >= cfg.jmin { v } else { cfg.jmin };
    }
    if let Some(ms) = knobs.interval_ms {
        cfg.junk_interval_ms = ms as u64;
    }
    cfg
}

/// The custom knobs applied to a WireGuard profile: a junk count becomes the
/// total and the pre-handshake count and clears the others.
pub open spec fn spec_apply_custom_aethernoize(c: AetherNoizeShape, k: NoizeKnobs) -> AetherNoizeShape {
    let jmin = match k.jmin { Some(v) => v, None => c.jmin };
    let jmax = match k.jmax { Some(v) => if v >= jmin { v } else { jmin }, None => c.jmax };
    AetherNoizeShape {
        jc: match k.jc { Some(v) => v, None => c.jc },
        jc_before_hs: match k.jc { Some(v) => v, None => c.jc_before_hs },
        jc_after_i1: match k.jc { Some(v) => 0, None => c.jc_after_i1 },
        jc_after_hs: match k.jc { Some(v) => 0, None => c.jc_after_hs },
        jmin,
        jmax,
        junk_interval_ms: match k.interval_ms { Some(ms) => ms as u64, None => c.junk_interval_ms },
        ..c
    }
}

pub fn apply_custom_aethernoize(cfg: AetherNoizeConfig, knobs: &NoizeKnobs) -> (r: AetherNoizeConfig)
    ensures
        r@ == spec_apply_custom_aethernoize(cfg@, *knobs),
{
    let mut cfg = cfg;
    if let Some(v) = knobs.jc {
        cfg.jc = v;
        cfg.jc_before_hs = v;
        cfg.jc_after_i1 = 0;
        cfg.jc_after_hs = 0;
    }
    if let Some(v) = knobs.jmin {
        cfg.jmin = v;
    }
    if let Some(v) = knobs.jmax {
        cfg.jmax = if v >= cfg.jmin { v } else { cfg.jmin };
    }
    if let Some(ms) = knobs.interval_ms {
        cfg.junk_interval_ms = ms as u64;
    }
    cfg
}

/// The profile name in force: the `AETHER_NOIZE` setting, or `medium`.
pub open spec fn spec_profile_setting(setting: Option<Seq<char>>) -> Seq<char> {
    match setting {
        Some(v) => v,
        None => "medium"@,
    }
}

/// The MASQUE profile from the `AETHER_NOIZE` setting, with the custom knobs
/// applied when the profile is `custom`.
pub open spec fn spec_masque_from_env(setting: Option<Seq<char>>, k: NoizeKnobs) -> NoizeShape {
    let name = spec_normalize(spec_profile_setting(setting));
    let base = spec_noize_from_name(name);
    if name == "custom"@ { spec_apply_custom_noize(base, k) } else { base }
}

pub fn masque_from_env(setting: Option<&str>, knobs: &NoizeKnobs) -> (c: NoizeConfig)
    ensures
        c@ == spec_masque_from_env(opt_view(setting), *knobs),
{
    let raw = match setting {
        Some(v) => v,
        None => default_profile(Transport::Masque),
    };
    let name = normalize(raw);
    let cfg = noize_from_name(name);
    let v = crate::text::chars_of(name);
    if eq_str(&v, "custom") {
        apply_custom_noize(cfg, knobs)
    } else {
        cfg
    }
}

/// The WireGuard profile from the `AETHER_NOIZE` setting, with the custom
/// knobs applied when the profile is `custom`.
pub open spec fn spec_wg_from_env(setting: Option<Seq<char>>, k: NoizeKnobs) -> AetherNoizeShape {
    let name = spec_normalize(spec_profile_setting(setting));
    let base = spec_aethernoize_from_name(name);
    if name == "custom"@ { spec_apply_custom_aethernoize(base, k) } else { base }
}

pub fn wg_from_env(setting: Option<&str>, knobs: &NoizeKnobs) -> (c: AetherNoizeConfig)
    ensures
        c@ == spec_wg_from_env(opt_view(setting), *knobs),
{
    let raw = match setting {
        Some(v) => v,
        None => default_profile(Transport::WireGuard),
    };
    let name = normalize(raw);
    let cfg = aethernoize_from_name(name);
    let v = crate::text::chars_of(name);
    if eq_str(&v, "custom") {
        apply_custom_aethernoize(cfg, knobs)
    } else {
        cfg
    }
}

/// Expands a Custom Packet Signature template (`<b HEX>`, `<t>`, `<c>`,
/// `<n>`, `<r L>`, `<rc L>`, `<rd L>`; see `crate::cps`) into packet bytes.
pub fn parse_cps(spec: &str) -> (out: Vec<u8>)
    ensures
        expands_to(spec_cps_items(spec@), out@),
{
    let tags = cps_tags(spec);
    proof {
        lemma_template_items_wf(spec@);
        assert forall|i: int| 0 <= i < tags@.len() implies item_wf(#[trigger] tags@[i]@) by {
            assert(tags@.map_values(|t: CpsTag| t@)[i] == tags@[i]@);
        }
    }
    expand(&tags)
}

} // verus!
