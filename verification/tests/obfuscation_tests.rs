use aether::cps::{clock_piece, nonce_piece};
use aether::cps::{cps_tags, CpsLen, CpsTag};
use aether::obfuscation::parse_cps;
use aether::aethernoize::{self, AetherNoizeConfig};
use aether::obfuscation::{
    aethernoize_from_name, default_profile, is_recognized, knobs_from_settings, masque_from_env,
    noize_from_name, normalize, validate_profile_name, wg_from_env, Transport, RECOGNIZED_PROFILES,
};
use aether::noize::{self, NoizeConfig};

#[test]
fn normalize_aliases() {
    assert_eq!(normalize("NONE"), "off");
    assert_eq!(normalize("heavy"), "max");
    assert_eq!(normalize("firewall"), "medium");
    assert_eq!(normalize("aggressive"), "max");
    assert_eq!(normalize("gfw"), "high");
    assert_eq!(normalize("balanced"), "medium");
}

#[test]
fn an_unknown_profile_name_is_refused_not_downgraded() {
    for good in RECOGNIZED_PROFILES {
        assert!(validate_profile_name(good).is_ok(), "{good} is a real name");
        assert!(is_recognized(good), "{good} is missing from is_recognized");
    }
    assert!(
        validate_profile_name("  High  ").is_ok(),
        "case and padding are not part of the name"
    );
    assert!(validate_profile_name("").is_ok(), "empty means the default");

    for bad in ["turbo", "max1", "off-x", "medium-ish", "é", "11"] {
        let err = validate_profile_name(bad).expect_err("{bad} must not silently become balanced()");
        assert!(
            err.message().contains(bad),
            "the refusal must name what it rejected: {}",
            err.message()
        );
        assert!(
            err.message().contains("medium"),
            "the refusal must list the names that do work: {}",
            err.message()
        );
    }
}

#[test]
fn every_recognized_name_has_a_profile_in_both_transports() {
    for name in RECOGNIZED_PROFILES {
        let wg = aethernoize_from_name(name);
        let mq = noize_from_name(name);
        let off = name.eq_ignore_ascii_case("off") || name.eq_ignore_ascii_case("none");
        assert_eq!(wg.is_enabled(), !off, "wireguard profile for {name}");
        assert_eq!(mq.is_enabled(), !off, "masque profile for {name}");
    }
}

#[test]
fn cross_map_never_panics() {
    for n in [
        "off", "light", "medium", "high", "max", "custom", "gfw", "firewall", "balanced",
        "aggressive", "weird",
    ] {
        let _ = noize_from_name(n);
        let _ = aethernoize_from_name(n);
    }
}

#[test]
fn the_refusal_quotes_the_name() {
    let err = validate_profile_name("turbo").unwrap_err();
    assert_eq!(
        err.message(),
        "other: unknown obfuscation profile \"turbo\"; refusing to substitute one nobody asked for. \
         Recognised: off, none, light, low, medium, balanced, firewall, default, high, gfw, max, \
         aggressive, heavy, custom"
    );
}

#[test]
fn test_aethernoize_profiles() {
    let b = AetherNoizeConfig::balanced();
    assert_eq!(b.jc, 5);
    assert_eq!(b.jc_before_hs, 5);
    assert_eq!(b.jmin, 50);
    assert_eq!(b.jmax, 128);
    assert!(b.junk_interval_ms != 0);
    assert!(b.handshake_delay_ms == 0);

    let l = AetherNoizeConfig::light();
    assert_eq!(l.jc, 5);
    assert_eq!(l.jc_before_hs, 5);
    assert_eq!(l.jmin, 50);
    assert_eq!(l.jmax, 128);
    assert!(l.junk_interval_ms != 0);

    let a = AetherNoizeConfig::aggressive();
    assert_eq!(a.jc, 5);
    assert_eq!(a.jc_before_hs, 5);
    assert_eq!(a.jmin, 50);
    assert_eq!(a.jmax, 128);
    assert!(a.junk_interval_ms != 0);
}

#[test]
fn every_enabled_profile_spaces_its_intro_packets() {
    for cfg in [
        AetherNoizeConfig::light(),
        AetherNoizeConfig::balanced(),
        AetherNoizeConfig::aggressive(),
    ] {
        assert!(cfg.is_enabled());
        assert!(
            cfg.junk_interval_ms != 0,
            "{}ms interval: the jitter guards cannot fire",
            cfg.junk_interval_ms
        );
    }
    assert!(AetherNoizeConfig::off().junk_interval_ms == 0);
}

#[test]
fn from_profile_uses_the_shared_vocabulary() {
    for name in ["off", "light", "medium", "high", "max", "custom"] {
        let by_name = aethernoize::from_profile(name);
        let by_vocab = aethernoize_from_name(name);
        assert_eq!(
            (by_name.jc, by_name.jmin, by_name.jmax),
            (by_vocab.jc, by_vocab.jmin, by_vocab.jmax),
            "{name} resolved differently in the two places"
        );
    }
    assert!(!aethernoize::from_profile("off").is_enabled());
    assert!(aethernoize::from_profile("max").jc_before_hs > 0);
}

#[test]
fn masque_profiles_and_exact_tokens() {
    let f = NoizeConfig::firewall();
    assert_eq!((f.jc_before_hs, f.jc_after_i1, f.jmin, f.jmax, f.junk_interval_ms), (2, 2, 48, 190, 4));
    assert_eq!(f.i2.as_deref(), Some("<r 48>"));
    let g = noize::from_profile("gfw");
    assert_eq!(g.jmax, 256);
    assert!(!noize::from_profile("none").is_enabled());
    assert_eq!(noize::from_profile("GFW").jmax, 190, "exact tokens only");
    assert_eq!(noize::junk_range(&NoizeConfig::off()), (40, 90));
    assert_eq!(noize::junk_range(&g), (64, 256));
}

#[test]
fn custom_knobs_apply_only_to_custom() {
    let k = knobs_from_settings(Some(" 7 "), Some("100"), Some("20"), Some("9"));
    assert_eq!((k.jc, k.jmin, k.jmax, k.interval_ms), (Some(7), Some(100), Some(20), Some(9)));
    let m = masque_from_env(Some("custom"), &k);
    assert_eq!((m.jc_before_hs, m.jc_after_i1, m.jmin, m.jmax, m.junk_interval_ms), (7, 0, 100, 100, 9));
    let w = wg_from_env(Some("CUSTOM"), &k);
    assert_eq!((w.jc, w.jc_before_hs, w.jc_after_hs, w.jmin, w.jmax, w.junk_interval_ms), (7, 7, 0, 100, 100, 9));
    let plain = masque_from_env(Some("gfw"), &k);
    assert_eq!(plain.jmin, 64);
    let bad = knobs_from_settings(Some("x"), None, Some("-1"), None);
    assert_eq!((bad.jc, bad.jmin, bad.jmax, bad.interval_ms), (None, None, None, None));
    let defaulted = wg_from_env(None, &bad);
    assert_eq!(defaulted.junk_interval_ms, 12);
    assert_eq!(default_profile(Transport::Masque), "medium");
}

#[test]
fn junk_sizes_follow_the_profile() {
    assert_eq!(aethernoize::junk_bounds(&AetherNoizeConfig::balanced()), Some((50, 128)));
    assert_eq!(aethernoize::junk_bounds(&AetherNoizeConfig::off()), None);
    let mut c = AetherNoizeConfig::off();
    c.jmin = 0;
    c.jmax = 5;
    assert_eq!(aethernoize::junk_bounds(&c), Some((1, 5)));
    c.allow_zero_size = true;
    assert_eq!(aethernoize::junk_bounds(&c), Some((0, 5)));
    c.jmin = 9;
    c.jmax = 0;
    c.allow_zero_size = false;
    assert_eq!(aethernoize::junk_bounds(&c), Some((9, 9)));
}

#[test]
fn cps_basic_tags() {
    let out = parse_cps("<b 0d0a0d0a>");
    assert_eq!(out, vec![0x0d, 0x0a, 0x0d, 0x0a]);

    let out = parse_cps("<t>");
    assert_eq!(out.len(), 4);

    let out = parse_cps("<n>");
    assert_eq!(out.len(), 8);

    let out = parse_cps("<r 24>");
    assert_eq!(out.len(), 24);

    let out = parse_cps("<r 10-20>");
    assert!(out.len() >= 10 && out.len() <= 20);

    let out = parse_cps("<rc 16>");
    assert_eq!(out.len(), 16);
    assert!(out.iter().all(|&b| b.is_ascii_alphabetic()));

    let out = parse_cps("<rd 8>");
    assert_eq!(out.len(), 8);
    assert!(out.iter().all(|&b| b.is_ascii_digit()));

    let out = parse_cps("<b 0d0a><t><r 4>");
    assert_eq!(out.len(), 2 + 4 + 4);
    assert_eq!(&out[..2], &[0x0d, 0x0a]);
}

#[test]
fn cps_hex_takes_a_prefix_either_case_and_ignores_whitespace() {
    assert_eq!(parse_cps("<b 0xDE ad>"), vec![0xde, 0xad]);
    assert_eq!(parse_cps("<b 0XbEeF>"), vec![0xbe, 0xef]);
    assert_eq!(parse_cps("<b\t01 02\n03>"), vec![1, 2, 3]);
}

#[test]
fn cps_bad_hex_and_unknown_tags_contribute_nothing() {
    assert!(parse_cps("<b 0d0>").is_empty(), "odd digit count");
    assert!(parse_cps("<b 0g>").is_empty(), "not a hex digit");
    assert!(parse_cps("<zz 12><q>").is_empty());
    assert_eq!(parse_cps("junk <b 41> more <B 42> text"), vec![0x41]);
}

#[test]
fn cps_an_unclosed_tag_is_plain_text() {
    assert!(parse_cps("<b 0d0a").is_empty());
    assert!(parse_cps("<").is_empty());
    assert!(parse_cps("< b 41>").is_empty(), "the name must follow the bracket");
}

#[test]
fn cps_a_tag_runs_to_the_first_closing_bracket() {
    // The data of the first tag is "01<b 02", which is no hex.
    assert!(parse_cps("<b 01<b 02>").is_empty());
    assert_eq!(parse_cps("<b 01><b 02>"), vec![1, 2]);
}

#[test]
fn cps_lengths_are_capped_and_backward_ranges_fall_back() {
    assert_eq!(parse_cps("<r 5000>").len(), 2048);
    assert!(parse_cps("<r 20-10>").is_empty(), "not a range and not a count");
    assert!(parse_cps("<r 0-10>").is_empty(), "a range must start above zero");
    assert_eq!(parse_cps("<rd 3-3>").len(), 0);
    let n = parse_cps("<r 3000-4000>").len();
    assert_eq!(n, 2048);
    assert_eq!(parse_cps("<r +7>").len(), 7);
}

#[test]
fn cps_tags_are_parsed_in_order() {
    assert_eq!(
        cps_tags("<b 0102> x <t><c><n><r 10-20><rc 3><rd 2-9-4><zz>"),
        vec![
            CpsTag::Bytes(vec![1, 2]),
            CpsTag::Timestamp,
            CpsTag::Counter,
            CpsTag::Nonce,
            CpsTag::Random(CpsLen::Between(10, 20)),
            CpsTag::Alpha(CpsLen::Fixed(3)),
            CpsTag::Digits(CpsLen::Between(2, 9)),
        ]
    );
}

#[test]
fn test_aethernoize_generate_junk_bounds() {
    let cfg = AetherNoizeConfig::balanced();
    for _ in 0..100 {
        let junk = aethernoize::generate_junk(&cfg);
        assert!(junk.len() >= 50 && junk.len() <= 128, "junk len {} out of bounds", junk.len());
    }
}

#[test]
fn junk_without_a_range_is_one_zero_byte_unless_empty_is_allowed() {
    let mut cfg = AetherNoizeConfig::off();
    assert_eq!(aethernoize::generate_junk(&cfg), vec![0u8]);
    cfg.allow_zero_size = true;
    assert!(aethernoize::generate_junk(&cfg).is_empty());
    cfg.allow_zero_size = false;
    cfg.jmin = 7;
    assert_eq!(aethernoize::generate_junk(&cfg).len(), 7, "a lone minimum is the size");
    cfg.jmin = 0;
    cfg.jmax = 3;
    for _ in 0..50 {
        let n = aethernoize::generate_junk(&cfg).len();
        assert!((1..=3).contains(&n), "without zero sizes the floor is one byte");
    }
}

#[test]
fn an_ikev2_frame_carries_the_payload_behind_a_fixed_header() {
    let payload: Vec<u8> = (1u8..=10).collect();
    let out = aethernoize::wrap_ikev2(&payload);
    assert_eq!(out.len(), 52 + 10);
    assert_eq!(&out[..8], &payload[..8], "the initiator SPI is the payload's head");
    assert_eq!(&out[16..24], &[0x21, 0x20, 0x22, 0x08, 0, 0, 0, 0]);
    assert_eq!(&out[24..28], &62u32.to_be_bytes());
    assert_eq!(&out[28..32], &[0, 0, 0, 34]);
    assert_eq!(
        &out[32..52],
        &[0x00, 0x00, 0x00, 0x14, 0x01, 0x01, 0x00, 0x04, 0x03, 0x00, 0x00, 0x08, 0x01, 0x00, 0x00, 0x0c, 0x00, 0x00, 0x00, 0x00]
    );
    assert_eq!(&out[52..], &payload[..]);
    assert!(aethernoize::wrap_ikev2(&[]).is_empty());
    let short = aethernoize::wrap_ikev2(&[9, 9, 9]);
    assert_eq!(short.len(), 55);
    assert_eq!(&short[52..], &[9, 9, 9]);
}

#[test]
fn jitter_adds_at_most_four_ms_to_the_interval() {
    let cfg = AetherNoizeConfig::light();
    for _ in 0..50 {
        let ms = aethernoize::jitter_from_cfg(&cfg);
        assert!((8..=12).contains(&ms));
    }
    assert_eq!(aethernoize::jitter_from_cfg(&AetherNoizeConfig::off()), 0);
}

#[test]
fn keepalive_decoys_never_look_like_wireguard_messages() {
    let cfg = AetherNoizeConfig::balanced();
    for _ in 0..200 {
        let d = aethernoize::keepalive_decoy(&cfg);
        assert!(d.len() >= 50 && d.len() <= 128);
        assert!(!(1..=4).contains(&d[0]));
    }
    for _ in 0..50 {
        let n = aethernoize::keepalive_decoy_count(&cfg);
        assert!((5..=15).contains(&n));
    }
    let n = aethernoize::keepalive_decoy_count(&AetherNoizeConfig::off());
    assert!((2..=6).contains(&n), "the base is at least two");
}

#[test]
fn noize_junk_uses_its_range_or_the_default_one() {
    for _ in 0..50 {
        let n = noize::junk_packet(&NoizeConfig::firewall()).len();
        assert!((48..=190).contains(&n));
        let d = noize::junk_packet(&NoizeConfig::off()).len();
        assert!((40..=90).contains(&d));
    }
}

#[test]
fn clock_and_nonce_tags_write_big_endian_values() {
    assert_eq!(clock_piece(false, 0x1_0000_0005), vec![0, 0, 0, 5], "<t> keeps the low 32 bits");
    assert_eq!(clock_piece(false, 0x1234_5678), vec![0x12, 0x34, 0x56, 0x78]);
    assert_eq!(clock_piece(true, 0xFFFF_FFFF), vec![0, 0, 0, 0], "<c> is the seconds mod 0xFFFFFFFF");
    assert_eq!(clock_piece(true, 0x1_0000_0005), vec![0, 0, 0, 6]);
    assert_eq!(nonce_piece(0x0102_0304_0506_0708), vec![1, 2, 3, 4, 5, 6, 7, 8]);
}
