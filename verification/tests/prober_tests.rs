use aether::cache::Measurement;
use aether::prober::{
    cap_and_order, effective_strategy, measured_as, register_scan_session, request_scan_cancel,
    sample_for_weight, scan_cancelled, scan_cancelled_for, sized_deadline, v4_neighbor_hosts,
    wg_session_fresh, CacheKind, IpScan, ProbeConfig, ScanMode, ScanRegistry, ScanRunGuard,
    ScanTally, Strategy, StrategyProfile, VerifyCost, WG_SESSION_TTL_MS,
};
use aether::prober::{enumerate_cidr_v4, parse_cidr_v4, wg_evictions, WG_SESSION_CAPACITY};
use aether::prober::{
    build_candidates, dedup_ports, parse_cidr_v6, port_tiers, sample_cidr_v4, sample_cidr_v6, Candidate,
};

#[test]
fn an_expired_session_is_never_handed_out() {
    let now: u64 = 1_000_000;
    assert!(wg_session_fresh(now - 174_000, now, WG_SESSION_TTL_MS));
    assert!(!wg_session_fresh(now - 176_000, now, WG_SESSION_TTL_MS));
}

#[test]
fn every_label_parses_back_to_its_own_mode() {
    for mode in [
        ScanMode::Turbo,
        ScanMode::Balanced,
        ScanMode::Thorough,
        ScanMode::Stealth,
        ScanMode::Ironclad,
    ] {
        assert_eq!(ScanMode::parse(mode.label()), mode);
    }
}

#[test]
fn a_misspelled_mode_is_not_a_mode() {
    assert_eq!(ScanMode::parse("thorogh"), ScanMode::Balanced);
    assert_eq!(ScanMode::parse("thoro"), ScanMode::Balanced);
    assert_eq!(ScanMode::parse(""), ScanMode::Balanced);
}

#[test]
fn stage2_neighbours_saturate_inside_the_subnet() {
    let offsets: Vec<u32> = vec![1, 2, 3, 5, 10, 20, 50, 100, 150, 200];

    let near_top = v4_neighbor_hosts(250, &offsets);
    assert!(!near_top.contains(&6), "250 + offset wrapped onto .6");
    assert!(near_top.contains(&249) && near_top.contains(&248));
    assert!(
        near_top.iter().all(|h| (1..=254).contains(h)),
        "a stage-2 neighbour left the usable host range: {near_top:?}"
    );
    assert!(!near_top.contains(&250), "the hit itself must not be re-probed");

    let near_bottom = v4_neighbor_hosts(3, &offsets);
    assert!(!near_bottom.contains(&0) && !near_bottom.contains(&255));
    assert!(near_bottom.contains(&4) && near_bottom.contains(&5));
    assert_eq!(near_bottom.iter().filter(|h| **h == 1).count(), 1);

    let mid = v4_neighbor_hosts(100, &offsets);
    assert!(mid.contains(&99) && mid.contains(&101));
    assert_eq!(
        mid.len(),
        mid.iter().collect::<std::collections::HashSet<_>>().len(),
        "duplicate neighbour probed twice"
    );
}

#[test]
fn ip_scan_vocabulary() {
    assert_eq!(IpScan::parse(" IPv6 "), IpScan::V6);
    assert_eq!(IpScan::parse("dual"), IpScan::Both);
    assert_eq!(IpScan::parse("nonsense"), IpScan::V4);
    assert_eq!(IpScan::Both.label(), "dual-stack");
    assert!(IpScan::Both.want_v4() && IpScan::Both.want_v6());
    assert!(IpScan::V4.want_v4() && !IpScan::V4.want_v6());
    assert!(!IpScan::V6.want_v4() && IpScan::V6.want_v6());
}

#[test]
fn mode_aliases() {
    assert_eq!(ScanMode::parse("FAST"), ScanMode::Turbo);
    assert_eq!(ScanMode::parse("deep"), ScanMode::Thorough);
    assert_eq!(ScanMode::parse("quiet"), ScanMode::Stealth);
    assert_eq!(ScanMode::parse(" guaranteed "), ScanMode::Ironclad);
}

fn profile() -> StrategyProfile {
    StrategyProfile {
        turbo_sample: 4,
        balanced_target: 1,
        balanced_sample: 4,
        stealth_target: 1,
        stealth_sample: 4,
    }
}

#[test]
fn strategy_table_rows() {
    let t = ScanMode::Turbo.strategy(&profile());
    assert_eq!((t.concurrency, t.per_probe_timeout_ms, t.overall_deadline_ms), (250, 1000, 15000));
    assert!(t.early_exit_first);
    let th = ScanMode::Thorough.strategy(&profile());
    assert!(th.full_subnet);
    assert_eq!(th.sample_per_cidr, 0);
    let i = ScanMode::Ironclad.strategy(&profile());
    assert_eq!((i.concurrency, i.target_successes), (6, 3));
}

#[test]
fn expensive_probes_keep_their_floor_after_overrides() {
    let st = ScanMode::Balanced.strategy(&profile());
    let e = effective_strategy(st, VerifyCost::Expensive, Some(500), Some(3000), false);
    assert_eq!(e.concurrency, 16);
    assert_eq!(e.per_probe_timeout_ms, 6000);
    let c = effective_strategy(st, VerifyCost::Cheap, Some(0), Some(3000), true);
    assert_eq!(c.concurrency, 1);
    assert_eq!(c.per_probe_timeout_ms, 3000);
    assert_eq!(c.overall_deadline_ms, 0);
    assert_eq!(c.target_successes, 0);
    let big = effective_strategy(st, VerifyCost::Cheap, Some(5000), None, false);
    assert_eq!(big.concurrency, 1000);
}

#[test]
fn the_scan_budget_grows_with_the_pool_up_to_the_cap() {
    let mut st = ScanMode::Balanced.strategy(&profile());
    st.concurrency = 10;
    st.per_probe_timeout_ms = 1000;
    st.overall_deadline_ms = 30000;
    // 100 candidates: 10 waves + 2 = 12 s, below the mode's 30 s.
    assert_eq!(sized_deadline(&st, 100), 30000);
    // 1000 candidates: 100 waves + 2 = 102 s.
    assert_eq!(sized_deadline(&st, 1000), 102000);
    assert_eq!(sized_deadline(&st, 100_000), 300000);
}

#[test]
fn a_stop_pressed_before_a_scan_does_not_reach_it() {
    let mut reg = ScanRegistry::new();
    assert!(request_scan_cancel(&mut reg), "nothing was running");
    let gen = register_scan_session(&mut reg);
    assert!(!scan_cancelled_for(&reg, gen));
    assert!(!scan_cancelled(&reg));
    let other = register_scan_session(&mut reg);
    assert!(!request_scan_cancel(&mut reg));
    assert!(scan_cancelled_for(&reg, gen) && scan_cancelled_for(&reg, other));
    assert!(ScanRunGuard(gen).release(&mut reg));
    assert!(!ScanRunGuard(gen).release(&mut reg), "already retired");
    let later = register_scan_session(&mut reg);
    assert!(!scan_cancelled_for(&reg, later));
}

#[test]
fn the_tally_never_reports_past_its_total() {
    let mut t = ScanTally::new(3);
    assert!(t.should_report(), "zero is a multiple of fifty");
    t.candidate_done();
    assert!(!t.should_report());
    t.drill_down_done(40);
    assert_eq!(t.drill_probes(), 40);
    t.candidate_done();
    t.candidate_done();
    t.candidate_done();
    assert_eq!(t.reported(), 3);
    assert!(t.is_complete() && t.should_report());
    assert_eq!(t.probes_sent(), 44);
    t.drill_down_done(usize::MAX);
    assert_eq!(t.drill_probes(), usize::MAX);
    assert_eq!(t.probes_sent(), usize::MAX);
}

#[test]
fn capping_keeps_seeds_and_the_alt_port_floor() {
    let seeds: Vec<u32> = (0..10).collect();
    let t1: Vec<u32> = (100..20_100).collect();
    let t2: Vec<u32> = (30_000..30_500).collect();
    let t3: Vec<u32> = (40_000..42_000).collect();
    let out = cap_and_order(seeds, t1, t2, t3);
    assert_eq!(out.len(), 20_000);
    assert_eq!(&out[..10], &(0..10).collect::<Vec<u32>>()[..]);
    assert_eq!(out.iter().filter(|x| **x >= 40_000).count(), 1000);
    assert!(out.iter().all(|x| *x < 30_000 || *x >= 40_000));
    let small = cap_and_order(vec![1u32], vec![2], vec![3], vec![4]);
    assert_eq!(small, vec![1, 2, 3, 4]);
}

#[test]
fn weight_sampling_has_floors() {
    let mut st = ScanMode::Balanced.strategy(&profile());
    st.sample_per_cidr = 100;
    assert_eq!(sample_for_weight(&st, 10, 10), 100);
    assert_eq!(sample_for_weight(&st, 1, 10), 20);
    st.sample_per_cidr = 10;
    assert_eq!(sample_for_weight(&st, 1, 10), 8);
    st.full_subnet = true;
    assert_eq!(sample_for_weight(&st, 10, 10), 0);
}

#[test]
fn ironclad_hits_are_round_trips() {
    assert_eq!(measured_as(true), Measurement::HttpRoundTrip);
    assert_eq!(measured_as(false), Measurement::HandshakeProbe);
}

#[test]
fn the_test_config_is_small_and_cheap() {
    let c = ProbeConfig::for_test();
    assert_eq!(c.verify_cost, VerifyCost::Cheap);
    assert_eq!(c.cache_kind, CacheKind::Masque);
    assert_eq!(c.seeds_v4, &["10.0.0.1", "10.0.0.2"]);
    assert!(c.config_path.is_empty());
    let _: Strategy = ScanMode::Turbo.strategy(&c.profile);
}

const NOW_MS: u64 = 10_000_000;

#[test]
fn a_full_cache_loses_the_oldest_session_not_all_of_them() {
    let entries = vec![
        (1u32, NOW_MS - 6_000),
        (2u32, NOW_MS - 5_000),
        (3u32, NOW_MS - 4_000),
        (4u32, NOW_MS - 3_000),
    ];
    let dropped = wg_evictions(&entries, NOW_MS, WG_SESSION_TTL_MS, WG_SESSION_CAPACITY);
    assert_eq!(dropped, vec![1u32], "only the oldest makes room");
}

#[test]
fn expired_sessions_make_room_without_evicting_live_ones() {
    let stale: u64 = 200_000;
    let entries = vec![
        (1u32, NOW_MS - stale),
        (2u32, NOW_MS - stale),
        (3u32, NOW_MS - 2_000),
        (4u32, NOW_MS - 1_000),
    ];
    let dropped = wg_evictions(&entries, NOW_MS, WG_SESSION_TTL_MS, WG_SESSION_CAPACITY);
    assert_eq!(dropped.len(), 2, "the two expired ones and nothing else");
    assert!(dropped.contains(&1u32) && dropped.contains(&2u32));
}

#[test]
fn nothing_is_dropped_while_there_is_room() {
    let entries = vec![(1u32, NOW_MS), (2u32, NOW_MS - 1_000)];
    assert!(wg_evictions(&entries, NOW_MS, WG_SESSION_TTL_MS, WG_SESSION_CAPACITY).is_empty());
}

#[test]
fn a_zero_capacity_cache_does_not_underflow() {
    let entries = vec![(1u32, NOW_MS)];
    assert_eq!(wg_evictions(&entries, NOW_MS, WG_SESSION_TTL_MS, 0), vec![1u32]);
}

#[test]
fn evictions_take_the_oldest_live_sessions_in_age_order() {
    let entries = vec![
        (10u32, NOW_MS - 1_000),
        (11u32, NOW_MS - 300_000),
        (12u32, NOW_MS - 9_000),
        (13u32, NOW_MS - 4_000),
        (14u32, NOW_MS - 9_000),
        (15u32, NOW_MS - 2_000),
    ];
    // One expired; five live for three slots: the two oldest go, the earlier
    // of the two tied entries first.
    let dropped = wg_evictions(&entries, NOW_MS, WG_SESSION_TTL_MS, WG_SESSION_CAPACITY);
    assert_eq!(dropped, vec![11u32, 12u32, 14u32]);
}

#[test]
fn a_session_stamped_after_now_is_kept() {
    assert!(wg_session_fresh(NOW_MS + 5_000, NOW_MS, WG_SESSION_TTL_MS));
    let entries = vec![(7u32, NOW_MS + 5_000)];
    assert!(wg_evictions(&entries, NOW_MS, WG_SESSION_TTL_MS, WG_SESSION_CAPACITY).is_empty());
}

#[test]
fn enumerate_cidr_caps_large_prefix_instead_of_empty() {
    let big = enumerate_cidr_v4("10.5.0.0/16");
    assert!(!big.is_empty(), "large CIDR must not silently yield nothing");
    assert!(big.len() <= 4096, "enumeration must be capped");
    assert_eq!(enumerate_cidr_v4("10.9.9.0/30").len(), 2);
}

#[test]
fn a_small_cidr_lists_its_hosts_without_network_and_broadcast() {
    let hosts = enumerate_cidr_v4("192.168.1.0/29");
    let base: u32 = (192u32 << 24) | (168u32 << 16) | (1u32 << 8);
    assert_eq!(hosts, (1..7).map(|i| base + i).collect::<Vec<u32>>());
}

#[test]
fn cidr_parsing_keeps_the_address_as_written() {
    assert_eq!(parse_cidr_v4("10.9.9.7/30"), Some(((10u32 << 24) | (9u32 << 16) | (9u32 << 8) | 7, 30u8)));
    assert_eq!(parse_cidr_v4("10.9.9.0/33"), Some(((10u32 << 24) | (9u32 << 16) | (9u32 << 8), 33u8)));
    assert_eq!(parse_cidr_v4("10.9.9.0"), None);
    assert_eq!(parse_cidr_v4("10.9.300.0/24"), None);
    assert_eq!(parse_cidr_v4("10.9.9.0/256"), None);
    assert_eq!(enumerate_cidr_v4("10.9.9.9/32"), vec![(10u32 << 24) | (9u32 << 16) | (9u32 << 8) | 9]);
}

fn candidate_test_config() -> ProbeConfig {
    ProbeConfig {
        verify_cost: VerifyCost::Cheap,
        cidrs_v4: &["10.0.0.0/24", "10.0.1.0/24"],
        cidrs_v6: &[],
        cidr_weights_v4: &[("10.0.0.0/24", 10), ("10.0.1.0/24", 5)],
        seeds_v4: &["10.0.0.1", "10.0.1.1"],
        seeds_v6: &[],
        cache_kind: CacheKind::Masque,
        label: "gateway",
        config_path: String::new(),
        profile: StrategyProfile {
            turbo_sample: 4,
            balanced_target: 1,
            balanced_sample: 4,
            stealth_target: 1,
            stealth_sample: 4,
        },
    }
}

fn candidate_test_strategy() -> Strategy {
    Strategy {
        concurrency: 8,
        per_probe_timeout_ms: 1000,
        overall_deadline_ms: 10_000,
        quiet_after_first_ms: 0,
        target_successes: 1,
        early_exit_first: true,
        full_subnet: false,
        sample_per_cidr: 4,
    }
}

fn v4(a: u8, b: u8, c: u8, d: u8) -> u128 {
    ((a as u128) << 24) | ((b as u128) << 16) | ((c as u128) << 8) | d as u128
}

#[test]
fn seeds_come_first_across_all_ports() {
    let cands = build_candidates(&candidate_test_config(), &candidate_test_strategy(), &[443, 500], IpScan::V4, &[], &[]);
    let seed_ips = [v4(10, 0, 0, 1), v4(10, 0, 1, 1)];
    for c in cands.iter().take(4) {
        assert!(seed_ips.contains(&c.ip), "first candidates must be seeds, got {c:?}");
    }
    assert!(cands.iter().take(4).any(|c| c.port == 443));
    assert!(cands.iter().take(4).any(|c| c.port == 500));
}

#[test]
fn candidates_are_deduplicated() {
    let cands = build_candidates(&candidate_test_config(), &candidate_test_strategy(), &[443, 500, 443], IpScan::V4, &[], &[]);
    let mut seen: Vec<Candidate> = Vec::new();
    for c in &cands {
        assert!(!seen.contains(c), "duplicate (ip, port) candidates must not appear");
        seen.push(*c);
    }
}

#[test]
fn a_masque_sweep_samples_only_the_first_tier() {
    let cands = build_candidates(&candidate_test_config(), &candidate_test_strategy(), &[443, 500, 8443], IpScan::V4, &[], &[]);
    // Seeds on every tiered port (443, 500, then 8443), then eight sampled
    // hosts of each CIDR on 443 only (a sampled seed address is not repeated).
    assert!(cands.len() >= 2 * 3 + 16 - 2 && cands.len() <= 2 * 3 + 16);
    for c in cands.iter().skip(6) {
        assert_eq!(c.port, 443);
        assert!(!c.v6);
    }
    assert_eq!(cands[0].port, 443);
    assert_eq!(cands[2].port, 500);
    assert_eq!(cands[4].port, 8443);
}

#[test]
fn v6_only_scans_skip_v4_seeds() {
    let cands = build_candidates(&candidate_test_config(), &candidate_test_strategy(), &[443], IpScan::V6, &[], &[]);
    assert!(cands.is_empty(), "no v6 seeds or prefixes configured");
}

#[test]
fn ports_are_deduplicated_and_tiered() {
    assert_eq!(dedup_ports(&[500, 443, 500, 8443, 443]), vec![500, 443, 8443]);
    assert_eq!(dedup_ports(&[]), vec![443]);
    let (t1, t2, t3) = port_tiers(&vec![500, 8443, 1701], &vec![443], &vec![500, 1701, 4500], &vec![443]);
    assert_eq!((t1, t2, t3), (vec![443], vec![500, 1701], vec![8443]));
}

#[test]
fn v4_samples_are_distinct_hosts_of_the_block() {
    for _ in 0..20 {
        let hosts = sample_cidr_v4("10.9.9.0/28", 8);
        assert_eq!(hosts.len(), 8);
        let base = (10u32 << 24) | (9u32 << 16) | (9u32 << 8);
        let mut seen = Vec::new();
        for h in &hosts {
            assert!(*h >= base + 1 && *h <= base + 14);
            assert!(!seen.contains(h));
            seen.push(*h);
        }
    }
    assert_eq!(sample_cidr_v4("10.9.9.0/28", 100).len(), 14, "no more than the block holds");
    assert_eq!(sample_cidr_v4("10.9.9.7/31", 5), vec![(10u32 << 24) | (9u32 << 16) | (9u32 << 8) | 7]);
    assert!(sample_cidr_v4("nonsense", 5).is_empty());
}

#[test]
fn v6_samples_keep_the_prefix_and_embed_a_v4_host() {
    let (base, prefix) = parse_cidr_v6("2606:4700:d0::/48").expect("parses");
    assert_eq!(prefix, 48);
    assert_eq!(base, 0x2606_4700_00d0_0000_0000_0000_0000_0000u128);
    let out = sample_cidr_v6("2606:4700:d0::/48", 16, &["162.159.198.0/24"]);
    assert_eq!(out.len(), 16);
    for a in out {
        assert_eq!(a >> 32, base >> 32);
        let low = (a & 0xffff_ffff) as u32;
        assert_eq!(low >> 8, (162u32 << 16) | (159u32 << 8) | 198);
    }
    assert_eq!(sample_cidr_v6("2606:4700:d0::1/128", 4, &[]), vec![base | 1]);
}

#[test]
fn a_scan_cancelled_through_its_own_token_sees_it_and_no_other_does() {
    let mut reg = ScanRegistry::new();
    let a = register_scan_session(&mut reg);
    let b = register_scan_session(&mut reg);
    assert!(reg.cancel_scan(a));
    assert!(scan_cancelled_for(&reg, a));
    assert!(!scan_cancelled_for(&reg, b), "another scan's token is its own");
    assert!(scan_cancelled(&reg));
    assert!(!reg.cancel_scan(99), "no such scan");
}
