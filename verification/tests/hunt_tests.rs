use aether::hunt::{cache_record, race_start, tier0_verdict, CacheRecord, RaceEvent, RaceStart, Tier0Outcome};
use aether::cache::Measurement;
use aether::error::AetherError;
use aether::hunt::{masque_verify_method, wg_after_handshake, MasqueVerify, WgAfterHandshake};
use aether::prober::{build_candidates, CacheKind, VerifyCost};
use aether::hunt::{masque_port_list, masque_probe_config};
use aether::hunt::{
    cached_rtt_ms, drill_budget_ms, drill_neighbors, family_for_host, no_endpoint_hint, race_width,
    HuntDecision, HuntState, H2_GATEWAY_HINT, H3_GATEWAY_HINT, WG_ENDPOINT_HINT,
};
use aether::diagnostics::journals;
use aether::prober::{Candidate, IpScan, ProbeResult, ScanMode, StrategyProfile};

fn v4(a: u8, b: u8, c: u8, d: u8, port: u16) -> Candidate {
    Candidate { v6: false, ip: u128::from(u32::from_be_bytes([a, b, c, d])), port }
}

fn hit(c: Candidate, rtt_ms: u64) -> ProbeResult {
    ProbeResult { at: c, rtt_ns: rtt_ms * 1_000_000 }
}

fn strategy(mode: ScanMode) -> aether::prober::Strategy {
    let profile = StrategyProfile {
        turbo_sample: 4,
        balanced_target: 3,
        balanced_sample: 8,
        stealth_target: 2,
        stealth_sample: 4,
    };
    mode.strategy(&profile)
}

#[test]
fn the_fastest_hit_wins_and_ties_keep_the_first() {
    let mut st = strategy(ScanMode::Thorough);
    st.early_exit_first = false;
    st.target_successes = 0;
    let mut h = HuntState::new(&st, 10);
    let a = hit(v4(1, 1, 1, 1, 443), 40);
    let b = hit(v4(2, 2, 2, 2, 443), 20);
    let c = hit(v4(3, 3, 3, 3, 443), 20);
    h.on_result(Some(a));
    assert_eq!(h.best(), Some(a));
    h.on_result(Some(b));
    assert_eq!(h.best(), Some(b));
    h.on_result(Some(c));
    assert_eq!(h.best(), Some(b), "a tie keeps the earlier hit");
    assert_eq!(h.found(), 3);
}

#[test]
fn a_second_hit_in_a_subnet_is_not_drilled_again() {
    let st = strategy(ScanMode::Thorough);
    let mut h = HuntState::new(&st, 10);
    let first = h.on_result(Some(hit(v4(162, 159, 192, 1, 443), 10)));
    assert!(first.emit && first.drill);
    let second = h.on_result(Some(hit(v4(162, 159, 192, 7, 443), 12)));
    assert!(second.emit);
    assert!(!second.drill, "the /24 was already drilled");
    let other = h.on_result(Some(hit(v4(162, 159, 193, 7, 443), 12)));
    assert!(other.drill);
}

#[test]
fn a_repeated_address_counts_but_is_not_announced_twice() {
    let st = strategy(ScanMode::Thorough);
    let mut h = HuntState::new(&st, 10);
    let c = v4(9, 9, 9, 9, 443);
    assert!(h.on_result(Some(hit(c, 5))).emit);
    assert!(!h.on_result(Some(hit(c, 6))).emit);
    assert_eq!(h.found(), 2);
}

#[test]
fn drill_down_hits_already_seen_are_neither_announced_nor_counted() {
    let st = strategy(ScanMode::Thorough);
    let mut h = HuntState::new(&st, 10);
    let seen = v4(10, 0, 0, 5, 443);
    h.on_result(Some(hit(seen, 30)));
    let fresh = hit(v4(10, 0, 0, 6, 443), 8);
    let emitted = h.on_drill(&[hit(seen, 1), fresh, fresh], Some(40));
    assert_eq!(emitted, vec![fresh]);
    assert_eq!(h.found(), 2);
    assert_eq!(h.best(), Some(fresh));
    assert_eq!(h.tally().drill_probes(), 40);
    assert_eq!(h.tally().reported(), 1, "drill probes stay out of the sweep count");
}

#[test]
fn an_abandoned_wave_counts_no_probes() {
    let st = strategy(ScanMode::Thorough);
    let mut h = HuntState::new(&st, 10);
    let emitted = h.on_drill(&[], None);
    assert!(emitted.is_empty());
    assert_eq!(h.tally().drill_probes(), 0);
}

#[test]
fn progress_is_reported_every_fifty_and_at_the_end() {
    let st = strategy(ScanMode::Thorough);
    let mut h = HuntState::new(&st, 51);
    let mut reports = Vec::new();
    for _ in 0..51 {
        if let Some(n) = h.on_result(None).progress {
            reports.push(n);
        }
    }
    assert_eq!(reports, vec![50, 51]);
}

#[test]
fn first_hit_modes_exit_with_the_best() {
    let mut st = strategy(ScanMode::Turbo);
    st.early_exit_first = true;
    let mut h = HuntState::new(&st, 10);
    let a = hit(v4(1, 1, 1, 1, 443), 7);
    h.on_result(Some(a));
    assert_eq!(h.decide(a), HuntDecision::Exit(a));
}

#[test]
fn reaching_the_target_opens_the_quiet_window_once() {
    let mut st = strategy(ScanMode::Thorough);
    st.early_exit_first = false;
    st.target_successes = 2;
    st.quiet_after_first_ms = 1500;
    let mut h = HuntState::new(&st, 10);
    let a = hit(v4(1, 1, 1, 1, 443), 7);
    h.on_result(Some(a));
    assert_eq!(h.decide(a), HuntDecision::Continue);
    let b = hit(v4(1, 1, 2, 1, 443), 9);
    h.on_result(Some(b));
    assert_eq!(h.decide(b), HuntDecision::StartQuiet);
    assert!(h.in_quiet_window());
    let c = hit(v4(1, 1, 3, 1, 443), 9);
    h.on_result(Some(c));
    assert_eq!(h.decide(c), HuntDecision::Continue);
}

#[test]
fn reaching_the_target_without_a_quiet_window_finishes() {
    let mut st = strategy(ScanMode::Thorough);
    st.early_exit_first = false;
    st.target_successes = 1;
    st.quiet_after_first_ms = 0;
    let mut h = HuntState::new(&st, 10);
    let a = hit(v4(1, 1, 1, 1, 443), 7);
    h.on_result(Some(a));
    assert_eq!(h.decide(a), HuntDecision::Finish);
}

#[test]
fn v4_drill_neighbours_stay_inside_the_slash_24() {
    let n = drill_neighbors(v4(162, 159, 198, 250, 443));
    assert!(n.iter().all(|c| !c.v6 && c.port == 443));
    let hosts: Vec<u128> = n.iter().map(|c| c.ip & 0xff).collect();
    assert!(hosts.iter().all(|&h| (1..=254).contains(&h) && h != 250));
    assert_eq!(&hosts[..4], &[251, 249, 252, 248]);
    assert!(n.iter().all(|c| c.ip >> 8 == u128::from(u32::from_be_bytes([0, 162, 159, 198]))));
    let mut d = hosts.clone();
    d.sort();
    d.dedup();
    assert_eq!(d.len(), hosts.len());
}

#[test]
fn v6_drill_neighbours_step_up_the_last_word() {
    let base: u128 = 0x2606_4700_0000_0000_0000_0000_0000_0000;
    let n = drill_neighbors(Candidate { v6: true, ip: base | 0xfff0, port: 2408 });
    let lasts: Vec<u128> = n.iter().map(|c| c.ip & 0xffff).collect();
    assert_eq!(lasts, vec![0xfff1, 0xfff2, 0xfff3, 0xfff4, 0xfff5, 0xfffa, 0xffff]);
    assert!(n.iter().all(|c| c.v6 && c.port == 2408 && c.ip >> 16 == base >> 16));
}

#[test]
fn a_host_without_ipv6_narrows_the_scan() {
    assert_eq!(family_for_host(IpScan::Both, false), Some(IpScan::V4));
    assert_eq!(family_for_host(IpScan::V6, false), None);
    assert_eq!(family_for_host(IpScan::V6, true), Some(IpScan::V6));
    assert_eq!(family_for_host(IpScan::V4, false), Some(IpScan::V4));
}

#[test]
fn drill_waves_are_bounded() {
    assert_eq!(drill_budget_ms(None), 8000);
    assert_eq!(drill_budget_ms(Some(3000)), 3000);
    assert_eq!(drill_budget_ms(Some(30000)), 8000);
    assert_eq!(race_width(0), 0);
    assert_eq!(race_width(3), 3);
    assert_eq!(race_width(12), 5);
    assert_eq!(cached_rtt_ms(42_900_000), 42);
}

#[test]
fn the_empty_hunt_hint_names_the_blocked_transport() {
    assert_eq!(no_endpoint_hint("MASQUE gateway", true), H2_GATEWAY_HINT);
    assert_eq!(no_endpoint_hint("MASQUE gateway", false), H3_GATEWAY_HINT);
    assert_eq!(no_endpoint_hint("WireGuard endpoint", false), WG_ENDPOINT_HINT);
}

#[test]
fn no_journals_outside_windows() {
    assert!(journals().is_empty());
}

#[test]
fn the_masque_pool_is_planned_per_transport() {
    let h3 = masque_probe_config("aether.toml".to_string(), false);
    assert_eq!(h3.verify_cost, VerifyCost::Expensive);
    assert_eq!(masque_probe_config(String::new(), true).verify_cost, VerifyCost::Cheap);
    assert_eq!(h3.cache_kind, CacheKind::Masque);
    assert_eq!(h3.label, "gateway");
    assert_eq!(h3.cidrs_v4.len(), 14);
    assert_eq!(h3.cidr_weights_v4[0], ("162.159.198.0/24", 10));
    assert_eq!(h3.seeds_v6.len(), 4);
    assert!(h3.hosts_fit());
    let st = ScanMode::Turbo.strategy(&h3.profile);
    let ports = masque_port_list();
    let c = build_candidates(&h3, &st, &ports, IpScan::V4, &[], &[]);
    assert!(!c.is_empty());
    let seeds: Vec<u128> = [[162, 159, 196, 1], [162, 159, 195, 1], [162, 159, 192, 1], [162, 159, 197, 3],
        [162, 159, 197, 1], [162, 159, 198, 2], [162, 159, 198, 1], [162, 159, 193, 1]]
        .iter()
        .map(|o| u128::from(u32::from_be_bytes(*o)))
        .collect();
    assert_eq!(c[0].port, 443);
    assert!(seeds.contains(&c[0].ip), "a seed leads the queue");
}

#[test]
fn each_mode_verifies_a_masque_candidate_its_own_way() {
    assert_eq!(masque_verify_method(true, true), MasqueVerify::HttpPing);
    assert_eq!(masque_verify_method(false, true), MasqueVerify::H2Handshake);
    assert_eq!(masque_verify_method(false, false), MasqueVerify::H3Handshake);
    assert_eq!(wg_after_handshake(false), WgAfterHandshake::KeepSession);
    assert_eq!(wg_after_handshake(true), WgAfterHandshake::HttpPing);
}

#[test]
fn an_empty_hunt_finds_no_clean_endpoint_and_records_nothing() {
    let st = strategy(ScanMode::Thorough);
    let mut h = HuntState::new(&st, 3);
    h.on_result(None);
    let (r, rec) = h.finish(false);
    assert!(matches!(r, Err(AetherError::NoCleanEndpoint)));
    assert_eq!(rec, None);
}

#[test]
fn a_cancelled_hunt_keeps_and_records_its_best_so_far() {
    let mut st = strategy(ScanMode::Thorough);
    st.early_exit_first = false;
    let mut h = HuntState::new(&st, 100);
    let a = hit(v4(10, 0, 0, 1, 443), 10);
    h.on_result(Some(a));
    h.on_result(Some(hit(v4(10, 0, 1, 1, 443), 30)));
    let (r, rec) = h.finish(true);
    assert_eq!(r.unwrap(), a);
    assert_eq!(
        rec,
        Some(CacheRecord { at: a.at, rtt_ms: 10, measured: Measurement::HttpRoundTrip })
    );
    assert_eq!(cache_record(a, false).measured, Measurement::HandshakeProbe);
}

#[test]
fn the_first_round_races_the_best_five_cached_endpoints() {
    let cached: Vec<(Candidate, u32)> = (1..=7u8).map(|i| (v4(10, 0, 0, i, 443), u32::from(i))).collect();
    assert_eq!(tier0_verdict(Tier0Outcome::Miss).is_none(), true);
    match race_start(&Vec::new(), false) {
        RaceStart::Done(o) => assert_eq!(o, Tier0Outcome::Miss),
        RaceStart::Race(..) => panic!("nothing cached must be a miss"),
    }
    match race_start(&cached, true) {
        RaceStart::Done(o) => assert_eq!(o, Tier0Outcome::Cancelled),
        RaceStart::Race(..) => panic!("a cancel before the round must start no probe"),
    }
    let (mut race, probes) = match race_start(&cached, false) {
        RaceStart::Race(r, p) => (r, p),
        RaceStart::Done(o) => panic!("unexpected {o:?}"),
    };
    let want: Vec<Candidate> = cached.iter().take(5).map(|e| e.0).collect();
    assert_eq!(probes, want);
    assert_eq!(race.on_event(RaceEvent::Probe(None), true), None);
    let w = hit(probes[2], 42);
    let done = race.on_event(RaceEvent::Probe(Some(w)), true).unwrap();
    assert_eq!(done.0, Tier0Outcome::Winner(w));
    assert_eq!(done.1, Some(CacheRecord { at: w.at, rtt_ms: 42, measured: Measurement::HttpRoundTrip }));
    assert!(matches!(tier0_verdict(done.0), Some(Ok(x)) if x == w));
    assert!(matches!(tier0_verdict(Tier0Outcome::Cancelled), Some(Err(AetherError::NoCleanEndpoint))));
}

#[test]
fn a_round_where_every_probe_fails_is_a_miss() {
    let cached = vec![(v4(10, 0, 0, 1, 443), 5u32), (v4(10, 0, 0, 2, 443), 6u32)];
    let mut race = match race_start(&cached, false) {
        RaceStart::Race(r, p) => {
            assert_eq!(p.len(), 2);
            r
        },
        RaceStart::Done(o) => panic!("unexpected {o:?}"),
    };
    assert_eq!(race.on_event(RaceEvent::Probe(None), false), None);
    assert_eq!(race.on_event(RaceEvent::Probe(None), false), Some((Tier0Outcome::Miss, None)));
    assert_eq!(race.on_event(RaceEvent::Cancel, false), Some((Tier0Outcome::Cancelled, None)));
}
