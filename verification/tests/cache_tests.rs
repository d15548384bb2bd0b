use aether::cache::sanitise_counted;
use aether::cache::{lock_timeout_message, owner_diagnostic, owner_pid};
use aether::cache::{owner_pid_text, owner_record, provision_lock_path};
use aether::cache::{
    address_is_plausible, decay_stale_at, entries_for, record_failure_on, record_success_on,
    sanitise, upsert, CachedEndpoint, EndpointsCache, Measurement, SockAddr, TransportKind,
    CACHE_VERSION, EVICT_AFTER_CONSECUTIVE_FAILURES, MAX_CACHED, MAX_SUCCESSES,
};

fn v4(a: u8, b: u8, c: u8, d: u8, port: u16) -> SockAddr {
    SockAddr {
        v6: false,
        ip: ((a as u128) << 24) | ((b as u128) << 16) | ((c as u128) << 8) | d as u128,
        port,
        scope_id: 0,
    }
}

fn v6(words: [u16; 8], port: u16) -> SockAddr {
    let mut ip: u128 = 0;
    for w in words {
        ip = (ip << 16) | w as u128;
    }
    SockAddr { v6: true, ip, port, scope_id: 0 }
}

fn entry(addr: SockAddr, stamp: u64, succ: u32, rtt: u32) -> CachedEndpoint {
    CachedEndpoint {
        addr,
        timestamp: stamp,
        rtt_ms: rtt,
        successes: succ,
        failures: 0,
        consecutive_failures: 0,
        transport: TransportKind::default(),
        measurement: Measurement::default(),
    }
}

const NOW: u64 = 1_800_000_000;

#[test]
fn sanitising_rejects_fabricated_history() {
    let mut list = vec![
        entry(v4(93, 184, 216, 34, 443), NOW, 5, 40),
        entry(v4(93, 184, 216, 35, 443), NOW + 3600, 5, 40),
        entry(v4(169, 254, 169, 254, 443), NOW, 9, 1),
        entry(v4(127, 0, 0, 1, 1080), NOW, 9, 1),
        entry(v4(224, 0, 0, 5, 443), NOW, 9, 1),
    ];
    let rejected = sanitise(&mut list, NOW);
    assert_eq!(rejected.future_timestamp, 1, "{rejected:?}");
    assert_eq!(rejected.implausible_address, 3, "{rejected:?}");
    assert_eq!(list.len(), 1);
    assert_eq!(list[0].addr.port, 443);

    let mut clamped = vec![entry(v4(93, 184, 216, 34, 443), NOW, u32::MAX, 999_999)];
    let r = sanitise(&mut clamped, NOW);
    assert_eq!(r.clamped_counters, 1);
    assert_eq!(r.implausible_rtt, 1);
    assert_eq!(clamped[0].successes, MAX_SUCCESSES);
    assert_eq!(clamped[0].rtt_ms, 0, "an impossible rtt must not earn points");
}

#[test]
fn a_stamp_within_the_skew_is_kept() {
    let mut list = vec![entry(v4(8, 8, 8, 8, 53), NOW + 300, 1, 10), entry(v4(8, 8, 4, 4, 53), NOW + 301, 1, 10)];
    let r = sanitise(&mut list, NOW);
    assert_eq!(r.future_timestamp, 1);
    assert_eq!(list.len(), 1);
    assert_eq!(list[0].addr, v4(8, 8, 8, 8, 53));
}

#[test]
fn implausible_addresses_cover_both_families() {
    assert!(address_is_plausible(v4(162, 159, 193, 1, 443)));
    assert!(!address_is_plausible(v4(0, 0, 0, 0, 443)));
    assert!(address_is_plausible(v4(0, 0, 0, 1, 443)), "only the unspecified address itself");
    assert!(!address_is_plausible(v4(239, 255, 255, 250, 1900)));
    assert!(!address_is_plausible(v6([0, 0, 0, 0, 0, 0, 0, 1], 443)));
    assert!(!address_is_plausible(v6([0; 8], 443)));
    assert!(!address_is_plausible(v6([0xfe80, 0, 0, 0, 0, 0, 0, 1], 443)));
    assert!(!address_is_plausible(v6([0xff02, 0, 0, 0, 0, 0, 0, 1], 443)));
    assert!(address_is_plausible(v6([0x2606, 0x4700, 0, 0, 0, 0, 0, 1], 443)));
}

#[test]
fn stale_entries_are_dropped_before_sanitising() {
    let mut list = vec![
        entry(v4(1, 1, 1, 1, 443), NOW - 21_600, 1, 10),
        entry(v4(1, 0, 0, 1, 443), NOW - 21_599, 1, 10),
        entry(v4(127, 0, 0, 1, 443), NOW, 1, 10),
    ];
    let r = decay_stale_at(&mut list, NOW);
    assert_eq!(list.len(), 1);
    assert_eq!(list[0].addr, v4(1, 0, 0, 1, 443));
    assert_eq!(r.implausible_address, 1);
}

#[test]
fn a_failure_over_one_transport_cannot_evict_the_other() {
    let gw = v4(162, 159, 193, 1, 443);
    let mut list: Vec<CachedEndpoint> = Vec::new();
    record_success_on(&mut list, gw, TransportKind::H2, NOW);
    for _ in 0..EVICT_AFTER_CONSECUTIVE_FAILURES {
        record_failure_on(&mut list, gw, TransportKind::Quic, NOW);
    }
    assert_eq!(
        entries_for(&list, TransportKind::H2).len(),
        1,
        "a gateway that never failed over H2 must not be evicted by QUIC failures"
    );

    record_success_on(&mut list, gw, TransportKind::Quic, NOW);
    assert_eq!(entries_for(&list, TransportKind::Quic).len(), 1);
    for _ in 0..EVICT_AFTER_CONSECUTIVE_FAILURES {
        record_failure_on(&mut list, gw, TransportKind::Quic, NOW);
    }
    assert!(entries_for(&list, TransportKind::Quic).is_empty());
    assert_eq!(entries_for(&list, TransportKind::H2).len(), 1);
}

#[test]
fn a_success_over_one_transport_does_not_reset_the_other() {
    let gw = v4(162, 159, 193, 1, 443);
    let mut list: Vec<CachedEndpoint> = Vec::new();
    record_success_on(&mut list, gw, TransportKind::Quic, NOW);
    record_failure_on(&mut list, gw, TransportKind::Quic, NOW);
    record_success_on(&mut list, gw, TransportKind::H2, NOW);
    let quic = list
        .iter()
        .find(|e| e.addr == gw && e.transport == TransportKind::Quic)
        .expect("quic entry");
    assert_eq!(quic.consecutive_failures, 1, "the H2 connect says nothing about this endpoint over QUIC");
}

#[test]
fn a_success_resets_the_streak_and_counts() {
    let gw = v4(9, 9, 9, 9, 443);
    let mut list = vec![entry(gw, NOW - 10, 2, 30)];
    record_failure_on(&mut list, gw, TransportKind::Quic, NOW);
    record_failure_on(&mut list, gw, TransportKind::Quic, NOW);
    assert_eq!(list[0].consecutive_failures, 2);
    assert_eq!(list[0].failures, 2);
    record_success_on(&mut list, gw, TransportKind::Quic, NOW + 1);
    assert_eq!(list[0].consecutive_failures, 0);
    assert_eq!(list[0].successes, 3);
    assert_eq!(list[0].timestamp, NOW + 1);
    record_failure_on(&mut list, v4(9, 9, 9, 8, 443), TransportKind::Quic, NOW);
    assert_eq!(list.len(), 1, "a failure on an unknown endpoint changes nothing");
}

#[test]
fn a_new_success_goes_in_front_and_the_list_stays_capped() {
    let mut list: Vec<CachedEndpoint> = (0..MAX_CACHED as u8).map(|i| entry(v4(10, 0, 0, i, 443), NOW, 1, 10)).collect();
    record_success_on(&mut list, v4(1, 2, 3, 4, 443), TransportKind::Quic, NOW);
    assert_eq!(list.len(), MAX_CACHED);
    assert_eq!(list[0].addr, v4(1, 2, 3, 4, 443));
    assert_eq!(list[0].successes, 1);
    assert_eq!(list[MAX_CACHED - 1].addr, v4(10, 0, 0, 8, 443));
}

#[test]
fn scan_hits_keep_accrued_trust_and_come_first_in_order() {
    let a = v4(1, 1, 1, 1, 443);
    let b = v4(2, 2, 2, 2, 443);
    let c = v4(3, 3, 3, 3, 443);
    let mut old_a = entry(a, NOW - 100, 7, 80);
    old_a.failures = 2;
    old_a.consecutive_failures = 2;
    let mut list = vec![entry(c, NOW - 50, 1, 10), old_a];
    upsert(&mut list, vec![(b, 20), (a, 15)], TransportKind::Quic, Measurement::HttpRoundTrip, NOW);
    assert_eq!(list.len(), 3);
    assert_eq!(list[0].addr, b);
    assert_eq!(list[0].successes, 0);
    assert_eq!(list[1].addr, a);
    assert_eq!((list[1].successes, list[1].failures, list[1].consecutive_failures), (7, 2, 0));
    assert_eq!(list[1].rtt_ms, 15);
    assert_eq!(list[1].measurement, Measurement::HttpRoundTrip);
    assert_eq!(list[2].addr, c);

    let many: Vec<(SockAddr, u32)> = (0..15u8).map(|i| (v4(20, 0, 0, i, 443), 5)).collect();
    upsert(&mut list, many, TransportKind::Quic, Measurement::HandshakeProbe, NOW);
    assert_eq!(list.len(), MAX_CACHED);
    assert_eq!(list[0].addr, v4(20, 0, 0, 0, 443));
}

#[test]
fn a_writer_stamps_the_schema() {
    let mut c = EndpointsCache::empty();
    assert_eq!(c.version, 0);
    c.stamp(NOW);
    assert_eq!(c.version, CACHE_VERSION);
    assert_eq!(c.written_at, NOW);
}

#[test]
fn the_provisioning_lock_names_its_owner() {
    assert_eq!(provision_lock_path("/x/aether-endpoints.json"), "/x/aether-endpoints.json.provision.lock");
    assert_eq!(owner_record(4242), "pid=4242\n");
    assert_eq!(owner_pid_text("pid=4242\n"), "4242");
    assert_eq!(owner_pid_text("junk\npid=pid= 17 \n"), "17");
    assert_eq!(owner_pid_text("nothing here"), "unknown");
    assert_eq!(owner_pid_text(""), "unknown");
}

#[test]
fn a_timed_out_lock_names_its_holder() {
    assert_eq!(owner_pid("pid=4242\n"), Some(4242));
    assert_eq!(owner_pid("nobody here"), None);
    assert_eq!(owner_diagnostic("pid=4242\n", true), "held by pid=4242 (alive=true)");
    assert_eq!(owner_diagnostic("pid= 7 \n", false), "held by pid=7 (alive=false)");
    assert_eq!(owner_diagnostic("garbage\n", false), "raw lock content: \"garbage\\n\"");
    assert_eq!(
        lock_timeout_message(60, "/tmp/x.provision.lock", "held by pid=1 (alive=true)"),
        "provisioning lock acquisition timed out after 60s on /tmp/x.provision.lock [held by pid=1 (alive=true)]"
    );
}

#[test]
fn sanitising_counts_the_dropped_entries() {
    let counter = std::sync::atomic::AtomicU64::new(0);
    let mut list = vec![entry(v4(93, 184, 216, 35, 443), NOW + 3600, 1, 10), entry(v4(93, 184, 216, 34, 443), NOW, 1, 10)];
    let r = sanitise_counted(&mut list, NOW, &counter);
    assert_eq!(r.dropped(), 1);
    assert_eq!(list.len(), 1);
    assert_eq!(counter.load(std::sync::atomic::Ordering::Relaxed), 1);
    let mut clean = vec![entry(v4(93, 184, 216, 34, 443), NOW, 1, 10)];
    sanitise_counted(&mut clean, NOW, &counter);
    assert_eq!(counter.load(std::sync::atomic::Ordering::Relaxed), 1, "nothing dropped, nothing counted");
}
