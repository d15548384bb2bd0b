use aether::quic::{status_step, stream_end_error};
use aether::consts::{CONNECT_SNI, QUIC_V2_VERSION};
use aether::quic::{
    build_version_bait, classify_status, is_forwardable_ip_packet, probe_decision,
    quic_v2_bait_enabled, resolve_h3_authority, resolve_h3_path, resolve_h3_sni,
    resolve_h3_sni_from, version_bait_with, Keepalive, KeepaliveTick, ProbeStatus, StatusAction,
    H3Fingerprint, IDLE_TIMEOUT_MS, KEEPALIVE_INTERVAL_MS, KEEPALIVE_MAX_UNANSWERED,
    QUIC_V2_BAIT_LEN, quic_varint2,
};

#[test]
fn two_unanswered_keepalives_end_the_session() {
    let mut ka = Keepalive::default();
    assert_eq!(ka.tick(), KeepaliveTick::Send);
    assert_eq!(ka.tick(), KeepaliveTick::Send);
    assert_eq!(ka.tick(), KeepaliveTick::GiveUp { unanswered: 2 });
}

#[test]
fn one_inbound_packet_answers_every_pending_probe() {
    let mut ka = Keepalive::default();
    assert_eq!(ka.tick(), KeepaliveTick::Send);
    assert_eq!(ka.tick(), KeepaliveTick::Send);
    ka.inbound();
    assert_eq!(ka.unanswered(), 0);
    assert_eq!(ka.tick(), KeepaliveTick::Send, "the budget restarts");
}

#[test]
fn the_keepalive_budget_is_spent_inside_the_idle_timeout() {
    let worst_case = KEEPALIVE_INTERVAL_MS * (KEEPALIVE_MAX_UNANSWERED as u64 + 1);
    assert!(
        worst_case <= 45_000,
        "keepalive gives up after {worst_case} ms, past the 45 s idle timeout"
    );
    assert_eq!(IDLE_TIMEOUT_MS, 45_000);
}

#[test]
fn status_is_stream_scoped_and_interim_responses_are_not_fatal() {
    assert_eq!(classify_status(8, 0, "200"), StatusAction::Ignore);
    assert_eq!(classify_status(0, 0, "103"), StatusAction::Interim);
    assert_eq!(classify_status(0, 0, "100"), StatusAction::Interim);
    assert_eq!(classify_status(0, 0, "200"), StatusAction::Ready);
    assert_eq!(classify_status(0, 0, "400"), StatusAction::Fatal);
    assert_eq!(classify_status(0, 0, "500"), StatusAction::Fatal);
    assert_eq!(classify_status(0, 0, "garbage"), StatusAction::Fatal);
}

#[test]
fn the_probe_waits_through_interim_responses_like_the_tunnel() {
    for interim in ["100", "101", "102", "103", "199"] {
        assert!(
            matches!(classify_status(0, 0, interim), StatusAction::Interim),
            "classifier moved on: {interim}"
        );
        assert_eq!(
            probe_decision(0, 0, interim),
            ProbeStatus::Wait,
            "the probe called interim {interim} fatal"
        );
    }
    assert_eq!(probe_decision(0, 0, "200"), ProbeStatus::Ready);
    assert_eq!(probe_decision(0, 0, "204"), ProbeStatus::Ready);
    assert!(
        matches!(probe_decision(0, 0, "403"), ProbeStatus::Failed(_)),
        "a refusal must still be a refusal"
    );
    assert!(
        matches!(probe_decision(0, 0, "nonsense"), ProbeStatus::Failed(_)),
        "an unparseable status must not be read as success"
    );
    assert_eq!(probe_decision(8, 0, "200"), ProbeStatus::Wait);
}

#[test]
fn data_plane_proof_rejects_icmp_errors_and_accepts_replies() {
    fn ipv4(proto: u8) -> Vec<u8> {
        let h = vec![
            0x45, 0x00, 0x00, 0x1c, 0x00, 0x00, 0x00, 0x00, 64, proto, 0x00, 0x00, 1, 1, 1, 1, 2,
            2, 2, 2,
        ];
        assert_eq!(h[9], proto);
        h
    }
    let mut unreachable = ipv4(1);
    unreachable.push(3);
    assert!(!is_forwardable_ip_packet(&unreachable));
    let mut reply = ipv4(1);
    reply.push(0);
    assert!(is_forwardable_ip_packet(&reply));
    let mut udp = ipv4(17);
    udp.extend_from_slice(&[0x12, 0x34, 0x00, 0x08, 0x00, 0x00, 0xab, 0xcd]);
    assert!(is_forwardable_ip_packet(&udp));
    assert!(!is_forwardable_ip_packet(&ipv4(17)));
    assert!(!is_forwardable_ip_packet(&[0x45, 0, 0, 0]));
    assert!(!is_forwardable_ip_packet(&[]));
    assert!(!is_forwardable_ip_packet(&[0x00, 0x01]));
    assert!(!is_forwardable_ip_packet(&[]));
    assert!(!is_forwardable_ip_packet(&[0x00, 0x01]));
}

#[test]
fn h3_sni_defaults_to_consumer_masque() {
    assert_eq!(resolve_h3_sni_from(None, None), CONNECT_SNI);
}

#[test]
fn h3_sni_prefers_specific_override() {
    assert_eq!(
        resolve_h3_sni_from(Some("a.example".into()), Some("b.example".into())),
        "a.example"
    );
}

#[test]
fn h3_sni_falls_back_to_generic_then_blank_ignored() {
    assert_eq!(
        resolve_h3_sni_from(Some("   ".into()), Some("b.example".into())),
        "b.example"
    );
    assert_eq!(resolve_h3_sni_from(Some(String::new()), None), CONNECT_SNI);
}

#[test]
fn the_bait_is_a_v2_versioned_long_header_of_the_minimum_size() {
    let pkt = build_version_bait();
    assert_eq!(pkt.len(), QUIC_V2_BAIT_LEN);
    assert_eq!(pkt[0] & 0x80, 0x80, "long header form bit must be set");
    assert_eq!(pkt[0] & 0x40, 0x40, "fixed bit must be set");
    assert_eq!(
        u32::from_be_bytes([pkt[1], pkt[2], pkt[3], pkt[4]]),
        QUIC_V2_VERSION,
        "the version field must be QUIC v2 so the filter treats the flow as v2"
    );
    assert_eq!(pkt[5], 8, "destination connection id length");
    assert_eq!(pkt[14], 8, "source connection id length");
}

#[test]
fn two_baits_do_not_share_connection_ids() {
    let a = build_version_bait();
    let b = build_version_bait();
    assert_ne!(a[6..14], b[6..14], "each bait must use a fresh dcid");
}

#[test]
fn the_bait_is_on_unless_it_is_turned_off() {
    assert!(quic_v2_bait_enabled(None), "absent means on");
    for off in ["0", "off", "false", "no", "OFF"] {
        assert!(!quic_v2_bait_enabled(Some(off)), "{off:?} must disable the bait");
    }
    assert!(quic_v2_bait_enabled(Some("")), "an empty value is not a setting");
    for on in ["1", "true", "yes", "on"] {
        assert!(quic_v2_bait_enabled(Some(on)), "{on:?} must keep the bait on");
    }
}

#[test]
fn bait_layout_with_fixed_ids() {
    let pkt = version_bait_with(&[1; 8], &[2; 8], &[3; 4]);
    assert_eq!(pkt.len(), 1200);
    assert_eq!(&pkt[..6], &[0xc3, 0x6b, 0x33, 0x43, 0xcf, 8]);
    assert_eq!(&pkt[6..14], &[1; 8]);
    assert_eq!(pkt[14], 8);
    assert_eq!(&pkt[15..23], &[2; 8]);
    assert_eq!(pkt[23], 0);
    // 1200 - 24 - 2 = 1174 = 0x496, as a two-byte varint.
    assert_eq!(&pkt[24..26], &[0x44, 0x96]);
    assert_eq!(&pkt[26..30], &[3; 4]);
    assert!(pkt[30..].iter().all(|&b| b == 0));
}

#[test]
fn varint2_keeps_fourteen_bits() {
    assert_eq!(quic_varint2(1174), [0x44, 0x96]);
    assert_eq!(quic_varint2(0x7fff), [0x7f, 0xff]);
    assert_eq!(quic_varint2(0), [0x40, 0x00]);
}

#[test]
fn h3_names_take_trimmed_overrides() {
    assert_eq!(resolve_h3_sni(Some(" x.example "), Some("y")), "x.example");
    assert_eq!(resolve_h3_sni(None, Some("  ")), CONNECT_SNI);
    assert_eq!(resolve_h3_authority(None), "cloudflareaccess.com");
    assert_eq!(resolve_h3_authority(Some(" a.example ")), "a.example");
    assert_eq!(resolve_h3_path(Some("")), "/");
    assert_eq!(resolve_h3_path(Some("/masque")), "/masque");
}

#[test]
fn a_status_with_padding_or_plus_is_a_number() {
    assert_eq!(classify_status(0, 0, " 200 "), StatusAction::Ready);
    assert_eq!(classify_status(0, 0, "+204"), StatusAction::Ready);
    assert_eq!(classify_status(0, 0, "99"), StatusAction::Fatal);
    assert_eq!(classify_status(0, 0, "70000"), StatusAction::Fatal);
    assert_eq!(probe_decision(0, 0, "403"), ProbeStatus::Failed("status 403".to_string()));
}

#[test]
fn ipv6_packets_are_judged_by_next_header() {
    let mut pkt = vec![0u8; 40];
    pkt[0] = 0x60;
    pkt[6] = 58;
    assert!(!is_forwardable_ip_packet(&pkt));
    pkt.push(129);
    assert!(!is_forwardable_ip_packet(&pkt));
    pkt[40] = 0;
    assert!(is_forwardable_ip_packet(&pkt));
    pkt[6] = 6;
    assert!(is_forwardable_ip_packet(&pkt));
    pkt[6] = 99;
    assert!(!is_forwardable_ip_packet(&pkt));
}

#[test]
fn masque_needs_both_capabilities() {
    let f = H3Fingerprint { reachable: true, ext_connect: true, dgram: false };
    assert!(!f.is_masque());
    let f = H3Fingerprint { reachable: true, ext_connect: true, dgram: true };
    assert!(f.is_masque());
}

use aether::error::AetherError;
use aether::quic::{
    close_result, ech_retry_allowed, probe_source, tunnel_fast_fail, verify_check,
    verify_dataplane_budget_ms, verify_wait, DataplaneProbe, NO_HANDSHAKE, NO_UDP_REPLY,
    VERIFY_NO_200, VERIFY_NO_UDP,
};

#[test]
fn a_silent_path_fails_fast_and_a_slow_handshake_a_little_later() {
    assert_eq!(tunnel_fast_fail(false, false, false, 5999), None);
    assert_eq!(tunnel_fast_fail(false, false, false, 6000), Some(NO_UDP_REPLY));
    assert_eq!(tunnel_fast_fail(false, true, false, 11999), None);
    assert_eq!(tunnel_fast_fail(false, true, false, 12000), Some(NO_HANDSHAKE));
    assert_eq!(tunnel_fast_fail(false, true, true, 60000), None);
    assert_eq!(tunnel_fast_fail(true, false, false, 60000), None, "a working data plane never fast-fails");
}

#[test]
fn dataplane_probes_wait_for_an_address_or_the_grace_period() {
    let mut p = DataplaneProbe::new();
    let t = p.tick(10_000, false);
    assert!(!t.send_probe && !t.timed_out);
    let t = p.tick(11_000, false);
    assert!(!t.send_probe);
    let t = p.tick(12_000, false);
    assert!(t.send_probe, "grace over");
    let t = p.tick(12_500, false);
    assert!(!t.send_probe, "probes are 700 ms apart");
    let t = p.tick(12_700, false);
    assert!(t.send_probe);
    let t = p.tick(18_000, true);
    assert!(t.send_probe && t.timed_out);
}

#[test]
fn an_assigned_address_probes_at_once() {
    let mut p = DataplaneProbe::new();
    assert!(p.tick(500, true).send_probe);
}

#[test]
fn the_ech_retry_happens_once_and_only_before_the_handshake() {
    assert!(ech_retry_allowed(false, false, true));
    assert!(!ech_retry_allowed(true, false, true));
    assert!(!ech_retry_allowed(false, true, true));
    assert!(!ech_retry_allowed(false, false, false));
}

#[test]
fn only_a_requested_teardown_is_a_clean_close() {
    assert!(close_result(None, None, true).is_ok());
    match close_result(Some("recv error".into()), Some("bye".into()), true) {
        Err(AetherError::Masque(m)) => assert_eq!(m, "tunnel died: recv error"),
        _ => panic!("a recorded failure must fail the tunnel"),
    }
    match close_result(None, Some("bye".into()), true) {
        Err(AetherError::Masque(m)) => assert_eq!(m, "peer closed the tunnel: bye"),
        _ => panic!("a peer error must fail the tunnel"),
    }
    match close_result(None, None, false) {
        Err(AetherError::Masque(m)) => assert_eq!(m, "connection closed without a local shutdown request"),
        _ => panic!("an unrequested close is not a success"),
    }
}

#[test]
fn the_probe_source_override_must_be_an_address() {
    assert_eq!(probe_source(Some("10.1.2.3"), [172, 16, 0, 2]), [10, 1, 2, 3]);
    assert_eq!(probe_source(Some("bogus"), [172, 16, 0, 2]), [172, 16, 0, 2]);
    assert_eq!(probe_source(None, [172, 16, 0, 2]), [172, 16, 0, 2]);
}

#[test]
fn a_probe_gives_up_on_silence_or_budget() {
    assert_eq!(verify_check(1999, 8000, false), None);
    assert_eq!(verify_check(2000, 8000, false), Some(VERIFY_NO_UDP));
    assert_eq!(verify_check(7000, 8000, true), None);
    assert_eq!(verify_check(8000, 8000, true), Some(VERIFY_NO_200));
    assert_eq!(VERIFY_NO_UDP, "verify timeout (no UDP reply \u{2014} QUIC may be filtered)");
    assert_eq!(verify_wait(Some(30), 500), (30, true));
    assert_eq!(verify_wait(Some(900), 500), (500, true));
    assert_eq!(verify_wait(None, 500), (500, false));
    assert_eq!(verify_dataplane_budget_ms(9000), 3500);
    assert_eq!(verify_dataplane_budget_ms(1200), 1200);
}

#[test]
fn the_connect_stream_is_ready_once_and_refusals_end_it() {
    assert_eq!(status_step(4, 0, "200", false).ok(), Some(false), "another stream is ignored");
    assert_eq!(status_step(0, 0, "103", false).ok(), Some(false));
    assert_eq!(status_step(0, 0, "200", false).ok(), Some(true));
    match status_step(0, 0, "200", true) {
        Err(AetherError::Masque(m)) => assert_eq!(m, "duplicate final response 200 on the connect stream"),
        _ => panic!("a second final answer must end the tunnel"),
    }
    match status_step(0, 0, "403", false) {
        Err(AetherError::Masque(m)) => assert_eq!(m, "the edge refused connect-ip with status 403"),
        _ => panic!("a 403 must end the tunnel"),
    }
}

#[test]
fn an_ended_connect_stream_says_how() {
    match stream_end_error(None) {
        AetherError::Masque(m) => assert_eq!(m, "the edge closed the connect-ip stream"),
        _ => panic!(),
    }
    match stream_end_error(Some(0x10c)) {
        AetherError::Masque(m) => assert_eq!(m, "the edge reset the connect-ip stream (code 0x10c)"),
        _ => panic!(),
    }
}

#[test]
fn only_an_explicit_negative_turns_the_bait_off() {
    assert!(quic_v2_bait_enabled(Some("maybe")), "a value that is no negative keeps the bait on");
    assert!(quic_v2_bait_enabled(Some("   ")), "a blank value is not a setting");
    assert!(!quic_v2_bait_enabled(Some(" No ")), "case and spaces do not matter");
    assert!(!quic_v2_bait_enabled(Some("False")));
}
