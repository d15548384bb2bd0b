use aether::masque_h2::{parse_range, FragStep, FragmentConfig};
use aether::masque::{
    decode_ip_datagram, encode_capsule, encode_datagram_capsule, encode_ip_datagram,
    quarter_stream_id, Capsule, CapsuleParser, H3DgramMode, H3HeaderMode, CAPSULE_ADDRESS_ASSIGN,
    CAPSULE_DATAGRAM, CAPSULE_ROUTE_ADVERTISEMENT,
};
use aether::varint::{get_varint, put_varint, varint_len};

#[test]
fn quarter_stream_id_divides_by_four() {
    assert_eq!(quarter_stream_id(0), 0);
    assert_eq!(quarter_stream_id(4), 1);
    assert_eq!(quarter_stream_id(12), 3);
}

#[test]
fn ip_datagram_roundtrip() {
    let stream = 4u64;
    let pkt = vec![0x45, 0x00, 0x00, 0x14, 0x00, 0x01, 0x00, 0x00, 0x40, 0x01];
    let enc = encode_ip_datagram(stream, &pkt).expect("encode");
    let dec = decode_ip_datagram(&enc, stream).expect("decode");
    assert_eq!(dec, Some(pkt));
}

#[test]
fn ip_datagram_wrong_stream_ignored() {
    let enc = encode_ip_datagram(4, b"abc").expect("encode");
    let dec = decode_ip_datagram(&enc, 8).expect("decode");
    assert!(dec.is_none());
}

#[test]
fn capsule_datagram_encode_nonempty() {
    let c = encode_datagram_capsule(b"hello");
    assert!(!c.is_empty());
}

#[test]
fn datagram_wrong_context_id_ignored() {
    let sid = 4u64;
    let qsid = quarter_stream_id(sid);
    let mut buf = Vec::new();
    put_varint(&mut buf, qsid);
    put_varint(&mut buf, 1);
    buf.extend_from_slice(b"xy");
    let dec = decode_ip_datagram(&buf, sid).expect("decode");
    assert!(dec.is_none());
}

#[test]
fn address_assign_capsule_parses() {
    let mut value = Vec::new();
    put_varint(&mut value, 7);
    value.push(4);
    value.extend_from_slice(&[10, 0, 0, 2]);
    value.push(32);
    let cap = encode_capsule(CAPSULE_ADDRESS_ASSIGN, &value);
    let mut p = CapsuleParser::new();
    p.push(&cap);
    match p.next() {
        Ok(Some(Capsule::AddressAssign(a))) => {
            assert_eq!(a.len(), 1);
            assert_eq!(a[0].ip_version, 4);
            assert_eq!(a[0].address, vec![10, 0, 0, 2]);
            assert_eq!(a[0].prefix_len, 32);
        }
        other => panic!("expected AddressAssign, got {other:?}"),
    }
}

#[test]
fn partial_capsule_needs_more_data() {
    let mut p = CapsuleParser::new();
    p.push(&[0x01]);
    assert!(matches!(p.next(), Ok(None)));
}

#[test]
fn h3_dgram_mode_parse_and_selection() {
    assert_eq!(H3DgramMode::parse(Some("quic")), H3DgramMode::Quic);
    assert_eq!(H3DgramMode::parse(Some("capsule")), H3DgramMode::Capsule);
    assert_eq!(H3DgramMode::parse(Some("")), H3DgramMode::Auto);
    assert_eq!(H3DgramMode::parse(None), H3DgramMode::Auto);
    assert!(H3DgramMode::Auto.use_capsule(false));
    assert!(!H3DgramMode::Auto.use_capsule(true));
    assert!(H3DgramMode::Capsule.use_capsule(true));
    assert!(!H3DgramMode::Quic.use_capsule(false));
}

#[test]
fn address_assign_v6_parses() {
    let mut value = Vec::new();
    put_varint(&mut value, 1);
    value.push(6);
    value.extend_from_slice(&[0x20, 0x01, 0x0d, 0xb8, 0, 0, 0, 0, 0, 0, 0, 0, 0, 0, 0, 1]);
    value.push(128);
    let cap = encode_capsule(CAPSULE_ADDRESS_ASSIGN, &value);
    let mut p = CapsuleParser::new();
    p.push(&cap);
    match p.next() {
        Ok(Some(Capsule::AddressAssign(a))) => {
            assert_eq!(a.len(), 1);
            assert_eq!(a[0].ip_version, 6);
            assert_eq!(a[0].address.len(), 16);
            assert_eq!(a[0].prefix_len, 128);
        }
        other => panic!("expected AddressAssign v6, got {other:?}"),
    }
}

#[test]
fn route_advertisement_parses() {
    let mut value = Vec::new();
    value.push(4);
    value.extend_from_slice(&[10, 0, 0, 0]);
    value.extend_from_slice(&[10, 0, 0, 255]);
    value.push(17);
    let cap = encode_capsule(CAPSULE_ROUTE_ADVERTISEMENT, &value);
    let mut p = CapsuleParser::new();
    p.push(&cap);
    match p.next() {
        Ok(Some(Capsule::RouteAdvertisement(r))) => {
            assert_eq!(r.len(), 1);
            assert_eq!(r[0].ip_version, 4);
            assert_eq!(r[0].protocol, 17);
        }
        other => panic!("expected RouteAdvertisement, got {other:?}"),
    }
}

#[test]
fn oversized_capsule_rejected() {
    let mut hdr = Vec::new();
    put_varint(&mut hdr, CAPSULE_DATAGRAM);
    put_varint(&mut hdr, 5_000_000);
    let mut p = CapsuleParser::new();
    p.push(&hdr);
    assert!(p.next().is_err());
}

#[test]
fn datagram_short_input_no_panic() {
    let r = decode_ip_datagram(&[0x00], 4);
    assert!(r.is_err() || matches!(r, Ok(None)));
}

#[test]
fn datagram_large_payload_roundtrips() {
    let big = vec![0xABu8; 4096];
    let enc = encode_ip_datagram(4, &big).expect("encode");
    let dec = decode_ip_datagram(&enc, 4).expect("decode");
    assert_eq!(dec, Some(big));
}

#[test]
fn datagram_capsules_come_back_out_of_the_parser() {
    let mut p = CapsuleParser::new();
    let c = encode_datagram_capsule(b"packet");
    p.push(&c[..3]);
    assert!(matches!(p.next(), Ok(None)));
    p.push(&c[3..]);
    match p.next() {
        Ok(Some(Capsule::Datagram(d))) => assert_eq!(d, b"packet".to_vec()),
        other => panic!("expected a datagram, got {other:?}"),
    }
    assert!(matches!(p.next(), Ok(None)));
}

#[test]
fn header_recipes_from_settings() {
    assert_eq!(H3HeaderMode::from_env(Some(" CF ")), H3HeaderMode::Cf);
    assert_eq!(H3HeaderMode::from_env(Some("both")), H3HeaderMode::Both);
    assert_eq!(H3HeaderMode::from_env(None), H3HeaderMode::Standard);
    assert_eq!(H3DgramMode::from_env(Some("stream")), H3DgramMode::Capsule);
    assert_eq!(H3DgramMode::parse(Some("DGRAM")).label(), "quic");
}

#[test]
fn varints_round_trip_at_every_width() {
    for v in [0u64, 63, 64, 16383, 16384, 1_073_741_823, 1_073_741_824, (1u64 << 62) - 1] {
        let mut out = Vec::new();
        put_varint(&mut out, v);
        assert_eq!(out.len(), varint_len(v));
        assert_eq!(get_varint(&out, 0), Some((v, out.len())));
    }
    assert_eq!(get_varint(&[0x40], 0), None);
}

fn header_value(hs: &[(String, String)], name: &str) -> Option<String> {
    hs.iter().find(|h| h.0 == name).map(|h| h.1.clone())
}

#[test]
fn h3_headers_cf_mirrors_h2_recipe() {
    let hs = aether::masque::connect_ip_request_mode("cloudflareaccess.com", "/", H3HeaderMode::Cf, None);
    assert_eq!(header_value(&hs, ":method").as_deref(), Some("CONNECT"));
    assert_eq!(header_value(&hs, ":authority").as_deref(), Some("cloudflareaccess.com"));
    assert_eq!(header_value(&hs, "cf-connect-proto").as_deref(), Some("cf-connect-ip"));
    assert_eq!(header_value(&hs, "pq-enabled").as_deref(), Some("false"));
    assert!(header_value(&hs, ":protocol").is_none());
    assert!(header_value(&hs, ":path").is_none());
    assert!(header_value(&hs, "capsule-protocol").is_none());
}

#[test]
fn h3_headers_standard_is_extended_connect() {
    let hs = aether::masque::connect_ip_request_mode("cloudflareaccess.com", "/", H3HeaderMode::Standard, None);
    assert_eq!(header_value(&hs, ":protocol").as_deref(), Some("cf-connect-ip"));
    assert_eq!(header_value(&hs, ":scheme").as_deref(), Some("https"));
    assert_eq!(header_value(&hs, ":path").as_deref(), Some("/"));
    assert_eq!(header_value(&hs, "capsule-protocol").as_deref(), Some("?1"));
    assert!(header_value(&hs, "cf-connect-proto").is_none());
}

#[test]
fn h3_headers_both_is_superset() {
    let hs = aether::masque::connect_ip_request_mode("cloudflareaccess.com", "/", H3HeaderMode::Both, None);
    assert!(header_value(&hs, ":protocol").is_some());
    assert!(header_value(&hs, "cf-connect-proto").is_some());
    assert!(header_value(&hs, "capsule-protocol").is_some());
}

#[test]
fn the_protocol_override_needs_a_value() {
    let hs = aether::masque::connect_ip_request_mode("a", "/p", H3HeaderMode::Standard, Some(" connect-ip "));
    assert_eq!(header_value(&hs, ":protocol").as_deref(), Some("connect-ip"));
    let hs = aether::masque::connect_ip_request_mode("a", "/p", H3HeaderMode::Standard, Some("  "));
    assert_eq!(header_value(&hs, ":protocol").as_deref(), Some("cf-connect-ip"));
    assert_eq!(hs.len(), 7);
}

#[test]
fn fragment_ranges_parse_with_defaults_and_order() {
    assert_eq!(parse_range("", (16, 32)), (16, 32));
    assert_eq!(parse_range("   ", (16, 32)), (16, 32));
    assert_eq!(parse_range("20-40", (16, 32)), (20, 40));
    assert_eq!(parse_range(" 40 - 20 ", (16, 32)), (20, 40), "ends are put in order");
    assert_eq!(parse_range("x-40", (16, 32)), (16, 40), "a bad side takes its default");
    assert_eq!(parse_range("50-y", (16, 32)), (32, 50));
    assert_eq!(parse_range("24", (16, 32)), (24, 24));
    assert_eq!(parse_range("abc", (16, 32)), (16, 16));
    assert_eq!(parse_range("1-2-3", (16, 32)), (1, 32), "only the first dash splits");
}

#[test]
fn fragmentation_is_opt_in_and_full_mode_wins_over_legacy() {
    assert_eq!(FragmentConfig::resolve(None, None, None, None), FragmentConfig::disabled());
    assert_eq!(FragmentConfig::resolve(None, None, None, Some(" ON ")), FragmentConfig::legacy_on());
    assert_eq!(FragmentConfig::resolve(None, None, None, Some("yes")), FragmentConfig::disabled());
    let full = FragmentConfig::resolve(Some("true"), None, None, Some("1"));
    assert_eq!(
        full,
        FragmentConfig { enabled: true, size_min: 16, size_max: 32, delay_min_ms: 2, delay_max_ms: 10 }
    );
    let custom = FragmentConfig::from_settings(Some("1"), Some("0-0"), Some("7-3"));
    assert_eq!(
        custom,
        FragmentConfig { enabled: true, size_min: 1, size_max: 1, delay_min_ms: 3, delay_max_ms: 7 }
    );
}

#[test]
fn chunks_follow_the_configured_split() {
    let legacy = FragmentConfig::legacy_on();
    assert_eq!(legacy.pick_chunk_len(600), 200);
    assert_eq!(legacy.pick_chunk_len(120), 90);
    assert_eq!(legacy.pick_chunk_len(50), 49);
    assert_eq!(legacy.pick_chunk_len(1), 1);
    let full = FragmentConfig::from_settings(Some("1"), Some("16-32"), Some("0"));
    for _ in 0..50 {
        let n = full.pick_chunk_len(500);
        assert!((16..=32).contains(&n));
        assert_eq!(full.pick_chunk_len(10), 10);
        assert_eq!(full.pick_delay(), 0);
    }
    assert_eq!(full.first_write_step(false, 10), FragStep::Pass);
    assert_eq!(full.first_write_step(true, 500), FragStep::Pass);
    assert_eq!(FragmentConfig::disabled().first_write_step(false, 500), FragStep::Pass);
    assert_eq!(full.first_write_step(false, 16), FragStep::Chunk { len: 16, last: true });
    assert_eq!(legacy.first_write_step(false, 600), FragStep::Chunk { len: 200, last: false });
    let slow = FragmentConfig::from_settings(Some("1"), None, Some("5-9"));
    for _ in 0..50 {
        assert!((5..=9).contains(&slow.pick_delay()));
    }
}

use aether::masque::AssignedAddress;
use aether::masque_h2::{
    adopt_assigned, build_connect_request, connect_status, frame_batch, h2_peer, h2_windows,
    handshake_sni, idle_action, IdleAction, FRAME_TARGET,
};

#[test]
fn the_h2_peer_override_must_parse() {
    let quic = aether::ip::SockAddr { v6: false, ip: 0x01020304, port: 443, scope_id: 0 };
    let over = h2_peer(Some(" 162.159.198.2:443 "), quic);
    assert_eq!(over.ip, 0xA29FC602);
    assert_eq!(h2_peer(Some("nope"), quic), quic);
    assert_eq!(h2_peer(None, quic), quic);
}

#[test]
fn the_sni_front_replaces_the_masque_name_when_set() {
    assert_eq!(handshake_sni(Some(" cloudflare.com "), "consumer-masque.cloudflareclient.com"), "cloudflare.com");
    assert_eq!(handshake_sni(Some("  "), "a.example"), "a.example");
    assert_eq!(handshake_sni(None, "a.example"), "a.example");
}

#[test]
fn flow_control_windows_are_clamped() {
    assert_eq!(h2_windows(None), (4 << 20, 8 << 20));
    assert_eq!(h2_windows(Some("64")), (32 << 20, 64 << 20));
    assert_eq!(h2_windows(Some("0")), (1 << 20, 2 << 20));
    assert_eq!(h2_windows(Some("junk")), (4 << 20, 8 << 20));
}

#[test]
fn the_connect_request_is_padded_between_16_and_96() {
    let r = build_connect_request("cloudflareaccess.com");
    assert_eq!(r.uri, "https://cloudflareaccess.com:443");
    assert_eq!(r.headers.len(), 4);
    assert_eq!(r.headers[0], ("cf-connect-proto".to_string(), "cf-connect-ip".to_string()));
    assert_eq!(r.headers[1], ("pq-enabled".to_string(), "false".to_string()));
    assert_eq!(r.headers[2], ("user-agent".to_string(), String::new()));
    let pad = &r.headers[3].1;
    assert!((16..=96).contains(&pad.len()) && pad.chars().all(|c| c == 'x'));
}

#[test]
fn only_a_2xx_answer_opens_the_h2_tunnel() {
    assert!(connect_status(200).is_ok());
    match connect_status(403) {
        Err(aether::error::AetherError::Masque(m)) => assert_eq!(m, "h2 connect-ip status 403"),
        _ => panic!("a 403 must fail"),
    }
}

#[test]
fn packets_are_coalesced_into_frames_up_to_the_target() {
    let small: Vec<Vec<u8>> = (0..4).map(|i| vec![i as u8; 10_000]).collect();
    let frames = frame_batch(&small);
    assert_eq!(frames.len(), 2);
    assert!(frames.iter().all(|f| f.len() <= FRAME_TARGET));
    let joined: Vec<u8> = frames.concat();
    let expected: Vec<u8> = small.iter().flat_map(|p| encode_datagram_capsule(p)).collect();
    assert_eq!(joined, expected);
    assert!(frame_batch(&[]).is_empty());
    let big = vec![vec![7u8; 40_000]];
    assert_eq!(frame_batch(&big).len(), 1, "an oversized capsule still goes out whole");
}

#[test]
fn the_sender_keeps_alive_and_detects_a_dead_edge() {
    assert_eq!(idle_action(90_001, 0), IdleAction::Stall);
    assert_eq!(idle_action(1_000, 25_001), IdleAction::Keepalive);
    assert_eq!(idle_action(1_000, 1_000), IdleAction::Quiet);
}

#[test]
fn an_assigned_ipv4_becomes_the_probe_source() {
    let a = |v: u8, addr: Vec<u8>| AssignedAddress { ip_version: v, address: addr, prefix_len: 32 };
    let addrs = vec![a(6, vec![0; 16]), a(4, vec![172, 16, 0, 9]), a(4, vec![1, 2, 3])];
    assert_eq!(adopt_assigned(&addrs, [198, 18, 0, 1]), ([172, 16, 0, 9], true));
    assert_eq!(adopt_assigned(&addrs[1..2], [172, 16, 0, 9]), ([172, 16, 0, 9], false));
    assert_eq!(adopt_assigned(&[], [1, 1, 1, 1]), ([1, 1, 1, 1], false));
}
