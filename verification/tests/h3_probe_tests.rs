use aether::error::AetherError;
use aether::h3_probe::{
    build_brute_matrix, build_default_matrix, expand_targets, fingerprint_targets,
    fingerprint_wave_end, probe_local_ipv4,
};
use aether::ip::SockAddr;
use aether::masque::{H3DgramMode, H3HeaderMode};

fn v4(a: u8, b: u8, c: u8, d: u8, port: u16) -> SockAddr {
    SockAddr { v6: false, ip: u128::from(u32::from_be_bytes([a, b, c, d])), port, scope_id: 0 }
}

#[test]
fn the_default_matrix_starts_with_the_control_and_covers_every_recipe() {
    let ech = Some(vec![1u8, 2, 3]);
    let m = build_default_matrix(&ech, "cloudflareaccess.com", "/");
    assert_eq!(m.len(), 16);
    assert_eq!(m[0].sni, "cloudflare.com");
    assert_eq!(m[0].ech_label, "control-no-ech");
    assert!(m[0].ech.is_none());
    for sni in ["consumer-masque.cloudflareclient.com", "consumer-masque-proxy.cloudflareclient.com"] {
        for headers in [H3HeaderMode::Cf, H3HeaderMode::Standard, H3HeaderMode::Both] {
            assert!(m.iter().any(|c| c.sni == sni && c.headers == headers && c.ech == ech));
            assert!(m.iter().any(|c| c.sni == sni && c.headers == headers && c.ech.is_none()));
        }
    }
    assert_eq!(m[13].dgram, H3DgramMode::Quic);
    assert_eq!(m[14].dgram, H3DgramMode::Capsule);
    assert_eq!(m[15].authority, "consumer-masque.cloudflareclient.com");
    assert!(m.iter().all(|c| c.path == "/" && c.proto.is_none()));
}

#[test]
fn the_brute_matrix_varies_only_the_request() {
    let m = build_brute_matrix(&None);
    assert_eq!(m.len(), 16);
    assert!(m.iter().all(|c| c.sni == "consumer-masque.cloudflareclient.com"
        && c.headers == H3HeaderMode::Both
        && c.ech.is_none()
        && c.dgram == H3DgramMode::Auto));
    assert_eq!(m[0].authority, "cloudflareaccess.com:443");
    assert_eq!(m[0].path, "/");
    assert_eq!(m[0].proto, Some("connect-ip"));
    assert_eq!(m[1].proto, Some("cf-connect-ip"));
    assert_eq!(m[2].path, "/.well-known/masque/ip/*/*/");
    assert_eq!(m[4].authority, "cloudflareaccess.com");
    assert_eq!(m[8].authority, "consumer-masque.cloudflareclient.com:443");
    assert_eq!(m[15].authority, "consumer-masque.cloudflareclient.com");
}

#[test]
fn a_slash_24_expands_to_its_low_hosts_on_443() {
    let t = expand_targets(" 162.159.198.0 / 24 ");
    assert_eq!(t.len(), 64);
    assert_eq!(t[0], v4(162, 159, 198, 1, 443));
    assert_eq!(t[63], v4(162, 159, 198, 64, 443));
}

#[test]
fn a_list_keeps_only_the_addresses_that_parse() {
    let t = expand_targets("1.2.3.4:443, bogus, [2606:4700::1]:2408,5.6.7.8");
    assert_eq!(t.len(), 2);
    assert_eq!(t[0], v4(1, 2, 3, 4, 443));
    assert!(t[1].v6 && t[1].port == 2408);
}

#[test]
fn a_spec_that_names_nothing_is_refused() {
    assert!(expand_targets("10.0.0.0/16").is_empty());
    match fingerprint_targets("10.0.0.0/16") {
        Err(AetherError::Other(m)) => assert_eq!(
            m,
            "h3-fingerprint: target spec \"10.0.0.0/16\" expands to no candidates \
             (want a comma-separated ip:port list or an A.B.C.0/24 base)"
        ),
        _ => panic!("an empty expansion must be an error"),
    }
    assert_eq!(fingerprint_targets("1.2.3.4:443").ok(), Some(vec![v4(1, 2, 3, 4, 443)]));
}

#[test]
fn the_probe_address_defaults_when_unparsable() {
    assert_eq!(probe_local_ipv4("172.16.0.9"), [172, 16, 0, 9]);
    assert_eq!(probe_local_ipv4("nope"), [172, 16, 0, 2]);
}

#[test]
fn fingerprint_waves_are_six_wide() {
    assert_eq!(fingerprint_wave_end(0, 20), 6);
    assert_eq!(fingerprint_wave_end(18, 20), 20);
    assert_eq!(fingerprint_wave_end(20, 20), 20);
}
