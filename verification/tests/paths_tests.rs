use aether::cache::cache_path as endpoints_path;
use aether::config::{
    config_key, frame_envelope, key_source, parse_envelope, path_aad, read_admission, Admission,
    Envelope, KeySource,
};
use aether::lastconn::{cache_path, load, load_for, record, LastConnection, LastConnectionFile};
use aether::cache::TransportKind;
use base64::Engine;

#[test]
fn the_lastconn_file_is_a_sibling_of_the_config() {
    for base in [
        "/home/u/.config/aether/aether.toml",
        "C:/Users/o.brien/aether/aether.toml",
        "/var/data/aether/",
        "aether.toml",
    ] {
        let got = cache_path(None, base);
        let p = std::path::Path::new(&got);
        let name = p.file_name().and_then(|s| s.to_str()).unwrap_or("");
        assert!(name.ends_with(".lastconn.toml"), "{base} -> {got}");
        assert!(
            !name.starts_with('.'),
            "{base} -> {got}: an empty stem means the config name was lost"
        );
        assert_eq!(
            p.parent(),
            std::path::Path::new(base).parent(),
            "{base} -> {got} is not beside the config"
        );
    }
}

#[test]
fn an_explicit_lastconn_path_wins() {
    assert_eq!(cache_path(Some("/tmp/x.toml"), "/a/b.toml"), "/tmp/x.toml");
}

#[test]
fn legacy_unlabelled_entries_return_none() {
    let legacy = LastConnectionFile {
        h2: None,
        h3: None,
        peer: Some("162.159.198.1:443".to_string()),
        profile: Some("standard".to_string()),
    };
    assert!(load_for(Some(legacy.clone()), TransportKind::Quic).is_none(), "legacy unlabelled must be unknown for H3");
    assert!(load_for(Some(legacy), TransportKind::H2).is_none(), "legacy unlabelled must be unknown for H2");
}

#[test]
fn h2_and_h3_records_are_isolated_and_preserved() {
    let f = record(None, "162.159.193.1:443", "h2-profile", TransportKind::H2);
    let h2 = load_for(Some(f.clone()), TransportKind::H2).expect("h2 record");
    assert_eq!(h2.peer, "162.159.193.1:443");
    assert_eq!(h2.profile, "h2-profile");
    assert!(load_for(Some(f.clone()), TransportKind::Quic).is_none());
    let f = record(Some(f), "162.159.198.1:443", "h3-profile", TransportKind::Quic);
    assert_eq!(load_for(Some(f.clone()), TransportKind::Quic).unwrap().peer, "162.159.198.1:443");
    assert_eq!(load_for(Some(f.clone()), TransportKind::H2).unwrap().peer, "162.159.193.1:443");
    let f = record(Some(f), "162.159.193.2:443", "h2-updated", TransportKind::H2);
    assert_eq!(load_for(Some(f.clone()), TransportKind::H2).unwrap().peer, "162.159.193.2:443");
    assert_eq!(load_for(Some(f.clone()), TransportKind::Quic).unwrap().peer, "162.159.198.1:443");
    assert_eq!(
        load(Some(f), true),
        Some(LastConnection { peer: "162.159.193.2:443".into(), profile: "h2-updated".into() })
    );
}

#[test]
fn aad_tracks_the_file_not_its_directory() {
    let a = path_aad("/var/lib/aether/aether.toml", None, false);
    let b = path_aad("/var/lib/aether/aether-masque.toml", None, false);
    let same = path_aad("/var/lib/aether/aether.toml", None, false);
    assert_ne!(a, b, "two configs in one directory must not share a bind");
    assert_eq!(a, same);
    assert_eq!(a, b"/var/lib/aether\0aether.toml".to_vec());
    let w = path_aad("C:/Data/Aether.TOML", Some("C:/Data".to_string()), true);
    assert_eq!(w, b"c:/data\0aether.toml".to_vec());
}

#[test]
fn an_envelope_reads_back_as_written() {
    let nonce = [9u8; 12];
    let sealed = [7u8; 20];
    let raw = frame_envelope(&nonce, &sealed);
    match parse_envelope(&raw).unwrap() {
        Some(Envelope::V2 { nonce: n, sealed: s }) => {
            assert_eq!(n, nonce.to_vec());
            assert_eq!(s, sealed.to_vec());
        }
        other => panic!("expected a v2 envelope, got {other:?}"),
    }
    assert!(parse_envelope(b"plain = true").unwrap().is_none());
    assert!(parse_envelope(b"AETHERCFG2\n").is_err());
    let mut newer = raw.clone();
    newer[11] = 2;
    assert_eq!(
        parse_envelope(&newer).unwrap_err().message(),
        "other: config schema version 2 is newer than this build understands (1)"
    );
    assert!(parse_envelope(&raw[..30]).is_err());
    let mut v1 = b"AETHERCFG1\n".to_vec();
    v1.extend_from_slice(&[1u8; 28]);
    assert!(matches!(parse_envelope(&v1).unwrap(), Some(Envelope::V1 { .. })));
}

#[test]
fn plaintext_is_adopted_only_on_request() {
    assert_eq!(read_admission(true, true, false).unwrap(), Admission::Authenticated);
    assert!(read_admission(true, false, true).is_err());
    assert_eq!(read_admission(false, true, true).unwrap(), Admission::Plaintext);
    assert!(read_admission(false, true, false).unwrap_err().message().contains("AETHER_MIGRATE_PLAINTEXT_CONFIG=1"));
}

#[test]
fn the_config_key_is_32_bytes_of_base64() {
    assert_eq!(key_source(Some("  ")), KeySource::Absent);
    assert_eq!(key_source(Some("abc")), KeySource::Injected);
    assert_eq!(key_source(None), KeySource::Absent);
    let b64 = base64::engine::general_purpose::STANDARD.encode([5u8; 32]);
    assert_eq!(config_key(Some(&format!(" {b64} "))).unwrap(), Some(vec![5u8; 32]));
    assert_eq!(config_key(Some(" ")).unwrap(), None);
    assert_eq!(config_key(Some("!!")).unwrap_err().message(), "other: invalid config key encoding");
    let short = base64::engine::general_purpose::STANDARD.encode([5u8; 8]);
    assert_eq!(config_key(Some(&short)).unwrap_err().message(), "other: config key must be 32 bytes");
}

#[test]
fn the_endpoint_cache_sits_beside_the_config() {
    assert_eq!(endpoints_path("/a/b/aether.toml", false), "/a/b/aether-endpoints.json");
    assert_eq!(endpoints_path("/a/b", true), "/a/b/aether-endpoints.json");
    assert_eq!(endpoints_path("aether.toml", false), "aether-endpoints.json");
    assert_eq!(endpoints_path("/", false), "aether-endpoints.json");
}
