use aether::config::{open_envelope, seal, seal_with_nonce, MAGIC_V2};
use aether::config::{after_read, after_reseal, load_start, Admission, LoadNext, LoadStart};
use aether::account::Identity;
use aether::config::{decode_key, format_amnezia_wg_config, PersistedIdentity};
use aether::error::AetherError;
use base64::Engine;

fn b64(bytes: &[u8]) -> String {
    base64::engine::general_purpose::STANDARD.encode(bytes)
}

fn persisted() -> PersistedIdentity {
    PersistedIdentity {
        device_id: "d".into(),
        access_token: "t".into(),
        cert_pem: String::new(),
        key_pem: String::new(),
        ipv4: "172.16.0.2".into(),
        ipv6: "2606::1".into(),
        wg_private_key: b64(&[1u8; 32]),
        wg_peer_public_key: b64(&[2u8; 32]),
        client_id: String::new(),
        masque_endpoint: None,
    }
}

fn sample_identity(device: &str) -> Identity {
    Identity {
        device_id: device.into(),
        access_token: "tok".into(),
        cert_pem: vec![],
        key_pem: vec![],
        ipv4: "172.16.0.2".into(),
        ipv6: "2606:4700:110:8751:19d6:4fd1:d894:21dc".into(),
        wg_private_key: [9u8; 32],
        wg_peer_public_key: [10u8; 32],
        client_id: [1, 2, 3],
        masque_endpoint: None,
    }
}

#[test]
fn test_amnezia_wg_config_format() {
    let id = Identity {
        device_id: "test-device".into(),
        access_token: "test-token".into(),
        cert_pem: vec![],
        key_pem: vec![],
        ipv4: "172.16.0.2".into(),
        ipv6: "2606:4700::1".into(),
        wg_private_key: [1u8; 32],
        wg_peer_public_key: [2u8; 32],
        client_id: [0u8; 3],
        masque_endpoint: None,
    };
    let cfg = format_amnezia_wg_config(&id, "162.159.193.1:2408", None);
    assert!(cfg.contains("Jc = 5"));
    assert!(cfg.contains("Jmin = 50"));
    assert!(cfg.contains("Jmax = 128"));
    assert!(cfg.contains("PrivateKey = "));
}

#[test]
fn the_amnezia_file_is_written_in_full() {
    let id = sample_identity("dev");
    let cfg = format_amnezia_wg_config(&id, "162.159.193.1:2408", Some("9.9.9.9"));
    let want = format!(
        "[Interface]\nPrivateKey = {}\nAddress = 172.16.0.2/32, 2606:4700:110:8751:19d6:4fd1:d894:21dc/128\n\
         DNS = 9.9.9.9\nJc = 5\nJmin = 50\nJmax = 128\n\n[Peer]\nPublicKey = {}\n\
         Endpoint = 162.159.193.1:2408\nAllowedIPs = 0.0.0.0/0, ::/0\n",
        b64(&[9u8; 32]),
        b64(&[10u8; 32])
    );
    assert_eq!(cfg, want);
    let default_dns = format_amnezia_wg_config(&id, "e:1", None);
    assert!(default_dns.contains("\nDNS = 1.1.1.1\n"));
}

#[test]
fn unknown_fields_and_bad_addresses_are_rejected_at_load() {
    let mut p = persisted();
    assert!(Identity::from_persisted(p.clone()).is_ok());

    p.ipv4 = "not-an-address".into();
    assert!(Identity::from_persisted(p.clone()).is_err(), "a corrupt ipv4 must not start a tunnel");

    p.ipv4 = "172.16.0.2".into();
    p.masque_endpoint = Some("162.159.198.2:not-a-port".into());
    assert!(Identity::from_persisted(p.clone()).is_err(), "endpoint must be a parsed SocketAddr");

    p.masque_endpoint = None;
    p.wg_private_key = "short".into();
    assert!(Identity::from_persisted(p).is_err(), "a mistyped key must error, not default");
}

#[test]
fn a_loaded_identity_carries_decoded_keys_and_normalised_addresses() {
    let mut p = persisted();
    p.ipv4 = " 172.16.0.2 ".into();
    p.ipv6 = "2606:0:0::1".into();
    p.client_id = b64(&[7, 8, 9]);
    p.masque_endpoint = Some(" 162.159.198.2:443 ".into());
    p.cert_pem = "CERT".into();
    let id = Identity::from_persisted(p).expect("valid");
    assert_eq!(id.wg_private_key, [1u8; 32]);
    assert_eq!(id.wg_peer_public_key, [2u8; 32]);
    assert_eq!(id.client_id, [7, 8, 9]);
    assert_eq!(id.ipv4, "172.16.0.2");
    assert_eq!(id.ipv6, "2606::1");
    assert_eq!(id.masque_endpoint.as_deref(), Some("162.159.198.2:443"));
    assert_eq!(id.cert_pem, b"CERT".to_vec());
}

#[test]
fn a_blank_client_id_and_endpoint_read_as_absent() {
    let mut p = persisted();
    p.masque_endpoint = Some("   ".into());
    let id = Identity::from_persisted(p).expect("valid");
    assert_eq!(id.client_id, [0, 0, 0]);
    assert_eq!(id.masque_endpoint, None);
}

#[test]
fn each_refusal_names_its_field() {
    let message = |p: PersistedIdentity| match Identity::from_persisted(p) {
        Err(AetherError::Other(m)) => m,
        _ => panic!("expected a refusal"),
    };
    let mut p = persisted();
    p.wg_peer_public_key = b64(&[1u8; 31]);
    assert_eq!(message(p), "wg peer public key length 31 (want 32)");

    let mut p = persisted();
    p.client_id = b64(&[1, 2]);
    assert_eq!(message(p), "client id length 2 (want 3)");

    let mut p = persisted();
    p.ipv6 = "2606:::1".into();
    assert_eq!(message(p), "invalid ipv6 address \"2606:::1\": invalid IPv6 address syntax");

    let mut p = persisted();
    p.ipv4 = "not-an-address".into();
    assert_eq!(message(p), "invalid ipv4 address \"not-an-address\": invalid IPv4 address syntax");

    let mut p = persisted();
    p.masque_endpoint = Some("162.159.198.2:not-a-port".into());
    assert_eq!(
        message(p),
        "invalid masque endpoint \"162.159.198.2:not-a-port\": invalid socket address syntax"
    );
}

#[test]
fn a_saved_identity_loads_back_unchanged() {
    let id = sample_identity("first-dev");
    let stored = PersistedIdentity::from_identity(&id);
    assert_eq!(stored.wg_private_key, b64(&[9u8; 32]));
    assert_eq!(stored.client_id, b64(&[1, 2, 3]));
    let back = Identity::from_persisted(stored).expect("round trip");
    assert_eq!(back.device_id, "first-dev");
    assert_eq!(back.wg_private_key, id.wg_private_key);
    assert_eq!(back.wg_peer_public_key, id.wg_peer_public_key);
    assert_eq!(back.client_id, id.client_id);
    assert_eq!(back.ipv4, id.ipv4);
    assert_eq!(back.ipv6, id.ipv6);
}

#[test]
fn a_key_must_be_32_bytes_of_base64() {
    assert_eq!(decode_key(&b64(&[3u8; 32]), "k").ok(), Some([3u8; 32]));
    match decode_key(&b64(&[3u8; 16]), "k") {
        Err(AetherError::Other(m)) => assert_eq!(m, "k length 16 (want 32)"),
        _ => panic!("short key accepted"),
    }
    match decode_key("!!", "k") {
        Err(AetherError::Other(m)) => assert!(m.starts_with("decode k: ")),
        _ => panic!("bad base64 accepted"),
    }
}

#[test]
fn a_canonical_identity_with_an_endpoint_survives_save_and_load() {
    let mut id = sample_identity("dev");
    id.masque_endpoint = Some("[2606:4700:d0::a29f:c602]:443".into());
    id.cert_pem = b"-----BEGIN CERTIFICATE-----".to_vec();
    let back = Identity::from_persisted(PersistedIdentity::from_identity(&id)).expect("round trip");
    assert_eq!(back.masque_endpoint, id.masque_endpoint);
    assert_eq!(back.cert_pem, id.cert_pem);
    assert_eq!(back.ipv6, id.ipv6);
}

#[test]
fn plaintext_needs_the_signal_and_is_resealed() {
    assert_eq!(load_start(false, true), LoadStart::Absent);
    assert_eq!(load_start(true, false), LoadStart::Read { allow_plaintext: false, consume_signal: false });
    assert_eq!(load_start(true, true), LoadStart::Read { allow_plaintext: true, consume_signal: true });
    assert_eq!(after_read(Admission::Authenticated, true).unwrap(), LoadNext::Adopt);
    assert_eq!(after_read(Admission::Plaintext, true).unwrap(), LoadNext::Reseal);
    let e = after_read(Admission::Plaintext, false).unwrap_err();
    assert!(e.message().contains("no key is available to seal it"));
    assert!(after_reseal(true, true).is_ok());
    assert!(after_reseal(false, true).unwrap_err().message().contains("did not produce a sealed envelope"));
    assert!(after_reseal(true, false).unwrap_err().message().contains("different identity"));
}

#[test]
fn a_sealed_identity_opens_to_what_was_sealed() {
    let key = [7u8; 32];
    let plain = b"device_id = \"abc\"\n";
    let raw = seal(Some(&key[..]), b"/cfg/aether.toml", plain).unwrap();
    assert_eq!(&raw[..11], &MAGIC_V2[..]);
    assert_eq!(raw.len(), 11 + 1 + 12 + plain.len() + 16);
    assert_eq!(open_envelope(&raw, &key, b"/cfg/aether.toml").unwrap().unwrap(), plain.to_vec());
    let other = open_envelope(&raw, &key, b"/elsewhere.toml").unwrap_err();
    assert_eq!(other.message(), "other: config authentication failed", "the seal is bound to its path");
    let wrong_key = open_envelope(&raw, &[8u8; 32], b"/cfg/aether.toml").unwrap_err();
    assert_eq!(wrong_key.message(), "other: config authentication failed");
    let mut tampered = raw.clone();
    let last = tampered.len() - 1;
    tampered[last] ^= 1;
    assert!(open_envelope(&tampered, &key, b"/cfg/aether.toml").is_err());
    assert!(open_envelope(b"device_id = 1", &key, b"/cfg/aether.toml").unwrap().is_none());
}

#[test]
fn identity_material_is_never_sealed_without_a_key() {
    let e = seal(None, b"/cfg/aether.toml", b"secret").unwrap_err();
    assert!(e.message().contains("refusing to write identity material in plaintext"));
    let a = seal_with_nonce(&[1u8; 32], &[2u8; 12], b"p", b"x").unwrap();
    let b = seal_with_nonce(&[1u8; 32], &[2u8; 12], b"p", b"x").unwrap();
    assert_eq!(a, b, "the same key, nonce and binding seal alike");
    let c = seal(Some(&[1u8; 32][..]), b"p", b"x").unwrap();
    let d = seal(Some(&[1u8; 32][..]), b"p", b"x").unwrap();
    assert_ne!(c[12..24], d[12..24], "each seal draws a fresh nonce");
}

