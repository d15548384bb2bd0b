use aether::account::{masque_endpoint_from, retry_wait_ms, AccountData, Addresses, Config, Endpoint, Identity, IdentityCapability, Interface, Peer};
use aether::cache::{active_masque_transport, Measurement, Mutation, Rejected, TransportKind};
use aether::cli::{control_action, failure_message, is_netstack_panic, ControlAction};
use aether::counters::{bump, bump_by};
use aether::diagnostics::{environment, is_secret_key, redact};
use aether::error::AetherError;
use aether::masque_h2::enabled as h2_enabled;
use aether::settings::{env_truthy, truthy};
use std::sync::atomic::AtomicU64;

#[test]
fn netstack_panics_are_recognised_on_both_path_styles() {
    assert!(is_netstack_panic("src/netstack.rs"));
    assert!(is_netstack_panic("aether\\src\\netstack.rs"));
    assert!(is_netstack_panic(
        "/home/dev/.cargo/registry/src/index.crates.io-123/smoltcp-0.12.0/src/socket/tcp.rs"
    ));
}

#[test]
fn unrelated_panics_are_not_muted() {
    assert!(!is_netstack_panic("src/quic.rs"));
    assert!(!is_netstack_panic("build/smoltcp-helpers/src/lib.rs"));
    assert!(!is_netstack_panic("my_smoltcp_fork.rs"));
    assert!(!is_netstack_panic(""));
}

#[test]
fn smoltcp_paths_need_the_exact_tail() {
    assert!(is_netstack_panic("smoltcp/src/iface/mod.rs"));
    assert!(is_netstack_panic("x/smoltcp-0.11/src/socket/udp.rs"));
    assert!(!is_netstack_panic("smoltcpx/src/socket/udp.rs"));
    assert!(!is_netstack_panic("smoltcp/src/socket/raw.rs"));
    assert!(is_netstack_panic("smoltcp/src/socket/tcp.rs/extra"), "any run of components counts");
}

#[test]
fn control_lines() {
    assert_eq!(control_action(" SHUTDOWN\n"), ControlAction::Shutdown);
    assert_eq!(control_action("cancel"), ControlAction::Cancel);
    assert_eq!(control_action("   "), ControlAction::Blank);
    assert_eq!(control_action("reboot"), ControlAction::Unrecognised);
}

#[test]
fn a_failed_session_explains_itself() {
    assert_eq!(
        failure_message(&AetherError::NoCleanEndpoint),
        "No working gateway found. Try HTTP/2, another scan mode, or a different network."
    );
    assert_eq!(failure_message(&AetherError::Api("down".into())), "api: down");
}

#[test]
fn a_secret_value_never_survives_redaction() {
    let r = redact("hunter2-very-secret");
    assert!(!r.contains("hunter2"), "redaction leaked the value: {r}");
    assert!(r.contains("len=19"), "length should stay reportable: {r}");
    assert_eq!(redact("é"), "<redacted len=1>");
}

#[test]
fn secret_detection_is_by_name_not_by_hardcoded_list() {
    for k in [
        "AETHER_CONFIG_KEY",
        "AETHER_PROXY_PASSWORD",
        "AETHER_DEVICE_TOKEN",
        "AETHER_SOMETHING_SECRET",
    ] {
        assert!(is_secret_key(k), "{k} would be exported verbatim");
    }
    for k in ["AETHER_SCAN", "AETHER_MTU", "AETHER_TUN"] {
        assert!(!is_secret_key(k), "{k} is a knob, not a credential");
    }
    assert!(is_secret_key("my_api_token"));
}

#[test]
fn environment_export_redacts_without_dropping_keys() {
    let env = environment(vec![
        ("AETHER_DIAG_TEST_KEY".to_string(), "super-private-value".to_string()),
        ("AETHER_DIAG_TEST_PLAIN".to_string(), "visible".to_string()),
    ]);
    let secret = env
        .iter()
        .find(|(k, _)| k == "AETHER_DIAG_TEST_KEY")
        .map(|(_, v)| v.clone())
        .expect("redacted key should still be listed");
    assert!(!secret.contains("super-private-value"), "leaked: {secret}");
    assert!(secret.contains("len=19"), "length lost: {secret}");
    assert!(
        env.iter().any(|(k, v)| k == "AETHER_DIAG_TEST_PLAIN" && v == "visible"),
        "a normal knob must pass through unchanged"
    );
}

#[test]
fn boolean_knobs_accept_only_truth_values() {
    for not_true in ["h2", "h3", "wg", "masque", "0", "false", "no", "off", "", "  ", "maybe"] {
        assert!(!env_truthy(Some(not_true)), "{not_true:?} must not enable a boolean knob");
    }
    for is_true in ["1", "true", "TRUE", "yes", "on", " on "] {
        assert!(env_truthy(Some(is_true)), "{is_true:?} should be true");
    }
    assert!(!env_truthy(None), "absent is false");
    assert!(truthy("Yes"));
}

#[test]
fn the_h2_switch_also_takes_its_own_token() {
    assert!(h2_enabled(Some(" H2 ")));
    assert!(h2_enabled(Some("on")));
    assert!(!h2_enabled(Some("h3")));
    assert!(!h2_enabled(None));
    assert_eq!(active_masque_transport(true), TransportKind::H2);
    assert_eq!(active_masque_transport(false), TransportKind::Quic);
}

#[test]
fn cache_vocabulary() {
    assert!(Mutation::Skipped.was_skipped());
    assert!(!Mutation::Applied.was_skipped());
    assert!(Rejected::default().is_empty());
    assert!(!Rejected { future_timestamp: 0, implausible_address: 1, clamped_counters: 0, implausible_rtt: 0 }.is_empty());
    assert_eq!(Measurement::default(), Measurement::HandshakeProbe);
    assert_eq!(TransportKind::default(), TransportKind::Quic);
}

#[test]
fn counters_report_their_new_value() {
    let c = AtomicU64::new(5);
    assert_eq!(bump(&c), 6);
    assert_eq!(bump_by(&c, 4), 10);
    let top = AtomicU64::new(u64::MAX);
    assert_eq!(bump(&top), 0);
}

fn account(v4: &str) -> AccountData {
    AccountData {
        id: "id".into(),
        token: "t".into(),
        config: Config {
            interface: Interface { addresses: Addresses { v4: String::new(), v6: String::new() } },
            peers: vec![Peer {
                public_key: "pk".into(),
                endpoint: Endpoint { host: String::new(), v4: v4.into(), v6: String::new() },
            }],
            client_id: String::new(),
        },
    }
}

#[test]
fn the_masque_endpoint_takes_port_443() {
    assert_eq!(masque_endpoint_from(&account("162.159.198.2:0")).as_deref(), Some("162.159.198.2:443"));
    assert_eq!(masque_endpoint_from(&account(" 10.0.0.1 ")).as_deref(), Some("10.0.0.1:443"));
    assert_eq!(masque_endpoint_from(&account("  ")), None);
    assert_eq!(masque_endpoint_from(&account(":0")), None);
    let mut none = account("x");
    none.config.peers.clear();
    assert_eq!(masque_endpoint_from(&none), None);
}

#[test]
fn identity_capabilities() {
    let mut id = Identity {
        device_id: "d".into(),
        access_token: "t".into(),
        cert_pem: vec![],
        key_pem: vec![1],
        ipv4: "172.16.0.2".into(),
        ipv6: String::new(),
        wg_private_key: [9; 32],
        wg_peer_public_key: [10; 32],
        client_id: [1, 2, 3],
        masque_endpoint: None,
    };
    assert_eq!(id.capability(), IdentityCapability::WireGuardOnly);
    assert!(!id.can_run_masque() && !id.has_masque_credentials());
    id.cert_pem = vec![1];
    assert_eq!(id.capability(), IdentityCapability::MasqueReady);
    assert!(id.can_run_masque());
    assert_eq!(id.private_key_bytes().unwrap(), [9; 32]);
    assert_eq!(id.peer_public_key_bytes().unwrap(), [10; 32]);
}

#[test]
fn retry_waits_back_off_and_are_capped() {
    assert_eq!(retry_wait_ms(None, 0), 500);
    assert_eq!(retry_wait_ms(None, 2), 2000);
    assert_eq!(retry_wait_ms(None, 10), 30000);
    assert_eq!(retry_wait_ms(Some(3), 0), 3000);
    assert_eq!(retry_wait_ms(Some(3600), 0), 30000);
}

#[test]
fn error_codes_and_retry_classes() {
    assert_eq!(AetherError::NoCleanEndpoint.code(), "no_clean_endpoint");
    assert!(AetherError::Quic("x".into()).is_retryable());
    assert!(!AetherError::Other("x".into()).is_retryable());
    assert_eq!(AetherError::Other("x".into()).message(), "other: x");
}
