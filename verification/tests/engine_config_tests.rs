use aether::engine_config::{
    absolute_config_path, env_addr, from_settings, parse_listen, EngineConfig, EngineSettings,
};
use aether::error::AetherError;
use aether::ip::SockAddr;

fn loopback(port: u16) -> SockAddr {
    SockAddr { v6: false, ip: 0x7f00_0001, port, scope_id: 0 }
}

#[test]
fn default_ports_valid() {
    let c = EngineConfig::defaults("/home/u/.config/aether/aether.toml".to_string());
    assert_ne!(c.socks.port, c.http.port);
    assert!(c.socks.port >= 1024);
    assert!(!c.has_forced_peer());
}

#[test]
fn a_relative_config_path_is_refused() {
    for rel in ["aether.toml", "./aether.toml", "..\\cfg\\aether.toml", ""] {
        match absolute_config_path("AETHER_CONFIG", rel) {
            Err(e) => assert!(e.message().contains("absolute"), "the error has to say what was wrong: {}", e.message()),
            Ok(p) => panic!("{rel:?} must not be accepted as a config path, got {p}"),
        }
    }
    let abs = "/tmp/aether/aether.toml";
    assert_eq!(absolute_config_path("AETHER_CONFIG", abs).ok().as_deref(), Some(abs));
}

#[test]
fn settings_fill_in_over_the_defaults() {
    let s = EngineSettings {
        protocol: Some("  WireGuard ".to_string()),
        scan: Some("   ".to_string()),
        ip: Some("Dual".to_string()),
        masque_http2: Some("yes".to_string()),
        peer: Some(" 162.159.192.1:2408 ".to_string()),
        ..EngineSettings::default()
    };
    let c = from_settings(&s, "/cfg/aether.toml".to_string()).expect("valid settings");
    assert_eq!(c.protocol, "wireguard");
    assert_eq!(c.scan, "balanced", "a blank value keeps the default");
    assert_eq!(c.ip, "dual");
    assert_eq!(c.noize, "firewall");
    assert!(c.masque_http2 && !c.tun);
    assert_eq!(c.socks, loopback(1819));
    assert_eq!(c.http, loopback(1820));
    let peer = SockAddr { v6: false, ip: (162u128 << 24) | (159 << 16) | (192 << 8) | 1, port: 2408, scope_id: 0 };
    assert_eq!(c.peer, Some(peer));
    assert_eq!(c.wg_peer, Some(peer), "the WireGuard peer falls back to the forced one");
    assert!(c.has_forced_peer());
    assert_eq!(c.config_path, "/cfg/aether.toml");
}

#[test]
fn listeners_stay_on_loopback_unless_allowed() {
    let mut s = EngineSettings { socks: Some("0.0.0.0:1819".to_string()), ..EngineSettings::default() };
    match from_settings(&s, "/cfg".to_string()) {
        Err(AetherError::Config(m)) => assert!(m.contains("loopback")),
        other => panic!("a remote listener was accepted: {other:?}"),
    }
    s.allow_remote_proxy = Some("1".to_string());
    assert!(from_settings(&s, "/cfg".to_string()).is_ok());
    let v6 = EngineSettings { http: Some("[::1]:1900".to_string()), ..EngineSettings::default() };
    let c = from_settings(&v6, "/cfg".to_string()).expect("::1 is loopback");
    assert_eq!(c.http, SockAddr { v6: true, ip: 1, port: 1900, scope_id: 0 });
}

#[test]
fn listener_ports_must_differ_and_be_unprivileged() {
    let same = EngineSettings { http: Some("127.0.0.1:1819".to_string()), ..EngineSettings::default() };
    match from_settings(&same, "/cfg".to_string()) {
        Err(AetherError::Config(m)) => assert_eq!(m, "AETHER_SOCKS and AETHER_HTTP ports must differ"),
        other => panic!("expected a refusal, got {other:?}"),
    }
    match parse_listen("AETHER_HTTP", Some("127.0.0.1:80"), "127.0.0.1:1820") {
        Err(AetherError::Config(m)) => assert_eq!(m, "AETHER_HTTP port must be >= 1024 (got 80)"),
        other => panic!("expected a refusal, got {other:?}"),
    }
    match parse_listen("AETHER_HTTP", Some("localhost:8080"), "127.0.0.1:1820") {
        Err(AetherError::Config(m)) => assert_eq!(m, "bad AETHER_HTTP address localhost:8080"),
        other => panic!("expected a refusal, got {other:?}"),
    }
    assert!(matches!(parse_listen("AETHER_HTTP", None, "127.0.0.1:1820"), Ok(a) if a == loopback(1820)));
}

#[test]
fn peer_settings_parse_or_refuse() {
    assert!(matches!(env_addr("AETHER_PEER", None), Ok(None)));
    assert!(matches!(env_addr("AETHER_PEER", Some("  ")), Ok(None)));
    assert!(matches!(env_addr("AETHER_PEER", Some("[2606:4700:d0::a29f:c001%2]:443")),
        Ok(Some(SockAddr { v6: true, port: 443, scope_id: 2, .. }))));
    match env_addr("AETHER_PEER", Some(" nope ")) {
        Err(AetherError::Config(m)) => assert_eq!(m, "bad AETHER_PEER address  nope "),
        other => panic!("expected a refusal, got {other:?}"),
    }
    let bad_cfg = EngineSettings { config: Some("relative/aether.toml".to_string()), ..EngineSettings::default() };
    assert!(matches!(from_settings(&bad_cfg, "/cfg".to_string()), Err(AetherError::Config(_))));
}
