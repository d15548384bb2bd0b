use aether::mtu::{clamp_for_ip_families, current, current_for, env_override, MtuCache, IPV6_MIN_MTU};

#[test]
fn a_resolved_mtu_is_never_shared_with_another_protocol() {
    let mut cache = MtuCache::new();
    cache.put("masque", 1400);
    assert_eq!(cache.get("masque"), Some(1400));
    assert_eq!(
        cache.get("wireguard"),
        None,
        "wireguard inherited masque's 1400 without probing"
    );
    assert_eq!(cache.get("MASQUE"), Some(1400));
    assert_eq!(cache.get(" masque "), Some(1400));

    cache.put("wireguard", 1280);
    assert_eq!(
        cache.get("masque"),
        Some(1400),
        "resolving one protocol overwrote another"
    );
    assert_eq!(cache.get("wireguard"), Some(1280));
    assert_eq!(cache.conservative(), Some(1280));
}

#[test]
fn an_unresolved_cache_reads_as_empty_not_as_something_else() {
    let cache = MtuCache::new();
    assert_eq!(cache.conservative(), None);
    assert_eq!(cache.get("wireguard"), None);
}

#[test]
fn the_shared_cache_is_keyed_by_protocol_too() {
    let mut shared = MtuCache::new();
    shared.put("selftest-a", 1400);
    assert_eq!(shared.get("selftest-a"), Some(1400));
    assert_eq!(
        shared.get("selftest-b"),
        None,
        "the shared cache handed selftest-a's answer to a protocol that never probed"
    );
    assert!(
        shared.conservative().is_none() || shared.conservative() <= Some(1400),
        "the unkeyed read over-claimed: {:?}",
        shared.conservative()
    );
}

#[test]
fn a_v6_interface_never_gets_an_mtu_below_the_ipv6_minimum() {
    assert_eq!(clamp_for_ip_families(576, true), IPV6_MIN_MTU);
    assert_eq!(clamp_for_ip_families(1279, true), IPV6_MIN_MTU);
    assert_eq!(clamp_for_ip_families(1280, true), 1280);
    assert_eq!(clamp_for_ip_families(1400, true), 1400);
}

#[test]
fn an_ipv4_only_interface_keeps_the_configured_value() {
    assert_eq!(clamp_for_ip_families(576, false), 576);
    assert_eq!(clamp_for_ip_families(1280, false), 1280);
}

#[test]
fn the_explicit_setting_wins_when_usable() {
    let mut cache = MtuCache::new();
    cache.put("masque", 1400);
    cache.put("wireguard", 1280);
    assert_eq!(current(Some(" 1000 "), &cache), 1000);
    assert_eq!(current(Some("1600"), &cache), 1280, "out of range falls back");
    assert_eq!(current(None, &cache), 1280);
    assert_eq!(current(None, &MtuCache::new()), 1280);
    assert_eq!(current_for(None, &cache, "MASQUE"), 1400);
    assert_eq!(current_for(Some("abc"), &cache, "other"), 1280);
    assert_eq!(env_override(Some("1000"), true), Some(1280));
    assert_eq!(env_override(Some("1000"), false), Some(1000));
    assert_eq!(env_override(Some("500"), false), None);
    assert_eq!(env_override(None, false), None);
}

#[test]
fn a_second_put_replaces_the_first() {
    let mut cache = MtuCache::new();
    cache.put("wg", 1400);
    cache.put(" WG", 1280);
    assert_eq!(cache.get("wg"), Some(1280));
    assert_eq!(cache.conservative(), Some(1280));
}
