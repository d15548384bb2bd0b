use aether::endpoint_cache::{
    cache_path, first_ranked, merge_ranked, parse_ranked, ranked_file, render_ranked, UNMEASURED_MS,
};
use aether::ip::{sockaddr_text, SockAddr};

fn v4(a: u8, b: u8, c: u8, d: u8, port: u16) -> SockAddr {
    SockAddr { v6: false, ip: u128::from(u32::from_be_bytes([a, b, c, d])), port, scope_id: 0 }
}

const MS: u64 = 1_000_000;

#[test]
fn ranked_roundtrip() {
    let a = v4(1, 2, 3, 4, 443);
    let b = v4(5, 6, 7, 8, 443);
    let text = ranked_file(&[(b, 20 * MS), (a, 5 * MS)], &[]).expect("hits were given");
    let ranked = parse_ranked(&text);
    assert_eq!(ranked.first().copied(), Some(a));
    assert!(ranked.contains(&b));
}

#[test]
fn the_file_lists_hits_fastest_first_with_their_round_trips() {
    let a = v4(1, 2, 3, 4, 443);
    let b = v4(5, 6, 7, 8, 2408);
    let text = ranked_file(&[(b, 20 * MS), (a, 5 * MS + 999)], &[]).unwrap();
    assert_eq!(text, "1.2.3.4:443 5\n5.6.7.8:2408 20\n");
}

#[test]
fn older_entries_follow_unmeasured_and_repeats_are_dropped() {
    let a = v4(1, 1, 1, 1, 443);
    let old1 = v4(9, 9, 9, 9, 443);
    let merged = merge_ranked(&[(a, 7 * MS), (a, 3 * MS)], &[a, old1]);
    assert_eq!(merged, vec![(a, 3), (old1, UNMEASURED_MS)]);
    assert_eq!(render_ranked(&merged), "1.1.1.1:443 3\n9.9.9.9:443\n");
}

#[test]
fn equal_round_trips_keep_their_order() {
    let a = v4(1, 1, 1, 1, 443);
    let b = v4(2, 2, 2, 2, 443);
    let merged = merge_ranked(&[(b, 4 * MS), (a, 4 * MS)], &[]);
    assert_eq!(merged, vec![(b, 4), (a, 4)]);
}

#[test]
fn the_file_keeps_at_most_twelve() {
    let hits: Vec<(SockAddr, u64)> = (1..=10).map(|i| (v4(10, 0, 0, i, 443), u64::from(i) * MS)).collect();
    let olds: Vec<SockAddr> = (1..=10).map(|i| v4(20, 0, 0, i, 443)).collect();
    let merged = merge_ranked(&hits, &olds);
    assert_eq!(merged.len(), 12);
    assert_eq!(merged[10].0, v4(20, 0, 0, 1, 443));
    assert_eq!(merged[11].0, v4(20, 0, 0, 2, 443));
}

#[test]
fn a_session_without_hits_leaves_the_file_alone() {
    assert_eq!(ranked_file(&[], &[v4(1, 1, 1, 1, 443)]), None);
}

#[test]
fn a_zero_round_trip_is_written_bare() {
    let a = v4(1, 2, 3, 4, 443);
    assert_eq!(ranked_file(&[(a, 0)], &[]).unwrap(), "1.2.3.4:443\n");
}

#[test]
fn reading_skips_comments_blanks_junk_and_repeats() {
    let text = "# warm endpoints\n\n  162.159.198.1:443 42\r\nnot-an-address 5\n162.159.192.1:443 80\n162.159.198.1:443\n[2606:4700::1]:2408\n";
    let r = parse_ranked(text);
    assert_eq!(r.len(), 3);
    assert_eq!(r[0], v4(162, 159, 198, 1, 443));
    assert_eq!(r[1], v4(162, 159, 192, 1, 443));
    assert!(r[2].v6 && r[2].port == 2408);
    assert_eq!(first_ranked(&r), Some(r[0]));
    assert_eq!(first_ranked(&[]), None);
}

#[test]
fn reading_stops_at_twelve() {
    let mut text = String::new();
    for i in 1..=20 {
        text.push_str(&format!("10.0.0.{i}:443\n"));
    }
    let r = parse_ranked(&text);
    assert_eq!(r.len(), 12);
    assert_eq!(r[11], v4(10, 0, 0, 12, 443));
}

#[test]
fn addresses_are_written_the_standard_way() {
    assert_eq!(sockaddr_text(v4(162, 159, 198, 1, 443)), "162.159.198.1:443");
    let v6 = SockAddr { v6: true, ip: 0x2606_4700_0000_0000_0000_0000_0000_0001, port: 2408, scope_id: 0 };
    assert_eq!(sockaddr_text(v6), "[2606:4700::1]:2408");
    let scoped = SockAddr { v6: true, ip: 0xfe80_0000_0000_0000_0000_0000_0000_0001, port: 53, scope_id: 3 };
    assert_eq!(sockaddr_text(scoped), "[fe80::1%3]:53");
}

#[test]
fn the_file_sits_beside_the_config() {
    let p = cache_path(Some("/etc/aether/aether.toml"), "masque");
    assert_eq!(p, "/etc/aether/aether-masque-lastconn.txt");
    assert_eq!(cache_path(None, "wg"), "aether-wg-lastconn.txt");
}
