use aether::ip::{parse_socket_addr, sockaddr_text, socket_display, SockAddr};
use aether::ip::{parse_ipv4, parse_ipv6};
use aether::error::AetherError;
use aether::netstack::{parse_v4, parse_v6};

#[test]
fn full_ipv6_forms_parse_to_their_words() {
    assert_eq!(parse_ipv6("1:2:3:4:5:6:7:8"), Some([1, 2, 3, 4, 5, 6, 7, 8]));
    assert_eq!(parse_ipv6("2606:4700:D0:0:0:0:A29F:c602"), Some([0x2606, 0x4700, 0xd0, 0, 0, 0, 0xa29f, 0xc602]));
    assert_eq!(parse_ipv6("0001:2:3:4:5:6:7:8"), Some([1, 2, 3, 4, 5, 6, 7, 8]), "leading zeros are fine");
    assert_eq!(parse_ipv6("1:2:3:4:5:6:1.2.3.4"), Some([1, 2, 3, 4, 5, 6, 0x0102, 0x0304]));
}

#[test]
fn a_double_colon_stands_for_zero_groups() {
    assert_eq!(parse_ipv6("::"), Some([0; 8]));
    assert_eq!(parse_ipv6("::1"), Some([0, 0, 0, 0, 0, 0, 0, 1]));
    assert_eq!(parse_ipv6("fe80::"), Some([0xfe80, 0, 0, 0, 0, 0, 0, 0]));
    assert_eq!(parse_ipv6("2606:4700:d0::a29f:c602"), Some([0x2606, 0x4700, 0xd0, 0, 0, 0, 0xa29f, 0xc602]));
    assert_eq!(parse_ipv6("::ffff:192.0.2.1"), Some([0, 0, 0, 0, 0, 0xffff, 0xc000, 0x0201]));
    assert_eq!(parse_ipv6("1:2:3:4:5:6:7::"), Some([1, 2, 3, 4, 5, 6, 7, 0]));
    assert_eq!(parse_ipv6("::2:3:4:5:6:7:8"), Some([0, 2, 3, 4, 5, 6, 7, 8]));
}

#[test]
fn malformed_ipv6_is_refused() {
    for bad in [
        "",
        ":",
        ":::",
        "1::2::3",
        "1:2:3:4:5:6:7",
        "1:2:3:4:5:6:7:8:9",
        "1:2:3:4:5:6:7:8::",
        "::1:2:3:4:5:6:7:8",
        "12345::",
        "g::",
        "1.2.3.4::",
        "1:2:3:1.2.3.4",
        "1:2:3:4:5:6::1.2.3.4",
        "::01.2.3.4",
        ":1::",
        "[::1]",
        "::1%3",
    ] {
        assert_eq!(parse_ipv6(bad), None, "{bad:?} must not parse");
    }
}

#[test]
fn ipv4_text_follows_the_standard_grammar() {
    assert_eq!(parse_ipv4("162.159.193.1"), Some([162, 159, 193, 1]));
    assert_eq!(parse_ipv4("01.2.3.4"), None);
    assert_eq!(parse_ipv4("1.2.3"), None);
    assert_eq!(parse_ipv4("256.1.1.1"), None);
}

#[test]
fn interface_v6_settings_carry_a_prefix() {
    assert!(matches!(parse_v6(""), Ok(None)));
    assert!(matches!(parse_v6("2606:4700:110:8a36::2/128"), Ok(Some(([0x2606, 0x4700, 0x110, 0x8a36, 0, 0, 0, 2], 128)))));
    assert!(matches!(parse_v6("fd00::5"), Ok(Some(([0xfd00, 0, 0, 0, 0, 0, 0, 5], 128)))));
    assert!(matches!(parse_v6("fd00::5/64"), Ok(Some(([0xfd00, 0, 0, 0, 0, 0, 0, 5], 64)))));
    match parse_v6("fd00::zz/64") {
        Err(AetherError::Other(m)) => assert_eq!(m, "bad ipv6 fd00::zz/64"),
        other => panic!("expected a refusal, got {other:?}"),
    }
    assert!(matches!(parse_v4("172.16.0.2/32"), Ok(Some(([172, 16, 0, 2], 32)))));
}

#[test]
fn socket_address_text_reads_back() {
    use_roundtrip();
}

fn use_roundtrip() {
    let samples = [
        SockAddr { v6: false, ip: 0xA29FC601, port: 443, scope_id: 0 },
        SockAddr { v6: true, ip: 0x2606_4700_0000_0000_0000_0000_0000_0001, port: 2408, scope_id: 0 },
        SockAddr { v6: true, ip: 0x0000_0000_0000_0000_0000_ffff_0102_0304, port: 80, scope_id: 0 },
        SockAddr { v6: true, ip: 0xfe80_0000_0000_0000_0000_0000_0000_0001, port: 53, scope_id: 7 },
        SockAddr { v6: true, ip: 0, port: 1, scope_id: 0 },
    ];
    for a in samples {
        let t = sockaddr_text(a);
        assert_eq!(parse_socket_addr(&t), Some(a), "{t}");
        assert_eq!(socket_display(&t), Some(t.clone()));
    }
    assert_eq!(sockaddr_text(samples[2]), "[::ffff:1.2.3.4]:80");
    assert_eq!(sockaddr_text(samples[4]), "[::]:1");
}
