use aether::http_proxy::rewrite_is_defined;
use aether::http_proxy::{failure_reply, ProxyFailure};
use aether::http_proxy::early_data;
use aether::http_proxy::{parse_authority, parse_request_head, ProxyRequest};
use aether::dns::{
    build_dataplane_probe, dataplane_probe_target, dataplane_probe_with, ipv4_checksum, is_dns_reply,
    parse_https_ech, read_name, RR_HTTPS,
};
use aether::masque::{encode_datagram_capsule, Capsule, CapsuleParser};
use aether::http_proxy::{assert_strict_crlf, find_header_end, rewrite_absolute_uri};

const QID: u16 = 0x1234;
const NAME: &str = "cloudflare-ech.com";

fn reply(flags: u16, an: u16, name: &str) -> Vec<u8> {
    let mut msg = Vec::new();
    msg.extend_from_slice(&QID.to_be_bytes());
    msg.extend_from_slice(&flags.to_be_bytes());
    msg.extend_from_slice(&[0, 1, an.to_be_bytes()[0], an.to_be_bytes()[1], 0, 0, 0, 0]);
    for label in name.split('.') {
        msg.push(label.len() as u8);
        msg.extend_from_slice(label.as_bytes());
    }
    msg.push(0);
    msg.extend_from_slice(&RR_HTTPS.to_be_bytes());
    msg.extend_from_slice(&[0x00, 0x01]);
    if an == 0 {
        return msg;
    }
    msg.extend_from_slice(&[0xc0, 0x0c]);
    let rdata: Vec<u8> = vec![0x00, 0x00, 0x00, 0x00, 0x05, 0x00, 0x04, 0xde, 0xad, 0xbe, 0xef];
    msg.extend_from_slice(&RR_HTTPS.to_be_bytes());
    msg.extend_from_slice(&[0x00, 0x01]);
    msg.extend_from_slice(&[0, 0, 0, 60]);
    msg.extend_from_slice(&(rdata.len() as u16).to_be_bytes());
    msg.extend_from_slice(&rdata);
    msg
}

#[test]
fn accepts_a_well_formed_answer() {
    let msg = reply(0x8180, 1, NAME);
    assert_eq!(parse_https_ech(&msg, QID, NAME).as_deref(), Some(&[0xde, 0xad, 0xbe, 0xef][..]));
}

#[test]
fn rejects_forged_or_unasked_for_answers() {
    assert_eq!(parse_https_ech(&reply(0x8180, 1, NAME), 0x4321, NAME), None);
    assert_eq!(parse_https_ech(&reply(0x8180, 1, "evil.example"), QID, NAME), None);
    assert_eq!(parse_https_ech(&reply(0x8380, 1, NAME), QID, NAME), None);
    assert_eq!(parse_https_ech(&reply(0x0180, 1, NAME), QID, NAME), None);
    assert_eq!(parse_https_ech(&reply(0x8183, 1, NAME), QID, NAME), None);
    assert_eq!(parse_https_ech(&reply(0x8180, 0, NAME), QID, NAME), None);
    assert_eq!(parse_https_ech(&[0u8; 4], QID, NAME), None);
}

#[test]
fn read_name_refers_to_compression() {
    let mut buf = Vec::new();
    buf.push(3);
    buf.extend_from_slice(b"www");
    buf.push(7);
    buf.extend_from_slice(b"example");
    buf.extend_from_slice(b"");
    buf.push(3);
    buf.extend_from_slice(b"com");
    buf.push(0);
    assert_eq!(read_name(&buf, 0).as_deref(), Some("www.example.com"));
    let ptr = [0xc0, 0x0c];
    assert_eq!(read_name(&ptr, 0), None);
}

fn probe(src: [u8; 4]) -> Vec<u8> {
    build_dataplane_probe(src, [8, 8, 8, 8])
}

#[test]
fn dns_probe_is_ipv4_udp_to_1111() {
    let src = [198, 18, 0, 1];
    let pkt = probe(src);
    assert!(pkt.len() >= 28, "header+udp min");
    assert_eq!(pkt[0] >> 4, 4, "IPv4");
    assert_eq!(pkt[9], 17, "UDP");
    assert_eq!(&pkt[12..16], &src);
    assert_eq!(&pkt[16..20], &[8, 8, 8, 8]);
    assert_eq!(u16::from_be_bytes([pkt[22], pkt[23]]), 53);
}

#[test]
fn ipv4_checksum_field_zeroed_in_sum() {
    let pkt = probe([10, 0, 0, 2]);
    let mut sum = 0u32;
    for i in (0..20).step_by(2) {
        sum += u16::from_be_bytes([pkt[i], pkt[i + 1]]) as u32;
    }
    while sum > 0xffff {
        sum = (sum & 0xffff) + (sum >> 16);
    }
    assert_eq!(sum as u16, 0xffff);
    assert_eq!(ipv4_checksum(&pkt[..20]), u16::from_be_bytes([pkt[10], pkt[11]]));
}

#[test]
fn dataplane_accepts_only_dns_reply_from_resolver() {
    let resolver = [8, 8, 8, 8];
    let p = probe([198, 18, 0, 1]);
    assert!(!is_dns_reply(&p, resolver));
    let mut reply = vec![0u8; 32];
    reply[0] = 0x45;
    reply[9] = 17;
    reply[12..16].copy_from_slice(&[8, 8, 8, 8]);
    reply[20..22].copy_from_slice(&53u16.to_be_bytes());
    reply[24] = 0x81;
    assert!(is_dns_reply(&reply, resolver));
}

#[test]
fn an_echoed_probe_is_not_data_plane_proof() {
    let resolver = [8, 8, 8, 8];
    let echo = probe([198, 18, 0, 1]);
    assert!(!is_dns_reply(&echo, resolver), "echo accepted as a reply");
    let mut spoof = echo.clone();
    spoof[12..16].copy_from_slice(&resolver);
    spoof[20..22].copy_from_slice(&53u16.to_be_bytes());
    assert!(!is_dns_reply(&spoof, resolver), "spoofed echo accepted");
    let mut real = spoof.clone();
    real[24] |= 0x80;
    assert!(is_dns_reply(&real, resolver), "real reply rejected");
}

#[test]
fn datagram_capsule_roundtrip_for_probe() {
    let pkt = probe([198, 18, 0, 1]);
    let framed = encode_datagram_capsule(&pkt);
    let mut parser = CapsuleParser::new();
    parser.push(&framed);
    match parser.next().expect("parse") {
        Some(Capsule::Datagram(got)) => assert_eq!(got, pkt),
        other => panic!("expected datagram, got {other:?}"),
    }
}

#[test]
fn a_probe_with_fixed_draws_is_exact() {
    let pkt = dataplane_probe_with([10, 0, 0, 2], [1, 1, 1, 1], 0x1234, 0x0001, 25000);
    assert_eq!(pkt.len(), 60);
    assert_eq!(&pkt[..4], &[0x45, 0, 0, 60]);
    assert_eq!(&pkt[20..28], &[0xaf, 0xc8, 0, 53, 0, 40, 0, 0]);
    assert_eq!(&pkt[28..30], &[0x12, 0x34]);
    assert_eq!(&pkt[40..51], b"\x0acloudflare");
}

#[test]
fn the_probe_target_is_a_setting() {
    assert_eq!(dataplane_probe_target(None), [8, 8, 8, 8]);
    assert_eq!(dataplane_probe_target(Some(" 1.1.1.1 ")), [1, 1, 1, 1]);
    assert_eq!(dataplane_probe_target(Some("1.1.1")), [8, 8, 8, 8]);
    assert_eq!(dataplane_probe_target(Some("01.1.1.1")), [8, 8, 8, 8]);
    assert_eq!(dataplane_probe_target(Some("256.1.1.1")), [8, 8, 8, 8]);
}

#[test]
fn separates_pipelined_connect_payload() {
    let request = b"CONNECT example.com:443 HTTP/1.1\r\n\r\nTLS";
    let end = find_header_end(request).unwrap();
    assert_eq!(&request[end..], b"TLS");
}

#[test]
fn bare_line_terminators_are_rejected() {
    assert!(assert_strict_crlf(b"GET / HTTP/1.1\r\nHost: a\r\n\r\n").is_ok());
    assert!(assert_strict_crlf(b"GET http://a/\nHost: b\r\n\r\n").is_err());
    assert!(assert_strict_crlf(b"GET / HTTP/1.1\r\r\nHost: a").is_err());
    assert!(assert_strict_crlf(b"GET / HTTP/1.1\r\nHost: a\r\n\0").is_err());
}

#[test]
fn rewrite_only_ever_touches_the_request_line() {
    let evil = b"GET http://a/\nX-Injected: 1\r\nHost: a\r\n\r\n".to_vec();
    assert!(
        rewrite_absolute_uri(evil).is_err(),
        "a request line containing a bare LF must not be rewritten"
    );
    let ok = b"GET http://a/x?y=1 HTTP/1.1\r\nHost: a\r\n\r\n".to_vec();
    let out = rewrite_absolute_uri(ok).unwrap();
    assert!(out.starts_with(b"GET /x?y=1 HTTP/1.1\r\nHost: a"));
}

#[test]
fn rewrite_absolute_uri_preserves_query_string() {
    let req1 = b"GET http://example.com/api/test?foo=bar&baz=1 HTTP/1.1\r\nHost: example.com\r\n\r\n".to_vec();
    let res1 = rewrite_absolute_uri(req1).unwrap();
    assert!(res1.starts_with(b"GET /api/test?foo=bar&baz=1 HTTP/1.1\r\n"));

    let req2 = b"GET http://example.com?foo=bar HTTP/1.1\r\nHost: example.com\r\n\r\n".to_vec();
    let res2 = rewrite_absolute_uri(req2).unwrap();
    assert!(res2.starts_with(b"GET /?foo=bar HTTP/1.1\r\n"));

    let req3 = b"GET http://example.com:8080?filter=/root/dir HTTP/1.1\r\nHost: example.com:8080\r\n\r\n".to_vec();
    let res3 = rewrite_absolute_uri(req3).unwrap();
    assert!(res3.starts_with(b"GET /?filter=/root/dir HTTP/1.1\r\n"));

    let req4 = b"GET http://example.com HTTP/1.1\r\nHost: example.com\r\n\r\n".to_vec();
    let res4 = rewrite_absolute_uri(req4).unwrap();
    assert!(res4.starts_with(b"GET / HTTP/1.1\r\n"));

    let req5 = b"GET /already/origin?foo=1 HTTP/1.1\r\nHost: example.com\r\n\r\n".to_vec();
    let res5 = rewrite_absolute_uri(req5.clone()).unwrap();
    assert_eq!(res5, req5);
}

#[test]
fn authorities_resolve_to_host_and_port() {
    let ok = |v: &str, d: u16| parse_authority(v, d).map(|(h, p)| (h, p)).ok();
    assert_eq!(ok("example.com:8080", 80), Some(("example.com".to_string(), 8080)));
    assert_eq!(ok("example.com", 80), Some(("example.com".to_string(), 80)));
    assert_eq!(ok("example.com:", 443), Some(("example.com".to_string(), 443)), "an empty port is the default");
    assert_eq!(ok("user:pw@host.test:81", 80), Some(("host.test".to_string(), 81)));
    assert_eq!(ok(" 1.2.3.4:99 ", 80), Some(("1.2.3.4".to_string(), 99)));
    assert_eq!(ok("[2606:4700:0:0:0:0:0:1]:443", 80), Some(("2606:4700::1".to_string(), 443)));
    assert_eq!(ok("[fe80::1%3]:22", 80), Some(("fe80::1".to_string(), 22)));
    assert_eq!(ok("[::ffff:10.0.0.1]:8443", 80), Some(("::ffff:10.0.0.1".to_string(), 8443)));
    assert_eq!(ok("[not-an-ip]:81", 80), Some(("not-an-ip".to_string(), 81)));
    assert_eq!(ok("[::1]", 80), Some(("::1".to_string(), 80)));
    assert_eq!(ok("2606:4700::1", 443), Some(("2606:4700::1".to_string(), 443)), "a bare v6 keeps its colons");
    match parse_authority("host:http", 80) {
        Err(e) => assert_eq!(e.message(), "other: invalid proxy port"),
        Ok(v) => panic!("accepted {v:?}"),
    }
    match parse_authority("   ", 80) {
        Err(e) => assert_eq!(e.message(), "other: proxy target missing"),
        Ok(v) => panic!("accepted {v:?}"),
    }
}

#[test]
fn request_heads_name_their_target() {
    let head = b"CONNECT example.com:443 HTTP/1.1\r\nHost: example.com\r\n\r\nEARLY";
    let req = parse_request_head(head).expect("a CONNECT");
    assert_eq!(req, ProxyRequest { connect: true, host: "example.com".to_string(), port: 443, header_end: head.len() - 5 });

    let get = b"GET http://a.test:8080/x HTTP/1.0\r\nHost: b.test\r\n\r\n";
    let req = parse_request_head(get).expect("absolute form");
    assert_eq!((req.connect, req.host.as_str(), req.port), (false, "a.test", 8080));

    let origin = b"get /x HTTP/1.1\r\nUser-Agent: t\r\n  hOsT :  c.test:81 \r\n\r\n";
    let req = parse_request_head(origin).expect("origin form");
    assert_eq!((req.connect, req.host.as_str(), req.port), (false, "c.test", 81));

    let cases: [(&[u8], &str); 6] = [
        (b"GET / HTTP/1.1\r\nAccept: */*\r\n\r\n", "other: HTTP Host header missing"),
        (b"GET / HTTP/2\r\nHost: a\r\n\r\n", "other: malformed HTTP request line"),
        (b"GET  / HTTP/1.1\r\nHost: a\r\n\r\n", "other: malformed HTTP request line"),
        (b"GET / HTTP/1.1\r\nHost: a\r\n", "other: invalid HTTP header"),
        (b"GET / HTTP/1.1\r\nHost: \xff\r\n\r\n", "other: invalid HTTP header"),
        (b"GET / HTTP/1.1\nHost: a\r\n\r\n", "other: HTTP header: bare LF"),
    ];
    for (head, msg) in cases {
        match parse_request_head(head) {
            Err(e) => assert_eq!(e.message(), msg),
            Ok(r) => panic!("accepted {r:?}"),
        }
    }
    let mut long = b"GET /".to_vec();
    long.extend(std::iter::repeat(b'a').take(4096));
    long.extend_from_slice(b" HTTP/1.1\r\nHost: a\r\n\r\n");
    match parse_request_head(&long) {
        Err(e) => assert_eq!(e.message(), "other: HTTP request line too long"),
        Ok(r) => panic!("accepted {r:?}"),
    }
}

#[test]
fn proxy_failures_get_the_matching_status() {
    assert_eq!(failure_reply(ProxyFailure::Resolve), "HTTP/1.1 502 Bad Gateway\r\nConnection: close\r\n\r\n");
    assert_eq!(failure_reply(ProxyFailure::Connect), failure_reply(ProxyFailure::Resolve));
    assert_eq!(failure_reply(ProxyFailure::Timeout), "HTTP/1.1 504 Gateway Timeout\r\nConnection: close\r\n\r\n");
    assert_eq!(failure_reply(ProxyFailure::Rewrite), "HTTP/1.1 400 Bad Request\r\nConnection: close\r\n\r\n");
}

#[test]
fn pipelined_bytes_after_a_connect_are_forwarded() {
    let buf = b"CONNECT a:443 HTTP/1.1\r\n\r\nHELLO";
    assert_eq!(early_data(buf, buf.len() - 5), Some(b"HELLO".to_vec()));
    assert_eq!(early_data(buf, buf.len()), None);
}

#[test]
fn a_rewrite_can_be_asked_for_first() {
    assert!(rewrite_is_defined(b"GET http://example.com/ HTTP/1.1\r\n\r\n"));
    assert!(rewrite_is_defined(b"no line end"));
    assert!(rewrite_is_defined(b"GET /plain HTTP/1.1\r\n\r\n"));
    let mut inside = b"GET http:/".to_vec();
    inside.extend_from_slice("\u{e9}x HTTP/1.1\r\n\r\n".as_bytes());
    assert!(!rewrite_is_defined(&inside), "byte seven sits inside a character");
}

#[test]
fn request_lines_must_be_well_formed_utf8() {
    let ok = |line: &[u8]| {
        let mut v = line.to_vec();
        v.extend_from_slice(b"\r\n\r\n");
        rewrite_absolute_uri(v).is_ok()
    };
    assert!(ok(b"GET /caf\xc3\xa9 HTTP/1.1"));
    assert!(ok(b"GET /\xe2\x82\xac HTTP/1.1"));
    assert!(ok(b"GET /\xf0\x9f\x98\x80 HTTP/1.1"));
    assert!(!ok(b"GET /\xc0\xaf HTTP/1.1"), "overlong encoding");
    assert!(!ok(b"GET /\xed\xa0\x80 HTTP/1.1"), "surrogate");
    assert!(!ok(b"GET /\xf4\x90\x80\x80 HTTP/1.1"), "beyond U+10FFFF");
    assert!(!ok(b"GET /\xe2\x82 HTTP/1.1"), "cut short");
    assert!(!ok(b"GET /\x80 HTTP/1.1"), "a lone continuation byte");
}

