use aether::netstack::SocketBudget;
use aether::netstack::{
    alloc_port, cidr_prefix, forbidden_destination, next_ephemeral, pick_free_port,
    port_cursor_from, routable_prefix_v4, routable_prefix_v6, seed_port_cursor, strip_cidr,
    tcp_admission, udp_admission, DrainSrc, DrainState, IpAddress, SocketClass, StackDevice,
    EPHEMERAL_BASE, EPHEMERAL_SPAN, MAX_INGEST_PER_TICK, MAX_TCP_PROXY, MAX_TCP_RESOLVER,
    MAX_UDP_PROXY, MAX_UDP_RESOLVER, MEM_BUDGET_TOTAL, RX_RING, TX_EGRESS_SLACK, TX_RING,
};

#[test]
fn cmd_not_starved_by_inbound() {
    let mut queued_ingest = MAX_INGEST_PER_TICK * 5;
    let mut queued_cmd = 1usize;
    let mut state = DrainState::default();
    let mut steps = 0usize;
    while queued_cmd > 0 {
        let ready = [queued_ingest > 0, queued_cmd > 0, false];
        match state.next(ready) {
            None => break,
            Some(DrainSrc::Ingest) => queued_ingest -= 1,
            Some(DrainSrc::Cmd) => queued_cmd -= 1,
            Some(DrainSrc::Data) => {}
        }
        steps += 1;
        assert!(steps <= 10, "a concurrently submitted command took {steps} drain steps");
    }
    assert_eq!(queued_cmd, 0, "OpenTcp was starved by the ingest backlog");
    assert!(queued_ingest > 0, "the drain ran the ingest queue dry instead of rotating");

    let mut state = DrainState::default();
    let mut ingested = 0usize;
    for _ in 0..1_000 {
        match state.next([true, false, false]) {
            Some(DrainSrc::Ingest) => ingested += 1,
            Some(_) => unreachable!("nothing else was ready"),
            None => break,
        }
    }
    assert_eq!(ingested, MAX_INGEST_PER_TICK, "one pass is bounded by the ingest cap");
}

#[test]
fn ingress_admission_is_bounded_and_counted() {
    let mut device = StackDevice::new(1500);
    let mut accepted = 0;
    for _ in 0..RX_RING * 2 {
        if device.push_ingress(vec![0u8; 1448]) {
            accepted += 1;
        }
    }
    assert_eq!(accepted, RX_RING);
    assert_eq!(device.rx_len(), RX_RING);
    assert_eq!(device.rx_dropped, RX_RING as u64);
    assert_eq!(device.rx_bytes, RX_RING * 1448);
    assert!(device.pop_ingress().is_some());
    assert_eq!(device.rx_bytes, (RX_RING - 1) * 1448);
}

#[test]
fn tx_ring_is_bounded() {
    let mut device = StackDevice::new(1500);
    let mut queued = 0;
    for _ in 0..TX_RING * 2 {
        if device.transmit_ready() && device.queue_egress(vec![0u8; 60], TX_RING) {
            queued += 1;
        }
    }
    assert_eq!(queued, TX_RING);
    assert_eq!(device.tx_len(), TX_RING, "ring must stop at TX_RING");
    assert!(device.tx_deferred > 0, "saturation must be observable");
    assert!(device.queue_egress(vec![0u8; 60], TX_RING + TX_EGRESS_SLACK), "replies get slack");
    assert!(device.tx_len() > TX_RING);
}

#[test]
fn ephemeral_ports_are_scattered_and_cover_the_band() {
    let (mut cursor, stride) = seed_port_cursor();
    assert!(stride % 2 == 1, "stride must be odd to cover the band");
    assert!(stride >= 17);
    let first = alloc_port(&mut cursor, stride);
    assert!((EPHEMERAL_BASE..=65535).contains(&first));
    let mut seen = std::collections::HashSet::new();
    seen.insert(first);
    for _ in 0..(EPHEMERAL_SPAN - 1) {
        let port = alloc_port(&mut cursor, stride);
        assert!((EPHEMERAL_BASE..=65535).contains(&port), "port {port} escaped the ephemeral band");
        assert!(seen.insert(port), "cycle repeated after only {} ports", seen.len());
    }
    assert_eq!(seen.len(), EPHEMERAL_SPAN as usize, "did not cover the band");
}

#[test]
fn a_free_port_skips_the_taken_ones() {
    let start = 60000;
    let taken = [60000u16, next_ephemeral(60000, 17)];
    let got = pick_free_port(&taken, start, 17).unwrap();
    assert_eq!(got, next_ephemeral(next_ephemeral(60000, 17), 17));
    assert_eq!(port_cursor_from(0, 0), (EPHEMERAL_BASE, 17));
    assert_eq!(next_ephemeral(65535, 1), EPHEMERAL_BASE);
}

#[test]
fn the_budget_degrades_before_it_refuses() {
    assert_eq!(tcp_admission(0), Some((1024 * 1024, 256 * 1024)));
    assert_eq!(tcp_admission(MEM_BUDGET_TOTAL - 1024 * 1024), Some((128 * 1024, 64 * 1024)));
    assert_eq!(tcp_admission(MEM_BUDGET_TOTAL), None);
    assert_eq!(tcp_admission(usize::MAX), None);
    assert_eq!(udp_admission(0), Some(128 * 1024));
    assert_eq!(udp_admission(MEM_BUDGET_TOTAL - 1000), None);
}

#[test]
fn socket_classes_have_their_own_budgets() {
    assert_eq!(SocketClass::for_resolver(true), SocketClass::Resolver);
    assert_eq!(SocketClass::Proxy.tcp_cap(), MAX_TCP_PROXY);
    assert_eq!(SocketClass::Resolver.tcp_cap(), MAX_TCP_RESOLVER);
    assert_eq!(SocketClass::Proxy.udp_cap(), MAX_UDP_PROXY);
    assert_eq!(SocketClass::Resolver.udp_cap(), MAX_UDP_RESOLVER);
    assert_eq!(SocketClass::Resolver.label(), "resolver");
}

#[test]
fn interface_addresses() {
    assert_eq!(strip_cidr("172.16.0.2/32"), "172.16.0.2");
    assert_eq!(strip_cidr("172.16.0.2"), "172.16.0.2");
    assert_eq!(cidr_prefix("172.16.0.2/32"), Some(32));
    assert_eq!(cidr_prefix("172.16.0.2/x"), None);
    assert_eq!(cidr_prefix("172.16.0.2"), None);
    assert_eq!(routable_prefix_v4(32), 24);
    assert_eq!(routable_prefix_v4(16), 16);
    assert_eq!(routable_prefix_v6(128), 64);
    assert_eq!(routable_prefix_v6(48), 48);
}

fn v6(words: [u16; 8]) -> IpAddress {
    IpAddress::V6(words)
}

#[test]
fn tunnel_destinations_are_confined_to_routable_space() {
    assert_eq!(forbidden_destination(IpAddress::V4([127, 0, 0, 1]), None), Some("loopback"));
    assert_eq!(
        forbidden_destination(IpAddress::V4([169, 254, 169, 254]), None),
        Some("link-local (instance metadata)")
    );
    assert_eq!(forbidden_destination(IpAddress::V4([100, 64, 0, 1]), None), Some("carrier-grade NAT (100.64.0.0/10)"));
    assert_eq!(forbidden_destination(IpAddress::V4([0, 1, 2, 3]), None), Some("unspecified/this-network"));
    assert_eq!(forbidden_destination(IpAddress::V4([224, 0, 0, 1]), None), Some("multicast"));
    assert_eq!(forbidden_destination(IpAddress::V4([1, 1, 1, 1]), None), None);
    assert_eq!(forbidden_destination(IpAddress::V4([192, 168, 1, 1]), None), None);
    assert_eq!(
        forbidden_destination(IpAddress::V4([192, 168, 1, 1]), Some("1")),
        Some("private (AETHER_BLOCK_LAN_TARGETS)")
    );
    assert_eq!(forbidden_destination(v6([0, 0, 0, 0, 0, 0, 0, 1]), None), Some("loopback (::1)"));
    assert_eq!(forbidden_destination(v6([0; 8]), None), Some("unspecified (::)"));
    assert_eq!(forbidden_destination(v6([0xfd00, 0, 0, 0, 0, 0, 0, 1]), None), Some("unique local (fc00::/7)"));
    assert_eq!(forbidden_destination(v6([0xfe80, 0, 0, 0, 0, 0, 0, 1]), None), Some("link-local (fe80::/10)"));
    assert_eq!(forbidden_destination(v6([0x2001, 0, 1, 2, 3, 4, 5, 6]), None), Some("teredo (2001:0::/32)"));
    assert_eq!(forbidden_destination(v6([0xff05, 0, 0, 0, 0, 0, 0, 1]), None), Some("multicast"));
    assert_eq!(forbidden_destination(v6([0x2606, 0x4700, 0, 0, 0, 0, 0, 0x1111]), None), None);
}

#[test]
fn ipv4_targets_in_ipv6_form_are_refused_too() {
    assert_eq!(
        forbidden_destination(v6([0, 0, 0, 0, 0, 0xffff, 0xa9fe, 0xa9fe]), None),
        Some("link-local (instance metadata)")
    );
    assert_eq!(forbidden_destination(v6([0, 0, 0, 0, 0, 0, 0x7f00, 0x0001]), None), Some("loopback"));
    assert_eq!(forbidden_destination(v6([0x2002, 0x7f00, 0x0001, 0, 0, 0, 0, 0]), None), Some("loopback"));
    assert_eq!(forbidden_destination(v6([0, 0, 0, 0, 0, 0xffff, 0x0101, 0x0101]), None), None);
}

#[test]
fn transmit_ring_is_bounded_and_reports_backpressure() {
    let mut device = StackDevice::new(1500);
    for i in 0..TX_RING * 3 {
        if device.transmit_ready() {
            device.queue_egress(vec![(i & 0xff) as u8; 64], TX_RING);
        } else {
            break;
        }
    }
    assert_eq!(device.tx_len(), TX_RING, "ring must stop at TX_RING");
    assert!(device.tx_deferred > 0, "saturation must be observable, not indistinguishable from idle");
    assert!(!device.transmit_ready());
}

use aether::ip::SockAddr;
use aether::netstack::{
    abandon_reason, after_read, connect_edge, tcp_open_check, udp_open_check, AfterRead,
    ConnectEdge, Egress, TcpFlow, TcpPhase, MAX_PENDING_PER_CONN,
};

fn sock(a: u8, b: u8, c: u8, d: u8, port: u16) -> SockAddr {
    SockAddr { v6: false, ip: u128::from(u32::from_be_bytes([a, b, c, d])), port, scope_id: 0 }
}

#[test]
fn a_connect_is_refused_for_a_forbidden_destination_first() {
    match tcp_open_check(sock(127, 0, 0, 1, 80), None, MAX_TCP_PROXY, SocketClass::Proxy, MEM_BUDGET_TOTAL) {
        Err(m) => assert_eq!(m, "destination 127.0.0.1:80 is not reachable through the tunnel: loopback"),
        Ok(_) => panic!("loopback must be refused"),
    }
}

#[test]
fn local_refusals_start_with_too_many_tcp_connections() {
    let dst = sock(1, 1, 1, 1, 443);
    assert_eq!(
        tcp_open_check(dst, None, MAX_TCP_PROXY, SocketClass::Proxy, 0),
        Err("too many TCP connections (proxy)".to_string())
    );
    assert_eq!(
        tcp_open_check(dst, None, 0, SocketClass::Resolver, MEM_BUDGET_TOTAL),
        Err("too many TCP connections (resolver): memory admission budget is full".to_string())
    );
    assert_eq!(tcp_open_check(dst, None, 0, SocketClass::Proxy, 0), Ok((1 << 20, 256 << 10)));
}

#[test]
fn udp_associations_are_capped_per_class() {
    assert_eq!(
        udp_open_check(MAX_UDP_RESOLVER, SocketClass::Resolver, 0),
        Err("too many UDP associations (resolver)".to_string())
    );
    assert_eq!(
        udp_open_check(0, SocketClass::Proxy, MEM_BUDGET_TOTAL),
        Err("too many UDP associations (proxy): memory admission budget is full".to_string())
    );
    assert_eq!(udp_open_check(0, SocketClass::Proxy, 0), Ok(131072));
}

#[test]
fn a_flow_over_its_pending_limit_is_closed() {
    let mut f = TcpFlow::new();
    assert!(f.queue(&vec![1u8; MAX_PENDING_PER_CONN]));
    assert!(!f.queue(&[2u8]));
    assert!(f.half_closed() && f.dead());
    assert_eq!(f.pending().len(), MAX_PENDING_PER_CONN);
}

#[test]
fn egress_drops_what_was_sent_and_a_dead_socket_drops_the_rest() {
    let mut f = TcpFlow::new();
    f.queue(b"hello world");
    f.egress(Egress::Accepted(6));
    assert_eq!(f.pending(), b"world");
    f.egress(Egress::Accepted(0));
    assert_eq!(f.pending(), b"world");
    assert!(!f.close_now());
    f.close_requested();
    assert!(!f.close_now(), "the backlog goes out first");
    f.egress(Egress::Accepted(5));
    assert!(f.close_now());
    let mut g = TcpFlow::new();
    g.queue(b"stuck");
    g.egress(Egress::Dead);
    assert!(g.pending().is_empty() && g.dead() && g.half_closed());
}

#[test]
fn connect_edges_and_teardown() {
    assert_eq!(connect_edge(false, TcpPhase::Established), ConnectEdge::Opened);
    assert_eq!(connect_edge(false, TcpPhase::Closed), ConnectEdge::Refused);
    assert_eq!(connect_edge(false, TcpPhase::TimeWait), ConnectEdge::Refused);
    assert_eq!(connect_edge(false, TcpPhase::SynSent), ConnectEdge::Unchanged);
    assert_eq!(connect_edge(true, TcpPhase::Closed), ConnectEdge::Unchanged);
    assert_eq!(after_read(TcpPhase::CloseWait, true), AfterRead::Close);
    assert_eq!(after_read(TcpPhase::Closed, true), AfterRead::Remove);
    assert_eq!(after_read(TcpPhase::Closed, false), AfterRead::Keep);
    assert_eq!(abandon_reason(true), None);
    assert_eq!(abandon_reason(false), Some("connection abandoned before it completed"));
    let mut f = TcpFlow::new();
    f.mark_established();
    assert!(f.established());
}

#[test]
fn a_saturated_proxy_class_leaves_the_resolver_its_own_budget() {
    let mut b = SocketBudget::new();
    let mut proxy = 0usize;
    while b.check_udp(SocketClass::Proxy).is_ok() {
        b.charge_udp(SocketClass::Proxy);
        proxy += 1;
    }
    assert_eq!(proxy, MAX_UDP_PROXY);
    assert_eq!(
        b.check_udp(SocketClass::Proxy).unwrap_err(),
        "too many UDP associations (proxy)"
    );
    let mut resolver = 0usize;
    while b.check_udp(SocketClass::Resolver).is_ok() {
        b.charge_udp(SocketClass::Resolver);
        resolver += 1;
    }
    assert_eq!(resolver, MAX_UDP_RESOLVER);
    let dst = sock(93, 184, 216, 34, 443);
    let pair = b.check_tcp(dst, None, SocketClass::Proxy).unwrap();
    b.charge_tcp(SocketClass::Proxy, pair);
    let pair = b.check_tcp(dst, None, SocketClass::Resolver).unwrap();
    b.charge_tcp(SocketClass::Resolver, pair);
    assert_eq!(b.tcp_in_class(SocketClass::Proxy), 1);
    assert_eq!(b.tcp_in_class(SocketClass::Resolver), 1);
    b.release_udp(SocketClass::Proxy, 262144);
    assert_eq!(b.udp_in_class(SocketClass::Proxy), MAX_UDP_PROXY - 1);
    assert!(b.check_udp(SocketClass::Proxy).is_ok());
}

