use roxy::addr::{parse_ipv4, Ipv4Addr, SocketAddrV4};
use roxy::forwarding::{
    is_unexpected_err, match_rule, route_datagram, IoErrorKind, JobEnd, SocketAddress, TcpAction,
    TcpEvent, TcpRelay, UdpDrain, UdpRoute, Worker, WorkerReply,
};
use roxy::pool::{get_idle_worker, idle_after, plan_dispatch, PoolEvent};
use roxy::rules::{Protocol, Rule};

#[test]
fn test_match_rule() {
    let case = vec![
        Rule {
            protocol: Protocol::TCP,
            listen_port: 1234,
            target_address: SocketAddrV4::new(parse_ipv4("100.200.100.200").unwrap(), 23456),
        },
        Rule {
            protocol: Protocol::UDP,
            listen_port: 2000,
            target_address: SocketAddrV4::new(parse_ipv4("100.200.100.200").unwrap(), 22555),
        },
        Rule {
            protocol: Protocol::TCP,
            listen_port: 8080,
            target_address: SocketAddrV4::new(parse_ipv4("100.200.100.200").unwrap(), 80),
        },
    ];

    // should match no rule
    let res = match_rule(Protocol::TCP, 23456, &case);
    assert_eq!(res, None);

    // should match a rule
    let res = match_rule(Protocol::UDP, 2000, &case);
    assert_eq!(res.unwrap().listen_port, 2000);
}

fn rule(p: Protocol, port: u16, target_port: u16) -> Rule {
    Rule { protocol: p, listen_port: port, target_address: SocketAddrV4::new(Ipv4Addr::new(1, 1, 1, 1), target_port) }
}

#[test]
fn match_rule_takes_the_first_and_the_protocol_counts() {
    let rules = vec![rule(Protocol::UDP, 80, 1), rule(Protocol::TCP, 80, 2), rule(Protocol::TCP, 80, 3)];
    assert_eq!(match_rule(Protocol::TCP, 80, &rules).unwrap().target_address.port, 2);
    assert_eq!(match_rule(Protocol::UDP, 80, &rules).unwrap().target_address.port, 1);
    assert_eq!(match_rule(Protocol::UDP, 81, &rules), None);
    assert_eq!(match_rule(Protocol::TCP, 80, &vec![]), None);
}

#[test]
fn unexpected_errors() {
    assert!(!is_unexpected_err::<usize>(Ok(3)));
    assert!(!is_unexpected_err::<usize>(Err(IoErrorKind::WouldBlock)));
    assert!(!is_unexpected_err::<usize>(Err(IoErrorKind::TimedOut)));
    assert!(is_unexpected_err::<usize>(Err(IoErrorKind::Other)));
}

fn read(bytes: usize) -> TcpEvent {
    TcpEvent::Read { data: vec![7u8; bytes], status: Err(IoErrorKind::WouldBlock) }
}

#[test]
fn tcp_relay_rounds() {
    let mut r = TcpRelay::start(1000);
    assert_eq!(r.action, TcpAction::ReadClient);
    assert_eq!(r.advance(read(5), 1000), TcpAction::SendTarget);
    assert_eq!(r.advance(TcpEvent::Sent(true), 1000), TcpAction::ReadTarget);
    assert_eq!(r.advance(read(0), 1000), TcpAction::SendClient);
    // Traffic this round: the idle time restarts even long after.
    assert_eq!(r.advance(TcpEvent::Sent(true), 5000), TcpAction::ReadClient);
    assert_eq!(r.idle_since_ms, 5000);
    // A quiet round before the timeout goes on.
    r.advance(read(0), 5000);
    r.advance(TcpEvent::Sent(true), 5000);
    r.advance(TcpEvent::Read { data: vec![], status: Ok(()) }, 5000);
    assert_eq!(r.advance(TcpEvent::Sent(true), 5099), TcpAction::ReadClient);
    assert_eq!(r.idle_since_ms, 5000);
    // A quiet round at the timeout releases.
    r.advance(read(0), 5100);
    r.advance(TcpEvent::Sent(true), 5100);
    r.advance(read(0), 5100);
    assert_eq!(r.advance(TcpEvent::Sent(true), 5100), TcpAction::Release);
}

#[test]
fn tcp_relay_carries_the_bytes_across() {
    let mut r = TcpRelay::start(0);
    assert_eq!(r.advance(TcpEvent::Read { data: b"ping".to_vec(), status: Ok(()) }, 0), TcpAction::SendTarget);
    assert_eq!(r.pending, b"ping".to_vec());
    assert_eq!(r.advance(TcpEvent::Sent(true), 0), TcpAction::ReadTarget);
    assert_eq!(r.pending, b"ping".to_vec());
    assert_eq!(r.advance(TcpEvent::Read { data: b"pong".to_vec(), status: Err(IoErrorKind::TimedOut) }, 0), TcpAction::SendClient);
    assert_eq!(r.pending, b"pong".to_vec());
}

#[test]
fn tcp_relay_moved_round_ignores_a_clock_that_went_back() {
    let mut r = TcpRelay::start(1000);
    r.advance(read(3), 1000);
    r.advance(TcpEvent::Sent(true), 1000);
    r.advance(read(0), 1000);
    assert_eq!(r.advance(TcpEvent::Sent(true), 400), TcpAction::ReadClient);
    assert_eq!(r.idle_since_ms, 400);
}

#[test]
fn tcp_relay_drops_on_failure() {
    let mut r = TcpRelay::start(0);
    assert_eq!(r.advance(TcpEvent::Read { data: vec![1, 2, 3], status: Err(IoErrorKind::Other) }, 0), TcpAction::Drop);
    let mut r = TcpRelay::start(0);
    r.advance(TcpEvent::Read { data: vec![], status: Err(IoErrorKind::TimedOut) }, 0);
    assert_eq!(r.advance(TcpEvent::Sent(false), 0), TcpAction::Drop);
    let mut r = TcpRelay::start(0);
    r.advance(read(0), 0);
    r.advance(TcpEvent::Sent(true), 0);
    r.advance(read(1), 0);
    assert_eq!(r.advance(TcpEvent::Sent(false), 0), TcpAction::Drop);
}

#[test]
fn udp_drain_reads_until_empty_or_failure() {
    let a = SocketAddress::V4(SocketAddrV4::new(Ipv4Addr::new(1, 2, 3, 4), 9));
    let b = SocketAddress::V6(1, 9);
    let mut d = UdpDrain::new();
    assert!(d.wants_more());
    d.received(Some((10, a)));
    assert!(d.wants_more());
    d.received(Some((0, b)));
    assert!(!d.wants_more());
    assert_eq!(d.from, Some(b));
    let mut d = UdpDrain::new();
    d.received(Some((10, a)));
    d.received(None);
    assert!(!d.wants_more());
    assert_eq!(d.from, Some(a));
}

#[test]
fn udp_routing() {
    let target = SocketAddrV4::new(Ipv4Addr::new(10, 0, 0, 1), 53);
    let client = SocketAddrV4::new(Ipv4Addr::new(192, 168, 1, 2), 4000);
    let mut last = None;
    assert_eq!(route_datagram(None, target, &mut last), UdpRoute::Ignore);
    assert_eq!(route_datagram(Some(SocketAddress::V4(target)), target, &mut last), UdpRoute::Ignore);
    assert_eq!(route_datagram(Some(SocketAddress::V6(5, 53)), target, &mut last), UdpRoute::Ignore);
    assert_eq!(last, None);
    assert_eq!(route_datagram(Some(SocketAddress::V4(client)), target, &mut last), UdpRoute::ToTarget(target));
    assert_eq!(last, Some(client));
    assert_eq!(route_datagram(Some(SocketAddress::V4(target)), target, &mut last), UdpRoute::ToClient(client));
    assert_eq!(last, Some(client));
}

#[test]
fn worker_replies() {
    assert_eq!(Worker::replies(JobEnd::TcpReleased), vec![WorkerReply::ReturnTcp, WorkerReply::Done]);
    assert_eq!(Worker::replies(JobEnd::TcpDropped), vec![WorkerReply::Done]);
    assert_eq!(Worker::replies(JobEnd::UdpServed), vec![WorkerReply::ReturnUdp, WorkerReply::Done]);
}

#[test]
fn idle_worker_is_the_first_idle() {
    assert_eq!(get_idle_worker(&vec![]), None);
    assert_eq!(get_idle_worker(&vec![false, false]), None);
    assert_eq!(get_idle_worker(&vec![false, true, true]), Some(1));
}

#[test]
fn idle_flags_follow_the_worker() {
    assert!(!idle_after(true, PoolEvent::Dispatched));
    assert!(idle_after(false, PoolEvent::Replied(WorkerReply::Done)));
    assert!(!idle_after(false, PoolEvent::Replied(WorkerReply::ReturnTcp)));
    assert!(idle_after(true, PoolEvent::Replied(WorkerReply::ReturnUdp)));
    assert!(idle_after(false, PoolEvent::Replaced));
}

#[test]
fn dispatch_plan_takes_idle_workers_in_order() {
    assert_eq!(plan_dispatch(&vec![false, true, false, true], 3), vec![Some(1), Some(3), None]);
    assert_eq!(plan_dispatch(&vec![true], 0), vec![]);
    assert_eq!(plan_dispatch(&vec![], 2), vec![None, None]);
    assert_eq!(plan_dispatch(&vec![true, true, true], 2), vec![Some(0), Some(1)]);
}
