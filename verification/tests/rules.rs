use roxy::addr::{Ipv4Addr, SocketAddrV4};
use roxy::rules::{Protocol, Rule};

#[test]
fn pretty_print_forms() {
    let r = Rule {
        protocol: Protocol::TCP,
        listen_port: 8080,
        target_address: SocketAddrV4::new(Ipv4Addr::new(192, 0, 0, 1), 80),
    };
    assert_eq!(r.pretty_print(), "[TCP] 8080 -> 192.0.0.1:80");
    let r = Rule {
        protocol: Protocol::UDP,
        listen_port: 0,
        target_address: SocketAddrV4::new(Ipv4Addr::new(255, 10, 0, 7), 65535),
    };
    assert_eq!(r.pretty_print(), "[UDP] 0 -> 255.10.0.7:65535");
}

#[test]
fn printed_target_parses_back() {
    for (a, b, c, d, port) in [(0u8, 0u8, 0u8, 0u8, 0u16), (1, 22, 133, 255, 9), (100, 200, 100, 200, 23456)] {
        let r = Rule {
            protocol: Protocol::TCP,
            listen_port: port,
            target_address: SocketAddrV4::new(Ipv4Addr::new(a, b, c, d), port),
        };
        let text = r.pretty_print();
        let tail = text.split(" -> ").nth(1).unwrap();
        let (ip, p) = tail.split_once(':').unwrap();
        assert_eq!(roxy::addr::parse_ipv4(ip), Some(Ipv4Addr::new(a, b, c, d)));
        assert_eq!(p.parse::<u16>().unwrap(), port);
    }
}
