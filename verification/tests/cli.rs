use roxy::addr::{parse_ipv4, IpAddress, Ipv4Addr, SocketAddrV4};
use roxy::cli::{first_ipv4, parse_args, ParseOutcome};
use roxy::rules::{Protocol, Rule};

/// Resolves `host` as the program does: the addresses the system finds.
fn lookup(host: &str) -> Option<Vec<IpAddress>> {
    match dns_lookup::lookup_host(host) {
        Ok(addrs) => Some(
            addrs
                .map(|a| {
                    if a.is_ipv4() {
                        IpAddress::V4(parse_ipv4(&a.to_string()).unwrap())
                    } else {
                        IpAddress::V6(0)
                    }
                })
                .collect(),
        ),
        Err(_) => None,
    }
}

/// Parses `args`, answering each lookup with `resolve`, and gives what the
/// command line yields.
fn parse_with(
    args: Vec<String>,
    bind_addr: &mut Ipv4Addr,
    resolve: &dyn Fn(&str) -> Option<Vec<IpAddress>>,
) -> (ParseOutcome, usize) {
    let mut lookups: Vec<Option<Vec<IpAddress>>> = Vec::new();
    loop {
        let mut bind = *bind_addr;
        let mut workers: usize = 8;
        match parse_args(&args, &mut bind, &mut workers, &lookups) {
            ParseOutcome::NeedsLookup(host) => lookups.push(resolve(&host)),
            other => {
                *bind_addr = bind;
                return (other, lookups.len());
            }
        }
    }
}

fn rules_of(outcome: ParseOutcome) -> Option<Vec<Rule>> {
    match outcome {
        ParseOutcome::Finished(rules) => rules,
        _ => None,
    }
}

fn parse_real(args: Vec<String>, bind_addr: &mut Ipv4Addr) -> Option<Vec<Rule>> {
    rules_of(parse_with(args, bind_addr, &lookup).0)
}

fn toks(v: &[&str]) -> Vec<String> {
    v.iter().map(|s| s.to_string()).collect()
}

#[test]
fn test_parse_args() {
    let mut bind_addr = Ipv4Addr::new(127, 0, 0, 1);

    // Given help it should return None
    let res = parse_real(vec!["--help".to_owned()], &mut bind_addr);
    assert_eq!(res, None);

    // Given help with a rule it should still return None
    let res = parse_real(
        vec!["--help".to_owned(), "--tcp".to_owned(), "1234:12.22.32.43:8080".to_owned()],
        &mut bind_addr,
    );
    assert_eq!(res, None);

    // Parse a tcp rule, a tcp rule from localhost, and a udp rule
    let res = parse_real(
        vec![
            "--tcp".to_owned(),
            "8080:192.0.0.1:80".to_owned(),
            "--tcp".to_owned(),
            "8000:localhost:80".to_owned(),
            "--udp".to_owned(),
            "1234:212.53.12.49:2550".to_owned(),
        ],
        &mut bind_addr,
    );

    let spec: Vec<Rule> = vec![
        Rule {
            protocol: Protocol::TCP,
            listen_port: 8080,
            target_address: SocketAddrV4::new(Ipv4Addr::new(192, 0, 0, 1), 80),
        },
        Rule {
            protocol: Protocol::TCP,
            listen_port: 8000,
            target_address: SocketAddrV4::new(Ipv4Addr::localhost(), 80),
        },
        Rule {
            protocol: Protocol::UDP,
            listen_port: 1234,
            target_address: SocketAddrV4::new(Ipv4Addr::new(212, 53, 12, 49), 2550),
        },
    ];

    assert_eq!(res.unwrap(), spec);

    // Change the bind address
    assert_eq!(parse_ipv4("127.0.0.1"), Some(bind_addr));
    let new_addr = "128.129.130.131";
    parse_real(vec!["--bind".to_owned(), new_addr.to_owned()], &mut bind_addr);
    assert_eq!(parse_ipv4(new_addr), Some(bind_addr));
}

fn no_dns(_: &str) -> Option<Vec<IpAddress>> {
    panic!("no lookup expected")
}

fn failing_dns(_: &str) -> Option<Vec<IpAddress>> {
    None
}

fn v6_then_v4(_: &str) -> Option<Vec<IpAddress>> {
    Some(vec![IpAddress::V6(1), IpAddress::V4(Ipv4Addr::new(10, 0, 0, 7)), IpAddress::V4(Ipv4Addr::new(10, 0, 0, 8))])
}

fn only_v6(_: &str) -> Option<Vec<IpAddress>> {
    Some(vec![IpAddress::V6(1)])
}

#[test]
fn help_anywhere_gives_no_rules() {
    let mut bind = Ipv4Addr::localhost();
    let (out, _) = parse_with(toks(&["--tcp", "80:1.2.3.4:80", "--help"]), &mut bind, &no_dns);
    assert_eq!(out, ParseOutcome::Help);
    let (out, _) = parse_with(toks(&["--bind", "--help"]), &mut bind, &no_dns);
    assert_eq!(out, ParseOutcome::Help);
    // Help wins over a malformed rule, a bad bind address, a bad count and a
    // host that would need a lookup, wherever it stands.
    let (out, _) = parse_with(toks(&["--tcp", "x", "--help"]), &mut bind, &no_dns);
    assert_eq!(out, ParseOutcome::Help);
    let (out, _) = parse_with(toks(&["--bind", "1.2.3", "--help"]), &mut bind, &no_dns);
    assert_eq!(out, ParseOutcome::Help);
    let (out, _) = parse_with(toks(&["--max-workers", "many", "--help"]), &mut bind, &no_dns);
    assert_eq!(out, ParseOutcome::Help);
    let (out, used) = parse_with(toks(&["--tcp", "1:9.9.9.9:1", "--help", "--tcp", "1:somewhere:1"]), &mut bind, &no_dns);
    assert_eq!(out, ParseOutcome::Help);
    assert_eq!(used, 0);
    assert_eq!(bind, Ipv4Addr::localhost());
}

#[test]
fn settings_before_help_are_kept() {
    let mut bind = Ipv4Addr::localhost();
    let (out, _) = parse_with(toks(&["--bind", "1.2.3.4", "--help"]), &mut bind, &no_dns);
    assert_eq!(out, ParseOutcome::Help);
    assert_eq!(bind, Ipv4Addr::new(1, 2, 3, 4));

    // Reading stops at the first error before --help; help is still the answer.
    let mut bind = Ipv4Addr::localhost();
    let (out, _) = parse_with(toks(&["--bind", "5.6.7.8", "--tcp", "bad", "--bind", "9.9.9.9", "--help"]), &mut bind, &no_dns);
    assert_eq!(out, ParseOutcome::Help);
    assert_eq!(bind, Ipv4Addr::new(5, 6, 7, 8));

    // Tokens after --help are not read.
    let mut bind = Ipv4Addr::localhost();
    let (out, _) = parse_with(toks(&["--help", "--bind", "9.9.9.9"]), &mut bind, &no_dns);
    assert_eq!(out, ParseOutcome::Help);
    assert_eq!(bind, Ipv4Addr::localhost());

    let mut bind = Ipv4Addr::localhost();
    let mut workers: usize = 8;
    let out = parse_args(&toks(&["--max-workers", "3", "--help", "--max-workers", "5"]), &mut bind, &mut workers, &vec![]);
    assert_eq!(out, ParseOutcome::Help);
    assert_eq!(workers, 3);
}

#[test]
fn help_after_a_host_still_resolves_it_first() {
    // Whether the rule before --help ends reading decides whether the later
    // --bind is read, so its host is looked up first.
    let args = toks(&["--tcp", "1:name:bad", "--bind", "9.9.9.9", "--help"]);
    let mut bind = Ipv4Addr::localhost();
    let mut workers: usize = 8;
    assert_eq!(parse_args(&args, &mut bind, &mut workers, &vec![]), ParseOutcome::NeedsLookup("name".to_string()));
    let mut bind = Ipv4Addr::localhost();
    assert_eq!(parse_args(&args, &mut bind, &mut workers, &vec![None]), ParseOutcome::Help);
    assert_eq!(bind, Ipv4Addr::new(9, 9, 9, 9));
    let mut bind = Ipv4Addr::localhost();
    assert_eq!(parse_args(&args, &mut bind, &mut workers, &vec![v6_then_v4("name")]), ParseOutcome::Help);
    assert_eq!(bind, Ipv4Addr::localhost());
}

#[test]
fn lookups_never_exceed_tokens() {
    let args = toks(&["--tcp", "1:a:1", "--tcp", "2:b:2", "--udp", "3:c:3"]);
    let mut bind = Ipv4Addr::localhost();
    let (out, used) = parse_with(args.clone(), &mut bind, &failing_dns);
    assert_eq!(out, ParseOutcome::Finished(None));
    assert_eq!(used, 3);
    assert!(used < args.len());
}

#[test]
fn max_workers_and_debug() {
    let args = toks(&["roxy", "--debug", "--max-workers", "+4", "--tcp", "--debug", "80:1.2.3.4:81", "--debug"]);
    let mut bind = Ipv4Addr::localhost();
    let mut workers: usize = 8;
    let out = parse_args(&args, &mut bind, &mut workers, &vec![]);
    assert_eq!(
        out,
        ParseOutcome::Finished(Some(vec![Rule {
            protocol: Protocol::TCP,
            listen_port: 80,
            target_address: SocketAddrV4::new(Ipv4Addr::new(1, 2, 3, 4), 81),
        }]))
    );
    assert_eq!(workers, 4);
    assert_eq!(bind, Ipv4Addr::localhost());

    let mut workers: usize = 8;
    let out = parse_args(&toks(&["--tcp", "80:1.2.3.4:81"]), &mut bind, &mut workers, &vec![]);
    assert!(matches!(out, ParseOutcome::Finished(Some(_))));
    assert_eq!(workers, 8);

    for bad in ["", "-1", "x", "4x", "99999999999999999999999"] {
        let mut workers: usize = 8;
        let out = parse_args(&toks(&["--max-workers", bad, "--tcp", "80:1.2.3.4:81"]), &mut bind, &mut workers, &vec![]);
        assert_eq!(out, ParseOutcome::BadWorkerCount, "{}", bad);
    }
    let mut workers: usize = 8;
    let out = parse_args(&toks(&["--max-workers", "18446744073709551615"]), &mut bind, &mut workers, &vec![]);
    assert_eq!(out, ParseOutcome::Finished(None));
    assert_eq!(workers, usize::MAX);
}

#[test]
fn no_rules_gives_none() {
    let mut bind = Ipv4Addr::localhost();
    let (out, _) = parse_with(toks(&["roxy"]), &mut bind, &no_dns);
    assert_eq!(out, ParseOutcome::Finished(None));
    let (out, _) = parse_with(vec![], &mut bind, &no_dns);
    assert_eq!(out, ParseOutcome::Finished(None));
    let (_, _) = parse_with(toks(&["--tcp", "80:9.9.9.9:80", "--udp"]), &mut bind, &no_dns);
    assert_eq!(bind, Ipv4Addr::localhost());
}

#[test]
fn bad_bind_address_stops() {
    let mut bind = Ipv4Addr::localhost();
    let (out, _) = parse_with(toks(&["--bind", "1.2.3.256", "--tcp", "1:1.1.1.1:1"]), &mut bind, &no_dns);
    assert_eq!(out, ParseOutcome::BadBindAddress);
    assert_eq!(bind, Ipv4Addr::localhost());
}

#[test]
fn bind_set_before_a_later_error_stays_set() {
    let mut bind = Ipv4Addr::localhost();
    let (out, _) = parse_with(toks(&["--bind", "10.1.2.3", "--tcp", "x:1.1.1.1:1"]), &mut bind, &no_dns);
    assert_eq!(out, ParseOutcome::BadRule);
    assert_eq!(bind, Ipv4Addr::new(10, 1, 2, 3));
}

#[test]
fn bad_rules_stop() {
    let mut bind = Ipv4Addr::localhost();
    for bad in ["80", "x:1.2.3.4:80", "70000:1.2.3.4:80", "80:1.2.3.4", "80:1.2.3.4:", "80:1.2.3.4:-1", ":1.2.3.4:80"] {
        let (out, _) = parse_with(toks(&["--udp", bad]), &mut bind, &no_dns);
        assert_eq!(out, ParseOutcome::BadRule, "{}", bad);
    }
}

#[test]
fn port_forms_that_parse_accepts() {
    let mut bind = Ipv4Addr::localhost();
    let (out, _) = parse_with(toks(&["--tcp", "+0080:1.2.3.4:65535:extra"]), &mut bind, &no_dns);
    assert_eq!(
        out,
        ParseOutcome::Finished(Some(vec![Rule {
            protocol: Protocol::TCP,
            listen_port: 80,
            target_address: SocketAddrV4::new(Ipv4Addr::new(1, 2, 3, 4), 65535),
        }]))
    );
    let (out, _) = parse_with(toks(&["--tcp", "+:1.2.3.4:80"]), &mut bind, &no_dns);
    assert_eq!(out, ParseOutcome::BadRule);
    let (out, _) = parse_with(toks(&["--tcp", "65536:1.2.3.4:80"]), &mut bind, &no_dns);
    assert_eq!(out, ParseOutcome::BadRule);
}

#[test]
fn tokens_before_a_flag_are_ignored() {
    let mut bind = Ipv4Addr::localhost();
    let (out, _) = parse_with(toks(&["80:1.2.3.4:80", "--udp", "53:8.8.8.8:53", "99:1.1.1.1:1"]), &mut bind, &no_dns);
    assert_eq!(
        out,
        ParseOutcome::Finished(Some(vec![Rule {
            protocol: Protocol::UDP,
            listen_port: 53,
            target_address: SocketAddrV4::new(Ipv4Addr::new(8, 8, 8, 8), 53),
        }]))
    );
}

#[test]
fn unresolved_host_skips_the_rule() {
    let mut bind = Ipv4Addr::localhost();
    // The target port is not even looked at once the host fails to resolve.
    let (out, used) = parse_with(toks(&["--tcp", "80:nowhere.invalid:bad", "--tcp", "81:1.1.1.1:81"]), &mut bind, &failing_dns);
    assert_eq!(used, 1);
    assert_eq!(
        out,
        ParseOutcome::Finished(Some(vec![Rule {
            protocol: Protocol::TCP,
            listen_port: 81,
            target_address: SocketAddrV4::new(Ipv4Addr::new(1, 1, 1, 1), 81),
        }]))
    );
    let (out, _) = parse_with(toks(&["--tcp", "80:only6:80"]), &mut bind, &only_v6);
    assert_eq!(out, ParseOutcome::Finished(None));
}

#[test]
fn resolved_host_takes_first_ipv4() {
    let mut bind = Ipv4Addr::localhost();
    let (out, used) = parse_with(toks(&["--udp", "5:example:6"]), &mut bind, &v6_then_v4);
    assert_eq!(used, 1);
    assert_eq!(
        out,
        ParseOutcome::Finished(Some(vec![Rule {
            protocol: Protocol::UDP,
            listen_port: 5,
            target_address: SocketAddrV4::new(Ipv4Addr::new(10, 0, 0, 7), 6),
        }]))
    );
}

#[test]
fn parse_asks_for_the_host_it_meets() {
    let mut bind = Ipv4Addr::localhost();
    let args = toks(&["--tcp", "1:alpha:1", "--tcp", "2:beta:2"]);
    assert_eq!(parse_args(&args, &mut bind, &mut 8, &vec![]), ParseOutcome::NeedsLookup("alpha".to_string()));
    let one = vec![None];
    assert_eq!(parse_args(&args, &mut bind, &mut 8, &one), ParseOutcome::NeedsLookup("beta".to_string()));
    let two = vec![None, None];
    assert_eq!(parse_args(&args, &mut bind, &mut 8, &two), ParseOutcome::Finished(None));
    // Lookups beyond those used change nothing.
    let three = vec![None, None, v6_then_v4("x")];
    assert_eq!(parse_args(&args, &mut bind, &mut 8, &three), ParseOutcome::Finished(None));
}

#[test]
fn first_ipv4_picks_the_first() {
    assert_eq!(first_ipv4(&vec![]), None);
    assert_eq!(first_ipv4(&vec![IpAddress::V6(3)]), None);
    assert_eq!(first_ipv4(&v6_then_v4("x").unwrap()), Some(Ipv4Addr::new(10, 0, 0, 7)));
}

#[test]
fn ipv4_text_forms() {
    assert_eq!(parse_ipv4("0.0.0.0"), Some(Ipv4Addr::new(0, 0, 0, 0)));
    assert_eq!(parse_ipv4("255.255.255.255"), Some(Ipv4Addr::new(255, 255, 255, 255)));
    assert_eq!(parse_ipv4("100.200.100.200"), Some(Ipv4Addr::new(100, 200, 100, 200)));
    for bad in ["", "1.2.3", "1.2.3.4.5", "1.2.3.4.", ".1.2.3", "256.1.1.1", "01.2.3.4", "1.2.3.00", "1.2.3.+4", "1.2.3.a", "1..2.3", "1.2.3.0004", " 1.2.3.4"] {
        assert_eq!(parse_ipv4(bad), None, "{}", bad);
    }
    assert_eq!(parse_ipv4("9.99.199.255"), Some(Ipv4Addr::new(9, 99, 199, 255)));
}

#[test]
fn readme_examples() {
    let mut bind = Ipv4Addr::localhost();
    let res = parse_real(toks(&["roxy", "--tcp", "8080:localhost:80"]), &mut bind);
    assert_eq!(
        res,
        Some(vec![Rule {
            protocol: Protocol::TCP,
            listen_port: 8080,
            target_address: SocketAddrV4::new(Ipv4Addr::localhost(), 80),
        }])
    );
    let res = parse_real(toks(&["roxy", "--udp", "3443:192.0.0.1:2550", "--bind", "100.101.102.103"]), &mut bind);
    assert_eq!(
        res,
        Some(vec![Rule {
            protocol: Protocol::UDP,
            listen_port: 3443,
            target_address: SocketAddrV4::new(Ipv4Addr::new(192, 0, 0, 1), 2550),
        }])
    );
    assert_eq!(bind, Ipv4Addr::new(100, 101, 102, 103));
}
