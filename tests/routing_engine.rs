use srelay::conf::{
    check_var_name, is_reserved_name, link_conf, startup_status, ConfigError, Egress, EgressKind,
    RefVal, Relay,
};
use srelay::matcher::{matches_suffix, normalize_name, DomainMatcher, DomainSet, IpMatcher, IpNet, IpSet};
use srelay::routing::{
    decide, needs_inspection, Action, ConnectionFacts, Predicate, RouteError, Rule, RoutingBranch,
};
use srelay::session::{connection_facts, dispatch, read_command, route_dns_query, Dispatch, DnsRoute, State};
use srelay::inspect::{inspect, inspection_facts, HttpHead};
use srelay::sni::{parse_client_hello, parse_tls_extension, SniParse, TlsExtension};
use srelay::routing::Protocol;
use srelay::socks::Address;

fn egress(n: &str) -> RoutingBranch {
    RoutingBranch::Egress(n.as_bytes().to_vec())
}

fn named(n: &str) -> RoutingBranch {
    RoutingBranch::NamedRule(n.as_bytes().to_vec())
}

fn cond(p: Predicate, t: RoutingBranch, e: RoutingBranch) -> RoutingBranch {
    RoutingBranch::Cond(p, Box::new(t), Box::new(e))
}

fn facts(port: u16) -> ConnectionFacts {
    ConnectionFacts { port: Some(port), domain_sets: vec![], ip_sets: None, sni: None, protocol: None }
}

fn rule(n: &str, b: RoutingBranch) -> Rule {
    Rule { name: n.as_bytes().to_vec(), branch: b }
}

fn egress_of(r: Result<Action, RouteError>) -> Option<Vec<u8>> {
    match dispatch(&r) {
        Dispatch::Dial(n) => Some(n),
        Dispatch::Reset => None,
    }
}

fn client_hello(host: &[u8]) -> Vec<u8> {
    let mut sni_ext = Vec::new();
    let entry_len = 3 + host.len();
    sni_ext.extend_from_slice(&(entry_len as u16).to_be_bytes());
    sni_ext.push(0);
    sni_ext.extend_from_slice(&(host.len() as u16).to_be_bytes());
    sni_ext.extend_from_slice(host);
    let mut exts = Vec::new();
    exts.extend_from_slice(&[0x00, 0x0b, 0x00, 0x02, 0x01, 0x00]);
    exts.extend_from_slice(&[0x00, 0x00]);
    exts.extend_from_slice(&(sni_ext.len() as u16).to_be_bytes());
    exts.extend_from_slice(&sni_ext);
    let mut body = vec![0x03, 0x03];
    body.extend_from_slice(&[7u8; 32]);
    body.push(0);
    body.extend_from_slice(&[0x00, 0x02, 0x13, 0x01]);
    body.extend_from_slice(&[0x01, 0x00]);
    body.extend_from_slice(&(exts.len() as u16).to_be_bytes());
    body.extend_from_slice(&exts);
    let mut hs = vec![0x01, 0x00];
    hs.extend_from_slice(&(body.len() as u16).to_be_bytes());
    hs.extend_from_slice(&body);
    let mut rec = vec![0x16, 0x03, 0x01];
    rec.extend_from_slice(&(hs.len() as u16).to_be_bytes());
    rec.extend_from_slice(&hs);
    rec
}

#[test]
fn single_egress_root() {
    let root = egress("direct0");
    assert_eq!(egress_of(decide(&[], &root, &facts(80))), Some(b"direct0".to_vec()));
}

#[test]
fn blocked_domain_is_reset() {
    let matcher = DomainMatcher {
        sets: vec![DomainSet {
            name: b"blocked".to_vec(),
            exact: vec![b"example.test".to_vec()],
            suffixes: vec![],
        }],
    };
    let root = cond(Predicate::Domain(b"blocked".to_vec()), RoutingBranch::Reset, egress("proxy"));
    let mut f = facts(443);
    f.domain_sets = matcher.lookup(b"example.test");
    assert!(matches!(decide(&[], &root, &f), Ok(Action::Reset)));
    assert!(matches!(dispatch(&decide(&[], &root, &f)), Dispatch::Reset));
    f.domain_sets = matcher.lookup(b"other.test");
    assert_eq!(egress_of(decide(&[], &root, &f)), Some(b"proxy".to_vec()));
}

#[test]
fn sni_routes_to_a() {
    let hello = client_hello(b"foo.example");
    let sni = match parse_client_hello(&hello) {
        SniParse::Host(h) => h,
        other => panic!("unexpected {:?}", other),
    };
    assert_eq!(sni, b"foo.example".to_vec());
    let root = cond(Predicate::Sni(b"foo.example".to_vec()), egress("a"), egress("b"));
    assert!(needs_inspection(&[], &root));
    let mut f = facts(443);
    f.sni = Some(sni);
    assert_eq!(egress_of(decide(&[], &root, &f)), Some(b"a".to_vec()));
}

#[test]
fn unknown_sni_routes_to_b() {
    let root = cond(Predicate::Sni(b"foo.example".to_vec()), egress("a"), egress("b"));
    assert_eq!(egress_of(decide(&[], &root, &facts(443))), Some(b"b".to_vec()));
}

#[test]
fn sni_parser_outcomes() {
    let hello = client_hello(b"foo.example");
    for cut in 0..hello.len() {
        let r = parse_client_hello(&hello[..cut]);
        assert!(matches!(r, SniParse::NeedMore), "cut {}", cut);
    }
    assert!(matches!(parse_client_hello(b"GET / HTTP/1.1\r\n"), SniParse::Invalid));
    for a in 0..=255u8 {
        for b in [0u8, 3, 0x16, 0xFF] {
            let r = parse_client_hello(&[a, b]);
            assert!(matches!(r, SniParse::NeedMore | SniParse::Invalid));
        }
    }
}

#[test]
fn sequence_first_match_wins() {
    let root = RoutingBranch::Either(
        Box::new(cond(Predicate::Port(vec![22, 25]), egress("mail"), RoutingBranch::Abstain)),
        Box::new(RoutingBranch::Either(Box::new(egress("web")), Box::new(egress("never")))),
    );
    assert_eq!(egress_of(decide(&[], &root, &facts(25))), Some(b"mail".to_vec()));
    assert_eq!(egress_of(decide(&[], &root, &facts(80))), Some(b"web".to_vec()));
    assert!(matches!(decide(&[], &RoutingBranch::Abstain, &facts(1)), Ok(Action::Abstain)));
}

#[test]
fn decide_is_deterministic() {
    let rules = vec![rule("r", cond(Predicate::Any, egress("x"), egress("y")))];
    let root = named("r");
    let a = format!("{:?}", decide(&rules, &root, &facts(1)));
    let b = format!("{:?}", decide(&rules, &root, &facts(1)));
    assert_eq!(a, b);
    let mut f = facts(1);
    f.ip_sets = Some(vec![b"lan".to_vec()]);
    let c = format!("{:?}", decide(&rules, &root, &f));
    assert_eq!(a, c);
}

#[test]
fn named_rule_cycle_is_detected() {
    let rules = vec![rule("a", named("b")), rule("b", named("a"))];
    match decide(&rules, &named("a"), &facts(1)) {
        Err(RouteError::Cycle(n)) => assert_eq!(n, b"a".to_vec()),
        other => panic!("unexpected {:?}", other),
    }
    let rules = vec![rule("self", named("self"))];
    assert!(matches!(decide(&rules, &named("self"), &facts(1)), Err(RouteError::Cycle(_))));
    assert!(matches!(decide(&rules, &named("nope"), &facts(1)), Err(RouteError::UnknownRule(_))));
}

#[test]
fn dns_query_uses_matching_upstream() {
    let matcher = DomainMatcher {
        sets: vec![DomainSet {
            name: b"b".to_vec(),
            exact: vec![],
            suffixes: vec![b"b.example".to_vec()],
        }],
    };
    let root = cond(Predicate::Domain(b"b".to_vec()), egress("X"), egress("Y"));
    match route_dns_query(&matcher, &[], &root, b"a.b.example") {
        DnsRoute::Upstream(n) => assert_eq!(n, b"X".to_vec()),
        other => panic!("unexpected {:?}", other),
    }
    match route_dns_query(&matcher, &[], &root, b"A.B.Example") {
        DnsRoute::Upstream(n) => assert_eq!(n, b"X".to_vec()),
        other => panic!("unexpected {:?}", other),
    }
    match route_dns_query(&matcher, &[], &root, b"ab.example") {
        DnsRoute::Upstream(n) => assert_eq!(n, b"Y".to_vec()),
        other => panic!("unexpected {:?}", other),
    }
    assert!(matches!(
        route_dns_query(&matcher, &[], &RoutingBranch::Reset, b"x"),
        DnsRoute::NoUpstreamMatched
    ));
}

#[test]
fn matcher_is_byte_exact() {
    assert!(matches_suffix(b"a.b.example", b"b.example"));
    assert!(matches_suffix(b"b.example", b"b.example"));
    assert!(!matches_suffix(b"ab.example", b"b.example"));
    assert!(!matches_suffix(b"a.B.example", b"b.example"));
    assert!(matches_suffix(&normalize_name(b"a.B.example"), b"b.example"));
    assert_eq!(normalize_name(b"AbZ-9.@["), b"abz-9.@[".to_vec());
    let m = DomainMatcher {
        sets: vec![
            DomainSet { name: b"one".to_vec(), exact: vec![b"x.test".to_vec()], suffixes: vec![] },
            DomainSet { name: b"two".to_vec(), exact: vec![], suffixes: vec![b"test".to_vec()] },
        ],
    };
    assert_eq!(m.lookup(b"x.test"), vec![b"one".to_vec(), b"two".to_vec()]);
    assert_eq!(m.lookup(b"y.x.test"), vec![b"two".to_vec()]);
    assert_eq!(m.lookup(b"X.test"), vec![b"two".to_vec()]);
    assert!(m.lookup(b"other").is_empty());
}

#[test]
fn missing_egress_fails_startup() {
    let relays = vec![Relay {
        listen: Address::Ipv4 { ip: vec![127, 0, 0, 1], port: 1080 },
        root: egress("missing"),
    }];
    let egresses = vec![Egress { name: b"direct0".to_vec(), kind: EgressKind::Direct }];
    let r = link_conf(vec![], egresses, relays, None, DomainMatcher { sets: vec![] }, IpMatcher { sets: vec![] });
    match &r {
        Err(ConfigError::UnresolvedRef(n)) => assert_eq!(n, &b"missing".to_vec()),
        other => panic!("unexpected {:?}", other),
    }
    assert_eq!(startup_status(true, r.is_ok()), 100);
    assert_eq!(startup_status(false, false), 99);
    assert_eq!(startup_status(true, true), 0);
}

#[test]
fn link_accepts_resolved_config() {
    let rules = vec![rule("main", cond(Predicate::Any, egress("out"), named("fallback"))),
        rule("fallback", RoutingBranch::Reset)];
    let egresses = vec![Egress { name: b"out".to_vec(), kind: EgressKind::Direct }];
    let relays = vec![Relay {
        listen: Address::Ipv4 { ip: vec![127, 0, 0, 1], port: 1080 },
        root: named("main"),
    }];
    let c = link_conf(rules, egresses, relays, None, DomainMatcher { sets: vec![] }, IpMatcher { sets: vec![] }).unwrap();
    assert_eq!(c.rules.len(), 2);
    assert_eq!(c.relays.len(), 1);
    assert_eq!(c.find_egress(b"out").map(|e| e.name.clone()), Some(b"out".to_vec()));
    assert!(c.find_egress(b"missing").is_none());
}

#[test]
fn reserved_names_are_refused() {
    for w in ["bind", "else", "socks5", "direct", "reset", "any", "cond"] {
        assert!(is_reserved_name(w.as_bytes()));
    }
    assert!(!is_reserved_name(b"direct0"));
    assert_eq!(check_var_name(&vec![b"ok".to_vec(), b"reset".to_vec()]), Err(b"reset".to_vec()));
    assert_eq!(check_var_name(&vec![b"ok".to_vec()]), Ok(()));
    let egresses = vec![Egress { name: b"direct".to_vec(), kind: EgressKind::Direct }];
    let r = link_conf(vec![], egresses, vec![], None, DomainMatcher { sets: vec![] }, IpMatcher { sets: vec![] });
    assert!(matches!(r, Err(ConfigError::ReservedName(n)) if n == b"direct".to_vec()));
}

#[test]
fn refval_links_by_name() {
    let table = vec![(b"k".to_vec(), 7u32), (b"k".to_vec(), 8u32)];
    let mut r: RefVal<u32> = RefVal::Ref(b"k".to_vec());
    assert_eq!(r.get_ref(), Some(b"k".to_vec()));
    assert_eq!(r.insert_value(&table), Ok(()));
    assert_eq!(*r.val(), 7);
    assert_eq!(r.get_ref(), None);
    let mut m: RefVal<u32> = RefVal::Ref(b"z".to_vec());
    assert_eq!(m.insert_value(&table), Err(b"z".to_vec()));
    assert_eq!(m.get_ref(), Some(b"z".to_vec()));
}

fn ip_matcher() -> IpMatcher {
    IpMatcher {
        sets: vec![
            IpSet {
                name: b"lan".to_vec(),
                nets: vec![
                    IpNet { addr: vec![10, 0, 0, 0], prefix_len: 8 },
                    IpNet { addr: vec![192, 168, 0, 0], prefix_len: 20 },
                ],
            },
            IpSet { name: b"all4".to_vec(), nets: vec![IpNet { addr: vec![0, 0, 0, 0], prefix_len: 0 }] },
            IpSet {
                name: b"v6doc".to_vec(),
                nets: vec![IpNet { addr: vec![0x20, 0x01, 0x0d, 0xb8, 0, 0, 0, 0, 0, 0, 0, 0, 0, 0, 0, 0], prefix_len: 32 }],
            },
        ],
    }
}

#[test]
fn ip_matcher_prefixes() {
    let m = ip_matcher();
    assert_eq!(m.lookup(&[10, 200, 3, 4]), vec![b"lan".to_vec(), b"all4".to_vec()]);
    assert_eq!(m.lookup(&[192, 168, 15, 1]), vec![b"lan".to_vec(), b"all4".to_vec()]);
    assert_eq!(m.lookup(&[192, 168, 16, 1]), vec![b"all4".to_vec()]);
    let mut v6 = vec![0x20, 0x01, 0x0d, 0xb8];
    v6.extend_from_slice(&[9u8; 12]);
    assert_eq!(m.lookup(&v6), vec![b"v6doc".to_vec()]);
    assert!(m.lookup(&[1, 2, 3]).is_empty());
    assert!(!IpNet { addr: vec![1, 2, 3, 4], prefix_len: 33 }.covers(&[1, 2, 3, 4]));
    assert!(IpNet { addr: vec![1, 2, 3, 4], prefix_len: 32 }.covers(&[1, 2, 3, 4]));
}

#[test]
fn facts_from_destination() {
    let dm = DomainMatcher {
        sets: vec![DomainSet { name: b"ex".to_vec(), exact: vec![], suffixes: vec![b"example.test".to_vec()] }],
    };
    let im = ip_matcher();
    let dest = Address::Domain { name: b"WWW.Example.Test".to_vec(), port: 443 };
    let f = connection_facts(&dest, &dm, &im, None, None, None);
    assert_eq!(f.port, Some(443));
    assert_eq!(f.domain_sets, vec![b"ex".to_vec()]);
    assert!(f.ip_sets.is_none());
    let resolved = Address::Ipv4 { ip: vec![10, 1, 1, 1], port: 443 };
    let (sni, proto) = inspect(&client_hello(b"www.example.test"));
    let f = connection_facts(&dest, &dm, &im, Some(&resolved), sni, proto);
    assert_eq!(f.ip_sets, Some(vec![b"lan".to_vec(), b"all4".to_vec()]));
    assert_eq!(f.sni, Some(b"www.example.test".to_vec()));
    assert_eq!(f.protocol, Some(Protocol::Tls));
    let f = connection_facts(&resolved, &dm, &im, None, None, None);
    assert!(f.domain_sets.is_empty());
    assert_eq!(f.ip_sets, Some(vec![b"lan".to_vec(), b"all4".to_vec()]));
    let root = cond(Predicate::Ip(b"lan".to_vec()), egress("inside"), egress("outside"));
    assert_eq!(egress_of(decide(&[], &root, &f)), Some(b"inside".to_vec()));
    assert_eq!(inspection_facts(SniParse::NeedMore, HttpHead::Partial), (None, None));
    assert_eq!(inspection_facts(SniParse::Invalid, HttpHead::Complete(3)), (None, Some(Protocol::Http)));
    assert_eq!(inspection_facts(SniParse::NoSni, HttpHead::Invalid), (None, Some(Protocol::Tls)));
}

#[test]
fn tls_extension_reading() {
    let sni = [0x00u8, 0x00, 0x00, 0x0c, 0x00, 0x0a, 0x00, 0x00, 0x03, b'a', b'.', b'b', 0x05, 0x00, 0x01, b'x', 0xEE];
    match parse_tls_extension(&sni, 0, 16) {
        Some((TlsExtension::Sni(v), next)) => {
            assert_eq!(next, 16);
            assert_eq!(v, vec![(0u8, b"a.b".to_vec()), (5u8, b"x".to_vec())]);
        }
        other => panic!("unexpected {:?}", other),
    }
    let other = [0x00u8, 0x0b, 0x00, 0x02, 0x01, 0x00];
    assert_eq!(
        parse_tls_extension(&other, 0, 6),
        Some((TlsExtension::Unknown(0x0b, vec![0x01, 0x00]), 6))
    );
    assert_eq!(parse_tls_extension(&other, 0, 5), None);
    assert_eq!(parse_tls_extension(&other, 0, 3), None);
}

#[test]
fn http_requests_are_classified() {
    assert_eq!(inspect(b"GET / HTTP/1.1\r\nHost: example.test\r\n\r\nbody"), (None, Some(Protocol::Http)));
    assert_eq!(inspect(b"GET / HTTP/1.1\r\nHost: exa"), (None, None));
    assert_eq!(inspect(b""), (None, None));
    assert_eq!(inspect(&[0x16, 0x03]), (None, None));
    let root = cond(Predicate::Protocol(Protocol::Http), egress("web"), egress("other"));
    let (sni, proto) = inspect(b"POST /x HTTP/1.0\r\n\r\n");
    let mut f = facts(80);
    f.sni = sni;
    f.protocol = proto;
    assert!(needs_inspection(&[], &root));
    assert_eq!(egress_of(decide(&[], &root, &f)), Some(b"web".to_vec()));
}

fn relay_to(root: RoutingBranch) -> Vec<Relay> {
    vec![Relay { listen: Address::Ipv4 { ip: vec![127, 0, 0, 1], port: 1080 }, root }]
}

#[test]
fn rule_cycles_fail_linking() {
    let egresses = || vec![Egress { name: b"out".to_vec(), kind: EgressKind::Direct }];
    let r = link_conf(vec![rule("a", named("a"))], egresses(), vec![], None, DomainMatcher { sets: vec![] }, IpMatcher { sets: vec![] });
    assert!(matches!(r, Err(ConfigError::CycleInRules(n)) if n == b"a".to_vec()));
    let rules = vec![
        rule("a", cond(Predicate::Port(vec![1]), egress("out"), named("b"))),
        rule("b", RoutingBranch::Either(Box::new(RoutingBranch::Abstain), Box::new(named("a")))),
    ];
    let r = link_conf(rules, egresses(), relay_to(named("a")), None, DomainMatcher { sets: vec![] }, IpMatcher { sets: vec![] });
    assert!(matches!(r, Err(ConfigError::CycleInRules(_))));
    let rules = vec![
        rule("top", RoutingBranch::Either(Box::new(named("left")), Box::new(named("right")))),
        rule("left", named("leaf")),
        rule("right", named("leaf")),
        rule("leaf", egress("out")),
    ];
    let r = link_conf(rules, egresses(), relay_to(named("top")), None, DomainMatcher { sets: vec![] }, IpMatcher { sets: vec![] });
    assert!(r.is_ok());
}

#[test]
fn undefined_rule_is_named() {
    let r = link_conf(vec![], vec![], relay_to(named("nowhere")), None, DomainMatcher { sets: vec![] }, IpMatcher { sets: vec![] });
    assert!(matches!(r, Err(ConfigError::UnresolvedRef(n)) if n == b"nowhere".to_vec()));
}

#[test]
fn blocked_domain_request_bytes_to_reset() {
    let mut req = vec![0x05, 0x01, 0x00, 0x03, 12];
    req.extend_from_slice(b"example.test");
    req.extend_from_slice(&[0x01, 0xBB]);
    let bound = Address::Ipv4 { ip: vec![10, 0, 0, 1], port: 1080 };
    let step = read_command(&req, &bound);
    assert_eq!(step.next, State::Dispatching);
    assert_eq!(step.reply, vec![0x05, 0x00, 0x00, 0x01, 10, 0, 0, 1, 0x04, 0x38]);
    let dest = step.request.unwrap().address;
    let dm = DomainMatcher {
        sets: vec![DomainSet { name: b"blocked".to_vec(), exact: vec![b"example.test".to_vec()], suffixes: vec![] }],
    };
    let f = connection_facts(&dest, &dm, &IpMatcher { sets: vec![] }, None, None, None);
    assert_eq!(f.port, Some(443));
    let root = cond(Predicate::Domain(b"blocked".to_vec()), RoutingBranch::Reset, egress("proxy"));
    assert!(matches!(dispatch(&decide(&[], &root, &f)), Dispatch::Reset));
}

#[test]
fn duplicate_names_fail_linking() {
    let egresses = vec![
        Egress { name: b"out".to_vec(), kind: EgressKind::Direct },
        Egress { name: b"out".to_vec(), kind: EgressKind::Reset },
    ];
    let r = link_conf(vec![], egresses, vec![], None, DomainMatcher { sets: vec![] }, IpMatcher { sets: vec![] });
    assert!(matches!(r, Err(ConfigError::DuplicateName(n)) if n == b"out".to_vec()));
    let rules = vec![rule("r", RoutingBranch::Reset), rule("r", RoutingBranch::Abstain)];
    let r = link_conf(rules, vec![], vec![], None, DomainMatcher { sets: vec![] }, IpMatcher { sets: vec![] });
    assert!(matches!(r, Err(ConfigError::DuplicateName(n)) if n == b"r".to_vec()));
}

#[test]
fn dns_routing_ignores_port_predicates() {
    let matcher = DomainMatcher { sets: vec![] };
    let root = cond(Predicate::Port(vec![53]), egress("X"), egress("Y"));
    match route_dns_query(&matcher, &[], &root, b"a.b.example") {
        DnsRoute::Upstream(n) => assert_eq!(n, b"Y".to_vec()),
        other => panic!("unexpected {:?}", other),
    }
}
