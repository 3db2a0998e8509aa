use srelay::routing::{Action, RouteError};
use srelay::session::{
    upstream_greeting, upstream_method_reply, MethodReply,
    dispatch, greeting_step, read_command, upstream_reply, upstream_request, DialError, Dispatch,
    SocksError, State,
};
use srelay::socks::{
    encode_reply, encode_request, greeting_reply, handle_socks_head, parse_greeting,
    parse_request, Address, Greeting, RequestParse,
};

fn bound() -> Address {
    Address::Ipv4 { ip: vec![10, 0, 0, 1], port: 1080 }
}

#[test]
fn greeting_without_methods_is_refused() {
    let step = greeting_step(&[0x05, 0x00]);
    assert_eq!(step.reply, vec![0x05, 0xFF]);
    assert_eq!(step.next, State::Errored);
    assert_eq!(step.error, Some(SocksError::NoAcceptableMethod));
    assert_eq!(step.consumed, 2);
}

#[test]
fn greeting_with_none_is_accepted() {
    let step = greeting_step(&[0x05, 0x02, 0x02, 0x00, 0xAA]);
    assert_eq!(step.reply, vec![0x05, 0x00]);
    assert_eq!(step.next, State::AwaitRequest);
    assert_eq!(step.consumed, 4);
    assert_eq!(step.error, None);
}

#[test]
fn greeting_bad_version() {
    assert_eq!(parse_greeting(&[0x04, 0x01, 0x00]), Greeting::BadVersion);
    let step = greeting_step(&[0x04, 0x01, 0x00]);
    assert_eq!(step.reply, vec![0x05, 0xFF]);
    assert_eq!(step.error, Some(SocksError::BadVersion));
}

#[test]
fn greeting_partial_needs_more() {
    assert_eq!(parse_greeting(&[0x05]), Greeting::NeedMore);
    assert_eq!(parse_greeting(&[0x05, 0x02, 0x00]), Greeting::NeedMore);
    assert_eq!(greeting_reply(Greeting::NeedMore), Vec::<u8>::new());
}

#[test]
fn method_selection() {
    assert_eq!(handle_socks_head(&[0x01, 0x02]), 0xFF);
    assert_eq!(handle_socks_head(&[0x02, 0x00]), 0x00);
    assert_eq!(handle_socks_head(&[]), 0xFF);
}

#[test]
fn unsupported_commands_get_reply_seven() {
    for cmd in [0x00u8, 0x02, 0x03, 0x07, 0xFF] {
        let step = read_command(&[0x05, cmd, 0x00, 0x01, 127, 0, 0, 1, 0, 80], &bound());
        assert_eq!(step.reply, vec![0x05, 0x07, 0x00, 0x01, 127, 0, 0, 1, 0, 80]);
        assert_eq!(step.next, State::Errored);
        assert_eq!(step.consumed, 10);
        assert_eq!(step.error, Some(SocksError::CommandNotSupported(cmd)));
        assert!(step.request.is_none());
    }
    let step = read_command(&[0x05, 0x02], &bound());
    assert!(step.reply.is_empty());
    assert_eq!(step.next, State::AwaitRequest);
    let mut domain = vec![0x05, 0x03, 0x00, 0x03, 1, b'h', 0x01, 0xBB];
    let step = read_command(&domain, &bound());
    assert_eq!(step.reply, domain.clone().into_iter().enumerate().map(|(i, b)| if i == 1 { 0x07 } else { b }).collect::<Vec<u8>>());
    domain[1] = 0x01;
    assert_eq!(read_command(&domain, &bound()).next, State::Dispatching);
}

#[test]
fn connect_ipv4_scenario() {
    let client = [0x05u8, 0x01, 0x00, 0x05, 0x01, 0x00, 0x01, 0x7F, 0x00, 0x00, 0x01, 0x00, 0x50];
    let g = greeting_step(&client);
    assert_eq!(g.reply, vec![0x05, 0x00]);
    assert_eq!(g.consumed, 3);
    let step = read_command(&client[3..], &bound());
    assert_eq!(step.reply, vec![0x05, 0x00, 0x00, 0x01, 10, 0, 0, 1, 0x04, 0x38]);
    assert_eq!(step.next, State::Dispatching);
    assert_eq!(step.consumed, 10);
    let req = step.request.unwrap();
    assert_eq!(req.command, 0x01);
    match req.address {
        Address::Ipv4 { ip, port } => {
            assert_eq!(ip, vec![127, 0, 0, 1]);
            assert_eq!(port, 80);
        }
        _ => panic!("wrong address"),
    }
}

#[test]
fn bad_request_version_and_atyp() {
    let step = read_command(&[0x04, 0x01, 0x00, 0x01], &bound());
    assert_eq!(step.reply[1], 0x05);
    assert_eq!(step.error, Some(SocksError::BadVersion));
    let step = read_command(&[0x05, 0x01, 0x00, 0x09, 1, 2], &bound());
    assert_eq!(step.reply[1], 0x08);
    assert_eq!(step.error, Some(SocksError::BadAtyp));
    let step = read_command(&[0x05, 0x01, 0x00, 0x03, 5, b'a'], &bound());
    assert_eq!(step.next, State::AwaitRequest);
    assert!(step.reply.is_empty());
}

#[test]
fn request_round_trip_all_address_kinds() {
    let addrs = vec![
        Address::Ipv4 { ip: vec![1, 2, 3, 4], port: 65535 },
        Address::Ipv6 { ip: (0u8..16).collect(), port: 0 },
        Address::Domain { name: b"example.test".to_vec(), port: 443 },
        Address::Domain { name: vec![], port: 258 },
    ];
    for a in addrs {
        for cmd in [1u8, 2, 3] {
            let mut bytes = encode_request(cmd, &a);
            let n = bytes.len();
            bytes.extend_from_slice(&[9, 9]);
            match parse_request(&bytes) {
                RequestParse::Done(h, m) => {
                    assert_eq!(m, n);
                    assert_eq!(h.command, cmd);
                    assert_eq!(format!("{:?}", h.address), format!("{:?}", a));
                }
                other => panic!("unexpected {:?}", other),
            }
        }
    }
}

#[test]
fn domain_request_encoding() {
    let a = Address::Domain { name: b"example.test".to_vec(), port: 443 };
    let mut expect = vec![0x05, 0x01, 0x00, 0x03, 12];
    expect.extend_from_slice(b"example.test");
    expect.extend_from_slice(&[0x01, 0xBB]);
    assert_eq!(encode_request(1, &a), expect);
    assert_eq!(encode_reply(0, &a)[1], 0);
}

#[test]
fn dispatch_promotes_abstain_to_reset() {
    assert!(matches!(dispatch(&Ok(Action::Abstain)), Dispatch::Reset));
    assert!(matches!(dispatch(&Ok(Action::Reset)), Dispatch::Reset));
    assert!(matches!(dispatch(&Err(RouteError::Cycle(b"x".to_vec()))), Dispatch::Reset));
    match dispatch(&Ok(Action::Egress(b"direct0".to_vec()))) {
        Dispatch::Dial(n) => assert_eq!(n, b"direct0".to_vec()),
        _ => panic!("expected dial"),
    }
}

#[test]
fn upstream_client_pieces() {
    let dest = Address::Domain { name: b"example.test".to_vec(), port: 443 };
    let resolved = Address::Ipv4 { ip: vec![192, 0, 2, 7], port: 443 };
    let remote = upstream_request(&dest, &resolved, true);
    assert_eq!(remote, encode_request(1, &dest));
    let local = upstream_request(&dest, &resolved, false);
    assert_eq!(local, vec![5, 1, 0, 1, 192, 0, 2, 7, 0x01, 0xBB]);
    assert_eq!(upstream_reply(&[5, 0, 0, 1, 0, 0, 0, 0, 0, 0, 7]), Ok(10));
    assert_eq!(upstream_reply(&[5, 5, 0, 1, 0, 0, 0, 0, 0, 0]), Err(DialError::Refused));
    assert_eq!(upstream_reply(&[5, 4, 0, 1, 0, 0, 0, 0, 0, 0]), Err(DialError::Unreachable));
    assert_eq!(upstream_reply(&[5, 1, 0, 1, 0, 0, 0, 0, 0, 0]), Err(DialError::Failed(1)));
    assert_eq!(upstream_reply(&[5, 0, 0, 1, 0]), Ok(0));
    assert_eq!(upstream_reply(&[4, 0, 0]), Err(DialError::Protocol));
    assert_eq!(upstream_reply(&[4, 0]), Ok(0));
}

#[test]
fn nothing_answered_before_head_bytes() {
    for b in [0x04u8, 0x05, 0x00] {
        let step = read_command(&[b], &bound());
        assert!(step.reply.is_empty());
        assert_eq!(step.next, State::AwaitRequest);
        let step = read_command(&[b, 0x01], &bound());
        assert!(step.reply.is_empty());
        let g = greeting_step(&[b]);
        assert!(g.reply.is_empty());
        assert_eq!(g.next, State::AwaitGreeting);
    }
    assert_eq!(parse_greeting(&[0x04]), Greeting::NeedMore);
    assert!(matches!(parse_request(&[0x04, 0x01]), RequestParse::NeedMore));
    assert!(matches!(parse_request(&[0x04, 0x01, 0x00]), RequestParse::BadVersion));
}

#[test]
fn upstream_greeting_exchange() {
    assert_eq!(upstream_greeting(), vec![0x05, 0x01, 0x00]);
    assert_eq!(upstream_method_reply(&[0x05]), MethodReply::NeedMore);
    assert_eq!(upstream_method_reply(&[0x05, 0x00]), MethodReply::Accepted);
    assert_eq!(upstream_method_reply(&[0x05, 0xFF]), MethodReply::Refused);
    assert_eq!(upstream_method_reply(&[0x04, 0x00]), MethodReply::Refused);
}
