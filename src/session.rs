//! Per-connection decisions of the SOCKS5 listener, the upstream SOCKS5
//! client and the DNS router. The caller performs the I/O; these functions
//! take what was read and say what to send and where to go next.
use vstd::prelude::*;
use crate::bytes_util::copy_range;
use crate::matcher::{DomainMatcher, IpMatcher, ascii_lower, ip_lookup_spec, lookup_spec, normalize_name};
use crate::routing::{
    Action, ActionV, ConnectionFacts, Rule, RouteError, RoutingBranch, decide, decide_spec,
    decision_view, names_view,
};
use crate::socks::{
    Address, AddressV, CMD_TCP_CONNECT, Greeting, REPLY_ADDRESS_TYPE_NOT_SUPPORTED,
    REPLY_COMMAND_NOT_SUPPORTED, REPLY_CONNECTION_REFUSED, REPLY_HOST_UNREACHABLE,
    REPLY_SUCCEEDED, RequestParse, METHOD_NONE, RequestParseV, SOCKS5_VERSION, TcpRequestHeader, encode_reply,
    encode_request, greeting_reply, greeting_reply_spec, greeting_spec, parse_greeting,
    parse_request, parse_request_spec, reply_bytes, request_bytes, wf_address,
};

verus! {

/// States of one client connection.
#[derive(Debug, Clone, Copy, PartialEq, Eq, Structural)]
pub enum State {
    AwaitGreeting,
    AwaitRequest,
    Dispatching,
    Forwarding,
    Closed,
    Errored,
}

/// SOCKS5 protocol violations.
#[derive(Debug, Clone, Copy, PartialEq, Eq, Structural)]
pub enum SocksError {
    BadVersion,
    NoAcceptableMethod,
    CommandNotSupported(u8),
    BadAtyp,
}

/// What to do after the bytes of a greeting arrived.
#[derive(Debug, Clone)]
pub struct GreetingStep {
    pub next: State,
    /// Bytes of the input that the greeting took.
    pub consumed: usize,
    /// Bytes to send to the client (possibly none).
    pub reply: Vec<u8>,
    pub error: Option<SocksError>,
}

/// Handles the client greeting found at the front of `buf`.
pub fn greeting_step(buf: &[u8]) -> (r: GreetingStep)
    ensures
        r.reply@ == greeting_reply_spec(greeting_spec(buf@)),
        match greeting_spec(buf@) {
            Greeting::NeedMore => r.next == State::AwaitGreeting && r.consumed == 0 && r.error
                is None,
            Greeting::Accepted(n) => r.next == State::AwaitRequest && r.consumed == n && r.error
                is None,
            Greeting::BadVersion => r.next == State::Errored && r.consumed == 0 && r.error
                == Some(SocksError::BadVersion),
            Greeting::NoAcceptableMethod(n) => r.next == State::Errored && r.consumed == n
                && r.error == Some(SocksError::NoAcceptableMethod),
        },
{
    let g = parse_greeting(buf);
    let reply = greeting_reply(g);
    match g {
        Greeting::NeedMore => GreetingStep {
            next: State::AwaitGreeting,
            consumed: 0,
            reply,
            error: None,
        },
        Greeting::Accepted(n) => GreetingStep {
            next: State::AwaitRequest,
            consumed: n,
            reply,
            error: None,
        },
        Greeting::BadVersion => GreetingStep {
            next: State::Errored,
            consumed: 0,
            reply,
            error: Some(SocksError::BadVersion),
        },
        Greeting::NoAcceptableMethod(n) => GreetingStep {
            next: State::Errored,
            consumed: n,
            reply,
            error: Some(SocksError::NoAcceptableMethod),
        },
    }
}

/// What to do after the bytes of a request arrived.
#[derive(Debug, Clone)]
pub struct CommandStep {
    pub next: State,
    pub consumed: usize,
    pub reply: Vec<u8>,
    pub request: Option<TcpRequestHeader>,
    pub error: Option<SocksError>,
}

/// The reply sent for the request at the front of `s`, once one is due:
/// "connection refused" for a wrong version, "address type not supported"
/// for an unknown address type, and for a complete request "command not
/// supported" with the request's address unless it is CONNECT, which is
/// answered with success and the listener's `bound` address.
pub open spec fn command_reply(s: Seq<u8>, bound: AddressV) -> Option<Seq<u8>> {
    match parse_request_spec(s) {
        RequestParseV::BadVersion => Some(reply_bytes(REPLY_CONNECTION_REFUSED, bound)),
        RequestParseV::BadAtyp => Some(reply_bytes(REPLY_ADDRESS_TYPE_NOT_SUPPORTED, bound)),
        RequestParseV::Done(cmd, a, _) => if cmd != CMD_TCP_CONNECT {
            Some(reply_bytes(REPLY_COMMAND_NOT_SUPPORTED, a))
        } else {
            Some(reply_bytes(REPLY_SUCCEEDED, bound))
        },
        RequestParseV::NeedMore => None,
    }
}

proof fn lemma_parsed_address_wf(s: Seq<u8>)
    ensures
        parse_request_spec(s) matches RequestParseV::Done(_, a, n) ==> wf_address(a) && n
            <= s.len(),
{
}

/// Handles the request at the front of `buf`. Only CONNECT is served; it is
/// answered with success and the listener's `bound` address at once, before
/// any upstream is dialled. Every refusal closes the connection.
pub fn read_command(buf: &[u8], bound: &Address) -> (r: CommandStep)
    requires
        wf_address(bound@),
    ensures
        match command_reply(buf@, bound@) {
            Some(rep) => r.reply@ == rep,
            None => r.reply@.len() == 0,
        },
        match parse_request_spec(buf@) {
            RequestParseV::NeedMore => r.next == State::AwaitRequest && r.consumed == 0
                && r.request is None && r.error is None,
            RequestParseV::BadVersion => r.next == State::Errored && r.consumed == 0
                && r.request is None && r.error == Some(SocksError::BadVersion),
            RequestParseV::BadAtyp => r.next == State::Errored && r.consumed == 0
                && r.request is None && r.error == Some(SocksError::BadAtyp),
            RequestParseV::Done(cmd, a, n) => r.consumed == n && if cmd == CMD_TCP_CONNECT {
                r.next == State::Dispatching && r.error is None && (r.request matches Some(h)
                    && h.command == cmd && h.address@ == a)
            } else {
                r.next == State::Errored && r.request is None && r.error == Some(
                    SocksError::CommandNotSupported(cmd),
                )
            },
        },
{
    proof {
        lemma_parsed_address_wf(buf@);
    }
    match parse_request(buf) {
        RequestParse::Done(h, n) => {
            if h.command != CMD_TCP_CONNECT {
                let reply = encode_reply(REPLY_COMMAND_NOT_SUPPORTED, &h.address);
                CommandStep {
                    next: State::Errored,
                    consumed: n,
                    reply,
                    request: None,
                    error: Some(SocksError::CommandNotSupported(h.command)),
                }
            } else {
                CommandStep {
                    next: State::Dispatching,
                    consumed: n,
                    reply: encode_reply(REPLY_SUCCEEDED, bound),
                    request: Some(h),
                    error: None,
                }
            }
        },
        RequestParse::BadVersion => CommandStep {
            next: State::Errored,
            consumed: 0,
            reply: encode_reply(REPLY_CONNECTION_REFUSED, bound),
            request: None,
            error: Some(SocksError::BadVersion),
        },
        RequestParse::BadAtyp => CommandStep {
            next: State::Errored,
            consumed: 0,
            reply: encode_reply(REPLY_ADDRESS_TYPE_NOT_SUPPORTED, bound),
            request: None,
            error: Some(SocksError::BadAtyp),
        },
        RequestParse::NeedMore => CommandStep {
            next: State::AwaitRequest,
            consumed: 0,
            reply: Vec::new(),
            request: None,
            error: None,
        },
    }
}

/// Every request whose command is not CONNECT is answered with "command not
/// supported" (echoing its address) and the connection is closed without
/// forwarding.
pub proof fn lemma_unsupported_command_refused(s: Seq<u8>, bound: AddressV)
    requires
        parse_request_spec(s) matches RequestParseV::Done(cmd, _, _) && cmd != CMD_TCP_CONNECT,
    ensures
        parse_request_spec(s) matches RequestParseV::Done(_, a, _) && command_reply(s, bound)
            == Some(reply_bytes(REPLY_COMMAND_NOT_SUPPORTED, a)),
        command_reply(s, bound) matches Some(rep) && rep[1] == REPLY_COMMAND_NOT_SUPPORTED,
{
}

/// Nothing is answered before the three head bytes of a request are in, nor
/// before the two head bytes of a greeting.
pub proof fn lemma_no_answer_before_head(s: Seq<u8>, bound: AddressV)
    ensures
        s.len() < 3 ==> command_reply(s, bound) is None,
        s.len() < 2 ==> greeting_spec(s) == Greeting::NeedMore && greeting_reply_spec(
            greeting_spec(s),
        ).len() == 0,
{
}

/// Where a routed connection goes.
#[derive(Debug, Clone)]
pub enum Dispatch {
    /// Dial through the egress of this name.
    Dial(Vec<u8>),
    /// Close the connection.
    Reset,
}

/// Turns the engine's result into a dispatch: an abstention at the top
/// becomes a reset, and so does an evaluation error.
pub fn dispatch(d: &Result<Action, RouteError>) -> (r: Dispatch)
    ensures
        match decision_view(*d) {
            Ok(ActionV::Egress(e)) => r matches Dispatch::Dial(n) && n@ == e,
            _ => r is Reset,
        },
{
    match d {
        Ok(Action::Egress(e)) => Dispatch::Dial(copy_range(e.as_slice(), 0, e.len())),
        _ => Dispatch::Reset,
    }
}

/// Upstream dial failures reported by a SOCKS5 server.
#[derive(Debug, Clone, Copy, PartialEq, Eq, Structural)]
pub enum DialError {
    Refused,
    Unreachable,
    Failed(u8),
    Protocol,
}

/// The greeting sent to an upstream SOCKS5 proxy: version 5, one method,
/// "no authentication".
pub fn upstream_greeting() -> (r: Vec<u8>)
    ensures
        r@ == seq![SOCKS5_VERSION, 1u8, METHOD_NONE],
{
    let mut r: Vec<u8> = Vec::new();
    r.push(SOCKS5_VERSION);
    r.push(1);
    r.push(METHOD_NONE);
    assert(r@ =~= seq![SOCKS5_VERSION, 1u8, METHOD_NONE]);
    r
}

/// An upstream proxy's answer to [`upstream_greeting`].
#[derive(Debug, Clone, Copy, PartialEq, Eq, Structural)]
pub enum MethodReply {
    NeedMore,
    /// "no authentication" was selected; the answer spans two bytes.
    Accepted,
    /// Any other version or method.
    Refused,
}

/// Reads an upstream proxy's method selection from the front of `buf`.
pub fn upstream_method_reply(buf: &[u8]) -> (r: MethodReply)
    ensures
        r == (if buf@.len() < 2 {
            MethodReply::NeedMore
        } else if buf@[0] == SOCKS5_VERSION && buf@[1] == METHOD_NONE {
            MethodReply::Accepted
        } else {
            MethodReply::Refused
        }),
{
    if buf.len() < 2 {
        MethodReply::NeedMore
    } else if buf[0] == SOCKS5_VERSION && buf[1] == METHOD_NONE {
        MethodReply::Accepted
    } else {
        MethodReply::Refused
    }
}

/// The request sent to an upstream SOCKS5 proxy: the destination as the
/// client gave it when the upstream resolves names, else the address
/// resolved here.
pub fn upstream_request(dest: &Address, resolved: &Address, remote_dns: bool) -> (r: Vec<u8>)
    requires
        wf_address(dest@),
        wf_address(resolved@),
    ensures
        r@ == request_bytes(CMD_TCP_CONNECT, if remote_dns { dest@ } else { resolved@ }),
{
    if remote_dns {
        encode_request(CMD_TCP_CONNECT, dest)
    } else {
        encode_request(CMD_TCP_CONNECT, resolved)
    }
}

/// Reads an upstream proxy's reply to a CONNECT: `Ok(n)` with the reply's
/// length on success, `Ok(0)` while more bytes are needed, else the error
/// the reply code maps to.
pub fn upstream_reply(buf: &[u8]) -> (r: Result<usize, DialError>)
    ensures
        match parse_request_spec(buf@) {
            RequestParseV::Done(code, _, n) => if code == REPLY_SUCCEEDED {
                r == Ok::<usize, DialError>(n as usize)
            } else if code == REPLY_CONNECTION_REFUSED {
                r == Err::<usize, DialError>(DialError::Refused)
            } else if code == REPLY_HOST_UNREACHABLE {
                r == Err::<usize, DialError>(DialError::Unreachable)
            } else {
                r == Err::<usize, DialError>(DialError::Failed(code))
            },
            RequestParseV::NeedMore => r == Ok::<usize, DialError>(0),
            _ => r == Err::<usize, DialError>(DialError::Protocol),
        },
{
    match parse_request(buf) {
        RequestParse::Done(h, n) => {
            if h.command == REPLY_SUCCEEDED {
                Ok(n)
            } else if h.command == REPLY_CONNECTION_REFUSED {
                Err(DialError::Refused)
            } else if h.command == REPLY_HOST_UNREACHABLE {
                Err(DialError::Unreachable)
            } else {
                Err(DialError::Failed(h.command))
            }
        },
        RequestParse::NeedMore => Ok(0),
        _ => Err(DialError::Protocol),
    }
}

/// The facts a DNS query is routed on: only domain-set membership of the
/// normalised query name is known; no port, address, name or protocol.
pub open spec fn is_dns_facts(f: ConnectionFacts, m: DomainMatcher, q: Seq<u8>) -> bool {
    &&& f.port is None
    &&& names_view(f.domain_sets@) == lookup_spec(m.sets@, ascii_lower(q))
    &&& f.ip_sets is None
    &&& f.sni is None
    &&& f.protocol is None
}

/// Outcome of routing a DNS query.
#[derive(Debug, Clone)]
pub enum DnsRoute {
    /// Forward to the name server of this name.
    Upstream(Vec<u8>),
    /// No upstream was chosen: answer SERVFAIL.
    NoUpstreamMatched,
}

/// Selects the upstream name server for the query name `q`.
pub fn route_dns_query(
    matcher: &DomainMatcher,
    rules: &[Rule],
    root: &RoutingBranch,
    q: &[u8],
) -> (r: DnsRoute)
    ensures
        exists|f: ConnectionFacts|
            is_dns_facts(f, *matcher, q@) && match decide_spec(rules@, *root, f) {
                Ok(ActionV::Egress(e)) => r matches DnsRoute::Upstream(n) && n@ == e,
                _ => r is NoUpstreamMatched,
            },
{
    let name = normalize_name(q);
    let facts = ConnectionFacts {
        port: None,
        domain_sets: matcher.lookup(name.as_slice()),
        ip_sets: None,
        sni: None,
        protocol: None,
    };
    let d = decide(rules, root, &facts);
    let r = match dispatch(&d) {
        Dispatch::Dial(n) => DnsRoute::Upstream(n),
        Dispatch::Reset => DnsRoute::NoUpstreamMatched,
    };
    assert(is_dns_facts(facts, *matcher, q@));
    r
}

/// The port of an address.
pub open spec fn port_of(a: AddressV) -> u16 {
    match a {
        AddressV::Ipv4(_, p) => p,
        AddressV::Ipv6(_, p) => p,
        AddressV::Domain(_, p) => p,
    }
}

/// The IP set names of an address, when it is an IP address.
pub open spec fn ip_sets_of(m: IpMatcher, a: AddressV) -> Option<Seq<Seq<u8>>> {
    match a {
        AddressV::Ipv4(ip, _) => Some(ip_lookup_spec(m.sets@, ip)),
        AddressV::Ipv6(ip, _) => Some(ip_lookup_spec(m.sets@, ip)),
        AddressV::Domain(..) => None,
    }
}

fn ip_sets_for(m: &IpMatcher, a: &Address) -> (r: Option<Vec<Vec<u8>>>)
    ensures
        match ip_sets_of(*m, a@) {
            Some(s) => r matches Some(v) && names_view(v@) == s,
            None => r is None,
        },
{
    match a {
        Address::Ipv4 { ip, .. } => Some(m.lookup(ip.as_slice())),
        Address::Ipv6 { ip, .. } => Some(m.lookup(ip.as_slice())),
        Address::Domain { .. } => None,
    }
}

/// Gathers the facts of a connection to `dest`: its port, the domain sets of
/// its normalised name, the IP sets of its address (of `resolved` when it is
/// a name; unknown when nothing was resolved), and what inspection found.
pub fn connection_facts(
    dest: &Address,
    domains: &DomainMatcher,
    ips: &IpMatcher,
    resolved: Option<&Address>,
    sni: Option<Vec<u8>>,
    protocol: Option<crate::routing::Protocol>,
) -> (r: ConnectionFacts)
    ensures
        r.port == Some(port_of(dest@)),
        match dest@ {
            AddressV::Domain(n, _) => names_view(r.domain_sets@) == lookup_spec(
                domains.sets@,
                ascii_lower(n),
            ),
            _ => r.domain_sets@.len() == 0,
        },
        match (dest@, resolved) {
            (AddressV::Domain(..), Some(a)) => match ip_sets_of(*ips, a@) {
                Some(s) => r.ip_sets matches Some(v) && names_view(v@) == s,
                None => r.ip_sets is None,
            },
            (AddressV::Domain(..), None) => r.ip_sets is None,
            _ => r.ip_sets matches Some(v) && ip_sets_of(*ips, dest@) == Some(names_view(v@)),
        },
        r.sni == sni,
        r.protocol == protocol,
{
    match dest {
        Address::Domain { name, port } => {
            let n = normalize_name(name.as_slice());
            let ip_sets = match resolved {
                Some(a) => ip_sets_for(ips, a),
                None => None,
            };
            ConnectionFacts {
                port: Some(*port),
                domain_sets: domains.lookup(n.as_slice()),
                ip_sets,
                sni,
                protocol,
            }
        },
        Address::Ipv4 { port, .. } | Address::Ipv6 { port, .. } => ConnectionFacts {
            port: Some(*port),
            domain_sets: Vec::new(),
            ip_sets: ip_sets_for(ips, dest),
            sni,
            protocol,
        },
    }
}

} // verus!
