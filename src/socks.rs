//! SOCKS5 wire codec (RFC 1928, "no authentication" only): greeting, request
//! header, addresses and replies, as pure functions on byte buffers.
use vstd::prelude::*;
use crate::bytes_util::{append_bytes, copy_range};

verus! {

pub const SOCKS5_VERSION: u8 = 0x05;
pub const METHOD_NONE: u8 = 0x00;
pub const METHOD_NOT_ACCEPTABLE: u8 = 0xff;
pub const CMD_TCP_CONNECT: u8 = 0x01;
pub const ATYP_IPV4: u8 = 0x01;
pub const ATYP_DOMAIN: u8 = 0x03;
pub const ATYP_IPV6: u8 = 0x04;
pub const REPLY_SUCCEEDED: u8 = 0x00;
pub const REPLY_GENERAL_FAILURE: u8 = 0x01;
pub const REPLY_HOST_UNREACHABLE: u8 = 0x04;
pub const REPLY_CONNECTION_REFUSED: u8 = 0x05;
pub const REPLY_COMMAND_NOT_SUPPORTED: u8 = 0x07;
pub const REPLY_ADDRESS_TYPE_NOT_SUPPORTED: u8 = 0x08;

/// A destination: an IP socket address or a domain name with a port.
/// Domain names are raw bytes, stored verbatim.
#[derive(Debug, Clone)]
pub enum Address {
    Ipv4 { ip: Vec<u8>, port: u16 },
    Ipv6 { ip: Vec<u8>, port: u16 },
    Domain { name: Vec<u8>, port: u16 },
}

/// Mathematical model of an [`Address`].
pub enum AddressV {
    Ipv4(Seq<u8>, u16),
    Ipv6(Seq<u8>, u16),
    Domain(Seq<u8>, u16),
}

impl View for Address {
    type V = AddressV;

    open spec fn view(&self) -> AddressV {
        match self {
            Address::Ipv4 { ip, port } => AddressV::Ipv4(ip@, *port),
            Address::Ipv6 { ip, port } => AddressV::Ipv6(ip@, *port),
            Address::Domain { name, port } => AddressV::Domain(name@, *port),
        }
    }
}

/// An address that can be written on the wire: 4 or 16 address bytes, or a
/// name of at most 255 bytes.
pub open spec fn wf_address(a: AddressV) -> bool {
    match a {
        AddressV::Ipv4(ip, _) => ip.len() == 4,
        AddressV::Ipv6(ip, _) => ip.len() == 16,
        AddressV::Domain(n, _) => n.len() <= 255,
    }
}

/// Big-endian encoding of a port.
pub open spec fn port_bytes(p: u16) -> Seq<u8> {
    seq![(p / 256) as u8, (p % 256) as u8]
}

/// Big-endian decoding of two bytes.
pub open spec fn be16(hi: u8, lo: u8) -> u16 {
    (hi as int * 256 + lo as int) as u16
}

/// `atyp` followed by the address and the port, as RFC 1928 lays them out.
pub open spec fn address_bytes(a: AddressV) -> Seq<u8> {
    match a {
        AddressV::Ipv4(ip, p) => seq![ATYP_IPV4] + ip + port_bytes(p),
        AddressV::Ipv6(ip, p) => seq![ATYP_IPV6] + ip + port_bytes(p),
        AddressV::Domain(n, p) => seq![ATYP_DOMAIN, n.len() as u8] + n + port_bytes(p),
    }
}

/// A request header: `[ver, cmd, rsv, atyp, addr, port]`.
pub open spec fn request_bytes(cmd: u8, a: AddressV) -> Seq<u8> {
    seq![SOCKS5_VERSION, cmd, 0x00u8] + address_bytes(a)
}

/// A reply: `[ver, reply, rsv, atyp, addr, port]`.
pub open spec fn reply_bytes(rep: u8, a: AddressV) -> Seq<u8> {
    seq![SOCKS5_VERSION, rep, 0x00u8] + address_bytes(a)
}

/// Outcome of decoding an address that starts at `atyp`.
pub enum AddrParseV {
    Done(AddressV, nat),
    NeedMore,
    BadAtyp,
}

/// Decoding of `atyp, addr, port` from the front of `s`.
pub open spec fn parse_address_spec(s: Seq<u8>) -> AddrParseV {
    if s.len() < 1 {
        AddrParseV::NeedMore
    } else if s[0] == ATYP_IPV4 {
        if s.len() < 7 {
            AddrParseV::NeedMore
        } else {
            AddrParseV::Done(AddressV::Ipv4(s.subrange(1, 5), be16(s[5], s[6])), 7)
        }
    } else if s[0] == ATYP_IPV6 {
        if s.len() < 19 {
            AddrParseV::NeedMore
        } else {
            AddrParseV::Done(AddressV::Ipv6(s.subrange(1, 17), be16(s[17], s[18])), 19)
        }
    } else if s[0] == ATYP_DOMAIN {
        if s.len() < 2 {
            AddrParseV::NeedMore
        } else {
            let n = s[1] as int;
            if s.len() < 4 + n {
                AddrParseV::NeedMore
            } else {
                AddrParseV::Done(
                    AddressV::Domain(s.subrange(2, 2 + n), be16(s[2 + n], s[3 + n])),
                    (4 + n) as nat,
                )
            }
        }
    } else {
        AddrParseV::BadAtyp
    }
}

/// Outcome of decoding a request header (also the layout of a reply, whose
/// reply code sits where a request has its command).
pub enum RequestParseV {
    Done(u8, AddressV, nat),
    NeedMore,
    BadVersion,
    BadAtyp,
}

/// Decoding of a request header from the front of `s`. Nothing is judged
/// before the three bytes `ver, cmd, rsv` are in.
pub open spec fn parse_request_spec(s: Seq<u8>) -> RequestParseV {
    if s.len() < 3 {
        RequestParseV::NeedMore
    } else if s[0] != SOCKS5_VERSION {
        RequestParseV::BadVersion
    } else {
        match parse_address_spec(s.subrange(3, s.len() as int)) {
            AddrParseV::Done(a, n) => RequestParseV::Done(s[1], a, n + 3),
            AddrParseV::NeedMore => RequestParseV::NeedMore,
            AddrParseV::BadAtyp => RequestParseV::BadAtyp,
        }
    }
}

/// A decoded request header.
#[derive(Debug, Clone)]
pub struct TcpRequestHeader {
    pub command: u8,
    pub address: Address,
}

/// Result of [`parse_request`].
#[derive(Debug, Clone)]
pub enum RequestParse {
    Done(TcpRequestHeader, usize),
    NeedMore,
    BadVersion,
    BadAtyp,
}

impl View for RequestParse {
    type V = RequestParseV;

    open spec fn view(&self) -> RequestParseV {
        match self {
            RequestParse::Done(h, n) => RequestParseV::Done(h.command, h.address@, *n as nat),
            RequestParse::NeedMore => RequestParseV::NeedMore,
            RequestParse::BadVersion => RequestParseV::BadVersion,
            RequestParse::BadAtyp => RequestParseV::BadAtyp,
        }
    }
}

/// Reads a big-endian `u16` at `buf[i..i + 2]`.
pub fn read_be16(buf: &[u8], i: usize) -> (r: u16)
    requires
        i + 2 <= buf@.len(),
    ensures
        r == be16(buf@[i as int], buf@[i + 1]),
{
    (buf[i] as u16) * 256 + (buf[i + 1] as u16)
}

/// Decodes `atyp, addr, port` starting at `buf[start]`.
fn parse_address_at(buf: &[u8], start: usize) -> (r: Option<(Address, usize)>)
    requires
        start <= buf@.len(),
    ensures
        match parse_address_spec(buf@.subrange(start as int, buf@.len() as int)) {
            AddrParseV::Done(a, n) => r matches Some((addr, m)) && addr@ == a && m == n,
            _ => r is None,
        },
{
    let ghost s = buf@.subrange(start as int, buf@.len() as int);
    let len = buf.len() - start;
    if len < 1 {
        return None;
    }
    let atyp = buf[start];
    if atyp == ATYP_IPV4 {
        if len < 7 {
            return None;
        }
        let ip = copy_range(buf, start + 1, start + 5);
        let port = read_be16(buf, start + 5);
        assert(ip@ == s.subrange(1, 5));
        Some((Address::Ipv4 { ip, port }, 7))
    } else if atyp == ATYP_IPV6 {
        if len < 19 {
            return None;
        }
        let ip = copy_range(buf, start + 1, start + 17);
        let port = read_be16(buf, start + 17);
        assert(ip@ == s.subrange(1, 17));
        Some((Address::Ipv6 { ip, port }, 19))
    } else if atyp == ATYP_DOMAIN {
        if len < 2 {
            return None;
        }
        let n = buf[start + 1] as usize;
        if len < 4 + n {
            return None;
        }
        let name = copy_range(buf, start + 2, start + 2 + n);
        let port = read_be16(buf, start + 2 + n);
        assert(name@ == s.subrange(2, 2 + n));
        Some((Address::Domain { name, port }, 4 + n))
    } else {
        None
    }
}

/// Decodes a request header from the front of `buf`, reporting how many
/// bytes it spans.
pub fn parse_request(buf: &[u8]) -> (r: RequestParse)
    ensures
        r@ == parse_request_spec(buf@),
{
    if buf.len() < 3 {
        return RequestParse::NeedMore;
    }
    if buf[0] != SOCKS5_VERSION {
        return RequestParse::BadVersion;
    }
    let ghost s = buf@.subrange(3, buf@.len() as int);
    match parse_address_at(buf, 3) {
        Some((address, n)) => {
            RequestParse::Done(TcpRequestHeader { command: buf[1], address }, n + 3)
        },
        None => {
            if buf.len() >= 4 && buf[3] != ATYP_IPV4 && buf[3] != ATYP_IPV6 && buf[3]
                != ATYP_DOMAIN {
                RequestParse::BadAtyp
            } else {
                RequestParse::NeedMore
            }
        },
    }
}

/// Appends the big-endian encoding of `p`.
fn write_port(buf: &mut Vec<u8>, p: u16)
    ensures
        final(buf)@ == old(buf)@ + port_bytes(p),
{
    buf.push((p / 256) as u8);
    buf.push((p % 256) as u8);
}

/// Appends `atyp, addr, port`.
pub fn write_address(a: &Address, buf: &mut Vec<u8>)
    requires
        wf_address(a@),
    ensures
        final(buf)@ == old(buf)@ + address_bytes(a@),
{
    match a {
        Address::Ipv4 { ip, port } => {
            buf.push(ATYP_IPV4);
            append_bytes(buf, ip.as_slice());
            write_port(buf, *port);
        },
        Address::Ipv6 { ip, port } => {
            buf.push(ATYP_IPV6);
            append_bytes(buf, ip.as_slice());
            write_port(buf, *port);
        },
        Address::Domain { name, port } => {
            buf.push(ATYP_DOMAIN);
            buf.push(name.len() as u8);
            append_bytes(buf, name.as_slice());
            write_port(buf, *port);
        },
    }
    assert(buf@ =~= old(buf)@ + address_bytes(a@));
}

/// Encodes a request header carrying `cmd` and `a`.
pub fn encode_request(cmd: u8, a: &Address) -> (r: Vec<u8>)
    requires
        wf_address(a@),
    ensures
        r@ == request_bytes(cmd, a@),
{
    let mut buf: Vec<u8> = Vec::new();
    buf.push(SOCKS5_VERSION);
    buf.push(cmd);
    buf.push(0x00);
    write_address(a, &mut buf);
    assert(buf@ =~= request_bytes(cmd, a@));
    buf
}

/// Encodes a reply carrying the reply code `rep` and the address `a`.
pub fn encode_reply(rep: u8, a: &Address) -> (r: Vec<u8>)
    requires
        wf_address(a@),
    ensures
        r@ == reply_bytes(rep, a@),
{
    encode_request(rep, a)
}

/// Port encoding is undone by [`be16`].
proof fn lemma_port_round_trip(p: u16)
    ensures
        be16(port_bytes(p)[0], port_bytes(p)[1]) == p,
{
}

/// Decoding what [`request_bytes`] wrote gives back the command and the
/// address, whatever bytes follow.
pub proof fn lemma_request_round_trip(cmd: u8, a: AddressV, rest: Seq<u8>)
    requires
        wf_address(a),
    ensures
        parse_request_spec(request_bytes(cmd, a) + rest) == RequestParseV::Done(
            cmd,
            a,
            request_bytes(cmd, a).len(),
        ),
{
    let s = request_bytes(cmd, a) + rest;
    let t = s.subrange(3, s.len() as int);
    assert(t =~= address_bytes(a) + rest);
    match a {
        AddressV::Ipv4(ip, p) => {
            lemma_port_round_trip(p);
            assert(t.subrange(1, 5) =~= ip);
        },
        AddressV::Ipv6(ip, p) => {
            lemma_port_round_trip(p);
            assert(t.subrange(1, 17) =~= ip);
        },
        AddressV::Domain(n, p) => {
            lemma_port_round_trip(p);
            assert(t[1] as int == n.len());
            assert(t.subrange(2, 2 + n.len() as int) =~= n);
            assert(t[2 + n.len() as int] == port_bytes(p)[0]);
            assert(t[3 + n.len() as int] == port_bytes(p)[1]);
        },
    }
}

/// Outcome of reading a client greeting `[ver, nmethods, methods...]`.
#[derive(Debug, Clone, Copy, PartialEq, Eq, Structural)]
pub enum Greeting {
    NeedMore,
    /// "no authentication" was offered; the greeting spans this many bytes.
    Accepted(usize),
    /// The version byte is not 5.
    BadVersion,
    /// "no authentication" was not offered; the greeting spans this many bytes.
    NoAcceptableMethod(usize),
}

/// Reading of a greeting from the front of `s`. Nothing is judged before the
/// two bytes `ver, nmethods` are in.
pub open spec fn greeting_spec(s: Seq<u8>) -> Greeting {
    if s.len() < 2 {
        Greeting::NeedMore
    } else if s[0] != SOCKS5_VERSION {
        Greeting::BadVersion
    } else if s.len() < 2 + s[1] {
        Greeting::NeedMore
    } else if s.subrange(2, 2 + s[1] as int).contains(METHOD_NONE) {
        Greeting::Accepted((2 + s[1]) as usize)
    } else {
        Greeting::NoAcceptableMethod((2 + s[1]) as usize)
    }
}

/// The method a server selects from the offered `methods`: "no
/// authentication" when offered, else "no acceptable method".
pub fn handle_socks_head(methods: &[u8]) -> (r: u8)
    ensures
        r == (if methods@.contains(METHOD_NONE) {
            METHOD_NONE
        } else {
            METHOD_NOT_ACCEPTABLE
        }),
{
    let mut i: usize = 0;
    while i < methods.len()
        invariant
            i <= methods@.len(),
            forall|j: int| 0 <= j < i ==> methods@[j] != METHOD_NONE,
        decreases methods@.len() - i,
    {
        if methods[i] == METHOD_NONE {
            return METHOD_NONE;
        }
        i = i + 1;
    }
    METHOD_NOT_ACCEPTABLE
}

/// Reads a client greeting from the front of `buf`.
pub fn parse_greeting(buf: &[u8]) -> (r: Greeting)
    ensures
        r == greeting_spec(buf@),
{
    if buf.len() < 2 {
        return Greeting::NeedMore;
    }
    if buf[0] != SOCKS5_VERSION {
        return Greeting::BadVersion;
    }
    if buf.len() < 2 + buf[1] as usize {
        return Greeting::NeedMore;
    }
    let n = 2 + buf[1] as usize;
    let methods = copy_range(buf, 2, n);
    if handle_socks_head(methods.as_slice()) == METHOD_NONE {
        Greeting::Accepted(n)
    } else {
        Greeting::NoAcceptableMethod(n)
    }
}

/// The two bytes a server sends back for a greeting: `[5, 0]` when accepted,
/// `[5, 0xFF]` when refused, nothing while more bytes are needed.
pub open spec fn greeting_reply_spec(g: Greeting) -> Seq<u8> {
    match g {
        Greeting::NeedMore => Seq::empty(),
        Greeting::Accepted(_) => seq![SOCKS5_VERSION, METHOD_NONE],
        _ => seq![SOCKS5_VERSION, METHOD_NOT_ACCEPTABLE],
    }
}

/// Encodes the server's answer to a greeting.
pub fn greeting_reply(g: Greeting) -> (r: Vec<u8>)
    ensures
        r@ == greeting_reply_spec(g),
{
    let mut r: Vec<u8> = Vec::new();
    match g {
        Greeting::NeedMore => {},
        Greeting::Accepted(_) => {
            r.push(SOCKS5_VERSION);
            r.push(METHOD_NONE);
        },
        _ => {
            r.push(SOCKS5_VERSION);
            r.push(METHOD_NOT_ACCEPTABLE);
        },
    }
    assert(r@ =~= greeting_reply_spec(g));
    r
}

/// A greeting that offers no method at all is refused with `[5, 0xFF]`.
pub proof fn lemma_no_methods_refused(s: Seq<u8>)
    requires
        s.len() >= 2,
        s[0] == SOCKS5_VERSION,
        s[1] == 0,
    ensures
        greeting_spec(s) == Greeting::NoAcceptableMethod(2),
        greeting_reply_spec(greeting_spec(s)) == seq![0x05u8, 0xffu8],
{
    assert(s.subrange(2, 2) =~= Seq::<u8>::empty());
}

} // verus!
