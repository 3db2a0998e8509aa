//! The protocol inspector's decision: what the first bytes a client sends
//! say about the connection (TLS server name, TLS or HTTP).
use vstd::prelude::*;
use crate::routing::Protocol;
use crate::sni::{SniParse, SniV, client_hello_spec, parse_client_hello};

verus! {

/// How an HTTP/1.x request head reader judged a byte prefix.
#[derive(Debug, Clone, Copy, PartialEq, Eq, Structural)]
pub enum HttpHead {
    /// A complete request head; the body starts at this offset.
    Complete(usize),
    /// A consistent but unfinished request head.
    Partial,
    /// Not an HTTP request head.
    Invalid,
}

/// How httparse judges `s` as the start of an HTTP/1.x request.
pub uninterp spec fn http_request_head(s: Seq<u8>) -> HttpHead;

/// Relies on `httparse::Request::parse` (with room for 64 headers): its
/// verdict on a byte prefix depends on those bytes alone.
#[verifier::external_body]
fn read_http_head(buf: &[u8]) -> (r: HttpHead)
    ensures
        r == http_request_head(buf@),
{
    let mut headers = [httparse::EMPTY_HEADER; 64];
    let mut req = httparse::Request::new(&mut headers);
    match req.parse(buf) {
        Ok(httparse::Status::Complete(n)) => HttpHead::Complete(n),
        Ok(httparse::Status::Partial) => HttpHead::Partial,
        Err(_) => HttpHead::Invalid,
    }
}

/// The server name and protocol that a ClientHello reading and an HTTP
/// reading establish: a ClientHello makes the protocol TLS (with its host
/// name, if any); otherwise a complete HTTP request head makes it HTTP;
/// otherwise nothing is known.
pub open spec fn inspection_spec(hello: SniV, http: HttpHead) -> (Option<Seq<u8>>, Option<Protocol>) {
    match hello {
        SniV::Host(h) => (Some(h), Some(Protocol::Tls)),
        SniV::NoSni => (None, Some(Protocol::Tls)),
        _ => match http {
            HttpHead::Complete(_) => (None, Some(Protocol::Http)),
            _ => (None, None),
        },
    }
}

pub open spec fn sni_view(s: Option<Vec<u8>>) -> Option<Seq<u8>> {
    match s {
        Some(v) => Some(v@),
        None => None,
    }
}

/// What an inspection contributes to the facts of a connection, from the
/// ClientHello reading and the HTTP reading of the same bytes.
pub fn inspection_facts(hello: SniParse, http: HttpHead) -> (r: (Option<Vec<u8>>, Option<Protocol>))
    ensures
        (sni_view(r.0), r.1) == inspection_spec(hello@, http),
{
    match hello {
        SniParse::Host(h) => (Some(h), Some(Protocol::Tls)),
        SniParse::NoSni => (None, Some(Protocol::Tls)),
        _ => match http {
            HttpHead::Complete(_) => (None, Some(Protocol::Http)),
            _ => (None, None),
        },
    }
}

/// Inspects the first bytes a client sent (without consuming them).
pub fn inspect(buf: &[u8]) -> (r: (Option<Vec<u8>>, Option<Protocol>))
    ensures
        (sni_view(r.0), r.1) == inspection_spec(client_hello_spec(buf@), http_request_head(buf@)),
{
    let hello = parse_client_hello(buf);
    let http = read_http_head(buf);
    inspection_facts(hello, http)
}

} // verus!
