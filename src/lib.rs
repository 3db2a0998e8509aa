//! Policy-driven SOCKS5 relay: wire codecs, destination matchers, the routing
//! engine and the per-connection decisions, each with a verified contract.
//!
//! - [`socks`]: SOCKS5 greeting, request and reply encoding and decoding.
//! - [`sni`]: read-only TLS ClientHello reader for the server name.
//! - [`inspect`]: what the first client bytes say about the protocol.
//! - [`matcher`]: domain and IP sets.
//! - [`routing`]: the routing tree and its evaluation.
//! - [`session`]: what the listener, the upstream client and the DNS router
//!   do with the bytes and facts they are given.
//! - [`conf`]: the configuration and its linking pass.

pub mod bytes_util;
pub mod conf;
pub mod inspect;
pub mod matcher;
pub mod routing;
pub mod session;
pub mod sni;
pub mod socks;
