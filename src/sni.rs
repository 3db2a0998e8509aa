//! Read-only TLS ClientHello reader: finds the server name (SNI) in the first
//! bytes a client sends, without consuming them.
use vstd::prelude::*;
use crate::bytes_util::copy_range;
use crate::socks::{be16, read_be16};

verus! {

pub const TLS_HANDSHAKE: u8 = 0x16;
pub const HANDSHAKE_CLIENT_HELLO: u8 = 0x01;
pub const EXT_SERVER_NAME: u16 = 0x0000;
pub const NAME_TYPE_HOST: u8 = 0x00;

/// Result of reading a ClientHello.
#[derive(Debug, Clone)]
pub enum SniParse {
    /// The first `host_name` of the server_name extension.
    Host(Vec<u8>),
    /// A complete ClientHello without a host name.
    NoSni,
    /// The bytes so far are a consistent prefix of a ClientHello.
    NeedMore,
    /// Not a ClientHello, or a malformed one.
    Invalid,
}

pub enum SniV {
    Host(Seq<u8>),
    NoSni,
    NeedMore,
    Invalid,
}

impl View for SniParse {
    type V = SniV;

    open spec fn view(&self) -> SniV {
        match self {
            SniParse::Host(h) => SniV::Host(h@),
            SniParse::NoSni => SniV::NoSni,
            SniParse::NeedMore => SniV::NeedMore,
            SniParse::Invalid => SniV::Invalid,
        }
    }
}

/// Scan of the server_name list entries in `s[q..end]`, each
/// `[name_type, len(2), name]`, for the first host name.
pub open spec fn scan_names(s: Seq<u8>, q: int, end: int) -> SniV
    decreases end - q,
{
    if q >= end {
        SniV::NoSni
    } else if end - q < 3 {
        SniV::Invalid
    } else {
        let n = be16(s[q + 1], s[q + 2]) as int;
        if end - q - 3 < n {
            SniV::Invalid
        } else if s[q] == NAME_TYPE_HOST {
            SniV::Host(s.subrange(q + 3, q + 3 + n))
        } else {
            scan_names(s, q + 3 + n, end)
        }
    }
}

/// Reading of a server_name extension body `s[d..end]`.
pub open spec fn server_name_spec(s: Seq<u8>, d: int, end: int) -> SniV {
    if end - d < 2 {
        SniV::Invalid
    } else {
        let l = be16(s[d], s[d + 1]) as int;
        if end - d - 2 < l {
            SniV::Invalid
        } else {
            scan_names(s, d + 2, d + 2 + l)
        }
    }
}

/// Scan of the extensions in `s[pos..end]`, each `[type(2), len(2), data]`.
pub open spec fn scan_extensions(s: Seq<u8>, pos: int, end: int) -> SniV
    decreases end - pos,
{
    if pos >= end {
        SniV::NoSni
    } else if end - pos < 4 {
        SniV::Invalid
    } else {
        let l = be16(s[pos + 2], s[pos + 3]) as int;
        if end - pos - 4 < l {
            SniV::Invalid
        } else if be16(s[pos], s[pos + 1]) == EXT_SERVER_NAME {
            server_name_spec(s, pos + 4, pos + 4 + l)
        } else {
            scan_extensions(s, pos + 4 + l, end)
        }
    }
}

/// Reading of a TLS record that starts a ClientHello: record header
/// `16 03 0N len(2)`, handshake header `01 len(3)`, legacy version, 32 random
/// bytes, session id (at most 32 bytes), cipher suites (2-byte length),
/// compression methods (1-byte length), then the extensions (2-byte length).
pub open spec fn client_hello_spec(s: Seq<u8>) -> SniV {
    if s.len() >= 1 && s[0] != TLS_HANDSHAKE {
        SniV::Invalid
    } else if s.len() >= 2 && s[1] != 3 {
        SniV::Invalid
    } else if s.len() >= 3 && s[2] > 4 {
        SniV::Invalid
    } else if s.len() >= 6 && s[5] != HANDSHAKE_CLIENT_HELLO {
        SniV::Invalid
    } else if s.len() < 44 {
        SniV::NeedMore
    } else if s[43] > 32 {
        SniV::Invalid
    } else {
        let suites_at = 44 + s[43] as int;
        if s.len() < suites_at + 2 {
            SniV::NeedMore
        } else {
            let comp_at = suites_at + 2 + be16(s[suites_at], s[suites_at + 1]) as int;
            if s.len() < comp_at + 1 {
                SniV::NeedMore
            } else {
                let exts_at = comp_at + 1 + s[comp_at] as int;
                if s.len() < exts_at + 2 {
                    SniV::NeedMore
                } else {
                    let end = exts_at + 2 + be16(s[exts_at], s[exts_at + 1]) as int;
                    if s.len() < end {
                        SniV::NeedMore
                    } else {
                        scan_extensions(s, exts_at + 2, end)
                    }
                }
            }
        }
    }
}

fn read_server_name(buf: &[u8], d: usize, end: usize) -> (r: SniParse)
    requires
        d <= end <= buf@.len(),
    ensures
        r@ == server_name_spec(buf@, d as int, end as int),
{
    if end - d < 2 {
        return SniParse::Invalid;
    }
    let l = read_be16(buf, d) as usize;
    if end - d - 2 < l {
        return SniParse::Invalid;
    }
    let lend = d + 2 + l;
    let mut q: usize = d + 2;
    while q < lend
        invariant
            d + 2 <= q <= lend <= end <= buf@.len(),
            lend == d + 2 + l,
            server_name_spec(buf@, d as int, end as int) == scan_names(buf@, d + 2, lend as int),
            scan_names(buf@, q as int, lend as int) == scan_names(
                buf@,
                d + 2,
                lend as int,
            ),
        decreases lend - q,
    {
        if lend - q < 3 {
            return SniParse::Invalid;
        }
        let n = read_be16(buf, q + 1) as usize;
        if lend - q - 3 < n {
            return SniParse::Invalid;
        }
        if buf[q] == NAME_TYPE_HOST {
            return SniParse::Host(copy_range(buf, q + 3, q + 3 + n));
        }
        q = q + 3 + n;
    }
    SniParse::NoSni
}

/// Reads the server name from the front of a client's first bytes.
pub fn parse_client_hello(buf: &[u8]) -> (r: SniParse)
    ensures
        r@ == client_hello_spec(buf@),
{
    let len = buf.len();
    if len >= 1 && buf[0] != TLS_HANDSHAKE {
        return SniParse::Invalid;
    }
    if len >= 2 && buf[1] != 3 {
        return SniParse::Invalid;
    }
    if len >= 3 && buf[2] > 4 {
        return SniParse::Invalid;
    }
    if len >= 6 && buf[5] != HANDSHAKE_CLIENT_HELLO {
        return SniParse::Invalid;
    }
    if len < 44 {
        return SniParse::NeedMore;
    }
    if buf[43] > 32 {
        return SniParse::Invalid;
    }
    let suites_at = 44 + buf[43] as usize;
    if len < suites_at + 2 {
        return SniParse::NeedMore;
    }
    let cs = read_be16(buf, suites_at) as usize;
    if len - suites_at - 2 < cs + 1 {
        return SniParse::NeedMore;
    }
    let comp_at = suites_at + 2 + cs;
    let cm = buf[comp_at] as usize;
    if len - comp_at - 1 < cm + 2 {
        return SniParse::NeedMore;
    }
    let exts_at = comp_at + 1 + cm;
    let el = read_be16(buf, exts_at) as usize;
    if len - exts_at - 2 < el {
        return SniParse::NeedMore;
    }
    let end = exts_at + 2 + el;
    let mut pos: usize = exts_at + 2;
    while pos < end
        invariant
            exts_at + 2 <= pos <= end <= buf@.len(),
            client_hello_spec(buf@) == scan_extensions(buf@, exts_at + 2, end as int),
            scan_extensions(buf@, pos as int, end as int) == scan_extensions(
                buf@,
                exts_at + 2,
                end as int,
            ),
        decreases end - pos,
    {
        if end - pos < 4 {
            return SniParse::Invalid;
        }
        let l = read_be16(buf, pos + 2) as usize;
        if end - pos - 4 < l {
            return SniParse::Invalid;
        }
        if read_be16(buf, pos) == EXT_SERVER_NAME {
            return read_server_name(buf, pos + 4, pos + 4 + l);
        }
        pos = pos + 4 + l;
    }
    SniParse::NoSni
}

/// One TLS extension: the server_name list as `(name_type, name)` entries,
/// or any other extension as its type and raw data.
#[derive(Debug, Clone, PartialEq, Eq)]
pub enum TlsExtension {
    Sni(Vec<(u8, Vec<u8>)>),
    Unknown(u16, Vec<u8>),
}

pub enum TlsExtensionV {
    Sni(Seq<(u8, Seq<u8>)>),
    Unknown(u16, Seq<u8>),
}

pub open spec fn entries_view(v: Seq<(u8, Vec<u8>)>) -> Seq<(u8, Seq<u8>)> {
    v.map_values(|e: (u8, Vec<u8>)| (e.0, e.1@))
}

impl View for TlsExtension {
    type V = TlsExtensionV;

    open spec fn view(&self) -> TlsExtensionV {
        match self {
            TlsExtension::Sni(v) => TlsExtensionV::Sni(entries_view(v@)),
            TlsExtension::Unknown(t, d) => TlsExtensionV::Unknown(*t, d@),
        }
    }
}

/// All server_name entries in `s[q..end]`, or `None` when one is cut short.
pub open spec fn name_entries(s: Seq<u8>, q: int, end: int) -> Option<Seq<(u8, Seq<u8>)>>
    decreases end - q,
{
    if q >= end {
        Some(Seq::empty())
    } else if end - q < 3 {
        None
    } else {
        let n = be16(s[q + 1], s[q + 2]) as int;
        if end - q - 3 < n {
            None
        } else {
            match name_entries(s, q + 3 + n, end) {
                Some(rest) => Some(seq![(s[q], s.subrange(q + 3, q + 3 + n))] + rest),
                None => None,
            }
        }
    }
}

/// Reading of one extension at `s[pos..end]`: the extension and the position
/// after it.
pub open spec fn extension_spec(s: Seq<u8>, pos: int, end: int) -> Option<(TlsExtensionV, int)> {
    if end - pos < 4 {
        None
    } else {
        let t = be16(s[pos], s[pos + 1]);
        let l = be16(s[pos + 2], s[pos + 3]) as int;
        let d = pos + 4;
        if end - d < l {
            None
        } else if t == EXT_SERVER_NAME {
            if l < 2 {
                None
            } else {
                let ll = be16(s[d], s[d + 1]) as int;
                if l - 2 < ll {
                    None
                } else {
                    match name_entries(s, d + 2, d + 2 + ll) {
                        Some(v) => Some((TlsExtensionV::Sni(v), d + l)),
                        None => None,
                    }
                }
            }
        } else {
            Some((TlsExtensionV::Unknown(t, s.subrange(d, d + l)), d + l))
        }
    }
}

/// Reads the extension at `buf[pos..end]`.
pub fn parse_tls_extension(buf: &[u8], pos: usize, end: usize) -> (r: Option<(TlsExtension, usize)>)
    requires
        pos <= end <= buf@.len(),
    ensures
        match extension_spec(buf@, pos as int, end as int) {
            Some((e, next)) => r matches Some((x, n)) && x@ == e && n == next,
            None => r is None,
        },
{
    if end - pos < 4 {
        return None;
    }
    let t = read_be16(buf, pos);
    let l = read_be16(buf, pos + 2) as usize;
    let d = pos + 4;
    if end - d < l {
        return None;
    }
    if t != EXT_SERVER_NAME {
        return Some((TlsExtension::Unknown(t, copy_range(buf, d, d + l)), d + l));
    }
    if l < 2 {
        return None;
    }
    let ll = read_be16(buf, d) as usize;
    if l - 2 < ll {
        return None;
    }
    let lend = d + 2 + ll;
    let mut v: Vec<(u8, Vec<u8>)> = Vec::new();
    let mut q: usize = d + 2;
    while q < lend
        invariant
            d + 2 <= q <= lend <= end <= buf@.len(),
            extension_spec(buf@, pos as int, end as int) == match name_entries(
                buf@,
                d + 2,
                lend as int,
            ) {
                Some(w) => Some((TlsExtensionV::Sni(w), d + l)),
                None => None::<(TlsExtensionV, int)>,
            },
            name_entries(buf@, d + 2, lend as int) == match name_entries(
                buf@,
                q as int,
                lend as int,
            ) {
                Some(rest) => Some(entries_view(v@) + rest),
                None => None::<Seq<(u8, Seq<u8>)>>,
            },
        decreases lend - q,
    {
        if lend - q < 3 {
            return None;
        }
        let n = read_be16(buf, q + 1) as usize;
        if lend - q - 3 < n {
            return None;
        }
        let name = copy_range(buf, q + 3, q + 3 + n);
        let ghost before = v@;
        let ghost e = (buf@[q as int], buf@.subrange(q + 3, q + 3 + n));
        v.push((buf[q], name));
        proof {
            assert(entries_view(v@) =~= entries_view(before).push(e));
            let tail = name_entries(buf@, q + 3 + n, lend as int);
            if let Some(rest) = tail {
                assert(entries_view(before) + (seq![e] + rest) =~= entries_view(v@) + rest);
            }
        }
        q = q + 3 + n;
    }
    assert(entries_view(v@) + Seq::<(u8, Seq<u8>)>::empty() =~= entries_view(v@));
    Some((TlsExtension::Sni(v), d + l))
}

/// Any two bytes are too few for a ClientHello: the reader answers that it
/// needs more or that the bytes are no ClientHello, and never a name.
pub proof fn lemma_two_bytes_undecided(s: Seq<u8>)
    requires
        s.len() == 2,
    ensures
        client_hello_spec(s) == SniV::NeedMore || client_hello_spec(s) == SniV::Invalid,
{
}

} // verus!
