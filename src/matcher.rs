//! Domain matcher: named sets of exact names and of suffix patterns. Matching
//! is byte-exact; callers normalise case before asking.
use vstd::prelude::*;
use crate::bytes_util::bytes_eq;
use crate::routing::names_view;

verus! {

/// One named domain set.
#[derive(Debug, Clone)]
pub struct DomainSet {
    pub name: Vec<u8>,
    /// Names matched only exactly.
    pub exact: Vec<Vec<u8>>,
    /// Patterns matched by the name itself and by every subdomain of it.
    pub suffixes: Vec<Vec<u8>>,
}

/// All domain sets, in declaration order.
#[derive(Debug, Clone)]
pub struct DomainMatcher {
    pub sets: Vec<DomainSet>,
}

/// `q` is `p` or ends with `"." + p`, byte for byte.
pub open spec fn suffix_match(q: Seq<u8>, p: Seq<u8>) -> bool {
    q == p || (q.len() > p.len() && q[q.len() - p.len() - 1] == 0x2e && q.subrange(
        q.len() - p.len(),
        q.len() as int,
    ) == p)
}

pub open spec fn set_contains(d: DomainSet, q: Seq<u8>) -> bool {
    names_view(d.exact@).contains(q) || exists|k: int|
        0 <= k < d.suffixes@.len() && suffix_match(q, #[trigger] d.suffixes@[k]@)
}

/// Names of the sets that contain `q`, in declaration order.
pub open spec fn lookup_spec(sets: Seq<DomainSet>, q: Seq<u8>) -> Seq<Seq<u8>>
    decreases sets.len(),
{
    if sets.len() == 0 {
        Seq::empty()
    } else {
        let r = lookup_spec(sets.drop_last(), q);
        if set_contains(sets.last(), q) {
            r.push(sets.last().name@)
        } else {
            r
        }
    }
}

pub open spec fn is_ascii_upper(b: u8) -> bool {
    0x41 <= b <= 0x5a
}

pub open spec fn lower_byte(b: u8) -> u8 {
    if is_ascii_upper(b) {
        (b + 0x20) as u8
    } else {
        b
    }
}

/// ASCII lowercase of a byte string; other bytes are kept.
pub open spec fn ascii_lower(s: Seq<u8>) -> Seq<u8> {
    s.map_values(|b: u8| lower_byte(b))
}

pub open spec fn is_lowercase(s: Seq<u8>) -> bool {
    forall|i: int| 0 <= i < s.len() ==> !is_ascii_upper(#[trigger] s[i])
}

/// ASCII-lowercases a name, as queries are normalised before lookup.
pub fn normalize_name(q: &[u8]) -> (r: Vec<u8>)
    ensures
        r@ == ascii_lower(q@),
{
    let mut r: Vec<u8> = Vec::new();
    let mut i: usize = 0;
    while i < q.len()
        invariant
            i <= q@.len(),
            r@ == ascii_lower(q@.subrange(0, i as int)),
        decreases q@.len() - i,
    {
        let b = q[i];
        let c = if 0x41 <= b && b <= 0x5a {
            b + 0x20
        } else {
            b
        };
        r.push(c);
        i = i + 1;
        assert(ascii_lower(q@.subrange(0, i as int)) =~= ascii_lower(q@.subrange(0, i - 1)).push(
            c,
        ));
    }
    assert(q@.subrange(0, q@.len() as int) =~= q@);
    r
}

/// Whether `q` is `p` or a subdomain of it.
pub fn matches_suffix(q: &[u8], p: &[u8]) -> (r: bool)
    ensures
        r == suffix_match(q@, p@),
{
    if q.len() == p.len() {
        return bytes_eq(q, p);
    }
    if q.len() < p.len() {
        return false;
    }
    let off = q.len() - p.len();
    if q[off - 1] != 0x2e {
        return false;
    }
    let mut i: usize = 0;
    while i < p.len()
        invariant
            i <= p@.len(),
            off + p@.len() == q@.len(),
            q@.len() == q.len(),
            forall|j: int| 0 <= j < i ==> q@[off + j] == p@[j],
        decreases p@.len() - i,
    {
        if q[off + i] != p[i] {
            assert(q@.subrange(off as int, q@.len() as int)[i as int] != p@[i as int]);
            return false;
        }
        i = i + 1;
    }
    assert(q@.subrange(off as int, q@.len() as int) =~= p@);
    true
}

fn exact_contains(v: &Vec<Vec<u8>>, q: &[u8]) -> (r: bool)
    ensures
        r == names_view(v@).contains(q@),
{
    let mut i: usize = 0;
    while i < v.len()
        invariant
            i <= v@.len(),
            forall|j: int| 0 <= j < i ==> v@[j]@ != q@,
        decreases v@.len() - i,
    {
        if bytes_eq(v[i].as_slice(), q) {
            assert(names_view(v@)[i as int] == q@);
            return true;
        }
        i = i + 1;
    }
    proof {
        if names_view(v@).contains(q@) {
            let k = choose|k: int| 0 <= k < names_view(v@).len() && names_view(v@)[k] == q@;
            assert(v@[k]@ == q@);
        }
    }
    false
}

impl DomainSet {
    /// Whether the set contains `q`, exactly or by suffix.
    pub fn contains(&self, q: &[u8]) -> (r: bool)
        ensures
            r == set_contains(*self, q@),
    {
        if exact_contains(&self.exact, q) {
            return true;
        }
        let mut k: usize = 0;
        while k < self.suffixes.len()
            invariant
                k <= self.suffixes@.len(),
                forall|j: int| 0 <= j < k ==> !suffix_match(q@, #[trigger] self.suffixes@[j]@),
            decreases self.suffixes@.len() - k,
        {
            if matches_suffix(q, self.suffixes[k].as_slice()) {
                return true;
            }
            k = k + 1;
        }
        false
    }
}

impl DomainMatcher {
    /// Names of the sets that contain `q`, in declaration order.
    pub fn lookup(&self, q: &[u8]) -> (r: Vec<Vec<u8>>)
        ensures
            names_view(r@) == lookup_spec(self.sets@, q@),
    {
        let mut r: Vec<Vec<u8>> = Vec::new();
        let mut i: usize = 0;
        while i < self.sets.len()
            invariant
                i <= self.sets@.len(),
                names_view(r@) == lookup_spec(self.sets@.subrange(0, i as int), q@),
            decreases self.sets@.len() - i,
        {
            let ghost pre = self.sets@.subrange(0, i as int);
            let ghost next = self.sets@.subrange(0, i + 1);
            assert(next.drop_last() =~= pre);
            assert(next.last() == self.sets@[i as int]);
            if self.sets[i].contains(q) {
                let n = crate::bytes_util::copy_range(
                    self.sets[i].name.as_slice(),
                    0,
                    self.sets[i].name.len(),
                );
                assert(self.sets@[i as int].name@.subrange(
                    0,
                    self.sets@[i as int].name@.len() as int,
                ) =~= self.sets@[i as int].name@);
                let ghost old_r = r@;
                r.push(n);
                assert(names_view(r@) =~= names_view(old_r).push(n@));
            }
            i = i + 1;
        }
        assert(self.sets@.subrange(0, self.sets@.len() as int) =~= self.sets@);
        r
    }
}

/// The matcher is byte-exact: a query matched against a lowercase pattern
/// holds no uppercase ASCII letter in the matched part, so a query that is
/// not normalised upstream can miss a rule it would match in lowercase.
pub proof fn lemma_match_is_byte_exact(q: Seq<u8>, p: Seq<u8>)
    requires
        is_lowercase(p),
        suffix_match(q, p),
    ensures
        is_lowercase(q.subrange(q.len() - p.len(), q.len() as int)),
{
    if q == p {
        assert(q.subrange(0, q.len() as int) =~= q);
    }
}

/// Normalising case upstream makes lookup stable under case: two queries
/// that differ only in ASCII case are matched alike once normalised.
pub proof fn lemma_normalized_lookup_case_stable(sets: Seq<DomainSet>, q1: Seq<u8>, q2: Seq<u8>)
    requires
        q1.len() == q2.len(),
        forall|i: int| 0 <= i < q1.len() ==> lower_byte(#[trigger] q1[i]) == lower_byte(q2[i]),
    ensures
        lookup_spec(sets, ascii_lower(q1)) == lookup_spec(sets, ascii_lower(q2)),
{
    assert(ascii_lower(q1) =~= ascii_lower(q2));
}

/// An IP network: address bytes (4 for IPv4, 16 for IPv6) and a prefix
/// length in bits.
#[derive(Debug, Clone)]
pub struct IpNet {
    pub addr: Vec<u8>,
    pub prefix_len: u8,
}

/// One named IP set.
#[derive(Debug, Clone)]
pub struct IpSet {
    pub name: Vec<u8>,
    pub nets: Vec<IpNet>,
}

/// All IP sets, in declaration order.
#[derive(Debug, Clone)]
pub struct IpMatcher {
    pub sets: Vec<IpSet>,
}

/// `x` shifted right by `n` bits.
pub open spec fn shr(x: u8, n: nat) -> u8
    decreases n,
{
    if n == 0 {
        x
    } else {
        shr(x / 2, (n - 1) as nat)
    }
}

/// The network `a/len` covers `ip`: same family, and the first `len` bits
/// agree.
pub open spec fn covers(a: Seq<u8>, len: nat, ip: Seq<u8>) -> bool {
    let k = len / 8;
    let r = len % 8;
    &&& a.len() == ip.len()
    &&& len <= 8 * a.len()
    &&& forall|i: int| 0 <= i < k ==> #[trigger] a[i] == ip[i]
    &&& r != 0 ==> shr(a[k as int], (8 - r) as nat) == shr(ip[k as int], (8 - r) as nat)
}

pub open spec fn ip_set_contains(s: IpSet, ip: Seq<u8>) -> bool {
    exists|k: int|
        0 <= k < s.nets@.len() && covers(
            #[trigger] s.nets@[k].addr@,
            s.nets@[k].prefix_len as nat,
            ip,
        )
}

/// Names of the IP sets that contain `ip`, in declaration order.
pub open spec fn ip_lookup_spec(sets: Seq<IpSet>, ip: Seq<u8>) -> Seq<Seq<u8>>
    decreases sets.len(),
{
    if sets.len() == 0 {
        Seq::empty()
    } else {
        let r = ip_lookup_spec(sets.drop_last(), ip);
        if ip_set_contains(sets.last(), ip) {
            r.push(sets.last().name@)
        } else {
            r
        }
    }
}

fn shift_right(x: u8, n: u8) -> (r: u8)
    ensures
        r == shr(x, n as nat),
{
    let mut v: u8 = x;
    let mut j: u8 = 0;
    while j < n
        invariant
            j <= n,
            shr(v, (n - j) as nat) == shr(x, n as nat),
        decreases n - j,
    {
        v = v / 2;
        j = j + 1;
    }
    v
}

impl IpNet {
    /// Whether this network covers `ip`.
    pub fn covers(&self, ip: &[u8]) -> (r: bool)
        ensures
            r == covers(self.addr@, self.prefix_len as nat, ip@),
    {
        if self.addr.len() != ip.len() {
            return false;
        }
        let len = self.prefix_len as usize;
        let too_long = if self.addr.len() >= 32 {
            false
        } else {
            len > 8 * self.addr.len()
        };
        if too_long {
            return false;
        }
        let k = len / 8;
        let r = len % 8;
        let mut i: usize = 0;
        while i < k
            invariant
                k <= self.addr@.len(),
                k == self.prefix_len as nat / 8,
                self.prefix_len as nat <= 8 * self.addr@.len(),
                self.addr@.len() == ip@.len(),
                i <= k,
                forall|j: int| 0 <= j < i ==> self.addr@[j] == ip@[j],
            decreases k - i,
        {
            if self.addr[i] != ip[i] {
                assert(self.addr@[i as int] != ip@[i as int]);
                return false;
            }
            i = i + 1;
        }
        if r == 0 {
            return true;
        }
        shift_right(self.addr[k], (8 - r) as u8) == shift_right(ip[k], (8 - r) as u8)
    }
}

impl IpSet {
    /// Whether some network of the set covers `ip`.
    pub fn contains(&self, ip: &[u8]) -> (r: bool)
        ensures
            r == ip_set_contains(*self, ip@),
    {
        let mut k: usize = 0;
        while k < self.nets.len()
            invariant
                k <= self.nets@.len(),
                forall|j: int|
                    0 <= j < k ==> !covers(
                        #[trigger] self.nets@[j].addr@,
                        self.nets@[j].prefix_len as nat,
                        ip@,
                    ),
            decreases self.nets@.len() - k,
        {
            if self.nets[k].covers(ip) {
                return true;
            }
            k = k + 1;
        }
        false
    }
}

impl IpMatcher {
    /// Names of the sets that contain `ip`, in declaration order.
    pub fn lookup(&self, ip: &[u8]) -> (r: Vec<Vec<u8>>)
        ensures
            names_view(r@) == ip_lookup_spec(self.sets@, ip@),
    {
        let mut r: Vec<Vec<u8>> = Vec::new();
        let mut i: usize = 0;
        while i < self.sets.len()
            invariant
                i <= self.sets@.len(),
                names_view(r@) == ip_lookup_spec(self.sets@.subrange(0, i as int), ip@),
            decreases self.sets@.len() - i,
        {
            let ghost pre = self.sets@.subrange(0, i as int);
            let ghost next = self.sets@.subrange(0, i + 1);
            assert(next.drop_last() =~= pre);
            assert(next.last() == self.sets@[i as int]);
            if self.sets[i].contains(ip) {
                let n = crate::bytes_util::copy_all(self.sets[i].name.as_slice());
                let ghost old_r = r@;
                r.push(n);
                assert(names_view(r@) =~= names_view(old_r).push(n@));
            }
            i = i + 1;
        }
        assert(self.sets@.subrange(0, self.sets@.len() as int) =~= self.sets@);
        r
    }
}

} // verus!
