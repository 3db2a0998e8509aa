//! The configuration after parsing: egresses, named rules, relays and the DNS
//! proxy, and the linking pass that checks names before anything is served.
use vstd::prelude::*;
use crate::bytes_util::{bytes_eq, copy_all};
use crate::matcher::{DomainMatcher, IpMatcher};
use crate::routing::{Rule, RoutingBranch, find_rule_cycle, rules_have_cycle, walk};
use crate::socks::Address;

verus! {

/// How an egress reaches the world.
#[derive(Debug, Clone)]
pub enum EgressKind {
    /// Dial directly.
    Direct,
    /// Through an upstream SOCKS5 proxy; `remote_dns` sends names unresolved.
    Socks5 { upstream: Address, remote_dns: bool },
    /// Close immediately.
    Reset,
}

/// A named outbound path.
#[derive(Debug, Clone)]
pub struct Egress {
    pub name: Vec<u8>,
    pub kind: EgressKind,
}

/// A SOCKS5 listener and the routing tree its connections are decided by.
#[derive(Debug)]
pub struct Relay {
    pub listen: Address,
    pub root: RoutingBranch,
}

/// An upstream name server.
#[derive(Debug, Clone)]
pub enum NameServerKind {
    Udp(Address),
    /// A resolver reached through a SOCKS5 proxy.
    Socks5 { proxy: Address, target: Address },
}

#[derive(Debug, Clone)]
pub struct NameServer {
    pub name: Vec<u8>,
    pub kind: NameServerKind,
}

/// The DNS proxy: its listening address, its name servers, and a routing
/// tree whose egress leaves name those servers.
#[derive(Debug)]
pub struct DnsProxy {
    pub listen: Address,
    pub servers: Vec<NameServer>,
    pub root: RoutingBranch,
}

/// The linked configuration, shared read-only by every connection.
#[derive(Debug)]
pub struct MainConf {
    pub dns: Option<DnsProxy>,
    pub relays: Vec<Relay>,
    pub rules: Vec<Rule>,
    pub egresses: Vec<Egress>,
    pub domain_matcher: DomainMatcher,
    pub ip_matcher: IpMatcher,
}

/// Fatal configuration errors.
#[derive(Debug, Clone)]
pub enum ConfigError {
    /// A rule or egress uses a reserved word as its name.
    ReservedName(Vec<u8>),
    /// A name is referenced but defined nowhere.
    UnresolvedRef(Vec<u8>),
    /// Two rules, two egresses or two name servers share this name.
    DuplicateName(Vec<u8>),
    /// Rules reach this rule name again through rule references.
    CycleInRules(Vec<u8>),
}

/// The words that may not name a rule or an egress:
/// bind, else, socks5, direct, reset, any, cond.
pub open spec fn is_reserved(n: Seq<u8>) -> bool {
    n == seq![0x62u8, 0x69, 0x6e, 0x64] || n == seq![0x65u8, 0x6c, 0x73, 0x65] || n == seq![
        0x73u8,
        0x6f,
        0x63,
        0x6b,
        0x73,
        0x35,
    ] || n == seq![0x64u8, 0x69, 0x72, 0x65, 0x63, 0x74] || n == seq![
        0x72u8,
        0x65,
        0x73,
        0x65,
        0x74,
    ] || n == seq![0x61u8, 0x6e, 0x79] || n == seq![0x63u8, 0x6f, 0x6e, 0x64]
}

/// Whether `n` is a reserved word.
pub fn is_reserved_name(n: &[u8]) -> (r: bool)
    ensures
        r == is_reserved(n@),
{
    let bind: [u8; 4] = [0x62, 0x69, 0x6e, 0x64];
    let els: [u8; 4] = [0x65, 0x6c, 0x73, 0x65];
    let socks5: [u8; 6] = [0x73, 0x6f, 0x63, 0x6b, 0x73, 0x35];
    let direct: [u8; 6] = [0x64, 0x69, 0x72, 0x65, 0x63, 0x74];
    let reset: [u8; 5] = [0x72, 0x65, 0x73, 0x65, 0x74];
    let any: [u8; 3] = [0x61, 0x6e, 0x79];
    let cond: [u8; 4] = [0x63, 0x6f, 0x6e, 0x64];
    assert(bind@ =~= seq![0x62u8, 0x69, 0x6e, 0x64]);
    assert(els@ =~= seq![0x65u8, 0x6c, 0x73, 0x65]);
    assert(socks5@ =~= seq![0x73u8, 0x6f, 0x63, 0x6b, 0x73, 0x35]);
    assert(direct@ =~= seq![0x64u8, 0x69, 0x72, 0x65, 0x63, 0x74]);
    assert(reset@ =~= seq![0x72u8, 0x65, 0x73, 0x65, 0x74]);
    assert(any@ =~= seq![0x61u8, 0x6e, 0x79]);
    assert(cond@ =~= seq![0x63u8, 0x6f, 0x6e, 0x64]);
    bytes_eq(n, bind.as_slice()) || bytes_eq(n, els.as_slice()) || bytes_eq(n, socks5.as_slice())
        || bytes_eq(n, direct.as_slice()) || bytes_eq(n, reset.as_slice()) || bytes_eq(
        n,
        any.as_slice(),
    ) || bytes_eq(n, cond.as_slice())
}

/// Index of the first name in `v` that is reserved, from `i` on.
pub open spec fn first_reserved(v: Seq<Seq<u8>>, i: int) -> Option<int>
    decreases v.len() - i,
{
    if i < 0 || i >= v.len() {
        None
    } else if is_reserved(v[i]) {
        Some(i)
    } else {
        first_reserved(v, i + 1)
    }
}

proof fn lemma_first_reserved_in_range(v: Seq<Seq<u8>>, i: int)
    ensures
        first_reserved(v, i) matches Some(k) ==> 0 <= i <= k < v.len() && is_reserved(v[k]),
    decreases v.len() - i,
{
    if 0 <= i < v.len() && !is_reserved(v[i]) {
        lemma_first_reserved_in_range(v, i + 1);
    }
}

/// Checks that no name is a reserved word; on failure returns the first
/// reserved one.
pub fn check_var_name(ns: &Vec<Vec<u8>>) -> (r: Result<(), Vec<u8>>)
    ensures
        match first_reserved(bytes_view(ns@), 0) {
            None => r is Ok,
            Some(i) => r matches Err(n) && n@ == bytes_view(ns@)[i] && is_reserved(n@),
        },
{
    let ghost v = bytes_view(ns@);
    proof {
        lemma_first_reserved_in_range(v, 0);
    }
    let mut i: usize = 0;
    while i < ns.len()
        invariant
            i <= ns@.len(),
            v == bytes_view(ns@),
            first_reserved(v, 0) == first_reserved(v, i as int),
        decreases ns@.len() - i,
    {
        if is_reserved_name(ns[i].as_slice()) {
            return Err(copy_all(ns[i].as_slice()));
        }
        i = i + 1;
    }
    Ok(())
}

/// A placeholder that first holds a reference by name and is later linked to
/// the value of that name.
#[derive(Debug, Clone)]
pub enum RefVal<T> {
    Ref(Vec<u8>),
    Val(T),
}

/// Index of the first entry at or after `i` whose key is `k`.
pub open spec fn entry_index<T>(m: Seq<(Vec<u8>, T)>, k: Seq<u8>, i: int) -> Option<int>
    decreases m.len() - i,
{
    if i < 0 || i >= m.len() {
        None
    } else if m[i].0@ == k {
        Some(i)
    } else {
        entry_index(m, k, i + 1)
    }
}

proof fn lemma_entry_index_in_range<T>(m: Seq<(Vec<u8>, T)>, k: Seq<u8>, i: int)
    ensures
        entry_index(m, k, i) matches Some(j) ==> 0 <= i <= j < m.len() && m[j].0@ == k,
    decreases m.len() - i,
{
    if 0 <= i < m.len() && m[i].0@ != k {
        lemma_entry_index_in_range(m, k, i + 1);
    }
}

impl<T: Clone> RefVal<T> {
    /// The referenced name, while not yet linked.
    pub fn get_ref(&self) -> (r: Option<Vec<u8>>)
        ensures
            match self {
                RefVal::Ref(n) => r matches Some(m) && m@ == n@,
                RefVal::Val(_) => r is None,
            },
    {
        match self {
            RefVal::Ref(n) => Some(copy_all(n.as_slice())),
            RefVal::Val(_) => None,
        }
    }

    /// Links a reference to the value stored under its name in `valmap`
    /// (the first entry of that name); a name with no entry is returned as
    /// the error and the placeholder is left as it was.
    pub fn insert_value(&mut self, valmap: &Vec<(Vec<u8>, T)>) -> (r: Result<(), Vec<u8>>)
        ensures
            match *old(self) {
                RefVal::Val(_) => r is Ok && *final(self) == *old(self),
                RefVal::Ref(n) => match entry_index(valmap@, n@, 0) {
                    Some(i) => r is Ok && (*final(self) matches RefVal::Val(v) && cloned(
                        valmap@[i].1,
                        v,
                    )),
                    None => r matches Err(m) && m@ == n@ && *final(self) == *old(self),
                },
            },
    {
        if let Some(n) = self.get_ref() {
            let mut i: usize = 0;
            while i < valmap.len()
                invariant
                    i <= valmap@.len(),
                    *old(self) matches RefVal::Ref(x) && x@ == n@,
                    *self == *old(self),
                    entry_index(valmap@, n@, 0) == entry_index(valmap@, n@, i as int),
                decreases valmap@.len() - i,
            {
                if bytes_eq(valmap[i].0.as_slice(), n.as_slice()) {
                    *self = RefVal::Val(valmap[i].1.clone());
                    return Ok(());
                }
                i = i + 1;
            }
            return Err(n);
        }
        Ok(())
    }
}

impl<T> RefVal<T> {
    /// The linked value.
    pub fn val(&self) -> (r: &T)
        requires
            self is Val,
        ensures
            self matches RefVal::Val(v) && *r == v,
    {
        match self {
            RefVal::Val(v) => v,
            RefVal::Ref(_) => {
                unreached()
            },
        }
    }
}

/// Every name the tree references is defined: each egress leaf names one of
/// `egresses` and each rule leaf one of `rules`.
pub open spec fn refs_resolved(n: RoutingBranch, rules: Seq<Seq<u8>>, egresses: Seq<Seq<u8>>) -> bool
    decreases n,
{
    match n {
        RoutingBranch::Egress(e) => egresses.contains(e@),
        RoutingBranch::NamedRule(r) => rules.contains(r@),
        RoutingBranch::Either(a, b) => refs_resolved(*a, rules, egresses) && refs_resolved(
            *b,
            rules,
            egresses,
        ),
        RoutingBranch::Cond(_, t, e) => refs_resolved(*t, rules, egresses) && refs_resolved(
            *e,
            rules,
            egresses,
        ),
        _ => true,
    }
}

/// The tree references `m` where a name is expected that `rules` or
/// `egresses` (as the reference's kind requires) does not hold.
pub open spec fn unresolved_in(
    n: RoutingBranch,
    rules: Seq<Seq<u8>>,
    egresses: Seq<Seq<u8>>,
    m: Seq<u8>,
) -> bool
    decreases n,
{
    match n {
        RoutingBranch::Egress(e) => e@ == m && !egresses.contains(m),
        RoutingBranch::NamedRule(r) => r@ == m && !rules.contains(m),
        RoutingBranch::Either(a, b) => unresolved_in(*a, rules, egresses, m) || unresolved_in(
            *b,
            rules,
            egresses,
            m,
        ),
        RoutingBranch::Cond(_, t, e) => unresolved_in(*t, rules, egresses, m) || unresolved_in(
            *e,
            rules,
            egresses,
            m,
        ),
        _ => false,
    }
}

fn contains_bytes(v: &Vec<Vec<u8>>, n: &Vec<u8>) -> (r: bool)
    ensures
        r == bytes_view(v@).contains(n@),
{
    let ghost w = bytes_view(v@);
    let mut i: usize = 0;
    while i < v.len()
        invariant
            i <= v@.len(),
            w == bytes_view(v@),
            forall|j: int| 0 <= j < i ==> v@[j]@ != n@,
        decreases v@.len() - i,
    {
        if bytes_eq(v[i].as_slice(), n.as_slice()) {
            assert(w[i as int] == n@);
            return true;
        }
        i = i + 1;
    }
    proof {
        if w.contains(n@) {
            let k = choose|k: int| 0 <= k < w.len() && w[k] == n@;
            assert(v@[k]@ == n@);
        }
    }
    false
}

/// The first name referenced by `n` that is not defined, if any.
pub fn find_unresolved(n: &RoutingBranch, rules: &Vec<Vec<u8>>, egresses: &Vec<Vec<u8>>) -> (r:
    Option<Vec<u8>>)
    ensures
        r is None <==> refs_resolved(
            *n,
            bytes_view(rules@),
            bytes_view(egresses@),
        ),
        r matches Some(m) ==> unresolved_in(*n, bytes_view(rules@), bytes_view(egresses@), m@),
    decreases *n,
{
    match n {
        RoutingBranch::Egress(e) => {
            if contains_bytes(egresses, e) {
                None
            } else {
                Some(copy_all(e.as_slice()))
            }
        },
        RoutingBranch::NamedRule(x) => {
            if contains_bytes(rules, x) {
                None
            } else {
                Some(copy_all(x.as_slice()))
            }
        },
        RoutingBranch::Either(a, b) => match find_unresolved(a, rules, egresses) {
            Some(m) => Some(m),
            None => find_unresolved(b, rules, egresses),
        },
        RoutingBranch::Cond(_, t, e) => match find_unresolved(t, rules, egresses) {
            Some(m) => Some(m),
            None => find_unresolved(e, rules, egresses),
        },
        _ => None,
    }
}

pub open spec fn bytes_view(v: Seq<Vec<u8>>) -> Seq<Seq<u8>> {
    v.map_values(|x: Vec<u8>| x@)
}

pub open spec fn rule_names(rules: Seq<Rule>) -> Seq<Seq<u8>> {
    rules.map_values(|r: Rule| r.name@)
}

pub open spec fn egress_names(es: Seq<Egress>) -> Seq<Seq<u8>> {
    es.map_values(|e: Egress| e.name@)
}

pub open spec fn server_names(ns: Seq<NameServer>) -> Seq<Seq<u8>> {
    ns.map_values(|n: NameServer| n.name@)
}

/// Every reference of the configuration is defined. Rule trees and relay
/// trees name rules and egresses; the DNS tree names only its servers.
pub open spec fn conf_refs_resolved(
    rules: Seq<Rule>,
    es: Seq<Egress>,
    relays: Seq<Relay>,
    dns: Option<DnsProxy>,
) -> bool {
    &&& forall|i: int|
        0 <= i < rules.len() ==> refs_resolved(
            #[trigger] rules[i].branch,
            rule_names(rules),
            egress_names(es),
        )
    &&& forall|i: int|
        0 <= i < relays.len() ==> refs_resolved(
            #[trigger] relays[i].root,
            rule_names(rules),
            egress_names(es),
        )
    &&& dns matches Some(d) ==> refs_resolved(d.root, Seq::empty(), server_names(d.servers@))
}

fn rule_name_list(rules: &Vec<Rule>) -> (r: Vec<Vec<u8>>)
    ensures
        bytes_view(r@) == rule_names(rules@),
{
    let mut r: Vec<Vec<u8>> = Vec::new();
    let mut i: usize = 0;
    while i < rules.len()
        invariant
            i <= rules@.len(),
            bytes_view(r@) == rule_names(rules@.subrange(0, i as int)),
        decreases rules@.len() - i,
    {
        let ghost pre = r@;
        r.push(copy_all(rules[i].name.as_slice()));
        assert(bytes_view(r@) =~= bytes_view(pre).push(rules@[i as int].name@));
        assert(rules@.subrange(0, i + 1) =~= rules@.subrange(0, i as int).push(rules@[i as int]));
        assert(rule_names(rules@.subrange(0, i + 1)) =~= rule_names(rules@.subrange(0, i as int)).push(
            rules@[i as int].name@,
        ));
        i = i + 1;
    }
    assert(rules@.subrange(0, rules@.len() as int) =~= rules@);
    r
}

fn egress_name_list(es: &Vec<Egress>) -> (r: Vec<Vec<u8>>)
    ensures
        bytes_view(r@) == egress_names(es@),
{
    let mut r: Vec<Vec<u8>> = Vec::new();
    let mut i: usize = 0;
    while i < es.len()
        invariant
            i <= es@.len(),
            bytes_view(r@) == egress_names(es@.subrange(0, i as int)),
        decreases es@.len() - i,
    {
        let ghost pre = r@;
        r.push(copy_all(es[i].name.as_slice()));
        assert(bytes_view(r@) =~= bytes_view(pre).push(es@[i as int].name@));
        assert(es@.subrange(0, i + 1) =~= es@.subrange(0, i as int).push(es@[i as int]));
        assert(egress_names(es@.subrange(0, i + 1)) =~= egress_names(es@.subrange(0, i as int)).push(
            es@[i as int].name@,
        ));
        i = i + 1;
    }
    assert(es@.subrange(0, es@.len() as int) =~= es@);
    r
}

fn server_name_list(ns: &Vec<NameServer>) -> (r: Vec<Vec<u8>>)
    ensures
        bytes_view(r@) == server_names(ns@),
{
    let mut r: Vec<Vec<u8>> = Vec::new();
    let mut i: usize = 0;
    while i < ns.len()
        invariant
            i <= ns@.len(),
            bytes_view(r@) == server_names(ns@.subrange(0, i as int)),
        decreases ns@.len() - i,
    {
        let ghost pre = r@;
        r.push(copy_all(ns[i].name.as_slice()));
        assert(bytes_view(r@) =~= bytes_view(pre).push(ns@[i as int].name@));
        assert(ns@.subrange(0, i + 1) =~= ns@.subrange(0, i as int).push(ns@[i as int]));
        assert(server_names(ns@.subrange(0, i + 1)) =~= server_names(ns@.subrange(0, i as int)).push(
            ns@[i as int].name@,
        ));
        i = i + 1;
    }
    assert(ns@.subrange(0, ns@.len() as int) =~= ns@);
    r
}

/// `m` occurs twice in `s`.
pub open spec fn occurs_twice(s: Seq<Seq<u8>>, m: Seq<u8>) -> bool {
    exists|i: int, j: int| 0 <= i < j < s.len() && #[trigger] s[i] == m && #[trigger] s[j] == m
}

/// Rule names, egress names and name-server names are each unique.
pub open spec fn names_unique(rules: Seq<Rule>, es: Seq<Egress>, dns: Option<DnsProxy>) -> bool {
    &&& rule_names(rules).no_duplicates()
    &&& egress_names(es).no_duplicates()
    &&& dns matches Some(d) ==> server_names(d.servers@).no_duplicates()
}

/// A name that occurs twice in `ns`, if any.
pub fn first_duplicate(ns: &Vec<Vec<u8>>) -> (r: Option<Vec<u8>>)
    ensures
        r is None <==> bytes_view(ns@).no_duplicates(),
        r matches Some(m) ==> occurs_twice(bytes_view(ns@), m@),
{
    let ghost v = bytes_view(ns@);
    let mut j: usize = 0;
    while j < ns.len()
        invariant
            j <= ns@.len(),
            v == bytes_view(ns@),
            forall|a: int, b: int| 0 <= a < b < j ==> v[a] != v[b],
        decreases ns@.len() - j,
    {
        let mut i: usize = 0;
        while i < j
            invariant
                i <= j < ns@.len(),
                v == bytes_view(ns@),
                forall|a: int, b: int| 0 <= a < b < j ==> v[a] != v[b],
                forall|a: int| 0 <= a < i ==> v[a] != v[j as int],
            decreases j - i,
        {
            if bytes_eq(ns[i].as_slice(), ns[j].as_slice()) {
                let m = copy_all(ns[i].as_slice());
                assert(v[i as int] == m@ && v[j as int] == m@);
                return Some(m);
            }
            i = i + 1;
        }
        j = j + 1;
    }
    assert forall|a: int, b: int| 0 <= a < v.len() && 0 <= b < v.len() && a != b implies v[a]
        != v[b] by {
        if a > b {
            assert(v[b] != v[a]);
        }
    }
    None
}

/// `m` is referenced by a rule tree, a relay tree or the DNS tree and is
/// defined nowhere that reference looks.
pub open spec fn conf_unresolved(
    rules: Seq<Rule>,
    es: Seq<Egress>,
    relays: Seq<Relay>,
    dns: Option<DnsProxy>,
    m: Seq<u8>,
) -> bool {
    (exists|i: int|
        0 <= i < rules.len() && unresolved_in(
            #[trigger] rules[i].branch,
            rule_names(rules),
            egress_names(es),
            m,
        )) || (exists|i: int|
        0 <= i < relays.len() && unresolved_in(
            #[trigger] relays[i].root,
            rule_names(rules),
            egress_names(es),
            m,
        )) || (dns matches Some(d) && unresolved_in(
        d.root,
        Seq::empty(),
        server_names(d.servers@),
        m,
    ))
}

/// Links a parsed configuration. Fails with the first reserved word used as
/// a rule name, else as an egress name, else with a name that two rules, two
/// egresses or two name servers share, else with a reference that nothing
/// defines, else with a name on a cycle of rule references; otherwise
/// returns the configuration as given.
pub fn link_conf(
    rules: Vec<Rule>,
    egresses: Vec<Egress>,
    relays: Vec<Relay>,
    dns: Option<DnsProxy>,
    domain_matcher: DomainMatcher,
    ip_matcher: IpMatcher,
) -> (r: Result<MainConf, ConfigError>)
    ensures
        match first_reserved(rule_names(rules@), 0) {
            Some(i) => r matches Err(ConfigError::ReservedName(n)) && n@ == rule_names(rules@)[i],
            None => match first_reserved(egress_names(egresses@), 0) {
                Some(i) => r matches Err(ConfigError::ReservedName(n)) && n@ == egress_names(
                    egresses@,
                )[i],
                None => if !names_unique(rules@, egresses@, dns) {
                    r matches Err(ConfigError::DuplicateName(m)) && (occurs_twice(
                        rule_names(rules@),
                        m@,
                    ) || occurs_twice(egress_names(egresses@), m@) || (dns matches Some(d)
                        && occurs_twice(server_names(d.servers@), m@)))
                } else if !conf_refs_resolved(rules@, egresses@, relays@, dns) {
                    r matches Err(ConfigError::UnresolvedRef(m)) && conf_unresolved(
                        rules@,
                        egresses@,
                        relays@,
                        dns,
                        m@,
                    )
                } else if rules_have_cycle(rules@) {
                    r matches Err(ConfigError::CycleInRules(m)) && exists|i: int|
                        0 <= i < rules@.len() && #[trigger] walk(
                            rules@,
                            rules@[i].branch,
                            seq![rules@[i].name@],
                        ) == Some(m@)
                } else {
                    r matches Ok(c) && c.rules == rules && c.egresses == egresses && c.relays
                        == relays && c.dns == dns && c.domain_matcher == domain_matcher
                        && c.ip_matcher == ip_matcher
                },
            },
        },
{
    let rnames = rule_name_list(&rules);
    let enames = egress_name_list(&egresses);
    if let Err(n) = check_var_name(&rnames) {
        return Err(ConfigError::ReservedName(n));
    }
    if let Err(n) = check_var_name(&enames) {
        return Err(ConfigError::ReservedName(n));
    }
    if let Some(m) = first_duplicate(&rnames) {
        return Err(ConfigError::DuplicateName(m));
    }
    if let Some(m) = first_duplicate(&enames) {
        return Err(ConfigError::DuplicateName(m));
    }
    if let Some(d) = &dns {
        let snames = server_name_list(&d.servers);
        if let Some(m) = first_duplicate(&snames) {
            return Err(ConfigError::DuplicateName(m));
        }
    }
    let mut k: usize = 0;
    while k < rules.len()
        invariant
            k <= rules@.len(),
            bytes_view(rnames@) == rule_names(rules@),
            bytes_view(enames@) == egress_names(egresses@),
            first_reserved(rule_names(rules@), 0) is None,
            first_reserved(egress_names(egresses@), 0) is None,
            names_unique(rules@, egresses@, dns),
            forall|x: int|
                0 <= x < k ==> refs_resolved(
                    #[trigger] rules@[x].branch,
                    rule_names(rules@),
                    egress_names(egresses@),
                ),
        decreases rules@.len() - k,
    {
        if let Some(m) = find_unresolved(&rules[k].branch, &rnames, &enames) {
            assert(!refs_resolved(rules@[k as int].branch, rule_names(rules@), egress_names(egresses@)));
            return Err(ConfigError::UnresolvedRef(m));
        }
        k = k + 1;
    }
    let mut k: usize = 0;
    while k < relays.len()
        invariant
            k <= relays@.len(),
            bytes_view(rnames@) == rule_names(rules@),
            bytes_view(enames@) == egress_names(egresses@),
            first_reserved(rule_names(rules@), 0) is None,
            first_reserved(egress_names(egresses@), 0) is None,
            names_unique(rules@, egresses@, dns),
            forall|x: int|
                0 <= x < k ==> refs_resolved(
                    #[trigger] relays@[x].root,
                    rule_names(rules@),
                    egress_names(egresses@),
                ),
        decreases relays@.len() - k,
    {
        if let Some(m) = find_unresolved(&relays[k].root, &rnames, &enames) {
            assert(!refs_resolved(relays@[k as int].root, rule_names(rules@), egress_names(egresses@)));
            return Err(ConfigError::UnresolvedRef(m));
        }
        k = k + 1;
    }
    if let Some(d) = &dns {
        let snames = server_name_list(&d.servers);
        let none: Vec<Vec<u8>> = Vec::new();
        assert(bytes_view(none@) =~= Seq::<Seq<u8>>::empty());
        if let Some(m) = find_unresolved(&d.root, &none, &snames) {
            return Err(ConfigError::UnresolvedRef(m));
        }
    }
    if let Some(m) = find_rule_cycle(rules.as_slice()) {
        return Err(ConfigError::CycleInRules(m));
    }
    Ok(MainConf { dns, relays, rules, egresses, domain_matcher, ip_matcher })
}

/// Index of the first egress at or after `i` named `name`.
pub open spec fn egress_index(es: Seq<Egress>, name: Seq<u8>, i: int) -> Option<int>
    decreases es.len() - i,
{
    if i < 0 || i >= es.len() {
        None
    } else if es[i].name@ == name {
        Some(i)
    } else {
        egress_index(es, name, i + 1)
    }
}

impl MainConf {
    /// The egress a dispatch names: the first one of that name.
    pub fn find_egress(&self, name: &[u8]) -> (r: Option<&Egress>)
        ensures
            match egress_index(self.egresses@, name@, 0) {
                Some(i) => r == Some(&self.egresses@[i]),
                None => r is None,
            },
    {
        let mut i: usize = 0;
        while i < self.egresses.len()
            invariant
                i <= self.egresses@.len(),
                egress_index(self.egresses@, name@, 0) == egress_index(
                    self.egresses@,
                    name@,
                    i as int,
                ),
            decreases self.egresses@.len() - i,
        {
            if bytes_eq(self.egresses[i].name.as_slice(), name) {
                return Some(&self.egresses[i]);
            }
            i = i + 1;
        }
        None
    }
}

/// Exit status of startup: 99 when the configuration directory is missing,
/// 100 when the configuration does not load, else 0.
pub fn startup_status(dir_exists: bool, conf_loaded: bool) -> (r: i32)
    ensures
        r == (if !dir_exists {
            99i32
        } else if !conf_loaded {
            100i32
        } else {
            0i32
        }),
{
    if !dir_exists {
        99
    } else if !conf_loaded {
        100
    } else {
        0
    }
}

} // verus!
