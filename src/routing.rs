//! The routing decision engine: a tree of conditions and actions, evaluated
//! against the facts of one connection, with named subtrees reached by
//! indirection and guarded against cycles.
use vstd::prelude::*;
use crate::bytes_util::{bytes_eq, copy_range};

verus! {

/// Protocol classification produced by the inspector.
#[derive(Debug, Clone, Copy, PartialEq, Eq, Structural)]
pub enum Protocol {
    Http,
    Tls,
}

/// A condition over the facts of a connection.
#[derive(Debug, Clone)]
pub enum Predicate {
    /// The destination port is one of these.
    Port(Vec<u16>),
    /// The destination name is in the domain set of this name.
    Domain(Vec<u8>),
    /// A resolved address of the destination is in the IP set of this name.
    Ip(Vec<u8>),
    /// The TLS server name is exactly this host.
    Sni(Vec<u8>),
    /// The inspected protocol is this one.
    Protocol(Protocol),
    /// Always true.
    Any,
}

/// A routing tree.
#[derive(Debug)]
pub enum RoutingBranch {
    /// Leaf: forward through the egress of this name.
    Egress(Vec<u8>),
    /// Leaf: evaluate the rule of this name.
    NamedRule(Vec<u8>),
    /// Leaf: close the connection.
    Reset,
    /// Leaf: no decision.
    Abstain,
    /// Evaluate the first subtree; if it abstains, the second.
    Either(Box<RoutingBranch>, Box<RoutingBranch>),
    /// `if predicate then first else second`.
    Cond(Predicate, Box<RoutingBranch>, Box<RoutingBranch>),
}

/// A named routing subtree.
#[derive(Debug)]
pub struct Rule {
    pub name: Vec<u8>,
    pub branch: RoutingBranch,
}

/// What is known about a connection when it is routed. `None` marks a fact
/// that is not available (not inspected, or resolution failed).
#[derive(Debug, Clone)]
pub struct ConnectionFacts {
    /// The destination port; `None` where no port takes part (DNS queries).
    pub port: Option<u16>,
    /// Names of the domain sets that contain the destination name.
    pub domain_sets: Vec<Vec<u8>>,
    /// Names of the IP sets that contain a resolved destination address.
    pub ip_sets: Option<Vec<Vec<u8>>>,
    pub sni: Option<Vec<u8>>,
    pub protocol: Option<Protocol>,
}

/// The engine's verdict.
#[derive(Debug, Clone)]
pub enum Action {
    Egress(Vec<u8>),
    Reset,
    Abstain,
}

/// Evaluation failures.
#[derive(Debug, Clone)]
pub enum RouteError {
    /// This rule name was reached again while being evaluated.
    Cycle(Vec<u8>),
    /// No rule has this name.
    UnknownRule(Vec<u8>),
}

pub enum ActionV {
    Egress(Seq<u8>),
    Reset,
    Abstain,
}

pub enum RouteErrorV {
    Cycle(Seq<u8>),
    UnknownRule(Seq<u8>),
}

impl View for Action {
    type V = ActionV;

    open spec fn view(&self) -> ActionV {
        match self {
            Action::Egress(e) => ActionV::Egress(e@),
            Action::Reset => ActionV::Reset,
            Action::Abstain => ActionV::Abstain,
        }
    }
}

impl View for RouteError {
    type V = RouteErrorV;

    open spec fn view(&self) -> RouteErrorV {
        match self {
            RouteError::Cycle(n) => RouteErrorV::Cycle(n@),
            RouteError::UnknownRule(n) => RouteErrorV::UnknownRule(n@),
        }
    }
}

pub open spec fn decision_view(r: Result<Action, RouteError>) -> Result<ActionV, RouteErrorV> {
    match r {
        Ok(a) => Ok(a@),
        Err(e) => Err(e@),
    }
}

/// The byte strings held by a vector of names.
pub open spec fn names_view(v: Seq<Vec<u8>>) -> Seq<Seq<u8>> {
    v.map_values(|x: Vec<u8>| x@)
}

/// Whether a predicate holds of the facts; an unavailable fact makes it false.
pub open spec fn holds(p: Predicate, f: ConnectionFacts) -> bool {
    match p {
        Predicate::Port(ports) => match f.port {
            Some(p) => ports@.contains(p),
            None => false,
        },
        Predicate::Domain(n) => names_view(f.domain_sets@).contains(n@),
        Predicate::Ip(n) => match f.ip_sets {
            Some(s) => names_view(s@).contains(n@),
            None => false,
        },
        Predicate::Sni(h) => match f.sni {
            Some(s) => s@ == h@,
            None => false,
        },
        Predicate::Protocol(q) => f.protocol == Some(q),
        Predicate::Any => true,
    }
}

/// Index of the first rule at or after `i` whose name is `name`.
pub open spec fn rule_index(rules: Seq<Rule>, name: Seq<u8>, i: int) -> Option<int>
    decreases rules.len() - i,
{
    if i < 0 || i >= rules.len() {
        None
    } else if rules[i].name@ == name {
        Some(i)
    } else {
        rule_index(rules, name, i + 1)
    }
}

proof fn lemma_rule_index_in_range(rules: Seq<Rule>, name: Seq<u8>, i: int)
    ensures
        rule_index(rules, name, i) matches Some(k) ==> 0 <= i <= k < rules.len()
            && rules[k].name@ == name,
    decreases rules.len() - i,
{
    if 0 <= i < rules.len() && rules[i].name@ != name {
        lemma_rule_index_in_range(rules, name, i + 1);
    }
}

/// Evaluation of `n` while the rules named in `stack` are being evaluated.
/// A chain of rule indirections longer than the rule table must revisit a
/// name, so it is reported as a cycle too.
pub open spec fn eval(
    rules: Seq<Rule>,
    n: RoutingBranch,
    f: ConnectionFacts,
    stack: Seq<Seq<u8>>,
) -> Result<ActionV, RouteErrorV>
    decreases rules.len() - stack.len(), n,
{
    match n {
        RoutingBranch::Egress(e) => Ok(ActionV::Egress(e@)),
        RoutingBranch::Reset => Ok(ActionV::Reset),
        RoutingBranch::Abstain => Ok(ActionV::Abstain),
        RoutingBranch::NamedRule(name) => {
            if stack.contains(name@) {
                Err(RouteErrorV::Cycle(name@))
            } else {
                match rule_index(rules, name@, 0) {
                    None => Err(RouteErrorV::UnknownRule(name@)),
                    Some(i) => {
                        if stack.len() >= rules.len() {
                            Err(RouteErrorV::Cycle(name@))
                        } else {
                            eval(rules, rules[i].branch, f, stack.push(name@))
                        }
                    },
                }
            }
        },
        RoutingBranch::Either(a, b) => match eval(rules, *a, f, stack) {
            Ok(ActionV::Abstain) => eval(rules, *b, f, stack),
            r => r,
        },
        RoutingBranch::Cond(p, t, e) => {
            if holds(p, f) {
                eval(rules, *t, f, stack)
            } else {
                eval(rules, *e, f, stack)
            }
        },
    }
}

/// `decide(tree, facts)`: evaluation from the root with no rule in progress.
pub open spec fn decide_spec(rules: Seq<Rule>, root: RoutingBranch, f: ConnectionFacts) -> Result<
    ActionV,
    RouteErrorV,
> {
    eval(rules, root, f, Seq::empty())
}

fn contains_name(v: &Vec<Vec<u8>>, n: &Vec<u8>) -> (r: bool)
    ensures
        r == names_view(v@).contains(n@),
{
    let mut i: usize = 0;
    while i < v.len()
        invariant
            i <= v@.len(),
            forall|j: int| 0 <= j < i ==> v@[j]@ != n@,
        decreases v@.len() - i,
    {
        if bytes_eq(v[i].as_slice(), n.as_slice()) {
            assert(names_view(v@)[i as int] == n@);
            return true;
        }
        i = i + 1;
    }
    proof {
        if names_view(v@).contains(n@) {
            let k = choose|k: int| 0 <= k < names_view(v@).len() && names_view(v@)[k] == n@;
            assert(v@[k]@ == n@);
        }
    }
    false
}

fn contains_port(ports: &Vec<u16>, p: u16) -> (r: bool)
    ensures
        r == ports@.contains(p),
{
    let mut i: usize = 0;
    while i < ports.len()
        invariant
            i <= ports@.len(),
            forall|j: int| 0 <= j < i ==> ports@[j] != p,
        decreases ports@.len() - i,
    {
        if ports[i] == p {
            return true;
        }
        i = i + 1;
    }
    false
}

/// Evaluates one predicate.
pub fn eval_predicate(p: &Predicate, f: &ConnectionFacts) -> (r: bool)
    ensures
        r == holds(*p, *f),
{
    match p {
        Predicate::Port(ports) => match f.port {
            Some(p) => contains_port(ports, p),
            None => false,
        },
        Predicate::Domain(n) => contains_name(&f.domain_sets, n),
        Predicate::Ip(n) => match &f.ip_sets {
            Some(s) => contains_name(s, n),
            None => false,
        },
        Predicate::Sni(h) => match &f.sni {
            Some(s) => bytes_eq(s.as_slice(), h.as_slice()),
            None => false,
        },
        Predicate::Protocol(q) => match f.protocol {
            Some(x) => x == *q,
            None => false,
        },
        Predicate::Any => true,
    }
}

fn find_rule(rules: &[Rule], name: &Vec<u8>) -> (r: Option<usize>)
    ensures
        match rule_index(rules@, name@, 0) {
            Some(i) => r == Some(i as usize),
            None => r is None,
        },
{
    let mut i: usize = 0;
    while i < rules.len()
        invariant
            i <= rules@.len(),
            rule_index(rules@, name@, 0) == rule_index(rules@, name@, i as int),
        decreases rules@.len() - i,
    {
        if bytes_eq(rules[i].name.as_slice(), name.as_slice()) {
            return Some(i);
        }
        i = i + 1;
    }
    None
}

fn copy_name(v: &Vec<u8>) -> (r: Vec<u8>)
    ensures
        r@ == v@,
{
    let r = copy_range(v.as_slice(), 0, v.len());
    assert(v@.subrange(0, v@.len() as int) =~= v@);
    r
}

fn eval_branch(
    rules: &[Rule],
    n: &RoutingBranch,
    f: &ConnectionFacts,
    stack: &mut Vec<Vec<u8>>,
) -> (r: Result<Action, RouteError>)
    ensures
        decision_view(r) == eval(rules@, *n, *f, names_view(old(stack)@)),
        final(stack)@ == old(stack)@,
    decreases rules@.len() - old(stack)@.len(), *n,
{
    match n {
        RoutingBranch::Egress(e) => Ok(Action::Egress(copy_name(e))),
        RoutingBranch::Reset => Ok(Action::Reset),
        RoutingBranch::Abstain => Ok(Action::Abstain),
        RoutingBranch::NamedRule(name) => {
            if contains_name(stack, name) {
                return Err(RouteError::Cycle(copy_name(name)));
            }
            match find_rule(rules, name) {
                None => Err(RouteError::UnknownRule(copy_name(name))),
                Some(i) => {
                    proof {
                        lemma_rule_index_in_range(rules@, name@, 0);
                    }
                    if stack.len() >= rules.len() {
                        return Err(RouteError::Cycle(copy_name(name)));
                    }
                    let ghost before = stack@;
                    stack.push(copy_name(name));
                    assert(names_view(stack@) =~= names_view(before).push(name@));
                    let r = eval_branch(rules, &rules[i].branch, f, stack);
                    stack.pop();
                    assert(stack@ =~= before);
                    r
                },
            }
        },
        RoutingBranch::Either(a, b) => {
            let r = eval_branch(rules, a, f, stack);
            match r {
                Ok(Action::Abstain) => eval_branch(rules, b, f, stack),
                _ => r,
            }
        },
        RoutingBranch::Cond(p, t, e) => {
            if eval_predicate(p, f) {
                eval_branch(rules, t, f, stack)
            } else {
                eval_branch(rules, e, f, stack)
            }
        },
    }
}

/// Evaluates the routing tree `root` against the facts of a connection.
pub fn decide(rules: &[Rule], root: &RoutingBranch, f: &ConnectionFacts) -> (r: Result<
    Action,
    RouteError,
>)
    ensures
        decision_view(r) == decide_spec(rules@, *root, *f),
{
    let mut stack: Vec<Vec<u8>> = Vec::new();
    assert(names_view(stack@) =~= Seq::<Seq<u8>>::empty());
    eval_branch(rules, root, f, &mut stack)
}

/// The depth guard of [`eval`] only fires on a repeated name: a stack of
/// distinct rule names that lacks `name`, itself a rule name, is shorter than
/// the rule table, so the guard never changes a result that the visit check
/// would not already give.
pub proof fn lemma_depth_guard_needs_repeat(rules: Seq<Rule>, stack: Seq<Seq<u8>>, name: Seq<u8>)
    requires
        stack.no_duplicates(),
        forall|k: int| 0 <= k < stack.len() ==> rule_index(rules, #[trigger] stack[k], 0) is Some,
        !stack.contains(name),
        rule_index(rules, name, 0) is Some,
    ensures
        stack.len() < rules.len(),
{
    broadcast use vstd::seq_lib::seq_to_set_is_finite;

    let s2 = stack.push(name);
    assert forall|i: int, j: int| 0 <= i < s2.len() && 0 <= j < s2.len() && i != j implies s2[i]
        != s2[j] by {
        if i == stack.len() {
            assert(stack[j] != name);
        } else if j == stack.len() {
            assert(stack[i] != name);
        }
    }
    assert(s2.no_duplicates());
    s2.unique_seq_to_set();
    let names = rules.map_values(|r: Rule| r.name@);
    assert forall|x: Seq<u8>| s2.to_set().contains(x) implies names.to_set().contains(x) by {
        let k = choose|k: int| 0 <= k < s2.len() && s2[k] == x;
        assert(rule_index(rules, s2[k], 0) is Some);
        lemma_rule_index_in_range(rules, x, 0);
        let j = rule_index(rules, x, 0)->Some_0;
        assert(names[j] == x);
    }
    vstd::set_lib::lemma_len_subset(s2.to_set(), names.to_set());
    names.lemma_cardinality_of_set();
}

/// Routing is a function of the predicates' outcomes: two fact records on
/// which every predicate agrees get the same decision, and so does the same
/// record twice.
pub proof fn lemma_decision_depends_on_predicates(
    rules: Seq<Rule>,
    n: RoutingBranch,
    f1: ConnectionFacts,
    f2: ConnectionFacts,
    stack: Seq<Seq<u8>>,
)
    requires
        forall|p: Predicate| #[trigger] holds(p, f1) == holds(p, f2),
    ensures
        eval(rules, n, f1, stack) == eval(rules, n, f2, stack),
    decreases rules.len() - stack.len(), n,
{
    match n {
        RoutingBranch::NamedRule(name) => {
            if !stack.contains(name@) {
                if let Some(i) = rule_index(rules, name@, 0) {
                    if stack.len() < rules.len() {
                        lemma_decision_depends_on_predicates(
                            rules,
                            rules[i].branch,
                            f1,
                            f2,
                            stack.push(name@),
                        );
                    }
                }
            }
        },
        RoutingBranch::Either(a, b) => {
            lemma_decision_depends_on_predicates(rules, *a, f1, f2, stack);
            lemma_decision_depends_on_predicates(rules, *b, f1, f2, stack);
        },
        RoutingBranch::Cond(p, t, e) => {
            lemma_decision_depends_on_predicates(rules, *t, f1, f2, stack);
            lemma_decision_depends_on_predicates(rules, *e, f1, f2, stack);
        },
        _ => {},
    }
}

/// The two fact records give the same outcome to every predicate that
/// evaluating `n` with the first record tests (the path actually taken).
pub open spec fn agree_on_path(
    rules: Seq<Rule>,
    n: RoutingBranch,
    f1: ConnectionFacts,
    f2: ConnectionFacts,
    stack: Seq<Seq<u8>>,
) -> bool
    decreases rules.len() - stack.len(), n,
{
    match n {
        RoutingBranch::NamedRule(name) => {
            if stack.contains(name@) {
                true
            } else {
                match rule_index(rules, name@, 0) {
                    None => true,
                    Some(i) => {
                        if stack.len() >= rules.len() {
                            true
                        } else {
                            agree_on_path(rules, rules[i].branch, f1, f2, stack.push(name@))
                        }
                    },
                }
            }
        },
        RoutingBranch::Either(a, b) => agree_on_path(rules, *a, f1, f2, stack) && (eval(
            rules,
            *a,
            f1,
            stack,
        ) == Ok::<ActionV, RouteErrorV>(ActionV::Abstain) ==> agree_on_path(
            rules,
            *b,
            f1,
            f2,
            stack,
        )),
        RoutingBranch::Cond(p, t, e) => holds(p, f1) == holds(p, f2) && if holds(p, f1) {
            agree_on_path(rules, *t, f1, f2, stack)
        } else {
            agree_on_path(rules, *e, f1, f2, stack)
        },
        _ => true,
    }
}

/// Routing depends only on the observed outcomes of the predicates on the
/// path it takes: facts that differ elsewhere give the same decision.
pub proof fn lemma_decision_depends_on_path(
    rules: Seq<Rule>,
    n: RoutingBranch,
    f1: ConnectionFacts,
    f2: ConnectionFacts,
    stack: Seq<Seq<u8>>,
)
    requires
        agree_on_path(rules, n, f1, f2, stack),
    ensures
        eval(rules, n, f1, stack) == eval(rules, n, f2, stack),
    decreases rules.len() - stack.len(), n,
{
    match n {
        RoutingBranch::NamedRule(name) => {
            if !stack.contains(name@) {
                if let Some(i) = rule_index(rules, name@, 0) {
                    if stack.len() < rules.len() {
                        lemma_decision_depends_on_path(
                            rules,
                            rules[i].branch,
                            f1,
                            f2,
                            stack.push(name@),
                        );
                    }
                }
            }
        },
        RoutingBranch::Either(a, b) => {
            lemma_decision_depends_on_path(rules, *a, f1, f2, stack);
            if eval(rules, *a, f1, stack) == Ok::<ActionV, RouteErrorV>(ActionV::Abstain) {
                lemma_decision_depends_on_path(rules, *b, f1, f2, stack);
            }
        },
        RoutingBranch::Cond(p, t, e) => {
            if holds(p, f1) {
                lemma_decision_depends_on_path(rules, *t, f1, f2, stack);
            } else {
                lemma_decision_depends_on_path(rules, *e, f1, f2, stack);
            }
        },
        _ => {},
    }
}

/// Two connections whose predicates on the
/// evaluated path observe the same outcomes get the same decision.
pub proof fn lemma_decide_same_on_path(
    rules: Seq<Rule>,
    root: RoutingBranch,
    f1: ConnectionFacts,
    f2: ConnectionFacts,
)
    requires
        agree_on_path(rules, root, f1, f2, Seq::empty()),
    ensures
        decide_spec(rules, root, f1) == decide_spec(rules, root, f2),
{
    lemma_decision_depends_on_path(rules, root, f1, f2, Seq::empty());
}

/// `decide` reads the facts only through predicates.
pub proof fn lemma_decide_deterministic(
    rules: Seq<Rule>,
    root: RoutingBranch,
    f1: ConnectionFacts,
    f2: ConnectionFacts,
)
    requires
        forall|p: Predicate| #[trigger] holds(p, f1) == holds(p, f2),
    ensures
        decide_spec(rules, root, f1) == decide_spec(rules, root, f2),
{
    lemma_decision_depends_on_predicates(rules, root, f1, f2, Seq::empty());
}

/// A rule reached again while it is being evaluated is reported as a cycle.
pub proof fn lemma_revisit_is_cycle(
    rules: Seq<Rule>,
    name: Seq<u8>,
    n: RoutingBranch,
    f: ConnectionFacts,
    stack: Seq<Seq<u8>>,
)
    requires
        n matches RoutingBranch::NamedRule(m) && m@ == name,
        stack.contains(name),
    ensures
        eval(rules, n, f, stack) == Err::<ActionV, RouteErrorV>(RouteErrorV::Cycle(name)),
{
}

/// Two rules that name each other form a cycle, which evaluation reports
/// instead of recursing forever.
pub proof fn lemma_mutual_rules_cycle(rules: Seq<Rule>, a: Seq<u8>, b: Seq<u8>, f: ConnectionFacts)
    requires
        a != b,
        rule_index(rules, a, 0) matches Some(i) && rules[i].branch matches RoutingBranch::NamedRule(
            x,
        ) && x@ == b,
        rule_index(rules, b, 0) matches Some(j) && rules[j].branch matches RoutingBranch::NamedRule(
            y,
        ) && y@ == a,
    ensures
        forall|n: RoutingBranch|
            n matches RoutingBranch::NamedRule(m) && m@ == a ==> #[trigger] decide_spec(rules, n, f)
                == Err::<ActionV, RouteErrorV>(RouteErrorV::Cycle(a)),
{
    lemma_rule_index_in_range(rules, a, 0);
    lemma_rule_index_in_range(rules, b, 0);
    let i = rule_index(rules, a, 0)->Some_0;
    let j = rule_index(rules, b, 0)->Some_0;
    assert(i != j);
    assert(rules.len() >= 2);
    assert forall|n: RoutingBranch|
        n matches RoutingBranch::NamedRule(m) && m@ == a implies #[trigger] decide_spec(
            rules,
            n,
            f,
        ) == Err::<ActionV, RouteErrorV>(RouteErrorV::Cycle(a)) by {
        let s0 = Seq::<Seq<u8>>::empty();
        let s1 = s0.push(a);
        let s2 = s1.push(b);
        assert(!s0.contains(a));
        assert(!s1.contains(b)) by {
            assert(s1[0] == a);
        }
        assert(s2[0] == a);
        assert(s2.contains(a));
        assert(eval(rules, rules[j].branch, f, s2) == Err::<ActionV, RouteErrorV>(
            RouteErrorV::Cycle(a),
        ));
        assert(eval(rules, rules[i].branch, f, s1) == eval(rules, rules[j].branch, f, s2));
        assert(eval(rules, n, f, s0) == eval(rules, rules[i].branch, f, s1));
    }
}

/// A walk of the rule-name graph (rule `n` leads to `m` when `n`'s tree holds
/// `NamedRule(m)`) along every branch of `n`, with `stack` the path so far:
/// the first name found that is already on the path, if any. Names that no
/// rule defines end the walk. As in [`eval`], a path as long as the rule
/// table counts as a repeat (see [`lemma_depth_guard_needs_repeat`]).
pub open spec fn walk(rules: Seq<Rule>, n: RoutingBranch, stack: Seq<Seq<u8>>) -> Option<Seq<u8>>
    decreases rules.len() - stack.len(), n,
{
    match n {
        RoutingBranch::NamedRule(name) => {
            if stack.contains(name@) {
                Some(name@)
            } else {
                match rule_index(rules, name@, 0) {
                    None => None,
                    Some(i) => {
                        if stack.len() >= rules.len() {
                            Some(name@)
                        } else {
                            walk(rules, rules[i].branch, stack.push(name@))
                        }
                    },
                }
            }
        },
        RoutingBranch::Either(a, b) => match walk(rules, *a, stack) {
            Some(x) => Some(x),
            None => walk(rules, *b, stack),
        },
        RoutingBranch::Cond(_, t, e) => match walk(rules, *t, stack) {
            Some(x) => Some(x),
            None => walk(rules, *e, stack),
        },
        _ => None,
    }
}

/// The rule-name graph has a cycle: from some rule, following rule
/// references along any branch comes back to a name already on the path.
pub open spec fn rules_have_cycle(rules: Seq<Rule>) -> bool {
    exists|i: int|
        0 <= i < rules.len() && (#[trigger] walk(rules, rules[i].branch, seq![rules[i].name@]))
            is Some
}

fn walk_branch(rules: &[Rule], n: &RoutingBranch, stack: &mut Vec<Vec<u8>>) -> (r: Option<Vec<u8>>)
    ensures
        match walk(rules@, *n, names_view(old(stack)@)) {
            Some(x) => r matches Some(v) && v@ == x,
            None => r is None,
        },
        final(stack)@ == old(stack)@,
    decreases rules@.len() - old(stack)@.len(), *n,
{
    match n {
        RoutingBranch::NamedRule(name) => {
            if contains_name(stack, name) {
                return Some(copy_name(name));
            }
            match find_rule(rules, name) {
                None => None,
                Some(i) => {
                    proof {
                        lemma_rule_index_in_range(rules@, name@, 0);
                    }
                    if stack.len() >= rules.len() {
                        return Some(copy_name(name));
                    }
                    let ghost before = stack@;
                    stack.push(copy_name(name));
                    assert(names_view(stack@) =~= names_view(before).push(name@));
                    let r = walk_branch(rules, &rules[i].branch, stack);
                    stack.pop();
                    assert(stack@ =~= before);
                    r
                },
            }
        },
        RoutingBranch::Either(a, b) => match walk_branch(rules, a, stack) {
            Some(x) => Some(x),
            None => walk_branch(rules, b, stack),
        },
        RoutingBranch::Cond(_, t, e) => match walk_branch(rules, t, stack) {
            Some(x) => Some(x),
            None => walk_branch(rules, e, stack),
        },
        _ => None,
    }
}

/// A name on a cycle of the rule-name graph, if there is a cycle.
pub fn find_rule_cycle(rules: &[Rule]) -> (r: Option<Vec<u8>>)
    ensures
        r is None <==> !rules_have_cycle(rules@),
        r matches Some(v) ==> exists|i: int|
            0 <= i < rules@.len() && #[trigger] walk(
                rules@,
                rules@[i].branch,
                seq![rules@[i].name@],
            ) == Some(v@),
{
    let mut i: usize = 0;
    while i < rules.len()
        invariant
            i <= rules@.len(),
            forall|j: int|
                0 <= j < i ==> (#[trigger] walk(rules@, rules@[j].branch, seq![rules@[j].name@]))
                    is None,
        decreases rules@.len() - i,
    {
        let mut stack: Vec<Vec<u8>> = Vec::new();
        stack.push(copy_name(&rules[i].name));
        assert(names_view(stack@) =~= seq![rules@[i as int].name@]);
        if let Some(v) = walk_branch(rules, &rules[i].branch, &mut stack) {
            return Some(v);
        }
        i = i + 1;
    }
    None
}

/// Whether the tree reads a fact that only the inspector provides.
pub open spec fn reads_inspection(n: RoutingBranch) -> bool
    decreases n,
{
    match n {
        RoutingBranch::Either(a, b) => reads_inspection(*a) || reads_inspection(*b),
        RoutingBranch::Cond(p, t, e) => (p is Sni || p is Protocol) || reads_inspection(*t)
            || reads_inspection(*e),
        _ => false,
    }
}

fn branch_reads_inspection(n: &RoutingBranch) -> (r: bool)
    ensures
        r == reads_inspection(*n),
    decreases *n,
{
    match n {
        RoutingBranch::Either(a, b) => branch_reads_inspection(a) || branch_reads_inspection(b),
        RoutingBranch::Cond(p, t, e) => {
            let direct = match p {
                Predicate::Sni(_) => true,
                Predicate::Protocol(_) => true,
                _ => false,
            };
            direct || branch_reads_inspection(t) || branch_reads_inspection(e)
        },
        _ => false,
    }
}

/// Whether routing may consult the inspector: some predicate of the root or
/// of a named rule tests the SNI or the protocol.
pub fn needs_inspection(rules: &[Rule], root: &RoutingBranch) -> (r: bool)
    ensures
        r == (reads_inspection(*root) || exists|i: int|
            0 <= i < rules@.len() && reads_inspection(#[trigger] rules@[i].branch)),
{
    if branch_reads_inspection(root) {
        return true;
    }
    let mut i: usize = 0;
    while i < rules.len()
        invariant
            i <= rules@.len(),
            forall|j: int| 0 <= j < i ==> !reads_inspection(#[trigger] rules@[j].branch),
        decreases rules@.len() - i,
    {
        if branch_reads_inspection(&rules[i].branch) {
            return true;
        }
        i = i + 1;
    }
    false
}

} // verus!
