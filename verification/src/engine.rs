//! The match engine: an immutable snapshot compiled from a filter set, and
//! the evaluation of one request against it with precedence-resolved
//! outcomes.
//!
//! Precedence: an important block rule wins over everything; otherwise a
//! matching exception rule lets the request through; otherwise the best
//! remaining block rule decides, where a redirect target beats a rewrite
//! target, which beats a plain block, and the earliest-inserted rule wins
//! ties.

use vstd::prelude::*;

use crate::bytes::copy_bytes;
use crate::host::{host_of, parse_host};
use crate::matching::{rule_matches, spec_rule_matches};
use crate::rule::{FilterRule, ResourceType, SpecRule};

verus! {

/// The match input: one outgoing request.
pub struct Request {
    /// The full request URL text.
    pub url: Vec<u8>,
    /// The domain of the page that triggered the load; empty for a
    /// top-level navigation.
    pub initiating_domain: Vec<u8>,
    /// The kind of resource being loaded, as far as the caller knows.
    pub resource_type: ResourceType,
}

/// Identifies the rule behind an outcome: its position in the engine's
/// block or exception list, and, when the set was built in debug mode, the
/// raw filter line it came from.
pub struct RuleRef {
    pub index: usize,
    pub source: Option<Vec<u8>>,
}

/// The mathematical shape of a `RuleRef`.
pub struct SpecRuleRef {
    pub index: int,
    pub source: Option<Seq<u8>>,
}

impl View for RuleRef {
    type V = SpecRuleRef;

    open spec fn view(&self) -> SpecRuleRef {
        SpecRuleRef {
            index: self.index as int,
            source: crate::rule::view_opt_bytes(self.source),
        }
    }
}

/// The reference a rule at position `i` of `rules` produces.
pub open spec fn spec_rule_ref(rules: Seq<SpecRule>, i: int) -> SpecRuleRef {
    SpecRuleRef { index: i, source: rules[i].source }
}

/// The decision for one evaluated request. Exactly one variant is produced
/// per evaluation.
#[allow(inconsistent_fields)]
pub enum MatchOutcome {
    /// No rule matched; the request proceeds.
    NoMatch,
    /// A block rule matched and nothing overrode it.
    Blocked { matched_rule: RuleRef },
    /// An important block rule matched; exceptions cannot override it.
    BlockedImportant { matched_rule: RuleRef },
    /// The winning block rule carries a substitute resource.
    Redirected { matched_rule: RuleRef, target: Vec<u8> },
    /// The winning block rule carries a replacement URL.
    Rewritten { matched_rule: RuleRef, target: Vec<u8> },
    /// An exception rule matched; the request proceeds despite any
    /// non-important block rules that also matched.
    Excepted { matched_rule: Option<RuleRef>, exception_rule: RuleRef },
}

/// The mathematical shape of a `MatchOutcome`.
#[allow(inconsistent_fields)]
pub enum SpecOutcome {
    NoMatch,
    Blocked { matched_rule: SpecRuleRef },
    BlockedImportant { matched_rule: SpecRuleRef },
    Redirected { matched_rule: SpecRuleRef, target: Seq<u8> },
    Rewritten { matched_rule: SpecRuleRef, target: Seq<u8> },
    Excepted { matched_rule: Option<SpecRuleRef>, exception_rule: SpecRuleRef },
}

impl View for MatchOutcome {
    type V = SpecOutcome;

    open spec fn view(&self) -> SpecOutcome {
        match self {
            MatchOutcome::NoMatch => SpecOutcome::NoMatch,
            MatchOutcome::Blocked { matched_rule } => SpecOutcome::Blocked {
                matched_rule: matched_rule@,
            },
            MatchOutcome::BlockedImportant { matched_rule } => SpecOutcome::BlockedImportant {
                matched_rule: matched_rule@,
            },
            MatchOutcome::Redirected { matched_rule, target } => SpecOutcome::Redirected {
                matched_rule: matched_rule@,
                target: target@,
            },
            MatchOutcome::Rewritten { matched_rule, target } => SpecOutcome::Rewritten {
                matched_rule: matched_rule@,
                target: target@,
            },
            MatchOutcome::Excepted { matched_rule, exception_rule } => SpecOutcome::Excepted {
                matched_rule: match matched_rule {
                    Some(m) => Some(m@),
                    None => None,
                },
                exception_rule: exception_rule@,
            },
        }
    }
}

/// An immutable, fully-compiled snapshot of the filter set, used for
/// matching. Rebuilding an engine never mutates a prior snapshot.
pub struct Engine {
    blocks: Vec<FilterRule>,
    exceptions: Vec<FilterRule>,
}

/// The mathematical shape of an `Engine`: its block rules and its exception
/// rules, each in insertion order.
pub struct SpecEngine {
    pub blocks: Seq<SpecRule>,
    pub exceptions: Seq<SpecRule>,
}

impl View for Engine {
    type V = SpecEngine;

    closed spec fn view(&self) -> SpecEngine {
        SpecEngine { blocks: self.blocks.deep_view(), exceptions: self.exceptions.deep_view() }
    }
}

/// The tie-break class of a block rule: a redirect target beats a rewrite
/// target, which beats a plain block.
pub open spec fn spec_class(r: SpecRule) -> int {
    if r.redirect_target is Some {
        2
    } else if r.rewrite_target is Some {
        1
    } else {
        0
    }
}

/// Position of the first rule among `rules[..n]` that matches the request
/// and is marked important.
pub open spec fn first_important_upto(
    rules: Seq<SpecRule>,
    url: Seq<u8>,
    host: Seq<u8>,
    init: Seq<u8>,
    rt: ResourceType,
    n: int,
) -> Option<int>
    decreases n,
{
    if n <= 0 {
        None
    } else {
        match first_important_upto(rules, url, host, init, rt, n - 1) {
            Some(i) => Some(i),
            None => if spec_rule_matches(rules[n - 1], url, host, init, rt) && rules[n
                - 1].important {
                Some(n - 1)
            } else {
                None
            },
        }
    }
}

/// Position of the first rule among `rules[..n]` that matches the request.
pub open spec fn first_match_upto(
    rules: Seq<SpecRule>,
    url: Seq<u8>,
    host: Seq<u8>,
    init: Seq<u8>,
    rt: ResourceType,
    n: int,
) -> Option<int>
    decreases n,
{
    if n <= 0 {
        None
    } else {
        match first_match_upto(rules, url, host, init, rt, n - 1) {
            Some(i) => Some(i),
            None => if spec_rule_matches(rules[n - 1], url, host, init, rt) {
                Some(n - 1)
            } else {
                None
            },
        }
    }
}

/// Position of the winning block rule among `rules[..n]`: the matching rule
/// of the highest tie-break class, the earliest-inserted one within that
/// class.
pub open spec fn best_block_upto(
    rules: Seq<SpecRule>,
    url: Seq<u8>,
    host: Seq<u8>,
    init: Seq<u8>,
    rt: ResourceType,
    n: int,
) -> Option<int>
    decreases n,
{
    if n <= 0 {
        None
    } else {
        let prev = best_block_upto(rules, url, host, init, rt, n - 1);
        if !spec_rule_matches(rules[n - 1], url, host, init, rt) {
            prev
        } else {
            match prev {
                None => Some(n - 1),
                Some(j) => if spec_class(rules[n - 1]) > spec_class(rules[j]) {
                    Some(n - 1)
                } else {
                    Some(j)
                },
            }
        }
    }
}

/// What `first_important_upto` returns: the least position of a matching
/// important rule, or nothing when there is none.
pub proof fn lemma_first_important_upto(
    rules: Seq<SpecRule>,
    url: Seq<u8>,
    host: Seq<u8>,
    init: Seq<u8>,
    rt: ResourceType,
    n: int,
)
    requires
        0 <= n <= rules.len(),
    ensures
        match first_important_upto(rules, url, host, init, rt, n) {
            Some(i) => 0 <= i < n && spec_rule_matches(rules[i], url, host, init, rt)
                && rules[i].important && forall|k: int|
                0 <= k < i ==> !(spec_rule_matches(rules[k], url, host, init, rt)
                    && rules[k].important),
            None => forall|k: int|
                0 <= k < n ==> !(spec_rule_matches(rules[k], url, host, init, rt)
                    && rules[k].important),
        },
    decreases n,
{
    if n > 0 {
        lemma_first_important_upto(rules, url, host, init, rt, n - 1);
    }
}

/// What `first_match_upto` returns: the least position of a matching rule,
/// or nothing when there is none.
pub proof fn lemma_first_match_upto(
    rules: Seq<SpecRule>,
    url: Seq<u8>,
    host: Seq<u8>,
    init: Seq<u8>,
    rt: ResourceType,
    n: int,
)
    requires
        0 <= n <= rules.len(),
    ensures
        match first_match_upto(rules, url, host, init, rt, n) {
            Some(i) => 0 <= i < n && spec_rule_matches(rules[i], url, host, init, rt) && forall|
                k: int,
            | 0 <= k < i ==> !spec_rule_matches(rules[k], url, host, init, rt),
            None => forall|k: int| 0 <= k < n ==> !spec_rule_matches(rules[k], url, host, init, rt),
        },
    decreases n,
{
    if n > 0 {
        lemma_first_match_upto(rules, url, host, init, rt, n - 1);
    }
}

/// What `best_block_upto` returns: a matching rule such that every matching
/// rule before position `n` has a lower class, or the same class and a
/// position no earlier.
pub proof fn lemma_best_block_upto(
    rules: Seq<SpecRule>,
    url: Seq<u8>,
    host: Seq<u8>,
    init: Seq<u8>,
    rt: ResourceType,
    n: int,
)
    requires
        0 <= n <= rules.len(),
    ensures
        match best_block_upto(rules, url, host, init, rt, n) {
            Some(i) => 0 <= i < n && spec_rule_matches(rules[i], url, host, init, rt) && forall|
                k: int,
            |
                0 <= k < n && spec_rule_matches(rules[k], url, host, init, rt) ==> (spec_class(
                    rules[k],
                ) < spec_class(rules[i]) || (spec_class(rules[k]) == spec_class(rules[i]) && i
                    <= k)),
            None => forall|k: int| 0 <= k < n ==> !spec_rule_matches(rules[k], url, host, init, rt),
        },
    decreases n,
{
    if n > 0 {
        lemma_best_block_upto(rules, url, host, init, rt, n - 1);
    }
}

/// The decision against a snapshot for a request whose host resolved.
pub open spec fn spec_decide(
    eng: SpecEngine,
    url: Seq<u8>,
    host: Seq<u8>,
    init: Seq<u8>,
    rt: ResourceType,
) -> SpecOutcome {
    let imp = first_important_upto(eng.blocks, url, host, init, rt, eng.blocks.len() as int);
    let exc = first_match_upto(eng.exceptions, url, host, init, rt, eng.exceptions.len() as int);
    let best = best_block_upto(eng.blocks, url, host, init, rt, eng.blocks.len() as int);
    if imp is Some {
        SpecOutcome::BlockedImportant { matched_rule: spec_rule_ref(eng.blocks, imp.unwrap()) }
    } else if exc is Some {
        SpecOutcome::Excepted {
            matched_rule: match best {
                Some(i) => Some(spec_rule_ref(eng.blocks, i)),
                None => None,
            },
            exception_rule: spec_rule_ref(eng.exceptions, exc.unwrap()),
        }
    } else {
        match best {
            None => SpecOutcome::NoMatch,
            Some(i) => match eng.blocks[i].redirect_target {
                Some(t) => SpecOutcome::Redirected {
                    matched_rule: spec_rule_ref(eng.blocks, i),
                    target: t,
                },
                None => match eng.blocks[i].rewrite_target {
                    Some(t) => SpecOutcome::Rewritten {
                        matched_rule: spec_rule_ref(eng.blocks, i),
                        target: t,
                    },
                    None => SpecOutcome::Blocked { matched_rule: spec_rule_ref(eng.blocks, i) },
                },
            },
        }
    }
}

/// The full evaluation: a request whose URL yields no host fails open to
/// `NoMatch`; otherwise the precedence decision runs against the snapshot.
pub open spec fn spec_evaluate(
    eng: SpecEngine,
    url: Seq<u8>,
    host: Option<Seq<u8>>,
    init: Seq<u8>,
    rt: ResourceType,
) -> SpecOutcome {
    match host {
        None => SpecOutcome::NoMatch,
        Some(h) => spec_decide(eng, url, h, init, rt),
    }
}

/// An outcome under which the request does not proceed as issued.
pub open spec fn is_blocking(o: SpecOutcome) -> bool {
    o is Blocked || o is BlockedImportant || o is Redirected || o is Rewritten
}

/// Law: adding block rules never un-blocks. If a request is blocked (in any
/// blocking form) against a snapshot, it stays blocked against every
/// snapshot that extends the block list and keeps the exceptions.
pub proof fn lemma_monotonic_safety(
    e1: SpecEngine,
    e2: SpecEngine,
    url: Seq<u8>,
    host: Seq<u8>,
    init: Seq<u8>,
    rt: ResourceType,
)
    requires
        e2.exceptions == e1.exceptions,
        e1.blocks.is_prefix_of(e2.blocks),
        is_blocking(spec_decide(e1, url, host, init, rt)),
    ensures
        is_blocking(spec_decide(e2, url, host, init, rt)),
{
    let n1 = e1.blocks.len() as int;
    let n2 = e2.blocks.len() as int;
    assert(forall|k: int| 0 <= k < n1 ==> e2.blocks[k] == e1.blocks[k]);
    lemma_first_important_upto(e1.blocks, url, host, init, rt, n1);
    lemma_first_important_upto(e2.blocks, url, host, init, rt, n2);
    lemma_best_block_upto(e1.blocks, url, host, init, rt, n1);
    lemma_best_block_upto(e2.blocks, url, host, init, rt, n2);
    let imp1 = first_important_upto(e1.blocks, url, host, init, rt, n1);
    let imp2 = first_important_upto(e2.blocks, url, host, init, rt, n2);
    match imp1 {
        Some(i) => {
            if imp2 is None {
                assert(!(spec_rule_matches(e2.blocks[i], url, host, init, rt)
                    && e2.blocks[i].important));
                assert(false);
            }
        },
        None => {
            let best1 = best_block_upto(e1.blocks, url, host, init, rt, n1);
            let i = best1.unwrap();
            assert(spec_rule_matches(e1.blocks[i], url, host, init, rt));
            if imp2 is None {
                let best2 = best_block_upto(e2.blocks, url, host, init, rt, n2);
                if best2 is None {
                    assert(!spec_rule_matches(e2.blocks[i], url, host, init, rt));
                    assert(false);
                }
            }
        },
    }
}

/// Law: adding plain block rules (rules with neither a redirect nor a
/// rewrite target) to a snapshot under which a request is plainly blocked
/// leaves it blocked, either plainly or as important.
pub proof fn lemma_plain_block_stays_blocked(
    e1: SpecEngine,
    e2: SpecEngine,
    url: Seq<u8>,
    host: Seq<u8>,
    init: Seq<u8>,
    rt: ResourceType,
)
    requires
        e2.exceptions == e1.exceptions,
        e1.blocks.is_prefix_of(e2.blocks),
        forall|k: int|
            e1.blocks.len() <= k < e2.blocks.len() ==> (#[trigger] e2.blocks[k]).redirect_target
                is None && e2.blocks[k].rewrite_target is None,
        spec_decide(e1, url, host, init, rt) is Blocked,
    ensures
        spec_decide(e2, url, host, init, rt) is Blocked || spec_decide(e2, url, host, init, rt)
            is BlockedImportant,
{
    let n1 = e1.blocks.len() as int;
    let n2 = e2.blocks.len() as int;
    assert(forall|k: int| 0 <= k < n1 ==> e2.blocks[k] == e1.blocks[k]);
    lemma_first_important_upto(e1.blocks, url, host, init, rt, n1);
    lemma_first_important_upto(e2.blocks, url, host, init, rt, n2);
    lemma_best_block_upto(e1.blocks, url, host, init, rt, n1);
    lemma_best_block_upto(e2.blocks, url, host, init, rt, n2);
    let imp2 = first_important_upto(e2.blocks, url, host, init, rt, n2);
    if imp2 is None {
        let best1 = best_block_upto(e1.blocks, url, host, init, rt, n1);
        let i = best1.unwrap();
        assert(spec_rule_matches(e2.blocks[i], url, host, init, rt));
        assert(spec_class(e1.blocks[i]) == 0);
        let best2 = best_block_upto(e2.blocks, url, host, init, rt, n2);
        if best2 is None {
            assert(!spec_rule_matches(e2.blocks[i], url, host, init, rt));
            assert(false);
        }
        let j = best2.unwrap();
        if j < n1 {
            assert(spec_class(e1.blocks[j]) <= spec_class(e1.blocks[i]));
            assert(spec_class(e2.blocks[j]) == 0);
        } else {
            assert(spec_class(e2.blocks[j]) == 0);
        }
    }
}

/// Law: importance supremacy. If any matching block rule is marked
/// important, the outcome is `BlockedImportant`, however many exception
/// rules also match.
pub proof fn lemma_importance_supremacy(
    e: SpecEngine,
    url: Seq<u8>,
    host: Seq<u8>,
    init: Seq<u8>,
    rt: ResourceType,
    i: int,
)
    requires
        0 <= i < e.blocks.len(),
        spec_rule_matches(e.blocks[i], url, host, init, rt),
        e.blocks[i].important,
    ensures
        spec_decide(e, url, host, init, rt) is BlockedImportant,
{
    lemma_first_important_upto(e.blocks, url, host, init, rt, e.blocks.len() as int);
    if first_important_upto(e.blocks, url, host, init, rt, e.blocks.len() as int) is None {
        assert(!(spec_rule_matches(e.blocks[i], url, host, init, rt) && e.blocks[i].important));
        assert(false);
    }
}

/// Law: an exception overrides an ordinary block. When no matching block
/// rule is important and some exception rule matches, the outcome is
/// `Excepted`, never a blocking one.
pub proof fn lemma_exception_overrides_block(
    e: SpecEngine,
    url: Seq<u8>,
    host: Seq<u8>,
    init: Seq<u8>,
    rt: ResourceType,
    j: int,
)
    requires
        forall|k: int|
            0 <= k < e.blocks.len() ==> !((#[trigger] e.blocks[k]).important && spec_rule_matches(
                e.blocks[k],
                url,
                host,
                init,
                rt,
            )),
        0 <= j < e.exceptions.len(),
        spec_rule_matches(e.exceptions[j], url, host, init, rt),
    ensures
        spec_decide(e, url, host, init, rt) is Excepted,
{
    let nb = e.blocks.len() as int;
    let ne = e.exceptions.len() as int;
    lemma_first_important_upto(e.blocks, url, host, init, rt, nb);
    match first_important_upto(e.blocks, url, host, init, rt, nb) {
        Some(i) => {
            assert(!(e.blocks[i].important && spec_rule_matches(e.blocks[i], url, host, init, rt)));
            assert(false);
        },
        None => {},
    }
    lemma_first_match_upto(e.exceptions, url, host, init, rt, ne);
    if first_match_upto(e.exceptions, url, host, init, rt, ne) is None {
        assert(!spec_rule_matches(e.exceptions[j], url, host, init, rt));
        assert(false);
    }
}

/// Law: fail open on an unparsable host. A request whose URL yields no host
/// evaluates to `NoMatch` against every snapshot.
pub proof fn lemma_fail_open_without_host(
    e: SpecEngine,
    url: Seq<u8>,
    init: Seq<u8>,
    rt: ResourceType,
)
    ensures
        spec_evaluate(e, url, None, init, rt) == SpecOutcome::NoMatch,
{
}

/// Copy of an optional byte string.
fn clone_opt_bytes(o: &Option<Vec<u8>>) -> (r: Option<Vec<u8>>)
    ensures
        crate::rule::view_opt_bytes(r) == crate::rule::view_opt_bytes(*o),
{
    match o {
        Some(v) => Some(copy_bytes(v.as_slice())),
        None => None,
    }
}

/// The reference to the rule at position `i` of `rules`.
fn make_rule_ref(rules: &Vec<FilterRule>, i: usize) -> (r: RuleRef)
    requires
        i < rules@.len(),
    ensures
        r@ == spec_rule_ref(rules.deep_view(), i as int),
{
    let r = RuleRef { index: i, source: clone_opt_bytes(&rules[i].source) };
    proof {
        assert(rules.deep_view()[i as int] == rules@[i as int]@);
    }
    r
}

/// Position of the first matching important rule in `rules`, if any.
fn find_first_important(
    rules: &Vec<FilterRule>,
    url: &[u8],
    host: &[u8],
    init: &[u8],
    rt: ResourceType,
) -> (r: Option<usize>)
    ensures
        ({
            let rv = rules.deep_view();
            let full = first_important_upto(rv, url@, host@, init@, rt, rv.len() as int);
            match r {
                Some(i) => i < rules@.len() && full == Some(i as int),
                None => full is None,
            }
        }),
{
    let ghost rv = rules.deep_view();
    let mut k: usize = 0;
    while k < rules.len()
        invariant
            0 <= k <= rules@.len(),
            rv == rules.deep_view(),
            rv.len() == rules@.len(),
            first_important_upto(rv, url@, host@, init@, rt, k as int) is None,
        decreases rules@.len() - k,
    {
        assert(rv[k as int] == rules@[k as int]@);
        if rules[k].important && rule_matches(&rules[k], url, host, init, rt) {
            proof {
                assert(first_important_upto(rv, url@, host@, init@, rt, k + 1) == Some(k as int));
                lemma_first_important_persists(rv, url@, host@, init@, rt, k + 1, rv.len() as int);
            }
            return Some(k);
        }
        assert(first_important_upto(rv, url@, host@, init@, rt, k + 1) is None);
        k = k + 1;
    }
    None
}

proof fn lemma_first_important_persists(
    rules: Seq<SpecRule>,
    url: Seq<u8>,
    host: Seq<u8>,
    init: Seq<u8>,
    rt: ResourceType,
    n: int,
    m: int,
)
    requires
        0 <= n <= m,
        first_important_upto(rules, url, host, init, rt, n) is Some,
    ensures
        first_important_upto(rules, url, host, init, rt, m) == first_important_upto(
            rules,
            url,
            host,
            init,
            rt,
            n,
        ),
    decreases m - n,
{
    if m > n {
        lemma_first_important_persists(rules, url, host, init, rt, n, m - 1);
    }
}

proof fn lemma_first_match_persists(
    rules: Seq<SpecRule>,
    url: Seq<u8>,
    host: Seq<u8>,
    init: Seq<u8>,
    rt: ResourceType,
    n: int,
    m: int,
)
    requires
        0 <= n <= m,
        first_match_upto(rules, url, host, init, rt, n) is Some,
    ensures
        first_match_upto(rules, url, host, init, rt, m) == first_match_upto(
            rules,
            url,
            host,
            init,
            rt,
            n,
        ),
    decreases m - n,
{
    if m > n {
        lemma_first_match_persists(rules, url, host, init, rt, n, m - 1);
    }
}

/// Position of the first matching rule in `rules`, if any.
fn find_first_match(
    rules: &Vec<FilterRule>,
    url: &[u8],
    host: &[u8],
    init: &[u8],
    rt: ResourceType,
) -> (r: Option<usize>)
    ensures
        ({
            let rv = rules.deep_view();
            let full = first_match_upto(rv, url@, host@, init@, rt, rv.len() as int);
            match r {
                Some(i) => i < rules@.len() && full == Some(i as int),
                None => full is None,
            }
        }),
{
    let ghost rv = rules.deep_view();
    let mut k: usize = 0;
    while k < rules.len()
        invariant
            0 <= k <= rules@.len(),
            rv == rules.deep_view(),
            rv.len() == rules@.len(),
            first_match_upto(rv, url@, host@, init@, rt, k as int) is None,
        decreases rules@.len() - k,
    {
        assert(rv[k as int] == rules@[k as int]@);
        if rule_matches(&rules[k], url, host, init, rt) {
            proof {
                assert(first_match_upto(rv, url@, host@, init@, rt, k + 1) == Some(k as int));
                lemma_first_match_persists(rv, url@, host@, init@, rt, k + 1, rv.len() as int);
            }
            return Some(k);
        }
        assert(first_match_upto(rv, url@, host@, init@, rt, k + 1) is None);
        k = k + 1;
    }
    None
}

/// The tie-break class of a rule, as executable code.
fn rule_class(r: &FilterRule) -> (c: u8)
    ensures
        c as int == spec_class(r@),
{
    if r.redirect_target.is_some() {
        2
    } else if r.rewrite_target.is_some() {
        1
    } else {
        0
    }
}

/// Position of the winning block rule in `rules`, if any matches.
fn find_best_block(
    rules: &Vec<FilterRule>,
    url: &[u8],
    host: &[u8],
    init: &[u8],
    rt: ResourceType,
) -> (r: Option<usize>)
    ensures
        ({
            let rv = rules.deep_view();
            let full = best_block_upto(rv, url@, host@, init@, rt, rv.len() as int);
            match r {
                Some(i) => i < rules@.len() && full == Some(i as int),
                None => full is None,
            }
        }),
{
    let ghost rv = rules.deep_view();
    let mut best: Option<usize> = None;
    let mut k: usize = 0;
    while k < rules.len()
        invariant
            0 <= k <= rules@.len(),
            rv == rules.deep_view(),
            rv.len() == rules@.len(),
            match best {
                Some(i) => i < rules@.len() && best_block_upto(rv, url@, host@, init@, rt, k as int)
                    == Some(i as int),
                None => best_block_upto(rv, url@, host@, init@, rt, k as int) is None,
            },
        decreases rules@.len() - k,
    {
        assert(rv[k as int] == rules@[k as int]@);
        if rule_matches(&rules[k], url, host, init, rt) {
            match best {
                None => {
                    best = Some(k);
                },
                Some(j) => {
                    assert(rv[j as int] == rules@[j as int]@);
                    if rule_class(&rules[k]) > rule_class(&rules[j]) {
                        best = Some(k);
                    }
                },
            }
        }
        k = k + 1;
    }
    best
}

impl Engine {
    /// The empty snapshot: no rules, nothing ever matches.
    pub fn empty() -> (e: Engine)
        ensures
            e@.blocks.len() == 0,
            e@.exceptions.len() == 0,
    {
        let e = Engine { blocks: Vec::new(), exceptions: Vec::new() };
        proof {
            assert(e@.blocks =~= Seq::<SpecRule>::empty());
            assert(e@.exceptions =~= Seq::<SpecRule>::empty());
        }
        e
    }

    /// A snapshot over the given block and exception rules, in their
    /// insertion order.
    pub fn from_rules(blocks: Vec<FilterRule>, exceptions: Vec<FilterRule>) -> (e: Engine)
        ensures
            e@.blocks == blocks.deep_view(),
            e@.exceptions == exceptions.deep_view(),
    {
        Engine { blocks, exceptions }
    }

    /// How many block rules the snapshot holds.
    pub fn block_count(&self) -> (n: usize)
        ensures
            n == self@.blocks.len(),
    {
        self.blocks.len()
    }

    /// How many exception rules the snapshot holds.
    pub fn exception_count(&self) -> (n: usize)
        ensures
            n == self@.exceptions.len(),
    {
        self.exceptions.len()
    }

    /// The precedence decision for a request whose host has already been
    /// resolved.
    pub fn decide(&self, url: &[u8], host: &[u8], init: &[u8], rt: ResourceType) -> (o:
        MatchOutcome)
        ensures
            o@ == spec_decide(self@, url@, host@, init@, rt),
    {
        if let Some(i) = find_first_important(&self.blocks, url, host, init, rt) {
            return MatchOutcome::BlockedImportant {
                matched_rule: make_rule_ref(&self.blocks, i),
            };
        }
        let best = find_best_block(&self.blocks, url, host, init, rt);
        if let Some(e) = find_first_match(&self.exceptions, url, host, init, rt) {
            let matched = match best {
                Some(i) => Some(make_rule_ref(&self.blocks, i)),
                None => None,
            };
            return MatchOutcome::Excepted {
                matched_rule: matched,
                exception_rule: make_rule_ref(&self.exceptions, e),
            };
        }
        match best {
            None => MatchOutcome::NoMatch,
            Some(i) => {
                proof {
                    assert(self.blocks.deep_view()[i as int] == self.blocks@[i as int]@);
                }
                if self.blocks[i].redirect_target.is_some() {
                    let t = match &self.blocks[i].redirect_target {
                        Some(v) => copy_bytes(v.as_slice()),
                        None => Vec::new(),
                    };
                    MatchOutcome::Redirected { matched_rule: make_rule_ref(&self.blocks, i), target: t }
                } else if self.blocks[i].rewrite_target.is_some() {
                    let t = match &self.blocks[i].rewrite_target {
                        Some(v) => copy_bytes(v.as_slice()),
                        None => Vec::new(),
                    };
                    MatchOutcome::Rewritten { matched_rule: make_rule_ref(&self.blocks, i), target: t }
                } else {
                    MatchOutcome::Blocked { matched_rule: make_rule_ref(&self.blocks, i) }
                }
            },
        }
    }

    /// Evaluate one request against this snapshot. Pure: the outcome is a
    /// function of the snapshot and the request alone. A URL with no
    /// resolvable host fails open to `NoMatch` and never raises an error.
    pub fn evaluate(&self, request: &Request) -> (o: MatchOutcome)
        ensures
            o@ == spec_evaluate(
                self@,
                request.url@,
                host_of(request.url@),
                request.initiating_domain@,
                request.resource_type,
            ),
            host_of(request.url@) is None ==> o is NoMatch,
    {
        match parse_host(request.url.as_slice()) {
            None => MatchOutcome::NoMatch,
            Some(h) => self.decide(
                request.url.as_slice(),
                h.as_slice(),
                request.initiating_domain.as_slice(),
                request.resource_type,
            ),
        }
    }
}

} // verus!
