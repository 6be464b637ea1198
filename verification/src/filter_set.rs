//! The filter set: an accumulating, append-only collection of parsed
//! rules, partitioned by exception flag and by whether the syntax is
//! supported. Rules are appended in order, never removed, and a rule
//! identical to one already present is suppressed.
//!
//! A batch handed to `add_filters` becomes visible only through the
//! snapshot later compiled from the set, so no reader ever observes a
//! half-loaded batch.

use vstd::prelude::*;

use crate::bytes::bytes_eq;
use crate::engine::{Engine, SpecEngine};
use crate::parse::{parse_line, spec_parse_line, LineParse, SpecLineParse};
use crate::rule::{view_opt_bytes, FilterRule, Pattern, SpecRule};

verus! {

/// An accumulating collection of parsed rules.
pub struct FilterSet {
    debug: bool,
    blocks: Vec<FilterRule>,
    exceptions: Vec<FilterRule>,
    unsupported: Vec<FilterRule>,
}

/// The mathematical shape of a `FilterSet`.
pub struct SpecFilterSet {
    pub debug: bool,
    pub blocks: Seq<SpecRule>,
    pub exceptions: Seq<SpecRule>,
    pub unsupported: Seq<SpecRule>,
}

impl View for FilterSet {
    type V = SpecFilterSet;

    closed spec fn view(&self) -> SpecFilterSet {
        SpecFilterSet {
            debug: self.debug,
            blocks: self.blocks.deep_view(),
            exceptions: self.exceptions.deep_view(),
            unsupported: self.unsupported.deep_view(),
        }
    }
}

/// Whether two optional byte strings hold the same value.
fn opt_bytes_eq(a: &Option<Vec<u8>>, b: &Option<Vec<u8>>) -> (r: bool)
    ensures
        r == (view_opt_bytes(*a) == view_opt_bytes(*b)),
{
    match (a, b) {
        (None, None) => true,
        (Some(x), Some(y)) => bytes_eq(x.as_slice(), y.as_slice()),
        _ => false,
    }
}

/// Whether two lists of byte strings hold the same entries in the same
/// order.
fn byte_list_eq(a: &Vec<Vec<u8>>, b: &Vec<Vec<u8>>) -> (r: bool)
    ensures
        r == (a.deep_view() == b.deep_view()),
{
    let ghost av = a.deep_view();
    let ghost bv = b.deep_view();
    if a.len() != b.len() {
        proof {
            assert(av.len() == a@.len());
            assert(bv.len() == b@.len());
        }
        return false;
    }
    let mut i: usize = 0;
    while i < a.len()
        invariant
            0 <= i <= a@.len(),
            a@.len() == b@.len(),
            av == a.deep_view(),
            bv == b.deep_view(),
            av.len() == a@.len(),
            bv.len() == b@.len(),
            forall|j: int| 0 <= j < i ==> av[j] == bv[j],
        decreases a@.len() - i,
    {
        assert(av[i as int] == a@[i as int]@);
        assert(bv[i as int] == b@[i as int]@);
        if !bytes_eq(a[i].as_slice(), b[i].as_slice()) {
            return false;
        }
        i = i + 1;
    }
    proof {
        assert(av =~= bv);
    }
    true
}

/// Whether two patterns are the same pattern.
fn pattern_eq(a: &Pattern, b: &Pattern) -> (r: bool)
    ensures
        r == (a@ == b@),
{
    match (a, b) {
        (Pattern::Substring { text: x }, Pattern::Substring { text: y }) => bytes_eq(
            x.as_slice(),
            y.as_slice(),
        ),
        (
            Pattern::DomainAnchor { domain: x, path: px },
            Pattern::DomainAnchor { domain: y, path: py },
        ) => bytes_eq(x.as_slice(), y.as_slice()) && bytes_eq(px.as_slice(), py.as_slice()),
        (Pattern::Wildcard { parts: x }, Pattern::Wildcard { parts: y }) => byte_list_eq(x, y),
        (Pattern::Unsupported, Pattern::Unsupported) => true,
        _ => false,
    }
}

/// Whether two rules are identical in every attribute.
fn rule_eq(a: &FilterRule, b: &FilterRule) -> (r: bool)
    ensures
        r == (a@ == b@),
{
    pattern_eq(&a.pattern, &b.pattern) && a.is_exception == b.is_exception && a.important
        == b.important && a.mask == b.mask && byte_list_eq(&a.include_domains, &b.include_domains)
        && byte_list_eq(&a.exclude_domains, &b.exclude_domains) && opt_bytes_eq(
        &a.redirect_target,
        &b.redirect_target,
    ) && opt_bytes_eq(&a.rewrite_target, &b.rewrite_target) && opt_bytes_eq(&a.source, &b.source)
}

/// Whether `rules` already holds a rule identical to `r`.
fn contains_rule(rules: &Vec<FilterRule>, r: &FilterRule) -> (b: bool)
    ensures
        b == rules.deep_view().contains(r@),
{
    let ghost rv = rules.deep_view();
    let mut i: usize = 0;
    while i < rules.len()
        invariant
            0 <= i <= rules@.len(),
            rv == rules.deep_view(),
            rv.len() == rules@.len(),
            forall|j: int| 0 <= j < i ==> rv[j] != r@,
        decreases rules@.len() - i,
    {
        assert(rv[i as int] == rules@[i as int]@);
        if rule_eq(&rules[i], r) {
            proof {
                assert(rv[i as int] == r@);
            }
            return true;
        }
        i = i + 1;
    }
    proof {
        if rv.contains(r@) {
            let j = choose|j: int| 0 <= j < rv.len() && rv[j] == r@;
            assert(rv[j] != r@);
        }
    }
    false
}

/// The set after one raw line is folded in: lines that are no rule leave
/// it unchanged; a rule goes to the partition its flags name, unless an
/// identical rule already stands there.
pub open spec fn spec_add_line(fs: SpecFilterSet, line: Seq<u8>) -> SpecFilterSet {
    match spec_parse_line(line, fs.debug) {
        SpecLineParse::NotARule => fs,
        SpecLineParse::Rule(r) => if r.pattern is Unsupported {
            if fs.unsupported.contains(r) {
                fs
            } else {
                SpecFilterSet { unsupported: fs.unsupported.push(r), ..fs }
            }
        } else if r.is_exception {
            if fs.exceptions.contains(r) {
                fs
            } else {
                SpecFilterSet { exceptions: fs.exceptions.push(r), ..fs }
            }
        } else {
            if fs.blocks.contains(r) {
                fs
            } else {
                SpecFilterSet { blocks: fs.blocks.push(r), ..fs }
            }
        },
    }
}

/// The set after a whole batch of raw lines is folded in, in order.
pub open spec fn spec_add_lines(fs: SpecFilterSet, lines: Seq<Seq<u8>>) -> SpecFilterSet
    decreases lines.len(),
{
    if lines.len() == 0 {
        fs
    } else {
        spec_add_lines(spec_add_line(fs, lines[0]), lines.drop_first())
    }
}

impl FilterSet {
    /// The empty set. `debug` controls whether each rule retains the raw
    /// line it came from, so outcomes can name the human-readable filter
    /// line behind them.
    pub fn new(debug: bool) -> (fs: FilterSet)
        ensures
            fs@ == (SpecFilterSet {
                debug,
                blocks: Seq::empty(),
                exceptions: Seq::empty(),
                unsupported: Seq::empty(),
            }),
    {
        let fs = FilterSet {
            debug,
            blocks: Vec::new(),
            exceptions: Vec::new(),
            unsupported: Vec::new(),
        };
        proof {
            assert(fs.blocks.deep_view() =~= Seq::<SpecRule>::empty());
            assert(fs.exceptions.deep_view() =~= Seq::<SpecRule>::empty());
            assert(fs.unsupported.deep_view() =~= Seq::<SpecRule>::empty());
        }
        fs
    }

    /// Whether rules retain their raw source line.
    pub fn debug(&self) -> (d: bool)
        ensures
            d == self@.debug,
    {
        self.debug
    }

    /// How many usable rules the set holds: block rules and exception
    /// rules, not records of unsupported syntax. Saturates at the machine
    /// limit.
    pub fn usable_count(&self) -> (n: usize)
        ensures
            self@.blocks.len() + self@.exceptions.len() <= usize::MAX ==> n == self@.blocks.len()
                + self@.exceptions.len(),
            self@.blocks.len() + self@.exceptions.len() > usize::MAX ==> n == usize::MAX,
    {
        let b = self.blocks.len();
        let e = self.exceptions.len();
        if usize::MAX - b >= e {
            b + e
        } else {
            usize::MAX
        }
    }

    /// How many block rules the set holds.
    pub fn block_count(&self) -> (n: usize)
        ensures
            n == self@.blocks.len(),
    {
        self.blocks.len()
    }

    /// How many exception rules the set holds.
    pub fn exception_count(&self) -> (n: usize)
        ensures
            n == self@.exceptions.len(),
    {
        self.exceptions.len()
    }

    /// How many records of unsupported syntax the set holds.
    pub fn unsupported_count(&self) -> (n: usize)
        ensures
            n == self@.unsupported.len(),
    {
        self.unsupported.len()
    }

    /// Fold one raw line into the set. Never fails: a malformed line costs
    /// that line only.
    pub fn add_line(&mut self, line: &[u8])
        ensures
            final(self)@ == spec_add_line(old(self)@, line@),
    {
        match parse_line(line, self.debug) {
            LineParse::NotARule => {},
            LineParse::Rule(r) => {
                let unsup = matches!(&r.pattern, Pattern::Unsupported);
                if unsup {
                    if !contains_rule(&self.unsupported, &r) {
                        let ghost before = self.unsupported.deep_view();
                        let ghost rv = r@;
                        self.unsupported.push(r);
                        proof {
                            assert(self.unsupported.deep_view() =~~= before.push(rv));
                        }
                    }
                } else if r.is_exception {
                    if !contains_rule(&self.exceptions, &r) {
                        let ghost before = self.exceptions.deep_view();
                        let ghost rv = r@;
                        self.exceptions.push(r);
                        proof {
                            assert(self.exceptions.deep_view() =~~= before.push(rv));
                        }
                    }
                } else {
                    if !contains_rule(&self.blocks, &r) {
                        let ghost before = self.blocks.deep_view();
                        let ghost rv = r@;
                        self.blocks.push(r);
                        proof {
                            assert(self.blocks.deep_view() =~~= before.push(rv));
                        }
                    }
                }
            },
        }
    }

    /// Append the rules parsed from a batch of raw lines. Appends only;
    /// re-adding identical lines leaves the set as it was.
    pub fn add_filters(&mut self, lines: &Vec<Vec<u8>>)
        ensures
            final(self)@ == spec_add_lines(old(self)@, lines.deep_view()),
    {
        let ghost lv = lines.deep_view();
        let ghost start = self@;
        let mut k: usize = 0;
        proof {
            assert(lv.skip(0) =~= lv);
        }
        while k < lines.len()
            invariant
                0 <= k <= lines@.len(),
                lv == lines.deep_view(),
                lv.len() == lines@.len(),
                spec_add_lines(start, lv) == spec_add_lines(self@, lv.skip(k as int)),
            decreases lines@.len() - k,
        {
            let ghost rem = lv.skip(k as int);
            proof {
                assert(rem[0] == lv[k as int]);
                assert(lv[k as int] == lines@[k as int]@);
                assert(rem.drop_first() =~= lv.skip(k + 1));
            }
            self.add_line(lines[k].as_slice());
            k = k + 1;
        }
        proof {
            assert(lv.skip(lv.len() as int).len() == 0);
        }
    }
}

impl Engine {
    /// Compile a filter set into an immutable snapshot: its block and
    /// exception rules in insertion order. Records of unsupported syntax
    /// never match and take no part in matching.
    pub fn from_filter_set(fs: FilterSet) -> (e: Engine)
        ensures
            e@.blocks == fs@.blocks,
            e@.exceptions == fs@.exceptions,
    {
        let FilterSet { debug: _, blocks, exceptions, unsupported: _ } = fs;
        Engine::from_rules(blocks, exceptions)
    }
}

/// The snapshot a filter set compiles to.
pub open spec fn spec_engine_of(fs: SpecFilterSet) -> SpecEngine {
    SpecEngine { blocks: fs.blocks, exceptions: fs.exceptions }
}

/// Folding one line into a set appends at most one rule to one partition
/// and never removes or reorders anything; the debug flag is kept; the
/// exception list changes only when the line parses to a usable exception
/// rule.
pub proof fn lemma_add_line_append_only(fs: SpecFilterSet, line: Seq<u8>)
    ensures
        spec_add_line(fs, line).debug == fs.debug,
        fs.blocks.is_prefix_of(spec_add_line(fs, line).blocks),
        fs.exceptions.is_prefix_of(spec_add_line(fs, line).exceptions),
        fs.unsupported.is_prefix_of(spec_add_line(fs, line).unsupported),
        !spec_line_is_usable_exception(line, fs.debug) ==> spec_add_line(fs, line).exceptions
            == fs.exceptions,
{
    assert(fs.blocks.is_prefix_of(fs.blocks.push(spec_rule_of_line(line, fs.debug)))) by {
        assert(fs.blocks =~= fs.blocks.push(spec_rule_of_line(line, fs.debug)).subrange(
            0,
            fs.blocks.len() as int,
        ));
    }
    assert(fs.exceptions.is_prefix_of(fs.exceptions.push(spec_rule_of_line(line, fs.debug)))) by {
        assert(fs.exceptions =~= fs.exceptions.push(spec_rule_of_line(line, fs.debug)).subrange(
            0,
            fs.exceptions.len() as int,
        ));
    }
    assert(fs.unsupported.is_prefix_of(fs.unsupported.push(spec_rule_of_line(line, fs.debug)))) by {
        assert(fs.unsupported =~= fs.unsupported.push(spec_rule_of_line(line, fs.debug)).subrange(
            0,
            fs.unsupported.len() as int,
        ));
    }
    assert(fs.blocks.is_prefix_of(fs.blocks));
    assert(fs.exceptions.is_prefix_of(fs.exceptions));
    assert(fs.unsupported.is_prefix_of(fs.unsupported));
}

/// The rule a line parses to, when it parses to one.
pub open spec fn spec_rule_of_line(line: Seq<u8>, debug: bool) -> SpecRule
    recommends
        spec_parse_line(line, debug) is Rule,
{
    spec_parse_line(line, debug)->Rule_0
}

/// The line parses to a usable exception rule.
pub open spec fn spec_line_is_usable_exception(line: Seq<u8>, debug: bool) -> bool {
    match spec_parse_line(line, debug) {
        SpecLineParse::Rule(r) => r.is_exception && !(r.pattern is Unsupported),
        SpecLineParse::NotARule => false,
    }
}

/// Folding a batch of lines into a set only appends: the old partitions
/// are prefixes of the new, and when no line of the batch is a usable
/// exception rule, the exception list is untouched.
pub proof fn lemma_add_lines_append_only(fs: SpecFilterSet, lines: Seq<Seq<u8>>)
    ensures
        spec_add_lines(fs, lines).debug == fs.debug,
        fs.blocks.is_prefix_of(spec_add_lines(fs, lines).blocks),
        fs.exceptions.is_prefix_of(spec_add_lines(fs, lines).exceptions),
        fs.unsupported.is_prefix_of(spec_add_lines(fs, lines).unsupported),
        (forall|i: int|
            0 <= i < lines.len() ==> !spec_line_is_usable_exception(lines[i], fs.debug))
            ==> spec_add_lines(fs, lines).exceptions == fs.exceptions,
    decreases lines.len(),
{
    if lines.len() > 0 {
        let fs1 = spec_add_line(fs, lines[0]);
        lemma_add_line_append_only(fs, lines[0]);
        lemma_add_lines_append_only(fs1, lines.drop_first());
        let fs2 = spec_add_lines(fs1, lines.drop_first());
        assert(fs.blocks.is_prefix_of(fs2.blocks)) by {
            assert(fs.blocks =~= fs2.blocks.subrange(0, fs.blocks.len() as int));
        }
        assert(fs.exceptions.is_prefix_of(fs2.exceptions)) by {
            assert(fs.exceptions =~= fs2.exceptions.subrange(0, fs.exceptions.len() as int));
        }
        assert(fs.unsupported.is_prefix_of(fs2.unsupported)) by {
            assert(fs.unsupported =~= fs2.unsupported.subrange(0, fs.unsupported.len() as int));
        }
        if forall|i: int|
            0 <= i < lines.len() ==> !spec_line_is_usable_exception(lines[i], fs.debug) {
            assert(!spec_line_is_usable_exception(lines[0], fs.debug));
            assert(forall|i: int|
                0 <= i < lines.drop_first().len() ==> lines.drop_first()[i] == lines[i + 1]);
        }
    }
}

/// The rule stands in the partition its flags name.
pub open spec fn spec_rule_in_set(fs: SpecFilterSet, r: SpecRule) -> bool {
    if r.pattern is Unsupported {
        fs.unsupported.contains(r)
    } else if r.is_exception {
        fs.exceptions.contains(r)
    } else {
        fs.blocks.contains(r)
    }
}

/// The line has nothing left to add to the set: it is no rule, or its
/// rule already stands there.
pub open spec fn spec_line_settled(fs: SpecFilterSet, line: Seq<u8>) -> bool {
    match spec_parse_line(line, fs.debug) {
        SpecLineParse::NotARule => true,
        SpecLineParse::Rule(r) => spec_rule_in_set(fs, r),
    }
}

proof fn lemma_prefix_keeps_contains(s1: Seq<SpecRule>, s2: Seq<SpecRule>, r: SpecRule)
    requires
        s1.is_prefix_of(s2),
        s1.contains(r),
    ensures
        s2.contains(r),
{
    let i = choose|i: int| 0 <= i < s1.len() && s1[i] == r;
    assert(s2[i] == r);
}

/// Folding a line in keeps every rule already in the set, and keeps every
/// settled line settled.
proof fn lemma_add_line_keeps_settled(fs: SpecFilterSet, line: Seq<u8>, other: Seq<u8>)
    requires
        spec_line_settled(fs, other),
    ensures
        spec_line_settled(spec_add_line(fs, line), other),
{
    lemma_add_line_append_only(fs, line);
    let fs2 = spec_add_line(fs, line);
    match spec_parse_line(other, fs.debug) {
        SpecLineParse::NotARule => {},
        SpecLineParse::Rule(r) => {
            if r.pattern is Unsupported {
                lemma_prefix_keeps_contains(fs.unsupported, fs2.unsupported, r);
            } else if r.is_exception {
                lemma_prefix_keeps_contains(fs.exceptions, fs2.exceptions, r);
            } else {
                lemma_prefix_keeps_contains(fs.blocks, fs2.blocks, r);
            }
        },
    }
}

/// After a line is folded in, that line is settled.
proof fn lemma_add_line_settles(fs: SpecFilterSet, line: Seq<u8>)
    ensures
        spec_line_settled(spec_add_line(fs, line), line),
{
    lemma_add_line_append_only(fs, line);
    let fs2 = spec_add_line(fs, line);
    match spec_parse_line(line, fs.debug) {
        SpecLineParse::NotARule => {},
        SpecLineParse::Rule(r) => {
            if r.pattern is Unsupported {
                if fs.unsupported.contains(r) {
                    lemma_prefix_keeps_contains(fs.unsupported, fs2.unsupported, r);
                } else {
                    assert(fs2.unsupported[fs.unsupported.len() as int] == r);
                }
            } else if r.is_exception {
                if fs.exceptions.contains(r) {
                    lemma_prefix_keeps_contains(fs.exceptions, fs2.exceptions, r);
                } else {
                    assert(fs2.exceptions[fs.exceptions.len() as int] == r);
                }
            } else {
                if fs.blocks.contains(r) {
                    lemma_prefix_keeps_contains(fs.blocks, fs2.blocks, r);
                } else {
                    assert(fs2.blocks[fs.blocks.len() as int] == r);
                }
            }
        },
    }
}

/// After a batch is folded in, every line of the batch is settled.
proof fn lemma_add_lines_settle(fs: SpecFilterSet, lines: Seq<Seq<u8>>)
    ensures
        forall|i: int|
            0 <= i < lines.len() ==> spec_line_settled(spec_add_lines(fs, lines), lines[i]),
    decreases lines.len(),
{
    if lines.len() > 0 {
        let fs1 = spec_add_line(fs, lines[0]);
        let rest = lines.drop_first();
        lemma_add_lines_settle(fs1, rest);
        lemma_add_line_settles(fs, lines[0]);
        lemma_add_lines_keep_settled(fs1, rest, lines[0]);
        assert forall|i: int|
            0 <= i < lines.len() implies spec_line_settled(
            spec_add_lines(fs, lines),
            lines[i],
        ) by {
            if i > 0 {
                assert(rest[i - 1] == lines[i]);
            }
        }
    }
}

/// Folding a batch in keeps a settled line settled.
proof fn lemma_add_lines_keep_settled(fs: SpecFilterSet, lines: Seq<Seq<u8>>, other: Seq<u8>)
    requires
        spec_line_settled(fs, other),
    ensures
        spec_line_settled(spec_add_lines(fs, lines), other),
    decreases lines.len(),
{
    if lines.len() > 0 {
        lemma_add_line_keeps_settled(fs, lines[0], other);
        lemma_add_lines_keep_settled(spec_add_line(fs, lines[0]), lines.drop_first(), other);
    }
}

/// A batch of settled lines changes nothing.
proof fn lemma_add_lines_noop(fs: SpecFilterSet, lines: Seq<Seq<u8>>)
    requires
        forall|i: int| 0 <= i < lines.len() ==> spec_line_settled(fs, lines[i]),
    ensures
        spec_add_lines(fs, lines) == fs,
    decreases lines.len(),
{
    if lines.len() > 0 {
        assert(spec_line_settled(fs, lines[0]));
        assert(spec_add_line(fs, lines[0]) == fs);
        assert(forall|i: int|
            0 <= i < lines.drop_first().len() ==> lines.drop_first()[i] == lines[i + 1]);
        lemma_add_lines_noop(fs, lines.drop_first());
    }
}

/// Law: re-adding identical lines is idempotent. Folding the same batch
/// in a second time leaves the set exactly as the first fold left it.
pub proof fn lemma_add_filters_idempotent(fs: SpecFilterSet, lines: Seq<Seq<u8>>)
    ensures
        spec_add_lines(spec_add_lines(fs, lines), lines) == spec_add_lines(fs, lines),
{
    lemma_add_lines_settle(fs, lines);
    lemma_add_lines_noop(spec_add_lines(fs, lines), lines);
}

/// Law: monotonic safety, end to end. A request blocked (in any blocking
/// form) against the snapshot of a set stays blocked against the snapshot
/// of the same set after more lines are folded in, as long as none of the
/// added lines is a usable exception rule.
pub proof fn lemma_monotonic_safety_of_added_lines(
    fs: SpecFilterSet,
    lines: Seq<Seq<u8>>,
    url: Seq<u8>,
    host: Seq<u8>,
    init: Seq<u8>,
    rt: crate::rule::ResourceType,
)
    requires
        forall|i: int|
            0 <= i < lines.len() ==> !spec_line_is_usable_exception(lines[i], fs.debug),
        crate::engine::is_blocking(
            crate::engine::spec_decide(spec_engine_of(fs), url, host, init, rt),
        ),
    ensures
        crate::engine::is_blocking(
            crate::engine::spec_decide(spec_engine_of(spec_add_lines(fs, lines)), url, host, init, rt),
        ),
{
    lemma_add_lines_append_only(fs, lines);
    crate::engine::lemma_monotonic_safety(
        spec_engine_of(fs),
        spec_engine_of(spec_add_lines(fs, lines)),
        url,
        host,
        init,
        rt,
    );
}

} // verus!
