//! The rule parser: one raw filter-list line in, one structured rule out,
//! or the explicit verdict that the line is not a filter rule at all.
//!
//! Comments, blank lines and list headers are not rules. Cosmetic filters
//! and unknown option flags become rules that are recorded but can never
//! match a network request. The parser is a pure function of the line and
//! never fails: a malformed line costs that line only.

use vstd::prelude::*;
use vstd::string::StringSliceAdditionalSpecFns;

use crate::bytes::{
    contains_bytes, contains_seq, find, find_byte, has_prefix, rfind, rfind_byte, split, split_seq,
    starts_with, sub_vec, trim, trim_seq,
};
use crate::rule::{FilterRule, Pattern, ResourceMask, SpecPattern, SpecRule};

verus! {

/// `!`, the comment marker.
pub const BANG: u8 = 33;

/// `#`, the comment marker of hosts-file lists.
pub const POUND: u8 = 35;

/// `[`, the list-header opener.
pub const LBRACK: u8 = 91;

/// `$`, the option separator.
pub const DOLLAR: u8 = 36;

/// `,`, the separator between options.
pub const COMMA: u8 = 44;

/// `~`, the negation marker inside a domain list.
pub const TILDE: u8 = 126;

/// `|`, the anchor byte.
pub const PIPE_BYTE: u8 = 124;

/// `^`, the separator placeholder.
pub const CARET: u8 = 94;

/// `/`, the path opener.
pub const SLASH: u8 = 47;

/// `*`, the wildcard byte.
pub const STAR: u8 = 42;

/// ` `, a plain space.
pub const SPACE: u8 = 32;

/// Horizontal tab.
pub const TAB: u8 = 9;

/// The verdict on one raw line.
pub enum LineParse {
    /// The line compiled to a rule (possibly one that never matches).
    Rule(FilterRule),
    /// The line is blank, a comment, or a list header: not a rule.
    NotARule,
}

/// The mathematical shape of a `LineParse`.
pub enum SpecLineParse {
    Rule(SpecRule),
    NotARule,
}

impl View for LineParse {
    type V = SpecLineParse;

    open spec fn view(&self) -> SpecLineParse {
        match self {
            LineParse::Rule(r) => SpecLineParse::Rule(r@),
            LineParse::NotARule => SpecLineParse::NotARule,
        }
    }
}

/// The option flags gathered while parsing the tail of a rule line.
pub struct OptState {
    pub important: bool,
    pub saw_type: bool,
    pub mask: ResourceMask,
    pub include_domains: Vec<Vec<u8>>,
    pub exclude_domains: Vec<Vec<u8>>,
    pub redirect_target: Option<Vec<u8>>,
    pub rewrite_target: Option<Vec<u8>>,
}

/// The mathematical shape of an `OptState`.
pub struct SpecOptState {
    pub important: bool,
    pub saw_type: bool,
    pub mask: ResourceMask,
    pub include_domains: Seq<Seq<u8>>,
    pub exclude_domains: Seq<Seq<u8>>,
    pub redirect_target: Option<Seq<u8>>,
    pub rewrite_target: Option<Seq<u8>>,
}

impl View for OptState {
    type V = SpecOptState;

    open spec fn view(&self) -> SpecOptState {
        SpecOptState {
            important: self.important,
            saw_type: self.saw_type,
            mask: self.mask,
            include_domains: self.include_domains.deep_view(),
            exclude_domains: self.exclude_domains.deep_view(),
            redirect_target: crate::rule::view_opt_bytes(self.redirect_target),
            rewrite_target: crate::rule::view_opt_bytes(self.rewrite_target),
        }
    }
}

/// The state before any option has been seen: no flags, no restriction.
pub open spec fn spec_initial_opt_state() -> SpecOptState {
    SpecOptState {
        important: false,
        saw_type: false,
        mask: ResourceMask { script: true, image: true, stylesheet: true, other: true },
        include_domains: Seq::empty(),
        exclude_domains: Seq::empty(),
        redirect_target: None,
        rewrite_target: None,
    }
}

fn initial_opt_state() -> (st: OptState)
    ensures
        st@ == spec_initial_opt_state(),
{
    let st = OptState {
        important: false,
        saw_type: false,
        mask: ResourceMask { script: true, image: true, stylesheet: true, other: true },
        include_domains: Vec::new(),
        exclude_domains: Vec::new(),
        redirect_target: None,
        rewrite_target: None,
    };
    proof {
        assert(st.include_domains.deep_view() =~= Seq::<Seq<u8>>::empty());
        assert(st.exclude_domains.deep_view() =~= Seq::<Seq<u8>>::empty());
    }
    st
}

/// The rule a line of unsupported syntax compiles to: recorded, but its
/// pattern never matches a network request.
pub open spec fn spec_unsupported_rule(source: Option<Seq<u8>>) -> SpecRule {
    SpecRule {
        pattern: SpecPattern::Unsupported,
        is_exception: false,
        important: false,
        mask: ResourceMask { script: true, image: true, stylesheet: true, other: true },
        include_domains: Seq::empty(),
        exclude_domains: Seq::empty(),
        redirect_target: None,
        rewrite_target: None,
        source,
    }
}

fn unsupported_rule(source: Option<Vec<u8>>) -> (r: FilterRule)
    ensures
        r@ == spec_unsupported_rule(crate::rule::view_opt_bytes(source)),
{
    let r = FilterRule {
        pattern: Pattern::Unsupported,
        is_exception: false,
        important: false,
        mask: ResourceMask { script: true, image: true, stylesheet: true, other: true },
        include_domains: Vec::new(),
        exclude_domains: Vec::new(),
        redirect_target: None,
        rewrite_target: None,
        source,
    };
    proof {
        assert(r.include_domains.deep_view() =~= Seq::<Seq<u8>>::empty());
        assert(r.exclude_domains.deep_view() =~= Seq::<Seq<u8>>::empty());
    }
    r
}

/// The rule built from a parsed pattern, the exception marker and the
/// gathered option flags.
pub open spec fn spec_make_rule(
    pattern: SpecPattern,
    is_exception: bool,
    st: SpecOptState,
    source: Option<Seq<u8>>,
) -> SpecRule {
    SpecRule {
        pattern,
        is_exception,
        important: st.important,
        mask: st.mask,
        include_domains: st.include_domains,
        exclude_domains: st.exclude_domains,
        redirect_target: st.redirect_target,
        rewrite_target: st.rewrite_target,
        source,
    }
}

fn make_rule(pattern: Pattern, is_exception: bool, st: OptState, source: Option<Vec<u8>>) -> (r:
    FilterRule)
    ensures
        r@ == spec_make_rule(
            pattern@,
            is_exception,
            st@,
            crate::rule::view_opt_bytes(source),
        ),
{
    FilterRule {
        pattern,
        is_exception,
        important: st.important,
        mask: st.mask,
        include_domains: st.include_domains,
        exclude_domains: st.exclude_domains,
        redirect_target: st.redirect_target,
        rewrite_target: st.rewrite_target,
        source,
    }
}

/// A body acceptable as an anchored domain or a hosts-file hostname: it is
/// nonempty and holds none of the bytes that would make it a wider pattern.
pub open spec fn spec_plain_domain(d: Seq<u8>) -> bool {
    &&& d.len() > 0
    &&& find_byte(d, STAR) is None
    &&& find_byte(d, PIPE_BYTE) is None
    &&& find_byte(d, CARET) is None
    &&& find_byte(d, SLASH) is None
    &&& find_byte(d, SPACE) is None
    &&& find_byte(d, TAB) is None
    &&& find_byte(d, POUND) is None
}

fn plain_domain(d: &[u8]) -> (r: bool)
    ensures
        r == spec_plain_domain(d@),
{
    d.len() > 0 && find(d, STAR).is_none() && find(d, PIPE_BYTE).is_none() && find(
        d,
        CARET,
    ).is_none() && find(d, SLASH).is_none() && find(d, SPACE).is_none() && find(d, TAB).is_none()
        && find(d, POUND).is_none()
}

/// The pattern a `||`-anchored body compiles to. A body that is a plain
/// domain, with or without a single trailing `^`, anchors that domain; a
/// plain domain followed by a `/` and a path free of wildcard and anchor
/// bytes narrows the anchor to that path; anything wider is recorded as
/// unsupported.
pub open spec fn spec_parse_anchor(d: Seq<u8>) -> SpecPattern {
    if find_byte(d, SLASH) is Some && find_byte(d, CARET) is None {
        let i = find_byte(d, SLASH).unwrap();
        let dom = d.subrange(0, i);
        let path = d.subrange(i, d.len() as int);
        if spec_plain_domain(dom) && find_byte(path, STAR) is None && find_byte(path, PIPE_BYTE)
            is None {
            SpecPattern::DomainAnchor(dom, path)
        } else {
            SpecPattern::Unsupported
        }
    } else {
        let body = match find_byte(d, CARET) {
            Some(i) => d.subrange(0, i),
            None => d,
        };
        if (find_byte(d, CARET) matches Some(i) ==> i == d.len() - 1) && spec_plain_domain(body) {
            SpecPattern::DomainAnchor(body, Seq::empty())
        } else {
            SpecPattern::Unsupported
        }
    }
}

fn parse_anchor(d: &[u8]) -> (p: Pattern)
    ensures
        p@ == spec_parse_anchor(d@),
{
    let slash = find(d, SLASH);
    let caret = find(d, CARET);
    if slash.is_some() && caret.is_none() {
        let i = slash.unwrap();
        let dom = sub_vec(d, 0, i);
        let path = sub_vec(d, i, d.len());
        if plain_domain(dom.as_slice()) && find(path.as_slice(), STAR).is_none() && find(
            path.as_slice(),
            PIPE_BYTE,
        ).is_none() {
            Pattern::DomainAnchor { domain: dom, path }
        } else {
            Pattern::Unsupported
        }
    } else {
        let (body, tail_ok): (Vec<u8>, bool) = match caret {
            Some(i) => (sub_vec(d, 0, i), i == d.len() - 1),
            None => (sub_vec(d, 0, d.len()), true),
        };
        proof {
            assert(d@.subrange(0, d@.len() as int) =~= d@);
        }
        if tail_ok && plain_domain(body.as_slice()) {
            let path = Vec::new();
            proof {
                assert(path@ =~= Seq::<u8>::empty());
            }
            Pattern::DomainAnchor { domain: body, path }
        } else {
            Pattern::Unsupported
        }
    }
}

/// The pattern the body of a rule line compiles to. A `||` prefix anchors a
/// domain; a nonempty body free of anchor and separator bytes is a plain
/// substring, or a wildcard when it holds `*`; everything else is
/// unsupported.
pub open spec fn spec_parse_pattern(p: Seq<u8>) -> SpecPattern {
    if has_prefix(p, "||".spec_bytes()) {
        spec_parse_anchor(p.skip("||".spec_bytes().len() as int))
    } else if p.len() == 0 {
        SpecPattern::Unsupported
    } else if find_byte(p, PIPE_BYTE) is Some || find_byte(p, CARET) is Some {
        SpecPattern::Unsupported
    } else if find_byte(p, STAR) is Some {
        SpecPattern::Wildcard(split_seq(p, STAR))
    } else {
        SpecPattern::Substring(p)
    }
}

fn parse_pattern(p: &[u8]) -> (r: Pattern)
    ensures
        r@ == spec_parse_pattern(p@),
{
    let anchor_tok = "||".as_bytes();
    if starts_with(p, anchor_tok) {
        let d = sub_vec(p, anchor_tok.len(), p.len());
        proof {
            assert(p@.subrange(anchor_tok@.len() as int, p@.len() as int) =~= p@.skip(
                "||".spec_bytes().len() as int,
            ));
        }
        parse_anchor(d.as_slice())
    } else if p.len() == 0 {
        Pattern::Unsupported
    } else if find(p, PIPE_BYTE).is_some() || find(p, CARET).is_some() {
        Pattern::Unsupported
    } else if find(p, STAR).is_some() {
        Pattern::Wildcard { parts: split(p, STAR) }
    } else {
        let text = sub_vec(p, 0, p.len());
        proof {
            assert(p@.subrange(0, p@.len() as int) =~= p@);
        }
        Pattern::Substring { text }
    }
}

/// The hostname token of a hosts-file line: what stands between the
/// address and the first following whitespace, if anything does.
pub open spec fn spec_hosts_token(rest: Seq<u8>) -> Seq<u8> {
    let u = trim_seq(rest);
    let cut_space = match find_byte(u, SPACE) {
        Some(i) => u.subrange(0, i),
        None => u,
    };
    match find_byte(cut_space, TAB) {
        Some(i) => cut_space.subrange(0, i),
        None => cut_space,
    }
}

fn hosts_token(rest: &[u8]) -> (tok: Vec<u8>)
    ensures
        tok@ == spec_hosts_token(rest@),
{
    let u = trim(rest);
    let cut_space = match find(u.as_slice(), SPACE) {
        Some(i) => sub_vec(u.as_slice(), 0, i),
        None => u,
    };
    let tok = match find(cut_space.as_slice(), TAB) {
        Some(i) => sub_vec(cut_space.as_slice(), 0, i),
        None => cut_space,
    };
    tok
}

/// The rule a hosts-file line compiles to: a block on the named domain and
/// its subdomains, or an unsupported record when no usable hostname stands
/// there.
pub open spec fn spec_parse_hosts(rest: Seq<u8>, source: Option<Seq<u8>>) -> SpecRule {
    let tok = spec_hosts_token(rest);
    if spec_plain_domain(tok) {
        spec_make_rule(
            SpecPattern::DomainAnchor(tok, Seq::empty()),
            false,
            spec_initial_opt_state(),
            source,
        )
    } else {
        spec_unsupported_rule(source)
    }
}

fn parse_hosts(rest: &[u8], source: Option<Vec<u8>>) -> (r: FilterRule)
    ensures
        r@ == spec_parse_hosts(rest@, crate::rule::view_opt_bytes(source)),
{
    let tok = hosts_token(rest);
    if plain_domain(tok.as_slice()) {
        let path = Vec::new();
        proof {
            assert(path@ =~= Seq::<u8>::empty());
        }
        make_rule(
            Pattern::DomainAnchor { domain: tok, path },
            false,
            initial_opt_state(),
            source,
        )
    } else {
        unsupported_rule(source)
    }
}

/// One entry of a `domain=` list folded into the include and exclude
/// accumulators: a leading `~` excludes, and every entry must be a plain
/// domain.
pub open spec fn spec_fold_domains(
    entries: Seq<Seq<u8>>,
    inc: Seq<Seq<u8>>,
    exc: Seq<Seq<u8>>,
) -> Option<(Seq<Seq<u8>>, Seq<Seq<u8>>)>
    decreases entries.len(),
{
    if entries.len() == 0 {
        Some((inc, exc))
    } else {
        let e = entries[0];
        if e.len() > 0 && e[0] == TILDE {
            if spec_plain_domain(e.drop_first()) {
                spec_fold_domains(entries.drop_first(), inc, exc.push(e.drop_first()))
            } else {
                None
            }
        } else {
            if spec_plain_domain(e) {
                spec_fold_domains(entries.drop_first(), inc.push(e), exc)
            } else {
                None
            }
        }
    }
}

fn fold_domains(entries: &Vec<Vec<u8>>, inc0: Vec<Vec<u8>>, exc0: Vec<Vec<u8>>) -> (r: Option<
    (Vec<Vec<u8>>, Vec<Vec<u8>>),
>)
    ensures
        match r {
            Some(p) => spec_fold_domains(entries.deep_view(), inc0.deep_view(), exc0.deep_view())
                == Some((p.0.deep_view(), p.1.deep_view())),
            None => spec_fold_domains(entries.deep_view(), inc0.deep_view(), exc0.deep_view())
                is None,
        },
{
    let ghost ev = entries.deep_view();
    let ghost inc_start = inc0.deep_view();
    let ghost exc_start = exc0.deep_view();
    let mut inc = inc0;
    let mut exc = exc0;
    let mut k: usize = 0;
    proof {
        assert(ev.skip(0) =~= ev);
    }
    while k < entries.len()
        invariant
            0 <= k <= entries@.len(),
            ev == entries.deep_view(),
            ev.len() == entries@.len(),
            inc_start == inc0.deep_view(),
            exc_start == exc0.deep_view(),
            spec_fold_domains(ev, inc_start, exc_start) == spec_fold_domains(
                ev.skip(k as int),
                inc.deep_view(),
                exc.deep_view(),
            ),
        decreases entries@.len() - k,
    {
        let ghost rem = ev.skip(k as int);
        proof {
            assert(rem[0] == ev[k as int]);
            assert(ev[k as int] == entries@[k as int]@);
            assert(rem.drop_first() =~= ev.skip(k + 1));
        }
        let e = &entries[k];
        if e.len() > 0 && e[0] == TILDE {
            let d = sub_vec(e.as_slice(), 1, e.len());
            proof {
                assert(d@ =~= rem[0].drop_first());
            }
            if plain_domain(d.as_slice()) {
                let ghost before = exc.deep_view();
                exc.push(d);
                proof {
                    assert(exc.deep_view() =~~= before.push(rem[0].drop_first()));
                }
            } else {
                proof {
                    assert(rem[0].len() > 0 && rem[0][0] == TILDE);
                    assert(!spec_plain_domain(rem[0].drop_first()));
                    assert(spec_fold_domains(rem, inc.deep_view(), exc.deep_view()) is None);
                }
                return None;
            }
        } else {
            proof {
                assert(e@ == rem[0]);
            }
            if plain_domain(e.as_slice()) {
                let ghost before = inc.deep_view();
                let copy = sub_vec(e.as_slice(), 0, e.len());
                proof {
                    assert(copy@ =~= rem[0]);
                }
                inc.push(copy);
                proof {
                    assert(inc.deep_view() =~~= before.push(rem[0]));
                }
            } else {
                proof {
                    assert(!(rem[0].len() > 0 && rem[0][0] == TILDE));
                    assert(!spec_plain_domain(rem[0]));
                    assert(spec_fold_domains(rem, inc.deep_view(), exc.deep_view()) is None);
                }
                return None;
            }
        }
        k = k + 1;
    }
    proof {
        assert(ev.skip(ev.len() as int).len() == 0);
    }
    Some((inc, exc))
}

/// One option token folded into the gathered state: flags, resource
/// types, first-party constraints and targets; an unknown token makes the
/// whole rule unsupported.
pub open spec fn spec_apply_option(tok: Seq<u8>, st: SpecOptState) -> Option<SpecOptState> {
    if tok == "important".spec_bytes() {
        Some(SpecOptState { important: true, ..st })
    } else if tok == "script".spec_bytes() {
        Some(spec_add_type(st, ResourceMask { script: true, image: false, stylesheet: false, other: false }))
    } else if tok == "image".spec_bytes() {
        Some(spec_add_type(st, ResourceMask { script: false, image: true, stylesheet: false, other: false }))
    } else if tok == "stylesheet".spec_bytes() {
        Some(spec_add_type(st, ResourceMask { script: false, image: false, stylesheet: true, other: false }))
    } else if tok == "other".spec_bytes() {
        Some(spec_add_type(st, ResourceMask { script: false, image: false, stylesheet: false, other: true }))
    } else if has_prefix(tok, "domain=".spec_bytes()) {
        let rest = tok.skip("domain=".spec_bytes().len() as int);
        match spec_fold_domains(
            split_seq(rest, PIPE_BYTE),
            st.include_domains,
            st.exclude_domains,
        ) {
            None => None,
            Some(p) => Some(SpecOptState { include_domains: p.0, exclude_domains: p.1, ..st }),
        }
    } else if has_prefix(tok, "redirect=".spec_bytes()) {
        let rest = tok.skip("redirect=".spec_bytes().len() as int);
        if rest.len() == 0 {
            None
        } else {
            Some(SpecOptState { redirect_target: Some(rest), ..st })
        }
    } else if has_prefix(tok, "rewrite=".spec_bytes()) {
        let rest = tok.skip("rewrite=".spec_bytes().len() as int);
        if rest.len() == 0 {
            None
        } else {
            Some(SpecOptState { rewrite_target: Some(rest), ..st })
        }
    } else {
        None
    }
}

/// A resource-type option narrows the mask: the first one seen replaces
/// the unrestricted default, later ones widen the narrowed mask.
pub open spec fn spec_add_type(st: SpecOptState, m: ResourceMask) -> SpecOptState {
    if st.saw_type {
        SpecOptState {
            mask: ResourceMask {
                script: st.mask.script || m.script,
                image: st.mask.image || m.image,
                stylesheet: st.mask.stylesheet || m.stylesheet,
                other: st.mask.other || m.other,
            },
            ..st
        }
    } else {
        SpecOptState { saw_type: true, mask: m, ..st }
    }
}

fn add_type(st: OptState, m: ResourceMask) -> (r: OptState)
    ensures
        r@ == spec_add_type(st@, m),
{
    if st.saw_type {
        OptState {
            mask: ResourceMask {
                script: st.mask.script || m.script,
                image: st.mask.image || m.image,
                stylesheet: st.mask.stylesheet || m.stylesheet,
                other: st.mask.other || m.other,
            },
            ..st
        }
    } else {
        OptState { saw_type: true, mask: m, ..st }
    }
}

fn apply_option(tok: &[u8], st: OptState) -> (r: Option<OptState>)
    ensures
        match r {
            Some(s2) => spec_apply_option(tok@, st@) == Some(s2@),
            None => spec_apply_option(tok@, st@) is None,
        },
{
    if crate::bytes::bytes_eq(tok, "important".as_bytes()) {
        return Some(OptState { important: true, ..st });
    }
    if crate::bytes::bytes_eq(tok, "script".as_bytes()) {
        return Some(add_type(st, ResourceMask { script: true, image: false, stylesheet: false, other: false }));
    }
    if crate::bytes::bytes_eq(tok, "image".as_bytes()) {
        return Some(add_type(st, ResourceMask { script: false, image: true, stylesheet: false, other: false }));
    }
    if crate::bytes::bytes_eq(tok, "stylesheet".as_bytes()) {
        return Some(add_type(st, ResourceMask { script: false, image: false, stylesheet: true, other: false }));
    }
    if crate::bytes::bytes_eq(tok, "other".as_bytes()) {
        return Some(add_type(st, ResourceMask { script: false, image: false, stylesheet: false, other: true }));
    }
    let domain_tok = "domain=".as_bytes();
    if starts_with(tok, domain_tok) {
        let rest = sub_vec(tok, domain_tok.len(), tok.len());
        proof {
            assert(rest@ =~= tok@.skip("domain=".spec_bytes().len() as int));
        }
        let entries = split(rest.as_slice(), PIPE_BYTE);
        let OptState {
            important,
            saw_type,
            mask,
            include_domains,
            exclude_domains,
            redirect_target,
            rewrite_target,
        } = st;
        match fold_domains(&entries, include_domains, exclude_domains) {
            None => {
                return None;
            },
            Some(p) => {
                return Some(
                    OptState {
                        important,
                        saw_type,
                        mask,
                        include_domains: p.0,
                        exclude_domains: p.1,
                        redirect_target,
                        rewrite_target,
                    },
                );
            },
        }
    }
    let redirect_tok = "redirect=".as_bytes();
    if starts_with(tok, redirect_tok) {
        let rest = sub_vec(tok, redirect_tok.len(), tok.len());
        proof {
            assert(rest@ =~= tok@.skip("redirect=".spec_bytes().len() as int));
        }
        if rest.len() == 0 {
            return None;
        }
        return Some(OptState { redirect_target: Some(rest), ..st });
    }
    let rewrite_tok = "rewrite=".as_bytes();
    if starts_with(tok, rewrite_tok) {
        let rest = sub_vec(tok, rewrite_tok.len(), tok.len());
        proof {
            assert(rest@ =~= tok@.skip("rewrite=".spec_bytes().len() as int));
        }
        if rest.len() == 0 {
            return None;
        }
        return Some(OptState { rewrite_target: Some(rest), ..st });
    }
    None
}

/// The option tokens folded in order over the initial state.
pub open spec fn spec_fold_options(tokens: Seq<Seq<u8>>, st: SpecOptState) -> Option<SpecOptState>
    decreases tokens.len(),
{
    if tokens.len() == 0 {
        Some(st)
    } else {
        match spec_apply_option(tokens[0], st) {
            None => None,
            Some(st2) => spec_fold_options(tokens.drop_first(), st2),
        }
    }
}

/// What the `$`-tail of a rule line yields: the gathered option state, or
/// nothing when some token is unknown or malformed.
pub open spec fn spec_parse_options(opts: Seq<u8>) -> Option<SpecOptState> {
    spec_fold_options(split_seq(opts, COMMA), spec_initial_opt_state())
}

fn parse_options(opts: &[u8]) -> (r: Option<OptState>)
    ensures
        match r {
            Some(st) => spec_parse_options(opts@) == Some(st@),
            None => spec_parse_options(opts@) is None,
        },
{
    let tokens = split(opts, COMMA);
    let ghost tv = tokens.deep_view();
    let mut st = initial_opt_state();
    let mut k: usize = 0;
    proof {
        assert(tv.skip(0) =~= tv);
    }
    while k < tokens.len()
        invariant
            0 <= k <= tokens@.len(),
            tv == tokens.deep_view(),
            tv.len() == tokens@.len(),
            tv == split_seq(opts@, COMMA),
            spec_fold_options(tv, spec_initial_opt_state()) == spec_fold_options(
                tv.skip(k as int),
                st@,
            ),
        decreases tokens@.len() - k,
    {
        let ghost rem = tv.skip(k as int);
        proof {
            assert(rem[0] == tv[k as int]);
            assert(tv[k as int] == tokens@[k as int]@);
            assert(rem.drop_first() =~= tv.skip(k + 1));
        }
        let ghost st_snap = st@;
        match apply_option(tokens[k].as_slice(), st) {
            None => {
                proof {
                    assert(spec_apply_option(rem[0], st_snap) is None);
                    assert(spec_fold_options(rem, st_snap) is None);
                }
                return None;
            },
            Some(st2) => {
                st = st2;
            },
        }
        k = k + 1;
    }
    proof {
        assert(tv.skip(tv.len() as int).len() == 0);
    }
    Some(st)
}

/// What one raw line compiles to. Blank lines, `!` and `#` comments and
/// `[` list headers are not rules; hosts-file lines become domain blocks; cosmetic
/// filters and unknown options become recorded rules that never match; a
/// leading `@@` marks an exception; a trailing `$` list carries options.
/// When `keep_source` is set the rule retains the trimmed line it came
/// from.
pub open spec fn spec_parse_line(line: Seq<u8>, keep_source: bool) -> SpecLineParse {
    let t = trim_seq(line);
    let source = if keep_source { Some(t) } else { None::<Seq<u8>> };
    if t.len() == 0 {
        SpecLineParse::NotARule
    } else if t[0] == BANG || t[0] == LBRACK || t[0] == POUND {
        SpecLineParse::NotARule
    } else if has_prefix(t, "0.0.0.0 ".spec_bytes()) {
        SpecLineParse::Rule(
            spec_parse_hosts(t.skip("0.0.0.0 ".spec_bytes().len() as int), source),
        )
    } else if has_prefix(t, "127.0.0.1 ".spec_bytes()) {
        SpecLineParse::Rule(
            spec_parse_hosts(t.skip("127.0.0.1 ".spec_bytes().len() as int), source),
        )
    } else if contains_seq(t, "##".spec_bytes()) || contains_seq(t, "#@#".spec_bytes())
        || contains_seq(t, "#?#".spec_bytes()) {
        SpecLineParse::Rule(spec_unsupported_rule(source))
    } else {
        let is_exc = has_prefix(t, "@@".spec_bytes());
        let u = if is_exc {
            t.skip("@@".spec_bytes().len() as int)
        } else {
            t
        };
        match rfind_byte(u, DOLLAR) {
            None => SpecLineParse::Rule(
                spec_make_rule(spec_parse_pattern(u), is_exc, spec_initial_opt_state(), source),
            ),
            Some(i) => {
                let pat = u.subrange(0, i);
                let opts = u.subrange(i + 1, u.len() as int);
                match spec_parse_options(opts) {
                    None => SpecLineParse::Rule(spec_unsupported_rule(source)),
                    Some(st) => SpecLineParse::Rule(
                        spec_make_rule(spec_parse_pattern(pat), is_exc, st, source),
                    ),
                }
            },
        }
    }
}

/// Parse one raw filter-list line. Pure: the verdict is a function of the
/// line alone, and no line ever fails the caller.
pub fn parse_line(line: &[u8], keep_source: bool) -> (r: LineParse)
    ensures
        r@ == spec_parse_line(line@, keep_source),
{
    let t = trim(line);
    let source: Option<Vec<u8>> = if keep_source {
        Some(crate::bytes::copy_bytes(t.as_slice()))
    } else {
        None
    };
    if t.len() == 0 {
        return LineParse::NotARule;
    }
    if t[0] == BANG || t[0] == LBRACK || t[0] == POUND {
        return LineParse::NotARule;
    }
    let hosts4 = "0.0.0.0 ".as_bytes();
    if starts_with(t.as_slice(), hosts4) {
        let rest = sub_vec(t.as_slice(), hosts4.len(), t.len());
        proof {
            assert(rest@ =~= trim_seq(line@).skip("0.0.0.0 ".spec_bytes().len() as int));
        }
        return LineParse::Rule(parse_hosts(rest.as_slice(), source));
    }
    let hosts127 = "127.0.0.1 ".as_bytes();
    if starts_with(t.as_slice(), hosts127) {
        let rest = sub_vec(t.as_slice(), hosts127.len(), t.len());
        proof {
            assert(rest@ =~= trim_seq(line@).skip("127.0.0.1 ".spec_bytes().len() as int));
        }
        return LineParse::Rule(parse_hosts(rest.as_slice(), source));
    }
    if contains_bytes(t.as_slice(), "##".as_bytes()) || contains_bytes(
        t.as_slice(),
        "#@#".as_bytes(),
    ) || contains_bytes(t.as_slice(), "#?#".as_bytes()) {
        return LineParse::Rule(unsupported_rule(source));
    }
    let exc_tok = "@@".as_bytes();
    let is_exc = starts_with(t.as_slice(), exc_tok);
    let u: Vec<u8> = if is_exc {
        let v = sub_vec(t.as_slice(), exc_tok.len(), t.len());
        proof {
            assert(v@ =~= trim_seq(line@).skip("@@".spec_bytes().len() as int));
        }
        v
    } else {
        t
    };
    match rfind(u.as_slice(), DOLLAR) {
        None => {
            let pattern = parse_pattern(u.as_slice());
            LineParse::Rule(make_rule(pattern, is_exc, initial_opt_state(), source))
        },
        Some(i) => {
            let pat = sub_vec(u.as_slice(), 0, i);
            let opts = sub_vec(u.as_slice(), i + 1, u.len());
            match parse_options(opts.as_slice()) {
                None => LineParse::Rule(unsupported_rule(source)),
                Some(st) => {
                    let pattern = parse_pattern(pat.as_slice());
                    LineParse::Rule(make_rule(pattern, is_exc, st, source))
                },
            }
        },
    }
}

} // verus!
