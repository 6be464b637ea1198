//! What it means for a rule to match a request: the pattern test against the
//! URL and host, the resource-type mask, and the first-party domain
//! constraints.

use vstd::prelude::*;

use crate::bytes::{
    bytes_eq, contains_bytes, contains_seq, ends_with, find_sub_from, has_suffix, is_sub_at,
};
use crate::rule::{FilterRule, Pattern, ResourceType, SpecPattern, SpecRule};

verus! {

/// The wildcard test, from position `from` on: the parts occur in `url`
/// in order, each starting no earlier than the end of the one before it.
pub open spec fn spec_wild_from(url: Seq<u8>, parts: Seq<Seq<u8>>, from: int) -> bool
    decreases parts.len(),
{
    if parts.len() == 0 {
        true
    } else {
        exists|i: int|
            from <= i && is_sub_at(url, parts[0], i) && spec_wild_from(
                url,
                parts.drop_first(),
                i + parts[0].len(),
            )
    }
}

/// Whatever the parts find from a later position they also find from an
/// earlier one.
proof fn lemma_wild_from_antitone(url: Seq<u8>, parts: Seq<Seq<u8>>, a: int, b: int)
    requires
        b <= a,
        spec_wild_from(url, parts, a),
    ensures
        spec_wild_from(url, parts, b),
{
    if parts.len() > 0 {
        let i = choose|i: int|
            a <= i && is_sub_at(url, parts[0], i) && spec_wild_from(
                url,
                parts.drop_first(),
                i + parts[0].len(),
            );
        assert(b <= i && is_sub_at(url, parts[0], i) && spec_wild_from(
            url,
            parts.drop_first(),
            i + parts[0].len(),
        ));
    }
}

/// Whether the wildcard parts occur in `url` in order. Greedy: each part
/// is placed at its earliest possible position, which finds a placement
/// whenever one exists.
pub fn wild_match(url: &[u8], parts: &Vec<Vec<u8>>) -> (r: bool)
    ensures
        r == spec_wild_from(url@, parts.deep_view(), 0),
{
    let ghost pv = parts.deep_view();
    let ulen = url.len();
    let mut pos: usize = 0;
    let mut k: usize = 0;
    proof {
        assert(pv.skip(0) =~= pv);
    }
    while k < parts.len()
        invariant
            0 <= k <= parts@.len(),
            pv == parts.deep_view(),
            pv.len() == parts@.len(),
            ulen == url@.len(),
            spec_wild_from(url@, pv, 0) <==> spec_wild_from(url@, pv.skip(k as int), pos as int),
        decreases parts@.len() - k,
    {
        let ghost rem = pv.skip(k as int);
        proof {
            assert(rem[0] == pv[k as int]);
            assert(pv[k as int] == parts@[k as int]@);
            assert(rem.drop_first() =~= pv.skip(k + 1));
        }
        match find_sub_from(url, parts[k].as_slice(), pos) {
            Some(i) => {
                proof {
                    let next = i + rem[0].len();
                    if spec_wild_from(url@, rem, pos as int) {
                        let w = choose|w: int|
                            pos <= w && is_sub_at(url@, rem[0], w) && spec_wild_from(
                                url@,
                                rem.drop_first(),
                                w + rem[0].len(),
                            );
                        assert(i <= w);
                        lemma_wild_from_antitone(
                            url@,
                            rem.drop_first(),
                            w + rem[0].len(),
                            next,
                        );
                    }
                    if spec_wild_from(url@, rem.drop_first(), next) {
                        assert(pos <= i && is_sub_at(url@, rem[0], i as int) && spec_wild_from(
                            url@,
                            rem.drop_first(),
                            i + rem[0].len(),
                        ));
                    }
                }
                pos = i + parts[k].len();
            },
            None => {
                proof {
                    if spec_wild_from(url@, rem, pos as int) {
                        let w = choose|w: int|
                            pos <= w && is_sub_at(url@, rem[0], w) && spec_wild_from(
                                url@,
                                rem.drop_first(),
                                w + rem[0].len(),
                            );
                        assert(!is_sub_at(url@, rem[0], w));
                    }
                }
                return false;
            },
        }
        k = k + 1;
    }
    proof {
        assert(pv.skip(pv.len() as int).len() == 0);
    }
    true
}

/// `.`, the label separator in a hostname.
pub const DOT: u8 = 46;

/// `host` is `domain` itself or a subdomain of it: equal, or ending in
/// `.domain`.
pub open spec fn host_matches_domain(host: Seq<u8>, domain: Seq<u8>) -> bool {
    host == domain || (host.len() > domain.len() && has_suffix(host, domain) && host[host.len()
        - domain.len() - 1] == DOT)
}

/// Whether `host` falls under `domain`.
pub fn host_under_domain(host: &[u8], domain: &[u8]) -> (r: bool)
    ensures
        r == host_matches_domain(host@, domain@),
{
    if bytes_eq(host, domain) {
        return true;
    }
    if domain.len() < host.len() && ends_with(host, domain) {
        return host[host.len() - domain.len() - 1] == DOT;
    }
    false
}

/// `d` falls under some domain of `list`.
pub open spec fn domain_in_list(d: Seq<u8>, list: Seq<Seq<u8>>) -> bool {
    exists|i: int| 0 <= i < list.len() && host_matches_domain(d, list[i])
}

/// Whether `d` falls under some domain of `list`.
pub fn domain_in_list_exec(d: &[u8], list: &Vec<Vec<u8>>) -> (r: bool)
    ensures
        r == domain_in_list(d@, list.deep_view()),
{
    let ghost lv = list.deep_view();
    let mut i: usize = 0;
    while i < list.len()
        invariant
            0 <= i <= list@.len(),
            lv == list.deep_view(),
            lv.len() == list@.len(),
            forall|j: int| 0 <= j < i ==> !host_matches_domain(d@, lv[j]),
        decreases list@.len() - i,
    {
        assert(lv[i as int] == list@[i as int]@);
        if host_under_domain(d, &list[i]) {
            return true;
        }
        i = i + 1;
    }
    false
}

/// The pattern test alone: substring patterns are looked for in the URL
/// text; domain anchors are tested against the request host, and when
/// they carry a path, the URL must continue from the domain with that
/// path; unsupported patterns never match.
pub open spec fn spec_pattern_matches(p: SpecPattern, url: Seq<u8>, host: Seq<u8>) -> bool {
    match p {
        SpecPattern::Substring(text) => contains_seq(url, text),
        SpecPattern::DomainAnchor(domain, path) => host_matches_domain(host, domain) && (path.len()
            == 0 || contains_seq(url, domain + path)),
        SpecPattern::Wildcard(parts) => spec_wild_from(url, parts, 0),
        SpecPattern::Unsupported => false,
    }
}

/// The first-party constraints of `r` admit a request initiated by `init`:
/// an empty include list places no demand, and the initiating domain must
/// fall under no excluded domain.
pub open spec fn spec_constraints_allow(r: SpecRule, init: Seq<u8>) -> bool {
    (r.include_domains.len() == 0 || domain_in_list(init, r.include_domains))
        && !domain_in_list(init, r.exclude_domains)
}

/// Rule `r` matches the request `(url, host, init, rt)`: its pattern matches
/// the URL or host, its mask admits the resource type, and its domain
/// constraints admit the initiating domain.
pub open spec fn spec_rule_matches(
    r: SpecRule,
    url: Seq<u8>,
    host: Seq<u8>,
    init: Seq<u8>,
    rt: ResourceType,
) -> bool {
    &&& spec_pattern_matches(r.pattern, url, host)
    &&& r.mask.spec_allows(rt)
    &&& spec_constraints_allow(r, init)
}

/// Whether rule `r` matches the request.
pub fn rule_matches(r: &FilterRule, url: &[u8], host: &[u8], init: &[u8], rt: ResourceType) -> (b:
    bool)
    ensures
        b == spec_rule_matches(r@, url@, host@, init@, rt),
{
    let pattern_hit = match &r.pattern {
        Pattern::Substring { text } => contains_bytes(url, text.as_slice()),
        Pattern::DomainAnchor { domain, path } => {
            if !host_under_domain(host, domain.as_slice()) {
                false
            } else if path.len() == 0 {
                true
            } else {
                let mut probe = crate::bytes::copy_bytes(domain.as_slice());
                let mut i: usize = 0;
                proof {
                    assert(probe@ =~= domain@ + path@.subrange(0, 0));
                }
                while i < path.len()
                    invariant
                        0 <= i <= path@.len(),
                        probe@ == domain@ + path@.subrange(0, i as int),
                    decreases path@.len() - i,
                {
                    probe.push(path[i]);
                    assert(probe@ =~= domain@ + path@.subrange(0, i + 1));
                    i = i + 1;
                }
                proof {
                    assert(probe@ =~= domain@ + path@);
                }
                contains_bytes(url, probe.as_slice())
            }
        },
        Pattern::Wildcard { parts } => wild_match(url, parts),
        Pattern::Unsupported => false,
    };
    if !pattern_hit {
        return false;
    }
    if !r.mask.allows(rt) {
        return false;
    }
    if r.include_domains.len() > 0 && !domain_in_list_exec(init, &r.include_domains) {
        return false;
    }
    if domain_in_list_exec(init, &r.exclude_domains) {
        return false;
    }
    true
}

/// An unsupported pattern is recorded but can never match a request.
pub proof fn lemma_unsupported_never_matches(
    r: SpecRule,
    url: Seq<u8>,
    host: Seq<u8>,
    init: Seq<u8>,
    rt: ResourceType,
)
    requires
        r.pattern is Unsupported,
    ensures
        !spec_rule_matches(r, url, host, init, rt),
{
}

} // verus!
