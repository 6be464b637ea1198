use abrw_filter::engine::{Engine, MatchOutcome, Request};
use abrw_filter::filter_set::FilterSet;
use abrw_filter::rule::ResourceType;

fn lines(v: &[&str]) -> Vec<Vec<u8>> {
    let mut out = Vec::new();
    for s in v {
        out.push(s.as_bytes().to_vec());
    }
    out
}

fn engine_from(rules: &[&str]) -> Engine {
    let mut fs = FilterSet::new(true);
    fs.add_filters(&lines(rules));
    Engine::from_filter_set(fs)
}

fn req(url: &str, init: &str, rt: ResourceType) -> Request {
    Request {
        url: url.as_bytes().to_vec(),
        initiating_domain: init.as_bytes().to_vec(),
        resource_type: rt,
    }
}

#[test]
fn domain_anchor_blocks_matching_request() {
    let e = engine_from(&["||ads.example.com^"]);
    let o = e.evaluate(&req(
        "http://ads.example.com/banner.js",
        "news.example",
        ResourceType::Unknown,
    ));
    assert!(matches!(o, MatchOutcome::Blocked { .. }));
}

#[test]
fn domain_anchor_blocks_subdomain_host() {
    let e = engine_from(&["||example.com^"]);
    let o = e.evaluate(&req("http://cdn.example.com/x.png", "", ResourceType::Unknown));
    assert!(matches!(o, MatchOutcome::Blocked { .. }));
}

#[test]
fn domain_anchor_does_not_block_lookalike_host() {
    let e = engine_from(&["||example.com^"]);
    let o = e.evaluate(&req("http://notexample.com/x.png", "", ResourceType::Unknown));
    assert!(matches!(o, MatchOutcome::NoMatch));
}

#[test]
fn exception_with_path_excepts_exact_url() {
    let e = engine_from(&["||ads.example.com^", "@@||ads.example.com/allowed.js"]);
    let o = e.evaluate(&req(
        "http://ads.example.com/allowed.js",
        "news.example",
        ResourceType::Unknown,
    ));
    assert!(matches!(o, MatchOutcome::Excepted { .. }));
}

#[test]
fn hosts_line_blocks_domain() {
    let e = engine_from(&["0.0.0.0 tracker.example"]);
    let o = e.evaluate(&req("http://tracker.example/", "", ResourceType::Unknown));
    assert!(matches!(o, MatchOutcome::Blocked { .. }));
}

#[test]
fn hosts_line_with_loopback_address_blocks_domain() {
    let e = engine_from(&["127.0.0.1 tracker.example"]);
    let o = e.evaluate(&req("http://tracker.example/x", "", ResourceType::Unknown));
    assert!(matches!(o, MatchOutcome::Blocked { .. }));
}

#[test]
fn substring_rule_blocks_url_containing_it() {
    let e = engine_from(&["-advertisement."]);
    let o = e.evaluate(&req(
        "http://example.com/x-advertisement.js",
        "",
        ResourceType::Unknown,
    ));
    assert!(matches!(o, MatchOutcome::Blocked { .. }));
}

#[test]
fn wildcard_rule_matches_parts_in_order() {
    let e = engine_from(&["ad*banner"]);
    let o = e.evaluate(&req(
        "http://x.example/ad-top-banner.gif",
        "",
        ResourceType::Unknown,
    ));
    assert!(matches!(o, MatchOutcome::Blocked { .. }));
}

#[test]
fn wildcard_rule_needs_the_order_kept() {
    let e = engine_from(&["ad*banner"]);
    let o = e.evaluate(&req("http://x.example/banner-ad", "", ResourceType::Unknown));
    assert!(matches!(o, MatchOutcome::NoMatch));
}

#[test]
fn wildcard_parts_may_not_overlap() {
    // One "banner" in the URL cannot serve both parts.
    let e = engine_from(&["banner*banner"]);
    assert!(matches!(
        e.evaluate(&req("http://x.example/banner", "", ResourceType::Unknown)),
        MatchOutcome::NoMatch
    ));
    assert!(matches!(
        e.evaluate(&req("http://x.example/banner/banner", "", ResourceType::Unknown)),
        MatchOutcome::Blocked { .. }
    ));
}

#[test]
fn unparsable_host_fails_open_to_no_match() {
    // The substring would match the raw text, but the URL has no host.
    let e = engine_from(&["garbage"]);
    let o = e.evaluate(&req("this is garbage, not a url", "", ResourceType::Unknown));
    assert!(matches!(o, MatchOutcome::NoMatch));
}

#[test]
fn host_is_normalized_before_matching() {
    // URL parsing lowercases the host; the anchor still applies.
    let e = engine_from(&["||ads.example.com^"]);
    let o = e.evaluate(&req("http://ADS.Example.COM/a.js", "", ResourceType::Unknown));
    assert!(matches!(o, MatchOutcome::Blocked { .. }));
}

#[test]
fn mailto_url_without_host_fails_open() {
    let e = engine_from(&["example"]);
    let o = e.evaluate(&req("mailto:someone@example.com", "", ResourceType::Unknown));
    assert!(matches!(o, MatchOutcome::NoMatch));
}

#[test]
fn important_rule_wins_over_exception() {
    let e = engine_from(&["||ads.example.com^$important", "@@||ads.example.com^"]);
    let o = e.evaluate(&req("http://ads.example.com/a.js", "", ResourceType::Unknown));
    assert!(matches!(o, MatchOutcome::BlockedImportant { .. }));
}

#[test]
fn important_rule_is_reported_as_important_even_with_redirect() {
    // Importance decides the outcome outright; the redirect target of the
    // same rule does not change the variant.
    let e = engine_from(&["||ads.example.com^$important,redirect=blank.gif"]);
    let o = e.evaluate(&req("http://ads.example.com/a.js", "", ResourceType::Unknown));
    assert!(matches!(o, MatchOutcome::BlockedImportant { .. }));
}

#[test]
fn exception_overrides_ordinary_block() {
    let e = engine_from(&["||ads.example.com^", "@@||ads.example.com^"]);
    let o = e.evaluate(&req("http://ads.example.com/a.js", "", ResourceType::Unknown));
    match o {
        MatchOutcome::Excepted { matched_rule, .. } => {
            assert!(matched_rule.is_some());
        }
        other => panic!("expected Excepted, got {:?}", outcome_name(&other)),
    }
}

#[test]
fn exception_alone_yields_excepted_without_matched_block() {
    let e = engine_from(&["@@||ads.example.com^"]);
    let o = e.evaluate(&req("http://ads.example.com/a.js", "", ResourceType::Unknown));
    match o {
        MatchOutcome::Excepted { matched_rule, .. } => {
            assert!(matched_rule.is_none());
        }
        other => panic!("expected Excepted, got {:?}", outcome_name(&other)),
    }
}

#[test]
fn redirect_beats_rewrite_beats_plain_block() {
    let e = engine_from(&[
        "adbanner.gif",
        "adbanner.gif$rewrite=http://dummy.example/empty",
        "adbanner.gif$redirect=blank.gif",
    ]);
    let o = e.evaluate(&req(
        "http://ads.example.com/adbanner.gif",
        "",
        ResourceType::Unknown,
    ));
    match o {
        MatchOutcome::Redirected { target, .. } => {
            assert_eq!(target, b"blank.gif".to_vec());
        }
        other => panic!("expected Redirected, got {:?}", outcome_name(&other)),
    }
}

#[test]
fn rewrite_beats_plain_block() {
    let e = engine_from(&["adbanner.gif", "adbanner.gif$rewrite=http://dummy.example/empty"]);
    let o = e.evaluate(&req(
        "http://ads.example.com/adbanner.gif",
        "",
        ResourceType::Unknown,
    ));
    match o {
        MatchOutcome::Rewritten { target, .. } => {
            assert_eq!(target, b"http://dummy.example/empty".to_vec());
        }
        other => panic!("expected Rewritten, got {:?}", outcome_name(&other)),
    }
}

#[test]
fn earliest_rule_wins_ties() {
    let e = engine_from(&["banner-one", "banner-two"]);
    let o = e.evaluate(&req(
        "http://x.example/banner-one/banner-two",
        "",
        ResourceType::Unknown,
    ));
    match o {
        MatchOutcome::Blocked { matched_rule } => {
            assert_eq!(matched_rule.index, 0);
        }
        other => panic!("expected Blocked, got {:?}", outcome_name(&other)),
    }
}

#[test]
fn resource_mask_restricts_rule_to_named_types() {
    let e = engine_from(&["||ads.example.com^$script"]);
    let url = "http://ads.example.com/a.js";
    assert!(matches!(
        e.evaluate(&req(url, "", ResourceType::Script)),
        MatchOutcome::Blocked { .. }
    ));
    assert!(matches!(
        e.evaluate(&req(url, "", ResourceType::Image)),
        MatchOutcome::NoMatch
    ));
    // A restricted rule never matches a request of unknown type.
    assert!(matches!(
        e.evaluate(&req(url, "", ResourceType::Unknown)),
        MatchOutcome::NoMatch
    ));
}

#[test]
fn two_type_options_widen_each_other() {
    let e = engine_from(&["||ads.example.com^$script,image"]);
    let url = "http://ads.example.com/a";
    assert!(matches!(
        e.evaluate(&req(url, "", ResourceType::Script)),
        MatchOutcome::Blocked { .. }
    ));
    assert!(matches!(
        e.evaluate(&req(url, "", ResourceType::Image)),
        MatchOutcome::Blocked { .. }
    ));
    assert!(matches!(
        e.evaluate(&req(url, "", ResourceType::Stylesheet)),
        MatchOutcome::NoMatch
    ));
}

#[test]
fn domain_constraints_restrict_first_party() {
    let e = engine_from(&["||ads.example.com^$domain=news.example|~blog.news.example"]);
    let url = "http://ads.example.com/a.js";
    assert!(matches!(
        e.evaluate(&req(url, "news.example", ResourceType::Unknown)),
        MatchOutcome::Blocked { .. }
    ));
    // A subdomain of an included domain is included, unless excluded.
    assert!(matches!(
        e.evaluate(&req(url, "sport.news.example", ResourceType::Unknown)),
        MatchOutcome::Blocked { .. }
    ));
    assert!(matches!(
        e.evaluate(&req(url, "blog.news.example", ResourceType::Unknown)),
        MatchOutcome::NoMatch
    ));
    assert!(matches!(
        e.evaluate(&req(url, "other.example", ResourceType::Unknown)),
        MatchOutcome::NoMatch
    ));
}

#[test]
fn debug_set_retains_source_line() {
    let mut fs = FilterSet::new(true);
    fs.add_filters(&lines(&["||ads.example.com^"]));
    let e = Engine::from_filter_set(fs);
    let o = e.evaluate(&req("http://ads.example.com/a.js", "", ResourceType::Unknown));
    match o {
        MatchOutcome::Blocked { matched_rule } => {
            assert_eq!(matched_rule.source, Some(b"||ads.example.com^".to_vec()));
        }
        other => panic!("expected Blocked, got {:?}", outcome_name(&other)),
    }
}

#[test]
fn non_debug_set_retains_no_source_line() {
    let mut fs = FilterSet::new(false);
    fs.add_filters(&lines(&["||ads.example.com^"]));
    let e = Engine::from_filter_set(fs);
    let o = e.evaluate(&req("http://ads.example.com/a.js", "", ResourceType::Unknown));
    match o {
        MatchOutcome::Blocked { matched_rule } => {
            assert_eq!(matched_rule.source, None);
        }
        other => panic!("expected Blocked, got {:?}", outcome_name(&other)),
    }
}

#[test]
fn adding_block_rules_never_unblocks() {
    let base = &["||ads.example.com^"];
    let e1 = engine_from(base);
    let e2 = engine_from(&["||ads.example.com^", "||other.example^", "0.0.0.0 t.example"]);
    let r = req("http://ads.example.com/a.js", "", ResourceType::Unknown);
    assert!(matches!(e1.evaluate(&r), MatchOutcome::Blocked { .. }));
    assert!(matches!(
        e2.evaluate(&r),
        MatchOutcome::Blocked { .. } | MatchOutcome::BlockedImportant { .. }
    ));
}

fn outcome_name(o: &MatchOutcome) -> &'static str {
    match o {
        MatchOutcome::NoMatch => "NoMatch",
        MatchOutcome::Blocked { .. } => "Blocked",
        MatchOutcome::BlockedImportant { .. } => "BlockedImportant",
        MatchOutcome::Redirected { .. } => "Redirected",
        MatchOutcome::Rewritten { .. } => "Rewritten",
        MatchOutcome::Excepted { .. } => "Excepted",
    }
}
