use abrw_filter::parse::{parse_line, LineParse};
use abrw_filter::rule::{FilterRule, Pattern};

fn parsed(line: &str) -> Option<FilterRule> {
    match parse_line(line.as_bytes(), false) {
        LineParse::Rule(r) => Some(r),
        LineParse::NotARule => None,
    }
}

#[test]
fn blank_line_is_not_a_rule() {
    assert!(parsed("").is_none());
    assert!(parsed("   \t  ").is_none());
}

#[test]
fn comment_line_is_not_a_rule() {
    assert!(parsed("! this is a comment").is_none());
}

#[test]
fn list_header_is_not_a_rule() {
    assert!(parsed("[Adblock Plus 2.0]").is_none());
}

#[test]
fn hosts_file_comment_is_not_a_rule() {
    assert!(parsed("# Title: StevenBlack/hosts").is_none());
}

#[test]
fn plain_substring_pattern() {
    let r = parsed("-advertisement.").unwrap();
    match r.pattern {
        Pattern::Substring { text } => assert_eq!(text, b"-advertisement.".to_vec()),
        _ => panic!("expected a substring pattern"),
    }
    assert!(!r.is_exception);
    assert!(!r.important);
}

#[test]
fn surrounding_whitespace_is_trimmed() {
    let r = parsed("  -advertisement.  \r").unwrap();
    match r.pattern {
        Pattern::Substring { text } => assert_eq!(text, b"-advertisement.".to_vec()),
        _ => panic!("expected a substring pattern"),
    }
}

#[test]
fn domain_anchor_pattern() {
    let r = parsed("||ads.example.com^").unwrap();
    match r.pattern {
        Pattern::DomainAnchor { domain, path } => {
            assert_eq!(domain, b"ads.example.com".to_vec());
            assert_eq!(path, b"".to_vec());
        }
        _ => panic!("expected a domain anchor"),
    }
}

#[test]
fn domain_anchor_without_caret() {
    let r = parsed("||ads.example.com").unwrap();
    assert!(matches!(r.pattern, Pattern::DomainAnchor { .. }));
}

#[test]
fn domain_anchor_with_path() {
    let r = parsed("||ads.example.com/allowed.js").unwrap();
    match r.pattern {
        Pattern::DomainAnchor { domain, path } => {
            assert_eq!(domain, b"ads.example.com".to_vec());
            assert_eq!(path, b"/allowed.js".to_vec());
        }
        _ => panic!("expected a domain anchor with path"),
    }
}

#[test]
fn exception_marker_sets_flag() {
    let r = parsed("@@||ads.example.com^").unwrap();
    assert!(r.is_exception);
    assert!(matches!(r.pattern, Pattern::DomainAnchor { .. }));
}

#[test]
fn hosts_line_becomes_domain_block() {
    let r = parsed("0.0.0.0 tracker.example").unwrap();
    match r.pattern {
        Pattern::DomainAnchor { domain, path } => {
            assert_eq!(domain, b"tracker.example".to_vec());
            assert_eq!(path, b"".to_vec());
        }
        _ => panic!("expected a domain anchor"),
    }
    assert!(!r.is_exception);
}

#[test]
fn hosts_line_ignores_trailing_comment() {
    let r = parsed("0.0.0.0 tracker.example # seen in the wild").unwrap();
    match r.pattern {
        Pattern::DomainAnchor { domain, .. } => {
            assert_eq!(domain, b"tracker.example".to_vec());
        }
        _ => panic!("expected a domain anchor"),
    }
}

#[test]
fn cosmetic_filter_is_recorded_as_unsupported() {
    let r = parsed("example.com##.ad-banner").unwrap();
    assert!(matches!(r.pattern, Pattern::Unsupported));
}

#[test]
fn malformed_garbage_is_recorded_as_unsupported() {
    let r = parsed("$$$garbage###").unwrap();
    assert!(matches!(r.pattern, Pattern::Unsupported));
}

#[test]
fn important_option_sets_flag() {
    let r = parsed("||ads.example.com^$important").unwrap();
    assert!(r.important);
}

#[test]
fn unknown_option_makes_rule_unsupported() {
    let r = parsed("||ads.example.com^$frobnicate").unwrap();
    assert!(matches!(r.pattern, Pattern::Unsupported));
}

#[test]
fn script_option_narrows_mask() {
    let r = parsed("||ads.example.com^$script").unwrap();
    assert!(r.mask.script);
    assert!(!r.mask.image);
    assert!(!r.mask.stylesheet);
    assert!(!r.mask.other);
}

#[test]
fn no_option_leaves_mask_unrestricted() {
    let r = parsed("||ads.example.com^").unwrap();
    assert!(r.mask.script && r.mask.image && r.mask.stylesheet && r.mask.other);
}

#[test]
fn domain_option_splits_include_and_exclude() {
    let r = parsed("||ads.example.com^$domain=news.example|~blog.news.example").unwrap();
    assert_eq!(r.include_domains, vec![b"news.example".to_vec()]);
    assert_eq!(r.exclude_domains, vec![b"blog.news.example".to_vec()]);
}

#[test]
fn redirect_option_sets_target() {
    let r = parsed("adbanner.gif$redirect=blank.gif").unwrap();
    assert_eq!(r.redirect_target, Some(b"blank.gif".to_vec()));
    assert_eq!(r.rewrite_target, None);
}

#[test]
fn rewrite_option_sets_target() {
    let r = parsed("adbanner.gif$rewrite=about:blank").unwrap();
    assert_eq!(r.rewrite_target, Some(b"about:blank".to_vec()));
    assert_eq!(r.redirect_target, None);
}

#[test]
fn empty_redirect_target_makes_rule_unsupported() {
    let r = parsed("adbanner.gif$redirect=").unwrap();
    assert!(matches!(r.pattern, Pattern::Unsupported));
}

#[test]
fn wildcard_pattern_splits_into_parts() {
    let r = parsed("ad*banner").unwrap();
    match r.pattern {
        Pattern::Wildcard { parts } => {
            assert_eq!(parts, vec![b"ad".to_vec(), b"banner".to_vec()]);
        }
        _ => panic!("expected a wildcard pattern"),
    }
}

#[test]
fn start_anchor_pattern_is_recorded_as_unsupported() {
    let r = parsed("|http://example.com").unwrap();
    assert!(matches!(r.pattern, Pattern::Unsupported));
}

#[test]
fn anchor_with_inner_caret_is_unsupported() {
    let r = parsed("||ads.example.com^script").unwrap();
    assert!(matches!(r.pattern, Pattern::Unsupported));
}

#[test]
fn keep_source_retains_trimmed_line() {
    let line = "  ||ads.example.com^  ";
    match parse_line(line.as_bytes(), true) {
        LineParse::Rule(r) => assert_eq!(r.source, Some(b"||ads.example.com^".to_vec())),
        LineParse::NotARule => panic!("expected a rule"),
    }
}
