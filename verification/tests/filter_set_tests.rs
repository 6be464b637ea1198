use abrw_filter::filter_set::FilterSet;

fn lines(v: &[&str]) -> Vec<Vec<u8>> {
    let mut out = Vec::new();
    for s in v {
        out.push(s.as_bytes().to_vec());
    }
    out
}

const TEN_VALID: [&str; 10] = [
    "||ads1.example^",
    "||ads2.example^",
    "||ads3.example^",
    "0.0.0.0 tracker1.example",
    "0.0.0.0 tracker2.example",
    "-advertisement.",
    "-banner-ad.",
    "@@||good.example^",
    "||ads4.example^$script",
    "||ads5.example^$domain=news.example",
];

#[test]
fn new_set_is_empty() {
    let fs = FilterSet::new(false);
    assert_eq!(fs.usable_count(), 0);
    assert_eq!(fs.block_count(), 0);
    assert_eq!(fs.exception_count(), 0);
    assert_eq!(fs.unsupported_count(), 0);
}

#[test]
fn malformed_line_costs_that_line_only() {
    let mut fs = FilterSet::new(false);
    let mut all = lines(&TEN_VALID);
    all.push(b"$$$garbage###".to_vec());
    fs.add_filters(&all);
    assert_eq!(fs.usable_count(), 10);
    assert_eq!(fs.unsupported_count(), 1);
}

#[test]
fn comments_and_blanks_are_skipped_silently() {
    let mut fs = FilterSet::new(false);
    fs.add_filters(&lines(&[
        "! a comment",
        "",
        "[Adblock Plus 2.0]",
        "||ads.example^",
        "   ",
    ]));
    assert_eq!(fs.usable_count(), 1);
    assert_eq!(fs.unsupported_count(), 0);
}

#[test]
fn rules_are_partitioned_by_exception_flag() {
    let mut fs = FilterSet::new(false);
    fs.add_filters(&lines(&["||ads.example^", "@@||good.example^", "||more.example^"]));
    assert_eq!(fs.block_count(), 2);
    assert_eq!(fs.exception_count(), 1);
}

#[test]
fn re_adding_identical_lines_changes_nothing() {
    let mut fs = FilterSet::new(false);
    fs.add_filters(&lines(&TEN_VALID));
    let before = fs.usable_count();
    fs.add_filters(&lines(&TEN_VALID));
    assert_eq!(fs.usable_count(), before);
    assert_eq!(fs.unsupported_count(), 0);
}

#[test]
fn duplicate_line_within_one_batch_is_suppressed() {
    let mut fs = FilterSet::new(false);
    fs.add_filters(&lines(&["||ads.example^", "||ads.example^"]));
    assert_eq!(fs.block_count(), 1);
}

#[test]
fn adding_never_removes() {
    let mut fs = FilterSet::new(false);
    fs.add_filters(&lines(&["||ads.example^"]));
    assert_eq!(fs.block_count(), 1);
    fs.add_filters(&lines(&["||other.example^", "@@||good.example^"]));
    assert_eq!(fs.block_count(), 2);
    assert_eq!(fs.exception_count(), 1);
}

#[test]
fn add_line_folds_one_line() {
    let mut fs = FilterSet::new(false);
    fs.add_line(b"||ads.example^");
    fs.add_line(b"! nothing");
    assert_eq!(fs.block_count(), 1);
}

#[test]
fn debug_flag_is_kept() {
    let fs = FilterSet::new(true);
    assert!(fs.debug());
    let fs2 = FilterSet::new(false);
    assert!(!fs2.debug());
}
