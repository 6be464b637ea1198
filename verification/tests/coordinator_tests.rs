use abrw_filter::coordinator::{
    FetchError, RefreshCoordinator, RefreshError, SourceFetch,
};
use abrw_filter::engine::{MatchOutcome, Request};
use abrw_filter::rule::ResourceType;

fn lines(v: &[&str]) -> Vec<Vec<u8>> {
    let mut out = Vec::new();
    for s in v {
        out.push(s.as_bytes().to_vec());
    }
    out
}

fn req(url: &str) -> Request {
    Request {
        url: url.as_bytes().to_vec(),
        initiating_domain: Vec::new(),
        resource_type: ResourceType::Unknown,
    }
}

#[test]
fn new_coordinator_publishes_empty_snapshot() {
    let c = RefreshCoordinator::new(false);
    assert_eq!(c.epoch(), 0);
    assert!(!c.is_refreshing());
    assert_eq!(c.current().block_count(), 0);
    assert!(matches!(
        c.evaluate_request(&req("http://ads.example.com/a.js")),
        MatchOutcome::NoMatch
    ));
}

#[test]
fn partial_fetch_failure_still_publishes_the_successes() {
    let mut c = RefreshCoordinator::new(false);
    let results = vec![
        SourceFetch::Fetched(lines(&["||ads.example^"])),
        SourceFetch::Failed(FetchError::Network),
        SourceFetch::Fetched(lines(&["0.0.0.0 tracker.example"])),
    ];
    assert_eq!(c.refresh(&results), Ok(()));
    assert_eq!(c.epoch(), 1);
    // Rules from both fetched sources are in force.
    assert!(matches!(
        c.evaluate_request(&req("http://ads.example/a.js")),
        MatchOutcome::Blocked { .. }
    ));
    assert!(matches!(
        c.evaluate_request(&req("http://tracker.example/")),
        MatchOutcome::Blocked { .. }
    ));
}

#[test]
fn all_sources_failed_keeps_prior_snapshot() {
    let mut c = RefreshCoordinator::new(false);
    let first = vec![SourceFetch::Fetched(lines(&["||ads.example^"]))];
    assert_eq!(c.refresh(&first), Ok(()));
    assert_eq!(c.epoch(), 1);

    let all_failed = vec![
        SourceFetch::Failed(FetchError::Network),
        SourceFetch::Failed(FetchError::HttpStatus(503)),
        SourceFetch::Failed(FetchError::Decode),
    ];
    assert_eq!(c.refresh(&all_failed), Err(RefreshError::AllSourcesFailed));
    assert_eq!(c.epoch(), 1);
    // The prior snapshot remains in force.
    assert!(matches!(
        c.evaluate_request(&req("http://ads.example/a.js")),
        MatchOutcome::Blocked { .. }
    ));
    assert!(!c.is_refreshing());
}

#[test]
fn no_sources_at_all_counts_as_all_failed() {
    let mut c = RefreshCoordinator::new(false);
    assert_eq!(c.refresh(&Vec::new()), Err(RefreshError::AllSourcesFailed));
    assert_eq!(c.epoch(), 0);
}

#[test]
fn second_refresh_in_flight_is_rejected() {
    let mut c = RefreshCoordinator::new(false);
    assert_eq!(c.begin_refresh(), Ok(()));
    assert!(c.is_refreshing());
    assert_eq!(c.begin_refresh(), Err(RefreshError::AlreadyInProgress));
    let results = vec![SourceFetch::Fetched(lines(&["||ads.example^"]))];
    assert_eq!(c.refresh(&results), Err(RefreshError::AlreadyInProgress));
    // The in-flight refresh can still finish and publish.
    assert_eq!(c.finish_refresh(&results), Ok(()));
    assert!(!c.is_refreshing());
    assert_eq!(c.epoch(), 1);
}

#[test]
fn refresh_replaces_the_snapshot_wholesale() {
    let mut c = RefreshCoordinator::new(false);
    let first = vec![SourceFetch::Fetched(lines(&["||old.example^"]))];
    assert_eq!(c.refresh(&first), Ok(()));
    assert!(matches!(
        c.evaluate_request(&req("http://old.example/")),
        MatchOutcome::Blocked { .. }
    ));

    // The next refresh is built from scratch: the old rule is gone, the
    // new one is in force, and the epoch says a publish happened.
    let second = vec![SourceFetch::Fetched(lines(&["||new.example^"]))];
    assert_eq!(c.refresh(&second), Ok(()));
    assert_eq!(c.epoch(), 2);
    assert!(matches!(
        c.evaluate_request(&req("http://old.example/")),
        MatchOutcome::NoMatch
    ));
    assert!(matches!(
        c.evaluate_request(&req("http://new.example/")),
        MatchOutcome::Blocked { .. }
    ));
}

#[test]
fn debug_refresh_keeps_source_lines() {
    let mut c = RefreshCoordinator::new(true);
    let results = vec![SourceFetch::Fetched(lines(&["||ads.example^"]))];
    assert_eq!(c.refresh(&results), Ok(()));
    match c.evaluate_request(&req("http://ads.example/a.js")) {
        MatchOutcome::Blocked { matched_rule } => {
            assert_eq!(matched_rule.source, Some(b"||ads.example^".to_vec()));
        }
        _ => panic!("expected Blocked"),
    }
}
