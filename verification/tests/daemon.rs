use repo_manager::daemon::RateLimiter;
use repo_manager::history::related_list_report;
use repo_manager::locator::Locator;
use repo_manager::registry_relations::RelatedSuggestion;

#[test]
fn rate_limiter_defaults_to_one_request_per_second_per_client() {
    let mut limiter = RateLimiter::new(1);

    assert!(limiter.allow("client-a"));
    assert!(!limiter.allow("client-a"));
    assert!(limiter.allow("client-b"));
}

#[test]
fn rate_limiter_can_be_disabled() {
    let mut limiter = RateLimiter::new(0);

    assert!(limiter.allow("client-a"));
    assert!(limiter.allow("client-a"));
}

#[test]
fn related_report_does_not_use_legacy_non_root_evidence() {
    let legacy = RelatedSuggestion {
        id: 7,
        repo_id: 1,
        repo_locator: Locator::parse("example.com/first").unwrap(),
        repo_path: "/missing/first".to_string(),
        related_repo_id: 2,
        related_locator: Locator::parse("example.com/second").unwrap(),
        related_path: "/missing/second".to_string(),
        shared_refs: vec!["shared commit aaaaaaaaaaaa".to_string()],
        resolution: None,
    };

    let report = related_list_report(&vec![legacy], &vec![None]);

    assert_eq!(report.suggestions[0].evidence.summary, "unknown");
    assert!(report.suggestions[0].evidence.details.is_empty());
}

#[test]
fn lib_rate_limiter_defaults_to_one_request_per_second_per_client() {
    let mut limiter = RateLimiter::new(1);

    assert!(limiter.allow("client-a"));
    assert!(!limiter.allow("client-a"));
    assert!(limiter.allow("client-b"));
}

#[test]
fn lib_rate_limiter_can_be_disabled() {
    let mut limiter = RateLimiter::new(0);

    assert!(limiter.allow("client-a"));
    assert!(limiter.allow("client-a"));
}

#[test]
fn lib_related_report_does_not_use_legacy_non_root_evidence() {
    let legacy = RelatedSuggestion {
        id: 7,
        repo_id: 1,
        repo_locator: Locator::parse("example.com/first").unwrap(),
        repo_path: "/missing/first".to_string(),
        related_repo_id: 2,
        related_locator: Locator::parse("example.com/second").unwrap(),
        related_path: "/missing/second".to_string(),
        shared_refs: vec!["shared commit aaaaaaaaaaaa".to_string()],
        resolution: None,
    };

    let report = related_list_report(&vec![legacy], &vec![None]);

    assert_eq!(report.suggestions[0].evidence.summary, "unknown");
    assert!(report.suggestions[0].evidence.details.is_empty());
}
