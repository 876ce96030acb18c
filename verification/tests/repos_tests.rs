use eval::pipeline::RepositoryOutcome;
use eval::repos::{distinct_urls, plan_repository, verify_origin, RepositoryAction};

fn strings(items: &[&str]) -> Vec<String> {
    items.iter().map(|s| s.to_string()).collect()
}

#[test]
fn scenario_shared_url_is_prepared_once() {
    let urls = strings(&["https://example/repo.git", "https://example/repo.git"]);
    assert_eq!(distinct_urls(&urls), vec![0]);
}

#[test]
fn one_operation_per_distinct_url() {
    let urls = strings(&["a", "b", "a", "c", "b", "a", "d"]);
    assert_eq!(distinct_urls(&urls), vec![0, 1, 3, 6]);
}

#[test]
fn no_instances_no_operations() {
    assert!(distinct_urls(&Vec::new()).is_empty());
}

#[test]
fn all_distinct_urls_each_get_an_operation() {
    let urls = strings(&["a", "b", "c"]);
    assert_eq!(distinct_urls(&urls), vec![0, 1, 2]);
}

#[test]
fn unprepared_repository_is_prepared_and_prepared_one_verified() {
    assert_eq!(plan_repository(false), RepositoryAction::Prepare);
    assert_eq!(plan_repository(true), RepositoryAction::Verify);
}

#[test]
fn origin_is_checked_against_expected_url() {
    let expected = "https://example/repo.git".to_string();
    assert_eq!(
        verify_origin(&Some("https://example/repo.git".to_string()), &expected),
        RepositoryOutcome::Ready
    );
    assert_eq!(
        verify_origin(&Some("https://example/other.git".to_string()), &expected),
        RepositoryOutcome::Mismatch
    );
    assert_eq!(verify_origin(&None, &expected), RepositoryOutcome::Failed);
}
