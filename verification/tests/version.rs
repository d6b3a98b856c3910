use release_sync::error::ResolveError;
use release_sync::text::{compare_text, same_text, TextOrder};
use release_sync::version::{position, previous_version, sort_versions};

fn history(versions: &[&str]) -> Vec<String> {
    versions.iter().map(|v| v.to_string()).collect()
}

#[test]
fn predecessor_follows_text_order() {
    let versions = history(&["1.0.0", "1.2.0", "1.10.0"]);
    assert_eq!(previous_version(&versions, "1.2.0"), Ok(Some("1.10.0".to_string())));
    assert_eq!(previous_version(&versions, "1.10.0"), Ok(Some("1.0.0".to_string())));
}

#[test]
fn earliest_version_has_no_predecessor() {
    let versions = history(&["1.0.0", "1.2.0", "1.10.0"]);
    assert_eq!(previous_version(&versions, "1.0.0"), Ok(None));
    assert_eq!(previous_version(&history(&["3.1"]), "3.1"), Ok(None));
}

#[test]
fn missing_target_is_refused() {
    let versions = history(&["1.0.0", "1.2.0", "1.10.0"]);
    assert_eq!(previous_version(&versions, "2.0.0"), Err(ResolveError::VersionNotFound));
    assert_eq!(previous_version(&Vec::new(), "1.0.0"), Err(ResolveError::VersionNotFound));
}

#[test]
fn ten_sorts_before_two() {
    let versions = history(&["2.0.0", "10.0.0", "9.0.0"]);
    assert_eq!(sort_versions(&versions), history(&["10.0.0", "2.0.0", "9.0.0"]));
    assert_eq!(previous_version(&versions, "2.0.0"), Ok(Some("10.0.0".to_string())));
    assert_eq!(previous_version(&versions, "10.0.0"), Ok(None));
}

#[test]
fn repeated_versions_are_passed_over() {
    let versions = history(&["1.1", "1.0", "1.1", "1.0", "1.2"]);
    assert_eq!(sort_versions(&versions), history(&["1.0", "1.0", "1.1", "1.1", "1.2"]));
    assert_eq!(previous_version(&versions, "1.1"), Ok(Some("1.0".to_string())));
    assert_eq!(previous_version(&versions, "1.2"), Ok(Some("1.1".to_string())));
    assert_eq!(previous_version(&versions, "1.0"), Ok(None));
}

#[test]
fn sorting_agrees_with_the_standard_order() {
    let versions = history(&["b", "", "a", "ab", "B", "é", "z", "a.1", "a-1", "日本", "~"]);
    let mut expected = versions.clone();
    expected.sort();
    assert_eq!(sort_versions(&versions), expected);
}

#[test]
fn position_is_the_first_place() {
    let versions = history(&["a", "b", "a", "c"]);
    assert_eq!(position(&versions, "a"), Some(0));
    assert_eq!(position(&versions, "c"), Some(3));
    assert_eq!(position(&versions, "d"), None);
}

#[test]
fn text_comparison_goes_by_code_points() {
    assert_eq!(compare_text("1.10.0", "1.2.0"), TextOrder::Before);
    assert_eq!(compare_text("1.2.0", "1.10.0"), TextOrder::After);
    assert_eq!(compare_text("1.2", "1.2.0"), TextOrder::Before);
    assert_eq!(compare_text("", ""), TextOrder::Same);
    assert_eq!(compare_text("", "a"), TextOrder::Before);
    assert_eq!(compare_text("z", "é"), TextOrder::Before);
    assert_eq!(compare_text("abc", "abc"), TextOrder::Same);
    assert!(same_text("1.0.0", "1.0.0"));
    assert!(!same_text("1.0.0", "1.0"));
}
