use release_sync::catalog::ReleaseEvent;
use release_sync::error::SyncError;
use release_sync::store::{ResolvedRelease, ReviewRecord, ReviewStore, TEXT_LIMIT};
use release_sync::window::Timestamp;

fn release(micros: i64, name: &str, version: &str) -> ReleaseEvent {
    ReleaseEvent {
        created_at: Timestamp { micros },
        package_name: name.to_string(),
        version: version.to_string(),
    }
}

fn resolved(micros: i64, name: &str, version: &str, previous: Option<&str>) -> ResolvedRelease {
    ResolvedRelease {
        release: release(micros, name, version),
        previous_version: previous.map(|p| p.to_string()),
    }
}

fn record(micros: i64, name: &str, version: &str, previous: Option<&str>) -> ReviewRecord {
    ReviewRecord {
        package_name: name.to_string(),
        version: version.to_string(),
        created_at: Timestamp { micros },
        previous_version: previous.map(|p| p.to_string()),
        reviewed: false,
        reviewer_ids: Vec::new(),
    }
}

#[test]
fn new_store_is_empty() {
    let store = ReviewStore::new();
    assert_eq!(store.len(), 0);
    assert!(store.records().is_empty());
}

#[test]
fn upsert_inserts_a_fresh_record() {
    let mut store = ReviewStore::new();
    assert_eq!(store.upsert(resolved(10, "foo", "1.2.0", Some("1.10.0"))), Ok(true));
    assert_eq!(store.upsert(resolved(11, "foo", "1.3.0", None)), Ok(true));
    assert_eq!(
        store.records(),
        &vec![record(10, "foo", "1.2.0", Some("1.10.0")), record(11, "foo", "1.3.0", None)]
    );
}

#[test]
fn upsert_of_a_known_release_is_ignored() {
    let mut store = ReviewStore::new();
    assert_eq!(store.upsert(resolved(10, "foo", "1.2.0", Some("1.10.0"))), Ok(true));
    assert_eq!(store.upsert(resolved(10, "foo", "1.2.0", Some("1.10.0"))), Ok(false));
    assert_eq!(store.upsert(resolved(10, "foo", "1.2.0", Some("1.1.0"))), Ok(false));
    assert_eq!(store.upsert(resolved(10, "foo", "1.2.0", None)), Ok(false));
    assert_eq!(store.records(), &vec![record(10, "foo", "1.2.0", Some("1.10.0"))]);
}

#[test]
fn key_is_name_version_and_moment_together() {
    let mut store = ReviewStore::new();
    assert_eq!(store.upsert(resolved(10, "foo", "1.0", None)), Ok(true));
    assert_eq!(store.upsert(resolved(11, "foo", "1.0", None)), Ok(true));
    assert_eq!(store.upsert(resolved(10, "bar", "1.0", None)), Ok(true));
    assert_eq!(store.upsert(resolved(10, "foo", "1.1", None)), Ok(true));
    assert_eq!(store.upsert(resolved(10, "foo", "1.0", Some("0.9"))), Ok(false));
    assert_eq!(store.len(), 4);
}

#[test]
fn upsert_never_touches_review_state() {
    let mut reviewed = record(10, "foo", "1.2.0", Some("1.10.0"));
    reviewed.reviewed = true;
    reviewed.reviewer_ids = vec![7, 12];
    let mut store = ReviewStore::from_records(vec![reviewed]).unwrap();
    assert_eq!(store.upsert(resolved(10, "foo", "1.2.0", Some("1.0.0"))), Ok(false));
    let held = &store.records()[0];
    assert!(held.reviewed);
    assert_eq!(held.reviewer_ids, vec![7, 12]);
    assert_eq!(held.previous_version, Some("1.10.0".to_string()));
    assert_eq!(store.len(), 1);
}

#[test]
fn second_pass_leaves_the_store_as_it_is() {
    let pass = || {
        vec![
            resolved(30, "foo", "1.2.0", Some("1.10.0")),
            resolved(20, "bar", "0.1", None),
            resolved(10, "foo", "1.10.0", Some("1.0.0")),
        ]
    };
    let mut store = ReviewStore::new();
    for item in pass() {
        assert_eq!(store.upsert(item), Ok(true));
    }
    let after_one = vec![
        record(30, "foo", "1.2.0", Some("1.10.0")),
        record(20, "bar", "0.1", None),
        record(10, "foo", "1.10.0", Some("1.0.0")),
    ];
    assert_eq!(store.records(), &after_one);
    for item in pass() {
        assert_eq!(store.upsert(item), Ok(false));
    }
    assert_eq!(store.records(), &after_one);
}

#[test]
fn overlong_texts_are_refused() {
    let long = "x".repeat(TEXT_LIMIT);
    let fits = "x".repeat(TEXT_LIMIT - 1);
    let mut store = ReviewStore::new();
    assert_eq!(store.upsert(resolved(1, &long, "1.0", None)), Err(SyncError::Storage));
    assert_eq!(store.upsert(resolved(1, "foo", &long, None)), Err(SyncError::Storage));
    assert_eq!(store.upsert(resolved(1, "foo", "1.0", Some(&long))), Err(SyncError::Storage));
    assert_eq!(store.len(), 0);
    assert_eq!(store.upsert(resolved(1, &fits, &fits, Some(&fits))), Ok(true));
    assert_eq!(store.len(), 1);
}

#[test]
fn length_is_counted_in_characters() {
    let fits = "é".repeat(TEXT_LIMIT - 1);
    let long = "é".repeat(TEXT_LIMIT);
    assert!(record(1, &fits, "1.0", None).is_admissible());
    assert!(!record(1, &long, "1.0", None).is_admissible());
    assert!(!record(1, "foo", "1.0", Some(&long)).is_admissible());
}

#[test]
fn store_is_loaded_only_from_distinct_records() {
    let distinct = vec![record(1, "foo", "1.0", None), record(2, "foo", "1.0", None)];
    let loaded = ReviewStore::from_records(distinct).unwrap();
    assert_eq!(loaded.len(), 2);
    let twice = vec![record(1, "foo", "1.0", None), record(1, "foo", "1.0", Some("0.9"))];
    assert!(ReviewStore::from_records(twice).is_none());
    let long = vec![record(1, &"x".repeat(TEXT_LIMIT), "1.0", None)];
    assert!(ReviewStore::from_records(long).is_none());
    assert_eq!(ReviewStore::from_records(Vec::new()).unwrap().len(), 0);
}

#[test]
fn record_is_found_by_its_release() {
    let mut store = ReviewStore::new();
    store.upsert(resolved(10, "foo", "1.0", Some("0.9"))).unwrap();
    store.upsert(resolved(20, "bar", "2.0", None)).unwrap();
    assert_eq!(store.find(&release(20, "bar", "2.0")), Some(&record(20, "bar", "2.0", None)));
    assert_eq!(store.find(&release(10, "foo", "1.0")), Some(&record(10, "foo", "1.0", Some("0.9"))));
    assert_eq!(store.find(&release(10, "bar", "2.0")), None);
    assert!(record(10, "foo", "1.0", None).is_for(&release(10, "foo", "1.0")));
    assert!(!record(10, "foo", "1.0", None).is_for(&release(10, "foo", "1.1")));
    assert!(record(10, "foo", "1.0", None).same_key(&record(10, "foo", "1.0", Some("0.9"))));
    assert!(!record(10, "foo", "1.0", None).same_key(&record(11, "foo", "1.0", None)));
}
