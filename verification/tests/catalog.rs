use release_sync::catalog::{latest_release, releases_in_window, ReleaseEvent, BATCH_LIMIT};
use release_sync::error::SyncError;
use release_sync::window::{window_ending_at, Timestamp, Window, WEEK_MICROS};

const SECOND: i64 = 1_000_000;
const DAY: i64 = 86_400 * SECOND;

fn release(micros: i64, name: &str, version: &str) -> ReleaseEvent {
    ReleaseEvent {
        created_at: Timestamp { micros },
        package_name: name.to_string(),
        version: version.to_string(),
    }
}

fn week_ending(micros: i64) -> Window {
    window_ending_at(Some(Timestamp { micros })).unwrap()
}

#[test]
fn window_is_the_week_before_the_end() {
    let end = 1_700_000_000 * SECOND;
    let window = week_ending(end);
    assert_eq!(window.end, Timestamp { micros: end });
    assert_eq!(window.start, Timestamp { micros: end - 7 * DAY });
    assert_eq!(WEEK_MICROS, 7 * DAY);
    assert_eq!(WEEK_MICROS, 604_800_000_000);
}

#[test]
fn no_release_means_no_window() {
    assert_eq!(window_ending_at(None), Err(SyncError::NoData));
}

#[test]
fn window_before_the_earliest_moment_is_malformed() {
    let end = Timestamp { micros: i64::MIN + WEEK_MICROS - 1 };
    assert_eq!(window_ending_at(Some(end)), Err(SyncError::MalformedWindow));
    let edge = Timestamp { micros: i64::MIN + WEEK_MICROS };
    assert_eq!(
        window_ending_at(Some(edge)),
        Ok(Window { start: Timestamp { micros: i64::MIN }, end: edge })
    );
}

#[test]
fn window_holds_both_of_its_ends() {
    let end = 1_700_000_000 * SECOND;
    let window = week_ending(end);
    assert!(window.holds(Timestamp { micros: end }));
    assert!(window.holds(Timestamp { micros: end - 7 * DAY }));
    assert!(!window.holds(Timestamp { micros: end - 7 * DAY - 1 }));
    assert!(!window.holds(Timestamp { micros: end + 1 }));
}

#[test]
fn fetcher_keeps_only_the_window() {
    let end = 1_700_000_000 * SECOND;
    let catalog = vec![
        release(end - 7 * DAY - SECOND, "old", "0.1"),
        release(end, "newest", "2.0"),
        release(end - 7 * DAY, "edge", "1.0"),
        release(end + SECOND, "later", "3.0"),
        release(end - DAY, "middle", "1.5"),
    ];
    let batch = releases_in_window(&catalog, &week_ending(end));
    assert!(!batch.truncated);
    assert_eq!(
        batch.releases,
        vec![
            release(end, "newest", "2.0"),
            release(end - DAY, "middle", "1.5"),
            release(end - 7 * DAY, "edge", "1.0"),
        ]
    );
}

#[test]
fn fetcher_yields_newest_first() {
    let end = 1_700_000_000 * SECOND;
    let (t1, t2, t3) = (end, end - DAY, end - 2 * DAY);
    let window = week_ending(end);
    let expected = vec![release(t1, "a", "1"), release(t2, "b", "1"), release(t3, "c", "1")];
    let orders: [[i64; 3]; 6] =
        [[t1, t2, t3], [t1, t3, t2], [t2, t1, t3], [t2, t3, t1], [t3, t1, t2], [t3, t2, t1]];
    for order in orders {
        let catalog: Vec<ReleaseEvent> = order
            .iter()
            .map(|at| release(*at, if *at == t1 { "a" } else if *at == t2 { "b" } else { "c" }, "1"))
            .collect();
        assert_eq!(releases_in_window(&catalog, &window).releases, expected);
    }
}

#[test]
fn releases_of_one_moment_keep_catalog_order() {
    let end = 1_700_000_000 * SECOND;
    let catalog = vec![
        release(end - DAY, "first", "1"),
        release(end, "top", "1"),
        release(end - DAY, "second", "1"),
        release(end - DAY, "third", "1"),
    ];
    let batch = releases_in_window(&catalog, &week_ending(end));
    let names: Vec<&str> = batch.releases.iter().map(|r| r.package_name.as_str()).collect();
    assert_eq!(names, vec!["top", "first", "second", "third"]);
}

#[test]
fn empty_window_is_no_error() {
    let end = 1_700_000_000 * SECOND;
    let catalog = vec![release(end - 30 * DAY, "old", "0.1")];
    let batch = releases_in_window(&catalog, &week_ending(end));
    assert!(batch.releases.is_empty());
    assert!(!batch.truncated);
    assert!(releases_in_window(&Vec::new(), &week_ending(end)).releases.is_empty());
}

#[test]
fn full_window_is_truncated_to_the_newest() {
    let end = 1_700_000_000 * SECOND;
    let mut catalog = Vec::new();
    for i in 0..(BATCH_LIMIT as i64 + 5) {
        catalog.push(release(end - i, "pkg", "1"));
    }
    let batch = releases_in_window(&catalog, &week_ending(end));
    assert!(batch.truncated);
    assert_eq!(batch.releases.len(), BATCH_LIMIT);
    assert_eq!(batch.releases[0].created_at, Timestamp { micros: end });
    assert_eq!(
        batch.releases[BATCH_LIMIT - 1].created_at,
        Timestamp { micros: end - (BATCH_LIMIT as i64 - 1) }
    );
    catalog.truncate(BATCH_LIMIT);
    let exact = releases_in_window(&catalog, &week_ending(end));
    assert!(!exact.truncated);
    assert_eq!(exact.releases.len(), BATCH_LIMIT);
}

#[test]
fn latest_release_is_the_maximum() {
    assert_eq!(latest_release(&Vec::new()), None);
    let catalog = vec![release(5, "a", "1"), release(9, "b", "1"), release(-3, "c", "1"), release(9, "d", "1")];
    assert_eq!(latest_release(&catalog), Some(Timestamp { micros: 9 }));
}

#[test]
fn duplicate_has_the_same_content() {
    let first = release(42, "pkg", "1.0.0");
    assert_eq!(first.duplicate(), first);
}
