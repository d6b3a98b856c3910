use release_sync::catalog::{latest_release, ReleaseEvent};
use release_sync::error::{ResolveError, SyncError};
use release_sync::registry::RegistryReply;
use release_sync::store::{ResolvedRelease, ReviewRecord, ReviewStore};
use release_sync::sync::{Command, Event, FailurePolicy, Orchestrator, Summary, PACING_MILLIS};
use release_sync::window::{Timestamp, Window, WEEK_MICROS};

const BASE: &str = "https://registry.example";
const END: i64 = 1_700_000_000_000_000;
const DAY: i64 = 86_400_000_000;

fn release(micros: i64, name: &str, version: &str) -> ReleaseEvent {
    ReleaseEvent {
        created_at: Timestamp { micros },
        package_name: name.to_string(),
        version: version.to_string(),
    }
}

fn record(micros: i64, name: &str, version: &str, previous: Option<&str>) -> ReviewRecord {
    ReviewRecord {
        package_name: name.to_string(),
        version: version.to_string(),
        created_at: Timestamp { micros },
        previous_version: previous.map(|p| p.to_string()),
        reviewed: false,
        reviewer_ids: Vec::new(),
    }
}

fn catalog() -> Vec<ReleaseEvent> {
    vec![
        release(END - 2 * DAY, "bar", "0.2"),
        release(END - 30 * DAY, "foo", "1.0.0"),
        release(END, "foo", "1.2.0"),
        release(END - DAY, "baz", "3.0"),
    ]
}

fn registry(url: &str) -> RegistryReply {
    let body = match url {
        "https://registry.example/api/v1/versions/foo.json" => {
            r#"[{"number":"1.2.0"},{"number":"1.10.0"},{"number":"1.0.0"}]"#
        }
        "https://registry.example/api/v1/versions/bar.json" => r#"[{"number":"0.1"}]"#,
        _ => return RegistryReply::Answer { status: 404, body: "not found".to_string() },
    };
    RegistryReply::Answer { status: 200, body: body.to_string() }
}

struct Outcome {
    commands: Vec<String>,
    last: Command,
}

fn drive(policy: FailurePolicy, catalog: &Vec<ReleaseEvent>, store: &mut ReviewStore) -> Outcome {
    let mut pass = Orchestrator::new(BASE, policy);
    let mut commands = Vec::new();
    loop {
        let command = pass.command();
        assert_eq!(pass.command(), command);
        let event = match &command {
            Command::ReadLatestTimestamp => {
                commands.push("latest".to_string());
                Event::LatestTimestamp(latest_release(catalog))
            }
            Command::ReadReleases(window) => {
                commands.push(format!("releases {} {}", window.start.micros, window.end.micros));
                Event::Releases(catalog.iter().map(|r| r.duplicate()).collect())
            }
            Command::FetchVersions(url) => {
                commands.push(format!("fetch {}", url));
                Event::Registry(registry(url))
            }
            Command::Store(resolved) => {
                commands.push(format!("store {} {}", resolved.release.package_name, resolved.release.version));
                let item = ResolvedRelease {
                    release: resolved.release.duplicate(),
                    previous_version: resolved.previous_version.clone(),
                };
                match store.upsert(item) {
                    Ok(_) => Event::Done,
                    Err(_) => Event::Failed,
                }
            }
            Command::NoteSkipped(release, error) => {
                commands.push(format!("skip {} {} {:?}", release.package_name, release.version, error));
                Event::Done
            }
            Command::Pause(millis) => {
                commands.push(format!("pause {}", millis));
                Event::Done
            }
            Command::Finish(_) | Command::Abort(_) => return Outcome { commands, last: command },
        };
        pass = pass.advance(event);
    }
}

#[test]
fn pass_takes_the_window_newest_first() {
    let mut store = ReviewStore::new();
    let outcome = drive(FailurePolicy::Skip, &catalog(), &mut store);
    assert_eq!(
        outcome.commands,
        vec![
            "latest".to_string(),
            format!("releases {} {}", END - WEEK_MICROS, END),
            "fetch https://registry.example/api/v1/versions/foo.json".to_string(),
            "store foo 1.2.0".to_string(),
            "pause 100".to_string(),
            "fetch https://registry.example/api/v1/versions/baz.json".to_string(),
            "skip baz 3.0 RegistryUnavailable".to_string(),
            "pause 100".to_string(),
            "fetch https://registry.example/api/v1/versions/bar.json".to_string(),
            "skip bar 0.2 VersionNotFound".to_string(),
            "pause 100".to_string(),
        ]
    );
    assert_eq!(outcome.last, Command::Finish(Summary { stored: 1, skipped: 2, truncated: false }));
    assert_eq!(store.records(), &vec![record(END, "foo", "1.2.0", Some("1.10.0"))]);
    assert_eq!(PACING_MILLIS, 100);
}

#[test]
fn unresolved_release_is_stored_without_predecessor_on_demand() {
    let mut store = ReviewStore::new();
    let outcome = drive(FailurePolicy::RecordWithoutPredecessor, &catalog(), &mut store);
    assert_eq!(outcome.last, Command::Finish(Summary { stored: 3, skipped: 0, truncated: false }));
    assert_eq!(
        store.records(),
        &vec![
            record(END, "foo", "1.2.0", Some("1.10.0")),
            record(END - DAY, "baz", "3.0", None),
            record(END - 2 * DAY, "bar", "0.2", None),
        ]
    );
}

#[test]
fn second_run_changes_nothing() {
    for policy in [FailurePolicy::Skip, FailurePolicy::RecordWithoutPredecessor] {
        let mut store = ReviewStore::new();
        drive(policy, &catalog(), &mut store);
        let after_one: Vec<ReviewRecord> = store
            .records()
            .iter()
            .map(|r| record(r.created_at.micros, &r.package_name, &r.version, r.previous_version.as_deref()))
            .collect();
        let outcome = drive(policy, &catalog(), &mut store);
        assert!(matches!(outcome.last, Command::Finish(_)));
        assert_eq!(store.records(), &after_one);
    }
}

#[test]
fn empty_catalog_fails_before_any_request() {
    let mut store = ReviewStore::new();
    let outcome = drive(FailurePolicy::Skip, &Vec::new(), &mut store);
    assert_eq!(outcome.commands, vec!["latest".to_string()]);
    assert_eq!(outcome.last, Command::Abort(SyncError::NoData));
    assert_eq!(store.len(), 0);
}

#[test]
fn missing_target_is_skipped_not_stored() {
    let only = vec![release(END, "bar", "0.2")];
    let mut store = ReviewStore::new();
    let outcome = drive(FailurePolicy::Skip, &only, &mut store);
    assert_eq!(outcome.last, Command::Finish(Summary { stored: 0, skipped: 1, truncated: false }));
    assert!(outcome.commands.contains(&"skip bar 0.2 VersionNotFound".to_string()));
    assert_eq!(store.len(), 0);
}

#[test]
fn first_version_is_stored_without_predecessor() {
    let only = vec![release(END, "foo", "1.0.0")];
    let mut store = ReviewStore::new();
    drive(FailurePolicy::Skip, &only, &mut store);
    assert_eq!(store.records(), &vec![record(END, "foo", "1.0.0", None)]);
}

#[test]
fn empty_window_finishes_at_once() {
    let pass = Orchestrator::new(BASE, FailurePolicy::Skip);
    let pass = pass.advance(Event::LatestTimestamp(Some(Timestamp { micros: END })));
    let window = Window { start: Timestamp { micros: END - WEEK_MICROS }, end: Timestamp { micros: END } };
    assert_eq!(pass.command(), Command::ReadReleases(window));
    let pass = pass.advance(Event::Releases(vec![release(END - 8 * DAY, "old", "1")]));
    assert_eq!(pass.command(), Command::Finish(Summary { stored: 0, skipped: 0, truncated: false }));
    let pass = pass.advance(Event::Done);
    assert_eq!(pass.command(), Command::Finish(Summary { stored: 0, skipped: 0, truncated: false }));
}

#[test]
fn storage_failure_ends_the_pass() {
    let pass = Orchestrator::new(BASE, FailurePolicy::Skip).advance(Event::Failed);
    assert_eq!(pass.command(), Command::Abort(SyncError::Storage));

    let pass = Orchestrator::new(BASE, FailurePolicy::Skip)
        .advance(Event::LatestTimestamp(Some(Timestamp { micros: END })))
        .advance(Event::Failed);
    assert_eq!(pass.command(), Command::Abort(SyncError::Storage));

    let pass = Orchestrator::new(BASE, FailurePolicy::Skip)
        .advance(Event::LatestTimestamp(Some(Timestamp { micros: END })))
        .advance(Event::Releases(vec![release(END, "foo", "1.0.0")]))
        .advance(Event::Registry(registry("https://registry.example/api/v1/versions/foo.json")));
    assert_eq!(
        pass.command(),
        Command::Store(ResolvedRelease { release: release(END, "foo", "1.0.0"), previous_version: None })
    );
    let pass = pass.advance(Event::Failed);
    assert_eq!(pass.command(), Command::Abort(SyncError::Storage));
    let pass = pass.advance(Event::Done);
    assert_eq!(pass.command(), Command::Abort(SyncError::Storage));
}

#[test]
fn event_out_of_turn_ends_the_pass() {
    let pass = Orchestrator::new(BASE, FailurePolicy::Skip).advance(Event::Done);
    assert_eq!(pass.command(), Command::Abort(SyncError::UnexpectedEvent));

    let pass = Orchestrator::new(BASE, FailurePolicy::Skip)
        .advance(Event::LatestTimestamp(Some(Timestamp { micros: END })))
        .advance(Event::Releases(vec![release(END, "foo", "1.0.0")]))
        .advance(Event::Failed);
    assert_eq!(pass.command(), Command::Abort(SyncError::UnexpectedEvent));
}

#[test]
fn malformed_window_ends_the_pass() {
    let pass = Orchestrator::new(BASE, FailurePolicy::Skip)
        .advance(Event::LatestTimestamp(Some(Timestamp { micros: i64::MIN })));
    assert_eq!(pass.command(), Command::Abort(SyncError::MalformedWindow));
}

#[test]
fn unreachable_registry_concerns_one_release_only() {
    let pass = Orchestrator::new(BASE, FailurePolicy::Skip)
        .advance(Event::LatestTimestamp(Some(Timestamp { micros: END })))
        .advance(Event::Releases(vec![release(END, "foo", "1.2.0"), release(END - DAY, "foo", "1.10.0")]))
        .advance(Event::Registry(RegistryReply::Unreachable));
    assert_eq!(
        pass.command(),
        Command::NoteSkipped(release(END, "foo", "1.2.0"), ResolveError::RegistryUnavailable)
    );
    let pass = pass.advance(Event::Done);
    assert_eq!(pass.command(), Command::Pause(100));
    let pass = pass.advance(Event::Done);
    assert_eq!(
        pass.command(),
        Command::FetchVersions("https://registry.example/api/v1/versions/foo.json".to_string())
    );
}
