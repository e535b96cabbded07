use guploadsync::config::{PathFacts, PathKind};
use guploadsync::events::{
    startup_events, LocalFileEvent, LocalFileEventKind, RemoteChange, SyncEvent,
};
use guploadsync::failure::Failure;
use guploadsync::local_watcher::{
    watch_mode, ObservedPath, PendingEvents, WatchEvent, WatchEventKind, WatchMode, WatcherAction,
    WatcherInput, DEBOUNCE_NANOS,
};
use guploadsync::path::LocalPath;
use guploadsync::remote_poller::{step, PollerAction, PollerInput};

const SECOND: u64 = 1_000_000_000;

fn observed(path: &str, kind: PathKind) -> ObservedPath {
    ObservedPath {
        path: LocalPath::new(path),
        facts: PathFacts { kind, canonical: None, current_dir: Some(LocalPath::new("/work")) },
    }
}

fn report(kind: WatchEventKind, paths: &[(&str, PathKind)]) -> WatcherInput {
    WatcherInput::Report(WatchEvent {
        kind,
        paths: paths.iter().map(|(p, k)| observed(p, *k)).collect(),
    })
}

fn local(kind: LocalFileEventKind, path: &str) -> SyncEvent {
    SyncEvent::Local(LocalFileEvent { kind, path: LocalPath::new(path) })
}

fn tick(queue: &mut PendingEvents, now: u64) -> Vec<SyncEvent> {
    match queue.step(&WatcherInput::Tick, now) {
        WatcherAction::Send(events) => events,
        other => panic!("{other:?}"),
    }
}

#[test]
fn changes_wait_two_seconds() {
    assert_eq!(DEBOUNCE_NANOS, 2 * SECOND);
    let mut queue = PendingEvents::new();
    let input = report(WatchEventKind::Create, &[("/a", PathKind::File)]);
    assert_eq!(queue.step(&input, SECOND), WatcherAction::Wait);
    assert_eq!(tick(&mut queue, 3 * SECOND - 1), vec![]);
    assert_eq!(tick(&mut queue, 3 * SECOND), vec![local(LocalFileEventKind::Upsert, "/a")]);
    assert_eq!(tick(&mut queue, 9 * SECOND), vec![]);
}

#[test]
fn rapid_saves_are_passed_on_once() {
    let mut queue = PendingEvents::new();
    for i in 0..10u64 {
        queue.step(&report(WatchEventKind::Modify, &[("/a", PathKind::File)]), i * SECOND);
        assert_eq!(tick(&mut queue, i * SECOND + SECOND / 2), vec![]);
    }
    assert_eq!(queue.len(), 1);
    assert_eq!(tick(&mut queue, 11 * SECOND), vec![local(LocalFileEventKind::Upsert, "/a")]);
}

#[test]
fn the_last_change_of_a_path_counts() {
    let mut queue = PendingEvents::new();
    queue.step(&report(WatchEventKind::Create, &[("/a", PathKind::File)]), 0);
    queue.step(&report(WatchEventKind::Remove, &[("/a/", PathKind::Missing)]), SECOND);
    assert_eq!(queue.len(), 1);
    assert_eq!(tick(&mut queue, 3 * SECOND), vec![local(LocalFileEventKind::Delete, "/a")]);
}

#[test]
fn a_rename_of_two_paths_deletes_the_first() {
    let mut queue = PendingEvents::new();
    let both = [("/a", PathKind::Missing), ("/b", PathKind::File)];
    queue.step(&report(WatchEventKind::Rename, &both), 0);
    assert_eq!(
        tick(&mut queue, 2 * SECOND),
        vec![local(LocalFileEventKind::Delete, "/a"), local(LocalFileEventKind::Upsert, "/b")]
    );
    queue.step(&report(WatchEventKind::Rename, &[("/c", PathKind::Missing)]), 0);
    assert_eq!(tick(&mut queue, 2 * SECOND), vec![local(LocalFileEventKind::Upsert, "/c")]);
}

#[test]
fn folders_are_deleted_but_not_updated() {
    let mut queue = PendingEvents::new();
    queue.step(&report(WatchEventKind::Create, &[("/d", PathKind::Directory)]), 0);
    assert_eq!(queue.len(), 0);
    queue.step(&report(WatchEventKind::Remove, &[("/d", PathKind::Directory)]), 0);
    assert_eq!(tick(&mut queue, 2 * SECOND), vec![local(LocalFileEventKind::Delete, "/d")]);
}

#[test]
fn other_reports_are_ignored() {
    let mut queue = PendingEvents::new();
    queue.step(&report(WatchEventKind::Other, &[("/a", PathKind::File)]), 0);
    assert_eq!(queue.len(), 0);
    assert_eq!(queue.step(&WatcherInput::SourceFailed, 0), WatcherAction::Wait);
}

#[test]
fn relative_paths_are_read_in_the_current_directory() {
    let mut queue = PendingEvents::new();
    queue.step(&report(WatchEventKind::Create, &[("a", PathKind::File)]), 0);
    assert_eq!(tick(&mut queue, 2 * SECOND), vec![local(LocalFileEventKind::Upsert, "/work/a")]);
}

#[test]
fn only_ready_changes_leave_the_queue() {
    let mut queue = PendingEvents::new();
    queue.step(&report(WatchEventKind::Create, &[("/a", PathKind::File)]), 0);
    queue.step(&report(WatchEventKind::Create, &[("/b", PathKind::File)]), SECOND);
    queue.step(&report(WatchEventKind::Create, &[("/c", PathKind::File)]), 0);
    assert_eq!(
        tick(&mut queue, 2 * SECOND),
        vec![local(LocalFileEventKind::Upsert, "/a"), local(LocalFileEventKind::Upsert, "/c")]
    );
    assert_eq!(queue.len(), 1);
    assert_eq!(tick(&mut queue, 3 * SECOND), vec![local(LocalFileEventKind::Upsert, "/b")]);
}

#[test]
fn a_change_rests_through_other_reports_and_ticks() {
    let mut queue = PendingEvents::new();
    queue.step(&report(WatchEventKind::Create, &[("/a", PathKind::File)]), 0);
    queue.step(&report(WatchEventKind::Remove, &[("/b", PathKind::Missing)]), SECOND / 2);
    assert_eq!(tick(&mut queue, SECOND), vec![]);
    queue.step(&WatcherInput::SourceFailed, SECOND);
    queue.step(&report(WatchEventKind::Other, &[("/a", PathKind::File)]), SECOND);
    queue.step(&report(WatchEventKind::Modify, &[("/c", PathKind::File)]), SECOND);
    assert_eq!(tick(&mut queue, 2 * SECOND - 1), vec![]);
    assert_eq!(tick(&mut queue, 2 * SECOND), vec![local(LocalFileEventKind::Upsert, "/a")]);
}

#[test]
fn the_watcher_stops_when_told() {
    let mut queue = PendingEvents::new();
    assert_eq!(queue.step(&WatcherInput::Shutdown, 0), WatcherAction::Stop);
    assert_eq!(queue.step(&WatcherInput::SourceClosed, 0), WatcherAction::Stop);
    assert_eq!(queue.step(&WatcherInput::ReceiverClosed, 0), WatcherAction::Stop);
}

#[test]
fn folders_are_watched_with_what_lies_below() {
    assert_eq!(watch_mode(PathKind::Directory), Some(WatchMode::Recursive));
    assert_eq!(watch_mode(PathKind::File), Some(WatchMode::NonRecursive));
    assert_eq!(watch_mode(PathKind::Other), Some(WatchMode::NonRecursive));
    assert_eq!(watch_mode(PathKind::Missing), None);
}

#[test]
fn polled_changes_become_events() {
    let changes = vec![
        RemoteChange::Delete { virtual_path: "a".to_string() },
        RemoteChange::Delete { virtual_path: "b".to_string() },
        RemoteChange::Delete { virtual_path: "c".to_string() },
    ];
    match step(PollerInput::Polled(Ok(changes.clone()))) {
        PollerAction::Send(events) => {
            let expected: Vec<SyncEvent> = changes.into_iter().map(SyncEvent::Remote).collect();
            assert_eq!(events, expected);
        }
        other => panic!("{other:?}"),
    }
}

#[test]
fn the_poller_polls_waits_and_stops() {
    assert!(matches!(step(PollerInput::Tick), PollerAction::Poll));
    assert!(matches!(step(PollerInput::Polled(Err(Failure::new("no")))), PollerAction::Wait));
    assert!(matches!(step(PollerInput::Shutdown), PollerAction::Stop));
    assert!(matches!(step(PollerInput::ReceiverClosed), PollerAction::Stop));
}

#[test]
fn the_program_may_run_once() {
    assert_eq!(startup_events(false, false), vec![]);
    assert_eq!(startup_events(true, false), vec![SyncEvent::SyncNow]);
    assert_eq!(startup_events(false, true), vec![SyncEvent::SyncNow, SyncEvent::Shutdown]);
    assert_eq!(startup_events(true, true), vec![SyncEvent::SyncNow, SyncEvent::Shutdown]);
}

#[test]
fn failures_tell_their_causes() {
    let failure = Failure::new("disk full").context("failed to write /a");
    assert_eq!(failure.message, "failed to write /a: disk full");
}
