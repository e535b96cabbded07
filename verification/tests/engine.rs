use guploadsync::config::{AppConfig, PathFacts, PathKind, WatchEntry};
use guploadsync::events::{
    LocalFileEvent, LocalFileEventKind, RemoteChange, RemoteFileMeta, SyncEvent,
};
use guploadsync::failure::Failure;
use guploadsync::hash_utils::compute_md5;
use guploadsync::path::LocalPath;
use guploadsync::state_db::FileState;
use guploadsync::sync_engine::conflict::make_conflicted_copy_path;
use guploadsync::sync_engine::model::{
    Action, EngineRequest, Reply, Request, Wake, WalkEntry, RENAME_WINDOW_NANOS,
};
use guploadsync::sync_engine::SyncEngine;
use std::collections::BTreeMap;

const SECOND: u64 = 1_000_000_000;

/// Local files, a remote store and a state database in memory.
struct World {
    local: BTreeMap<String, String>,
    remote: BTreeMap<String, String>,
    records: BTreeMap<String, FileState>,
    local_trash: Vec<String>,
    remote_trash: Vec<String>,
    walk: Vec<String>,
    log: Vec<String>,
    remote_calls: usize,
    requests: usize,
    fail: Option<&'static str>,
    now: u64,
}

fn path(text: &str) -> LocalPath {
    LocalPath::new(text)
}

fn meta(virtual_path: &str, content: &str) -> RemoteFileMeta {
    RemoteFileMeta {
        drive_id: format!("id:{virtual_path}"),
        virtual_path: virtual_path.to_string(),
        md5_hash: compute_md5(content.as_bytes()),
        modified_time: format!("time of {virtual_path}"),
    }
}

impl World {
    fn new() -> World {
        World {
            local: BTreeMap::new(),
            remote: BTreeMap::new(),
            records: BTreeMap::new(),
            local_trash: vec![],
            remote_trash: vec![],
            walk: vec![],
            log: vec![],
            remote_calls: 0,
            requests: 0,
            fail: None,
            now: 0,
        }
    }

    fn refuse(&self, what: &'static str) -> Option<Failure> {
        if self.fail == Some(what) {
            Some(Failure::new(what))
        } else {
            None
        }
    }

    fn kind(&self, path: &str) -> PathKind {
        if self.local.contains_key(path) {
            PathKind::File
        } else if self.local.keys().any(|p| p.starts_with(&format!("{path}/"))) {
            PathKind::Directory
        } else {
            PathKind::Missing
        }
    }

    fn next_walked(&mut self) -> Reply {
        if self.walk.is_empty() {
            return Reply::Walked(None);
        }
        let next = self.walk.remove(0);
        Reply::Walked(Some(WalkEntry {
            is_file: self.local.contains_key(&next),
            path: path(&next),
        }))
    }

    fn perform(&mut self, request: EngineRequest) -> Reply {
        self.requests += 1;
        match request {
            Request::Inspect(p) => Reply::Facts(PathFacts {
                kind: self.kind(&p.to_text()),
                canonical: None,
                current_dir: None,
            }),
            Request::HashFile(p) => match self.local.get(&p.to_text()) {
                Some(content) => Reply::Hash(Ok(compute_md5(content.as_bytes()))),
                None => Reply::Hash(Err(Failure::new("failed to open"))),
            },
            Request::ReadModified(_) => match self.refuse("modified") {
                Some(why) => Reply::Modified(Err(why)),
                None => Reply::Modified(Ok((self.now / SECOND) as i64)),
            },
            Request::FindByLocal(p) => {
                Reply::Found(Ok(self.records.get(&p.to_text()).cloned()))
            }
            Request::FindByRemote(p) => Reply::Found(Ok(self
                .records
                .values()
                .find(|r| r.virtual_remote_path == p)
                .cloned())),
            Request::ListByLocalPrefix(p) => {
                let below = format!("{}/", p.to_text());
                Reply::Records(Ok(self
                    .records
                    .values()
                    .filter(|r| r.local_path == p || r.local_path.to_text().starts_with(&below))
                    .cloned()
                    .collect()))
            }
            Request::ListByRemotePrefix(p) => {
                let below = format!("{p}/");
                Reply::Records(Ok(self
                    .records
                    .values()
                    .filter(|r| {
                        r.virtual_remote_path == p || r.virtual_remote_path.starts_with(&below)
                    })
                    .cloned()
                    .collect()))
            }
            Request::ListAll => Reply::Records(Ok(self.records.values().cloned().collect())),
            Request::Save(record) => {
                self.log.push(format!("save {}", record.local_path.to_text()));
                self.records.insert(record.local_path.to_text(), record);
                Reply::Done(Ok(()))
            }
            Request::RemoveByLocal(p) => {
                self.log.push(format!("forget {}", p.to_text()));
                self.records.remove(&p.to_text());
                Reply::Done(Ok(()))
            }
            Request::RemoveByRemote(p) => {
                self.log.push(format!("forget remote {p}"));
                self.records.retain(|_, r| r.virtual_remote_path != p);
                Reply::Done(Ok(()))
            }
            Request::SetLocalTimestamp(p, n) => {
                self.log.push(format!("touch {}", p.to_text()));
                if let Some(record) = self.records.get_mut(&p.to_text()) {
                    record.local_timestamp = n;
                }
                Reply::Done(Ok(()))
            }
            Request::Upload { virtual_path, local_path } => {
                self.remote_calls += 1;
                self.log.push(format!("upload {virtual_path}"));
                if let Some(why) = self.refuse("upload") {
                    return Reply::Stored(Err(why));
                }
                let content = self.local[&local_path.to_text()].clone();
                let stored = meta(&virtual_path, &content);
                self.remote.insert(virtual_path, content);
                Reply::Stored(Ok(stored))
            }
            Request::Download { virtual_path, local_path } => {
                self.remote_calls += 1;
                self.log.push(format!("download {virtual_path} to {}", local_path.to_text()));
                if let Some(why) = self.refuse("download") {
                    return Reply::Stored(Err(why));
                }
                let content = self.remote[&virtual_path].clone();
                let stored = meta(&virtual_path, &content);
                self.local.insert(local_path.to_text(), content);
                Reply::Stored(Ok(stored))
            }
            Request::Rename { from, to } => {
                self.remote_calls += 1;
                self.log.push(format!("rename {from} to {to}"));
                if let Some(why) = self.refuse("rename") {
                    return Reply::Stored(Err(why));
                }
                let content = self.remote.remove(&from).unwrap();
                let stored = meta(&to, &content);
                self.remote.insert(to, content);
                Reply::Stored(Ok(stored))
            }
            Request::GetMetadata(p) => {
                self.remote_calls += 1;
                Reply::Metadata(Ok(self.remote.get(&p).map(|content| meta(&p, content))))
            }
            Request::TrashRemote(p) => {
                self.remote_calls += 1;
                self.log.push(format!("trash remote {p}"));
                if let Some(why) = self.refuse("trash") {
                    return Reply::Done(Err(why));
                }
                self.remote.remove(&p);
                self.remote_trash.push(p);
                Reply::Done(Ok(()))
            }
            Request::TrashLocal(p) => {
                self.log.push(format!("trash local {}", p.to_text()));
                if let Some(why) = self.refuse("desktop trash") {
                    return Reply::Done(Err(why));
                }
                self.local.remove(&p.to_text());
                self.local_trash.push(p.to_text());
                Reply::Done(Ok(()))
            }
            Request::ReadClock => Reply::Clock(Some(1234)),
            Request::Walk(p) => {
                let root = p.to_text();
                let below = format!("{root}/");
                let mut found = vec![root];
                found.extend(self.local.keys().filter(|q| q.starts_with(&below)).cloned());
                self.walk = found;
                self.next_walked()
            }
            Request::WalkNext => self.next_walked(),
        }
    }

    fn drive(
        &mut self,
        engine: &mut SyncEngine,
        first: Action<EngineRequest, Failure>,
    ) -> Result<(), Failure> {
        let mut action = first;
        loop {
            match action {
                Action::Finish(result) => {
                    assert!(engine.is_idle());
                    return result;
                }
                Action::Perform(request) => {
                    let reply = self.perform(request);
                    action = engine.step(reply, self.now);
                }
            }
        }
    }

    fn event(&mut self, engine: &mut SyncEngine, event: SyncEvent) -> Result<(), Failure> {
        let first = engine.wake(Wake::Event(event), self.now);
        self.drive(engine, first)
    }

    fn tick(&mut self, engine: &mut SyncEngine) -> Result<(), Failure> {
        let first = engine.wake(Wake::Tick, self.now);
        self.drive(engine, first)
    }

    fn take_log(&mut self) -> Vec<String> {
        std::mem::take(&mut self.log)
    }
}

fn engine() -> SyncEngine {
    SyncEngine::new(AppConfig {
        remote_target_folder: "guploadsync".to_string(),
        poll_interval_seconds: 30,
        watch: vec![
            WatchEntry { local_path: path("/docs"), remote_name: "docs".to_string() },
            WatchEntry { local_path: path("/etc/rc"), remote_name: "rc".to_string() },
            WatchEntry { local_path: path("/gone"), remote_name: "gone".to_string() },
        ],
    })
}

fn upsert(p: &str) -> SyncEvent {
    SyncEvent::Local(LocalFileEvent { kind: LocalFileEventKind::Upsert, path: path(p) })
}

fn delete(p: &str) -> SyncEvent {
    SyncEvent::Local(LocalFileEvent { kind: LocalFileEventKind::Delete, path: path(p) })
}

fn remote_upsert(p: &str) -> SyncEvent {
    SyncEvent::Remote(RemoteChange::Upsert(meta(p, "")))
}

fn remote_delete(p: &str) -> SyncEvent {
    SyncEvent::Remote(RemoteChange::Delete { virtual_path: p.to_string() })
}

fn synced(content: &str) -> (World, SyncEngine) {
    let mut world = World::new();
    let mut engine = engine();
    world.local.insert("/docs/a".to_string(), content.to_string());
    world.event(&mut engine, upsert("/docs/a")).unwrap();
    world.take_log();
    (world, engine)
}

#[test]
fn a_new_file_is_uploaded() {
    let (world, _) = synced("one");
    assert_eq!(world.remote["docs/a"], "one");
    let record = &world.records["/docs/a"];
    assert_eq!(record.virtual_remote_path, "docs/a");
    assert_eq!(record.md5_hash, compute_md5(b"one"));
    assert_eq!(record.drive_id, "id:docs/a");
    assert_eq!(record.remote_timestamp, "time of docs/a");
}

#[test]
fn an_unchanged_file_is_only_touched() {
    let (mut world, mut engine) = synced("one");
    world.now = 9 * SECOND;
    world.event(&mut engine, upsert("/docs/a")).unwrap();
    assert_eq!(world.take_log(), vec!["touch /docs/a"]);
    assert_eq!(world.records["/docs/a"].local_timestamp, 9);
}

#[test]
fn a_changed_file_is_uploaded_again() {
    let (mut world, mut engine) = synced("one");
    world.local.insert("/docs/a".to_string(), "two".to_string());
    world.event(&mut engine, upsert("/docs/a")).unwrap();
    assert_eq!(world.take_log(), vec!["upload docs/a", "save /docs/a"]);
    assert_eq!(world.remote["docs/a"], "two");
}

#[test]
fn missing_files_folders_and_other_files_are_passed_over() {
    let (mut world, mut engine) = synced("one");
    world.local.insert("/elsewhere".to_string(), "x".to_string());
    world.event(&mut engine, upsert("/docs/b")).unwrap();
    world.event(&mut engine, upsert("/docs")).unwrap();
    world.event(&mut engine, upsert("/elsewhere")).unwrap();
    assert_eq!(world.take_log(), Vec::<String>::new());
}

#[test]
fn the_echo_of_an_upload_is_ignored() {
    let (mut world, mut engine) = synced("one");
    world.event(&mut engine, remote_upsert("docs/a")).unwrap();
    assert_eq!(world.take_log(), Vec::<String>::new());
}

#[test]
fn the_echoes_of_renames_and_conflicts_are_ignored() {
    for fail in [None, Some("rename")] {
        let (mut world, mut engine) = synced("one");
        let content = world.local.remove("/docs/a").unwrap();
        world.local.insert("/docs/b".to_string(), content);
        world.event(&mut engine, delete("/docs/a")).unwrap();
        world.fail = fail;
        world.event(&mut engine, upsert("/docs/b")).unwrap();
        world.take_log();
        world.event(&mut engine, remote_upsert("docs/b")).unwrap();
        assert_eq!(world.take_log(), Vec::<String>::new());
    }
    let (mut world, mut engine) = synced("one");
    world.local.insert("/docs/a".to_string(), "mine".to_string());
    world.remote.insert("docs/a".to_string(), "theirs".to_string());
    world.event(&mut engine, remote_upsert("docs/a")).unwrap();
    world.take_log();
    world.event(&mut engine, remote_upsert("docs/a")).unwrap();
    assert_eq!(world.take_log(), Vec::<String>::new());
}

#[test]
fn a_second_event_leaves_the_remote_alone() {
    for fail in [None, Some("rename")] {
        let (mut world, mut engine) = synced("one");
        let content = world.local.remove("/docs/a").unwrap();
        world.local.insert("/docs/b".to_string(), content);
        world.event(&mut engine, delete("/docs/a")).unwrap();
        world.fail = fail;
        world.event(&mut engine, upsert("/docs/b")).unwrap();
        let (calls, records) = (world.remote_calls, world.records.clone());
        world.requests = 0;
        world.event(&mut engine, upsert("/docs/b")).unwrap();
        assert_eq!((world.remote_calls, world.requests), (calls, 5));
        assert_eq!(world.records, records);
    }
}

#[test]
fn a_fetched_file_is_not_uploaded() {
    let (mut world, mut engine) = synced("one");
    world.remote.insert("docs/a".to_string(), "two".to_string());
    world.event(&mut engine, remote_upsert("docs/a")).unwrap();
    world.take_log();
    world.event(&mut engine, upsert("/docs/a")).unwrap();
    assert_eq!(world.take_log(), vec!["touch /docs/a"]);
}

#[test]
fn a_file_that_is_back_is_not_trashed_whatever_comes_of_it() {
    let (mut world, mut engine) = synced("one");
    world.event(&mut engine, delete("/docs/a")).unwrap();
    world.local.insert("/docs/a".to_string(), "two".to_string());
    world.fail = Some("upload");
    assert!(world.event(&mut engine, upsert("/docs/a")).is_err());
    world.fail = None;
    world.event(&mut engine, SyncEvent::Shutdown).unwrap();
    assert_eq!(world.remote_trash, Vec::<String>::new());
}

#[test]
fn an_event_for_no_file_keeps_the_delete() {
    let (mut world, mut engine) = synced("one");
    world.local.clear();
    world.event(&mut engine, delete("/docs/a")).unwrap();
    world.requests = 0;
    world.event(&mut engine, upsert("/docs/a")).unwrap();
    assert_eq!(world.requests, 1);
    world.now = 60 * SECOND;
    world.tick(&mut engine).unwrap();
    assert_eq!(world.remote_trash, vec!["docs/a"]);
}

#[test]
fn a_changed_file_that_was_deleted_is_uploaded_again() {
    let (mut world, mut engine) = synced("one");
    world.event(&mut engine, delete("/docs/a")).unwrap();
    world.local.insert("/docs/a".to_string(), "two".to_string());
    world.event(&mut engine, upsert("/docs/a")).unwrap();
    assert_eq!(world.take_log(), vec!["upload docs/a", "save /docs/a"]);
    world.now = 60 * SECOND;
    world.tick(&mut engine).unwrap();
    assert_eq!(world.take_log(), Vec::<String>::new());
}

#[test]
fn a_remote_change_is_downloaded() {
    let (mut world, mut engine) = synced("one");
    world.remote.insert("docs/a".to_string(), "two".to_string());
    world.event(&mut engine, remote_upsert("docs/a")).unwrap();
    assert_eq!(world.take_log(), vec!["download docs/a to /docs/a", "save /docs/a"]);
    assert_eq!(world.local["/docs/a"], "two");
    assert_eq!(world.records["/docs/a"].md5_hash, compute_md5(b"two"));
}

#[test]
fn a_new_remote_file_is_downloaded() {
    let mut world = World::new();
    let mut engine = engine();
    world.remote.insert("docs/n/m".to_string(), "new".to_string());
    world.event(&mut engine, remote_upsert("docs/n/m")).unwrap();
    assert_eq!(world.local["/docs/n/m"], "new");
    world.event(&mut engine, upsert("/docs/n/m")).unwrap();
    assert_eq!(
        world.take_log(),
        vec!["download docs/n/m to /docs/n/m", "save /docs/n/m", "touch /docs/n/m"]
    );
}

#[test]
fn remote_files_outside_the_configuration_are_passed_over() {
    let mut world = World::new();
    let mut engine = engine();
    world.remote.insert("other".to_string(), "x".to_string());
    world.event(&mut engine, remote_upsert("other")).unwrap();
    world.event(&mut engine, remote_upsert("docs/missing")).unwrap();
    assert_eq!(world.take_log(), Vec::<String>::new());
}

#[test]
fn a_conflict_keeps_both_versions() {
    let (mut world, mut engine) = synced("one");
    world.local.insert("/docs/a".to_string(), "mine".to_string());
    world.remote.insert("docs/a".to_string(), "theirs".to_string());
    world.event(&mut engine, remote_upsert("docs/a")).unwrap();
    assert_eq!(
        world.take_log(),
        vec![
            "download docs/a to /docs/a (conflicted copy 1234)",
            "upload docs/a",
            "save /docs/a"
        ]
    );
    assert_eq!(world.local["/docs/a"], "mine");
    assert_eq!(world.local["/docs/a (conflicted copy 1234)"], "theirs");
    assert_eq!(world.remote["docs/a"], "mine");
    assert_eq!(world.records["/docs/a"].md5_hash, compute_md5(b"mine"));
}

#[test]
fn a_conflicted_copy_that_fails_stops_the_work() {
    let (mut world, mut engine) = synced("one");
    world.local.insert("/docs/a".to_string(), "mine".to_string());
    world.remote.insert("docs/a".to_string(), "theirs".to_string());
    world.fail = Some("download");
    let why = world.event(&mut engine, remote_upsert("docs/a")).unwrap_err();
    assert_eq!(
        why.message,
        "failed to store conflicted copy for docs/a at /docs/a (conflicted copy 1234): download"
    );
    assert_eq!(world.remote["docs/a"], "theirs");
    assert_eq!(world.records["/docs/a"].md5_hash, compute_md5(b"one"));
}

#[test]
fn a_local_delete_waits_before_it_reaches_the_remote_trash() {
    let (mut world, mut engine) = synced("one");
    world.local.clear();
    world.now = 10 * SECOND;
    world.event(&mut engine, delete("/docs/a")).unwrap();
    world.now = 10 * SECOND + RENAME_WINDOW_NANOS - 1;
    world.tick(&mut engine).unwrap();
    assert_eq!(world.take_log(), Vec::<String>::new());
    world.now += 1;
    world.tick(&mut engine).unwrap();
    assert_eq!(world.take_log(), vec!["trash remote docs/a", "forget /docs/a"]);
    assert_eq!(world.remote_trash, vec!["docs/a"]);
    assert!(world.records.is_empty());
    world.tick(&mut engine).unwrap();
    assert_eq!(world.take_log(), Vec::<String>::new());
}

#[test]
fn a_file_that_is_back_is_not_deleted() {
    let (mut world, mut engine) = synced("one");
    world.event(&mut engine, delete("/docs/a")).unwrap();
    world.event(&mut engine, upsert("/docs/a")).unwrap();
    world.now = 60 * SECOND;
    world.tick(&mut engine).unwrap();
    assert_eq!(world.take_log(), vec!["touch /docs/a"]);
}

#[test]
fn a_rename_is_detected_by_content() {
    let (mut world, mut engine) = synced("one");
    let content = world.local.remove("/docs/a").unwrap();
    world.local.insert("/docs/b".to_string(), content);
    world.event(&mut engine, delete("/docs/a")).unwrap();
    world.now = SECOND;
    world.event(&mut engine, upsert("/docs/b")).unwrap();
    assert_eq!(
        world.take_log(),
        vec!["rename docs/a to docs/b", "forget /docs/a", "save /docs/b"]
    );
    world.now = 60 * SECOND;
    world.tick(&mut engine).unwrap();
    assert_eq!(world.take_log(), Vec::<String>::new());
    assert_eq!(world.remote["docs/b"], "one");
    assert!(!world.remote.contains_key("docs/a"));
}

#[test]
fn a_rename_that_fails_becomes_an_upload() {
    let (mut world, mut engine) = synced("one");
    let content = world.local.remove("/docs/a").unwrap();
    world.local.insert("/docs/b".to_string(), content);
    world.event(&mut engine, delete("/docs/a")).unwrap();
    world.fail = Some("rename");
    world.event(&mut engine, upsert("/docs/b")).unwrap();
    assert_eq!(
        world.take_log(),
        vec!["rename docs/a to docs/b", "upload docs/b", "forget /docs/a", "save /docs/b"]
    );
}

#[test]
fn a_deleted_folder_takes_its_files_along() {
    let (mut world, mut engine) = synced("one");
    world.local.insert("/docs/d/x".to_string(), "x".to_string());
    world.event(&mut engine, upsert("/docs/d/x")).unwrap();
    world.take_log();
    world.local.clear();
    world.event(&mut engine, delete("/docs")).unwrap();
    world.now = RENAME_WINDOW_NANOS;
    world.tick(&mut engine).unwrap();
    assert_eq!(
        world.take_log(),
        vec![
            "trash remote docs/a",
            "forget /docs/a",
            "trash remote docs/d/x",
            "forget /docs/d/x"
        ]
    );
}

#[test]
fn a_flush_that_fails_goes_on_at_the_next_tick() {
    let (mut world, mut engine) = synced("one");
    world.local.insert("/docs/b".to_string(), "two".to_string());
    world.event(&mut engine, upsert("/docs/b")).unwrap();
    world.take_log();
    world.local.clear();
    world.event(&mut engine, delete("/docs")).unwrap();
    world.now = RENAME_WINDOW_NANOS;
    world.fail = Some("trash");
    assert_eq!(world.tick(&mut engine).unwrap_err().message, "trash");
    world.fail = None;
    world.tick(&mut engine).unwrap();
    assert_eq!(
        world.take_log(),
        vec!["trash remote docs/a", "trash remote docs/b", "forget /docs/b"]
    );
}

#[test]
fn a_remote_delete_uses_the_desktop_trash() {
    let (mut world, mut engine) = synced("one");
    world.event(&mut engine, remote_delete("docs")).unwrap();
    assert_eq!(world.take_log(), vec!["trash local /docs/a", "forget /docs/a"]);
    assert_eq!(world.local_trash, vec!["/docs/a"]);
}

#[test]
fn a_remote_delete_goes_through_all_records() {
    let (mut world, mut engine) = synced("one");
    for name in ["b", "c"] {
        let local = format!("/docs/{name}");
        world.local.insert(local.clone(), name.to_string());
        world.event(&mut engine, upsert(&local)).unwrap();
    }
    world.local.remove("/docs/b");
    world.take_log();
    world.event(&mut engine, remote_delete("docs")).unwrap();
    assert_eq!(
        world.take_log(),
        vec![
            "trash local /docs/a",
            "forget /docs/a",
            "forget /docs/b",
            "trash local /docs/c",
            "forget /docs/c"
        ]
    );
    assert_eq!(world.local_trash, vec!["/docs/a", "/docs/c"]);
    assert!(world.records.is_empty());
}

#[test]
fn a_remote_delete_forgets_even_where_the_trash_fails() {
    let (mut world, mut engine) = synced("one");
    world.fail = Some("desktop trash");
    world.event(&mut engine, remote_delete("docs/a")).unwrap();
    assert_eq!(world.take_log(), vec!["trash local /docs/a", "forget /docs/a"]);
    assert!(world.records.is_empty());
}

#[test]
fn a_remote_delete_of_an_unknown_file() {
    let mut world = World::new();
    let mut engine = engine();
    world.local.insert("/docs/u".to_string(), "u".to_string());
    world.event(&mut engine, remote_delete("docs/u")).unwrap();
    world.event(&mut engine, remote_delete("docs/v")).unwrap();
    world.event(&mut engine, remote_delete("other")).unwrap();
    assert_eq!(
        world.take_log(),
        vec![
            "trash local /docs/u",
            "forget remote docs/u",
            "forget remote docs/v",
            "forget remote other"
        ]
    );
}

#[test]
fn a_full_sync_uploads_everything_and_cleans_up() {
    let (mut world, mut engine) = synced("one");
    world.local.clear();
    world.local.insert("/docs/b".to_string(), "b".to_string());
    world.local.insert("/docs/c/d".to_string(), "d".to_string());
    world.local.insert("/etc/rc".to_string(), "rc".to_string());
    world.event(&mut engine, SyncEvent::SyncNow).unwrap();
    assert_eq!(
        world.take_log(),
        vec![
            "upload docs/b",
            "save /docs/b",
            "upload docs/c/d",
            "save /docs/c/d",
            "upload rc",
            "save /etc/rc",
            "trash remote docs/a",
            "forget /docs/a"
        ]
    );
    world.event(&mut engine, SyncEvent::SyncNow).unwrap();
    assert_eq!(
        world.take_log(),
        vec!["touch /docs/b", "touch /docs/c/d", "touch /etc/rc"]
    );
}

#[test]
fn a_second_full_sync_leaves_the_remote_alone() {
    let (mut world, mut engine) = synced("one");
    world.local.insert("/docs/b".to_string(), "b".to_string());
    world.local.insert("/docs/c/d".to_string(), "d".to_string());
    world.local.insert("/etc/rc".to_string(), "rc".to_string());
    world.local.remove("/docs/a");
    world.event(&mut engine, SyncEvent::SyncNow).unwrap();
    assert_eq!(world.remote_calls, 5);
    let mut before = world.records.clone();
    world.now = 30 * SECOND;
    world.requests = 0;
    world.event(&mut engine, SyncEvent::SyncNow).unwrap();
    assert_eq!(world.remote_calls, 5);
    assert_eq!(world.requests, 26);
    for record in before.values_mut() {
        record.local_timestamp = 30;
    }
    assert_eq!(world.records, before);
}

#[test]
fn a_missing_record_under_two_spellings_takes_two_full_syncs() {
    let mut world = World::new();
    let mut engine = engine();
    for (local, remote) in [("/docs//a", "docs/x"), ("/docs/a", "docs/y")] {
        let record = FileState {
            local_path: path(local),
            drive_id: "id".to_string(),
            virtual_remote_path: remote.to_string(),
            md5_hash: "1".to_string(),
            local_timestamp: 0,
            remote_timestamp: "t".to_string(),
        };
        world.records.insert(local.to_string(), record);
    }
    world.event(&mut engine, SyncEvent::SyncNow).unwrap();
    assert_eq!(world.records.len(), 1);
    world.event(&mut engine, SyncEvent::SyncNow).unwrap();
    assert!(world.records.is_empty());
}

#[test]
fn a_full_sync_ends_at_the_first_failure() {
    let mut world = World::new();
    let mut engine = engine();
    world.local.insert("/docs/b".to_string(), "b".to_string());
    world.local.insert("/docs/c".to_string(), "c".to_string());
    world.fail = Some("upload");
    assert_eq!(world.event(&mut engine, SyncEvent::SyncNow).unwrap_err().message, "upload");
    assert_eq!(world.take_log(), vec!["upload docs/b"]);
}

#[test]
fn stopping_carries_out_every_delete() {
    let (mut world, mut engine) = synced("one");
    world.local.clear();
    world.event(&mut engine, delete("/docs/a")).unwrap();
    assert!(!engine.is_stopping());
    world.event(&mut engine, SyncEvent::Shutdown).unwrap();
    assert!(engine.is_stopping());
    assert_eq!(world.take_log(), vec!["trash remote docs/a", "forget /docs/a"]);
}

#[test]
fn a_closed_channel_stops_the_engine_too() {
    let (mut world, mut engine) = synced("one");
    world.event(&mut engine, delete("/docs/a")).unwrap();
    let first = engine.wake(Wake::Closed, world.now);
    world.drive(&mut engine, first).unwrap();
    assert!(engine.is_stopping());
    assert_eq!(world.remote_trash, vec!["docs/a"]);
}

#[test]
fn an_unexpected_reply_ends_the_work() {
    let mut engine = engine();
    let first = engine.handle_event(upsert("/docs/a"));
    assert_eq!(first, Action::Perform(Request::Inspect(path("/docs/a"))));
    let next = engine.step(Reply::Clock(None), 0);
    assert_eq!(next, Action::Finish(Err(Failure::new("unexpected reply"))));
    assert!(engine.is_idle());
}

#[test]
fn failures_are_handed_on() {
    let (mut world, mut engine) = synced("one");
    world.fail = Some("modified");
    assert_eq!(world.event(&mut engine, upsert("/docs/a")).unwrap_err().message, "modified");
    world.local.insert("/docs/n".to_string(), "n".to_string());
    world.fail = Some("upload");
    assert_eq!(world.event(&mut engine, upsert("/docs/n")).unwrap_err().message, "upload");
}

#[test]
fn conflicted_copies_stand_beside_the_file() {
    let copy = |p: &str| make_conflicted_copy_path(&path(p), Some(42)).unwrap().to_text();
    assert_eq!(copy("/d/a.txt"), "/d/a (conflicted copy 42).txt");
    assert_eq!(copy("/d/a"), "/d/a (conflicted copy 42)");
    assert_eq!(copy("/d/.rc"), "/d/.rc (conflicted copy 42)");
    assert_eq!(copy("/d/a.tar.gz"), "/d/a.tar (conflicted copy 42).gz");
    assert_eq!(copy("/d/.."), "/d/file (conflicted copy 42)");
    assert_eq!(copy("a"), "a (conflicted copy 42)");
    let odd = LocalPath::from_bytes(vec![b'/', 0xff, b'.', b'x']);
    let beside = make_conflicted_copy_path(&odd, Some(7)).unwrap();
    assert_eq!(beside.to_text(), "/file (conflicted copy 7).x");
    let tail = LocalPath::from_bytes(vec![b'/', b'a', b'.', 0xff]);
    assert_eq!(
        make_conflicted_copy_path(&tail, Some(7)).unwrap().to_text(),
        "/a (conflicted copy 7)"
    );
}

#[test]
fn conflicted_copies_need_a_parent_and_a_clock() {
    let rootless = make_conflicted_copy_path(&path("/"), None).unwrap_err();
    assert_eq!(rootless.message, "path has no parent: /");
    let early = make_conflicted_copy_path(&path("/a"), None).unwrap_err();
    assert_eq!(early.message, "system time is before UNIX_EPOCH");
}
