use guploadsync::config::PathKind;
use guploadsync::events::{RemoteChange, RemoteFileMeta};
use guploadsync::failure::Failure;
use guploadsync::path::LocalPath;
use guploadsync::remote::fs_remote::{
    is_readable, make_drive_id, sanitize_virtual_path, scan_files_sync, FileFacts, FsRemoteError,
    ScannedFile,
};
use guploadsync::remote::FsRemoteStore;

fn path(text: &str) -> LocalPath {
    LocalPath::new(text)
}

fn store() -> FsRemoteStore {
    FsRemoteStore::new(path("/data/sandbox"), path("/data/trash")).unwrap()
}

fn scanned(relative: &str, md5: &str) -> ScannedFile {
    ScannedFile {
        relative: path(relative),
        md5_hash: md5.to_string(),
        modified_time: "t".to_string(),
    }
}

fn meta(virtual_path: &str, md5: &str) -> RemoteFileMeta {
    RemoteFileMeta {
        drive_id: make_drive_id(virtual_path),
        virtual_path: virtual_path.to_string(),
        md5_hash: md5.to_string(),
        modified_time: "t".to_string(),
    }
}

#[test]
fn identifiers_are_version_five_uuids() {
    assert_eq!(make_drive_id("http://python.org/"), "4c565f0d-3f5a-5890-b41b-20cf47701c5e");
    assert_eq!(make_drive_id("docs/a"), "d93ced89-e5bc-5f01-8a29-ed5cb56af0a7");
}

#[test]
fn remote_paths_become_paths_below_the_sandbox() {
    assert_eq!(sanitize_virtual_path("a/b/./c"), Ok(path("a/b/c")));
    assert_eq!(sanitize_virtual_path("./a"), Ok(path("a")));
    assert_eq!(store().absolute_from_virtual("a/b"), Ok(path("/data/sandbox/a/b")));
    assert_eq!(store().sandbox_root(), &path("/data/sandbox"));
}

#[test]
fn paths_that_leave_the_sandbox_are_refused() {
    for raw in ["../a", "a/../b", "/a", "a/.."] {
        let error = sanitize_virtual_path(raw).unwrap_err();
        assert_eq!(error.message(), format!("invalid remote path component in {raw}"));
    }
}

#[test]
fn empty_paths_are_refused() {
    for raw in ["", ".", "./."] {
        let error = sanitize_virtual_path(raw).unwrap_err();
        assert_eq!(error, FsRemoteError::EmptyPath);
        assert_eq!(error.message(), "remote path cannot be empty");
    }
}

#[test]
fn uploads_copy_into_the_sandbox() {
    let transfer = store().upload_or_update("/docs//a", &path("/home/u/a"), PathKind::File).unwrap();
    assert_eq!(transfer.virtual_path, "docs/a");
    assert_eq!(transfer.from, path("/home/u/a"));
    assert_eq!(transfer.to, path("/data/sandbox/docs/a"));
    let missing = store().upload_or_update("a", &path("/x"), PathKind::Missing).unwrap_err();
    assert_eq!(missing.message(), "local path does not exist: /x");
    let folder = store().upload_or_update("a", &path("/x"), PathKind::Directory).unwrap_err();
    assert_eq!(
        folder.message(),
        "upload_or_update currently supports files only, got directory /x"
    );
}

#[test]
fn downloads_copy_out_of_the_sandbox() {
    let transfer = store().download_to_local("docs/a", &path("/home/u/a"), PathKind::File).unwrap();
    assert_eq!(transfer.from, path("/data/sandbox/docs/a"));
    assert_eq!(transfer.to, path("/home/u/a"));
    let missing = store().download_to_local("/a/", &path("/x"), PathKind::Missing).unwrap_err();
    assert_eq!(missing.message(), "remote file does not exist: a");
    let folder = store().download_to_local("a", &path("/x"), PathKind::Directory).unwrap_err();
    assert_eq!(folder.message(), "download_to_local only supports files, got directory a");
}

#[test]
fn renames_move_within_the_sandbox() {
    let transfer = store().rename("a", "b/c", PathKind::File).unwrap();
    assert_eq!(transfer.virtual_path, "b/c");
    assert_eq!(transfer.from, path("/data/sandbox/a"));
    assert_eq!(transfer.to, path("/data/sandbox/b/c"));
    let missing = store().rename("a", "b", PathKind::Missing).unwrap_err();
    assert_eq!(missing.message(), "remote source does not exist: a");
    let out = store().rename("a", "../b", PathKind::Missing).unwrap_err();
    assert_eq!(out.message(), "invalid remote path component in ../b");
}

#[test]
fn the_trash_keeps_files_by_time_and_path() {
    let transfer = store().trash("docs/a/b", PathKind::File, Some(1700)).unwrap().unwrap();
    assert_eq!(transfer.from, path("/data/sandbox/docs/a/b"));
    assert_eq!(transfer.to, path("/data/trash/1700_docs__a__b"));
    assert_eq!(store().trash("a", PathKind::Missing, None).unwrap(), None);
    let early = store().trash("a", PathKind::File, None).unwrap_err();
    assert_eq!(early.message(), "system time is before UNIX_EPOCH");
}

#[test]
fn metadata_needs_a_readable_file() {
    assert!(is_readable(PathKind::File));
    assert!(is_readable(PathKind::Other));
    assert!(!is_readable(PathKind::Directory));
    assert!(!is_readable(PathKind::Missing));
    let facts = FileFacts { md5_hash: "1".to_string(), modified_time: "t".to_string() };
    assert_eq!(store().metadata_sync("/a//b", Some(facts.clone())).unwrap(), Some(meta("a/b", "1")));
    assert_eq!(store().metadata_sync("a", None).unwrap(), None);
    assert_eq!(store().metadata_after("a", Some(facts), "upload").unwrap(), meta("a", "1"));
    let gone = store().metadata_after("a", None, "rename").unwrap_err();
    assert_eq!(gone.message(), "metadata not available after rename");
}

#[test]
fn a_scan_has_one_file_for_each_remote_path() {
    let files = vec![scanned("a", "1"), scanned("b\\c", "2"), scanned("b/c", "3")];
    assert_eq!(scan_files_sync(&files), vec![meta("a", "1"), meta("b/c", "3")]);
}

#[test]
fn polls_report_what_changed() {
    let mut store = store();
    let first = vec![scanned("a", "1"), scanned("b", "2")];
    assert_eq!(
        store.poll_changes(Ok(first.clone())).unwrap(),
        vec![RemoteChange::Upsert(meta("a", "1")), RemoteChange::Upsert(meta("b", "2"))]
    );
    assert_eq!(store.poll_changes(Ok(first.clone())).unwrap(), vec![]);
    let second = vec![scanned("b", "3"), scanned("c", "4")];
    assert_eq!(
        store.poll_changes(Ok(second.clone())).unwrap(),
        vec![
            RemoteChange::Upsert(meta("b", "3")),
            RemoteChange::Upsert(meta("c", "4")),
            RemoteChange::Delete { virtual_path: "a".to_string() }
        ]
    );
    assert_eq!(store.poll_changes(Ok(second.clone())).unwrap(), vec![]);
}

#[test]
fn stored_files_are_found_under_their_path() {
    let mut store = store();
    let transfer = store.upload_or_update("/docs//./a b/", &path("/l"), PathKind::File).unwrap();
    assert_eq!(transfer.virtual_path, "docs/a b");
    assert_eq!(transfer.to, path("/data/sandbox/docs/a b"));
    let facts = FileFacts { md5_hash: "1".to_string(), modified_time: "t".to_string() };
    let stored = store.metadata_after(&transfer.virtual_path, Some(facts), "upload").unwrap();
    assert_eq!(
        store.poll_changes(Ok(vec![scanned("docs/a b", "1")])).unwrap(),
        vec![RemoteChange::Upsert(stored)]
    );
    let blank = store.upload_or_update("/ a", &path("/l"), PathKind::File).unwrap();
    assert_eq!(blank.to, path("/data/sandbox/ a"));
    assert_eq!(
        store.poll_changes(Ok(vec![scanned(" a", "1")])).unwrap()[0],
        RemoteChange::Upsert(meta("a", "1"))
    );
}

#[test]
fn different_paths_lie_apart() {
    let places: Vec<LocalPath> = ["a/b", "a", "b/a", "a/b.c", "ab"]
        .iter()
        .map(|p| store().upload_or_update(p, &path("/l"), PathKind::File).unwrap().to)
        .collect();
    for (i, place) in places.iter().enumerate() {
        assert!(!places[..i].contains(place));
    }
}

#[test]
fn a_failed_poll_loses_no_change() {
    let mut store = store();
    store.poll_changes(Ok(vec![scanned("a", "1"), scanned("b", "2")])).unwrap();
    for _ in 0..3 {
        let failed = store.poll_changes(Err(Failure::new("failed to open a")));
        assert_eq!(failed.unwrap_err().message, "failed to open a");
    }
    assert_eq!(
        store.poll_changes(Ok(vec![scanned("b", "3")])).unwrap(),
        vec![
            RemoteChange::Upsert(meta("b", "3")),
            RemoteChange::Delete { virtual_path: "a".to_string() }
        ]
    );
}

#[test]
fn metadata_is_looked_up_among_the_files() {
    let files = vec![path("a"), path("b\\c"), path("b/c")];
    assert_eq!(store().get_metadata("/b/c/", &files), Some(1));
    assert_eq!(store().get_metadata("d", &files), None);
}
