use guploadsync::config::PathKind;
use guploadsync::events::{RemoteChange, RemoteFileMeta};
use guploadsync::failure::Failure;
use guploadsync::hash_utils::compute_md5;
use guploadsync::path::LocalPath;
use guploadsync::remote::google_drive::changes::{
    translate_change, translate_change_step, virtual_path_from_file, virtual_path_step,
};
use guploadsync::remote::google_drive::protocol::{
    ChangePage, DriveReply, DriveRequest, StoreRequest, Turn, UploadFailure,
};
use guploadsync::remote::google_drive::work::{Outcome, WorkTurn};
use guploadsync::remote::google_drive::{
    child_query, create_folder, describe_file, error_status_code, escape_drive_query_literal,
    fetch_start_page_token, find_child, get_file_by_id, is_gone, is_not_found,
    normalize_sandbox_name, split_parent_and_file_name, split_virtual_path, to_remote_file_meta,
    ChildKind, DriveChange, DriveFailureKind, DriveFile, Timestamp, FOLDER_MIME_TYPE,
};
use guploadsync::remote::GoogleDriveRemoteStore;
use std::collections::BTreeMap;

const NOW: Timestamp = Timestamp { secs: 1_700_000_000, nanos: 0 };
const NOW_TEXT: &str = "2023-11-14T22:13:20+00:00";

fn path(text: &str) -> LocalPath {
    LocalPath::new(text)
}

fn text(s: &str) -> Option<String> {
    Some(s.to_string())
}

fn file(id: &str, name: &str, parent: &str, content: &str) -> DriveFile {
    DriveFile {
        id: text(id),
        name: text(name),
        parents: vec![parent.to_string()],
        mime_type: text("text/plain"),
        md5_checksum: Some(compute_md5(content.as_bytes())),
        modified_time: None,
        trashed: Some(false),
    }
}

fn folder(id: &str, name: &str, parent: &str) -> DriveFile {
    DriveFile { mime_type: text(FOLDER_MIME_TYPE), md5_checksum: None, ..file(id, name, parent, "") }
}

fn meta(id: &str, virtual_path: &str, content: &str) -> RemoteFileMeta {
    RemoteFileMeta {
        drive_id: id.to_string(),
        virtual_path: virtual_path.to_string(),
        md5_hash: compute_md5(content.as_bytes()),
        modified_time: NOW_TEXT.to_string(),
    }
}

/// A Drive in memory, with the store's other work around it.
struct FakeDrive {
    store: GoogleDriveRemoteStore,
    files: Vec<DriveFile>,
    contents: BTreeMap<String, String>,
    local: BTreeMap<String, String>,
    recorded: BTreeMap<String, String>,
    token: Option<String>,
    pages: BTreeMap<String, ChangePage>,
    expired: bool,
    log: Vec<String>,
}

impl FakeDrive {
    fn new() -> FakeDrive {
        FakeDrive {
            store: GoogleDriveRemoteStore::new("sand/box"),
            files: vec![],
            contents: BTreeMap::new(),
            local: BTreeMap::new(),
            recorded: BTreeMap::new(),
            token: None,
            pages: BTreeMap::new(),
            expired: false,
            log: vec![],
        }
    }

    fn fetch(&self, id: &str) -> Option<DriveFile> {
        self.files.iter().find(|f| f.id.as_deref() == Some(id)).cloned()
    }

    fn put(&mut self, file: DriveFile, content: &str) {
        self.contents.insert(file.id.clone().unwrap(), content.to_string());
        self.files.push(file);
    }

    fn perform(&mut self, request: StoreRequest) -> DriveReply {
        match request {
            DriveRequest::SandboxId => DriveReply::Text(self.sandbox_id()),
            DriveRequest::PathOf(file) => {
                let mut turn = virtual_path_from_file(&file);
                loop {
                    match turn {
                        Turn::Done(r) => return DriveReply::MaybeText(r),
                        Turn::Ask(stage, request) => {
                            let reply = self.perform(request);
                            turn = virtual_path_step(stage, reply);
                        }
                    }
                }
            }
            DriveRequest::FolderChain(_)
            | DriveRequest::Resolve(_)
            | DriveRequest::GetMetadata(_)
            | DriveRequest::Translate(_) => panic!("{request:?}"),
            DriveRequest::FindChild { parent_id, name, kind } => {
                self.log.push(format!("find {name}"));
                let found: Vec<DriveFile> = self
                    .files
                    .iter()
                    .filter(|f| {
                        f.name.as_deref() == Some(name.as_str())
                            && f.parents.first() == Some(&parent_id)
                            && f.trashed != Some(true)
                            && f.is_folder() == (kind == ChildKind::Folder)
                    })
                    .cloned()
                    .collect();
                DriveReply::MaybeFile(find_child(&parent_id, &name, Ok(found)))
            }
            DriveRequest::CreateFolder { parent_id, name } => {
                self.log.push(format!("make {name}"));
                let made = folder(&format!("id-{name}"), &name, &parent_id);
                self.files.push(made.clone());
                DriveReply::File(create_folder(&parent_id, &name, Ok(made)))
            }
            DriveRequest::Fetch(id) => {
                let fetched = match self.fetch(&id) {
                    Some(file) => Ok(file),
                    None => Err((DriveFailureKind::Status(404), Failure::new("not found"))),
                };
                DriveReply::MaybeFile(get_file_by_id(&id, fetched))
            }
            DriveRequest::UpdateContent { file_id, local_path } => {
                self.log.push(format!("update {file_id}"));
                let content = match self.local.get(&local_path.to_text()) {
                    Some(content) => content.clone(),
                    None => {
                        return DriveReply::Uploaded(Err(UploadFailure::Open(Failure::new(
                            "no such file",
                        ))))
                    }
                };
                for f in self.files.iter_mut() {
                    if f.id.as_deref() == Some(file_id.as_str()) {
                        f.md5_checksum = Some(compute_md5(content.as_bytes()));
                    }
                }
                self.contents.insert(file_id.clone(), content);
                DriveReply::Uploaded(Ok(self.fetch(&file_id).unwrap()))
            }
            DriveRequest::CreateContent { parent_id, name, local_path } => {
                self.log.push(format!("create {name} in {parent_id}"));
                let content = self.local[&local_path.to_text()].clone();
                let made = file(&format!("id-{name}"), &name, &parent_id, &content);
                self.put(made.clone(), &content);
                DriveReply::Uploaded(Ok(made))
            }
            DriveRequest::Download(id) => DriveReply::Content(Ok(self
                .contents
                .get(&id)
                .map(|content| content.as_bytes().to_vec()))),
            DriveRequest::TrashFile(id) => {
                self.log.push(format!("trash {id}"));
                for f in self.files.iter_mut() {
                    if f.id.as_deref() == Some(id.as_str()) {
                        f.trashed = Some(true);
                    }
                }
                DriveReply::Done(Ok(()))
            }
            DriveRequest::MoveFile { file_id, name, remove_parent, add_parent } => {
                self.log.push(format!("move {file_id} to {name}, {remove_parent:?}, {add_parent:?}"));
                for f in self.files.iter_mut() {
                    if f.id.as_deref() == Some(file_id.as_str()) {
                        f.name = Some(name.clone());
                        if let Some(parent) = &add_parent {
                            f.parents = vec![parent.clone()];
                        }
                    }
                }
                DriveReply::File(Ok(self.fetch(&file_id).unwrap()))
            }
            DriveRequest::StartToken => {
                DriveReply::Text(fetch_start_page_token(Ok(text("start"))))
            }
            DriveRequest::ListChanges(token) => {
                self.log.push(format!("list {token}"));
                if self.expired {
                    return DriveReply::Changes(Err((
                        DriveFailureKind::BadRequest(Some(410)),
                        Failure::new("expired"),
                    )));
                }
                match self.pages.remove(&token) {
                    Some(page) => DriveReply::Changes(Ok(page)),
                    None => DriveReply::Changes(Err((
                        DriveFailureKind::Other,
                        Failure::new("no connection"),
                    ))),
                }
            }
            DriveRequest::LoadToken => DriveReply::MaybeText(Ok(self.token.clone())),
            DriveRequest::SaveToken(token) => {
                self.log.push(format!("save {token}"));
                self.token = Some(token);
                DriveReply::Done(Ok(()))
            }
            DriveRequest::LookUpPath(id) => {
                DriveReply::MaybeText(Ok(self.recorded.get(&id).cloned()))
            }
            DriveRequest::MakeLocalFolder(p) => {
                self.log.push(format!("make folder {}", p.to_text()));
                DriveReply::Done(Ok(()))
            }
            DriveRequest::WriteLocal { local_path, content } => {
                self.local.insert(local_path.to_text(), String::from_utf8(content).unwrap());
                DriveReply::Done(Ok(()))
            }
        }
    }

    fn run(&mut self, first: WorkTurn) -> Outcome {
        let mut turn = first;
        loop {
            match turn {
                Turn::Done(outcome) => return outcome,
                Turn::Ask(work, request) => {
                    assert!(!matches!(request, DriveRequest::SandboxId | DriveRequest::PathOf(_)));
                    let reply = self.perform(request);
                    turn = self.store.resume(work, reply, NOW);
                }
            }
        }
    }

    fn sandbox_id(&mut self) -> Result<String, Failure> {
        let first = self.store.ensure_sandbox(NOW);
        match self.run(first) {
            Outcome::Reply(DriveReply::Text(r)) => r,
            other => panic!("{other:?}"),
        }
    }

    fn stored(&mut self, first: WorkTurn) -> Result<RemoteFileMeta, Failure> {
        match self.run(first) {
            Outcome::Stored(r) => r,
            other => panic!("{other:?}"),
        }
    }

    fn upload(&mut self, virtual_path: &str, local: &str, kind: PathKind) -> Result<RemoteFileMeta, Failure> {
        let first = self.store.upload_or_update(virtual_path, path(local), kind, NOW);
        self.stored(first)
    }

    fn download(&mut self, virtual_path: &str, local: &str) -> Result<RemoteFileMeta, Failure> {
        let first = self.store.download_to_local(virtual_path, path(local), NOW);
        self.stored(first)
    }

    fn rename(&mut self, from: &str, to: &str) -> Result<RemoteFileMeta, Failure> {
        let first = self.store.rename(from, to, NOW);
        self.stored(first)
    }

    fn trash(&mut self, virtual_path: &str) -> Result<(), Failure> {
        let first = self.store.trash(virtual_path, NOW);
        match self.run(first) {
            Outcome::Reply(DriveReply::Done(r)) => r,
            other => panic!("{other:?}"),
        }
    }

    fn get_metadata(&mut self, virtual_path: &str) -> Result<Option<RemoteFileMeta>, Failure> {
        let first = self.store.get_metadata(virtual_path, NOW);
        match self.run(first) {
            Outcome::Reply(DriveReply::Metadata(r)) => r,
            other => panic!("{other:?}"),
        }
    }

    fn translate(&mut self, change: DriveChange) -> Result<Option<RemoteChange>, Failure> {
        let mut turn = translate_change(change);
        loop {
            match turn {
                Turn::Done(r) => return r,
                Turn::Ask(stage, request) => {
                    let reply = self.perform(request);
                    turn = translate_change_step(stage, reply, NOW);
                }
            }
        }
    }

    fn poll(&mut self) -> Result<Vec<RemoteChange>, Failure> {
        let first = self.store.poll_changes(NOW);
        match self.run(first) {
            Outcome::Polled(r) => r,
            other => panic!("{other:?}"),
        }
    }

    fn take_log(&mut self) -> Vec<String> {
        std::mem::take(&mut self.log)
    }
}

/// A Drive whose sandbox holds the file `docs/a`.
fn with_file() -> FakeDrive {
    let mut drive = FakeDrive::new();
    drive.files.push(folder("box", "sand_box", "root"));
    drive.files.push(folder("docs", "docs", "box"));
    drive.put(file("fa", "a", "docs", "one"), "one");
    drive
}

fn change(file_id: &str, removed: bool, file: Option<DriveFile>) -> DriveChange {
    DriveChange { change_type: text("file"), file_id: text(file_id), removed: Some(removed), file }
}

#[test]
fn sandbox_names_name_one_folder() {
    assert_eq!(normalize_sandbox_name(" /a/b\\c/ "), "a_b_c");
    assert_eq!(normalize_sandbox_name("/"), "guploadsync");
    assert_eq!(normalize_sandbox_name("  "), "guploadsync");
}

#[test]
fn drive_paths_are_split_into_names() {
    let names = |raw: &str| split_virtual_path(raw).map_err(|why| why.message);
    assert_eq!(names("/a//b/./c"), Ok(vec!["a".to_string(), "b".to_string(), "c".to_string()]));
    assert_eq!(names("./"), Err("remote path cannot be empty".to_string()));
    assert_eq!(names("a/../b"), Err("invalid remote path segment '..' in a/../b".to_string()));
    assert_eq!(
        split_parent_and_file_name("a/b").unwrap(),
        (vec!["a".to_string()], "b".to_string())
    );
    assert_eq!(split_parent_and_file_name("b").unwrap(), (vec![], "b".to_string()));
    assert_eq!(
        split_parent_and_file_name("").unwrap_err().message,
        "remote path cannot be empty"
    );
}

#[test]
fn query_literals_are_escaped() {
    for value in ["", "plain", "it's", "back\\slash", "\\'", "''\\\\", "ä'ö"] {
        let expected = value.replace('\\', "\\\\").replace('\'', "\\'");
        assert_eq!(escape_drive_query_literal(value), expected);
    }
    assert_eq!(escape_drive_query_literal("it's a \\"), "it\\'s a \\\\");
}

#[test]
fn child_queries_name_the_child_and_its_folder() {
    assert_eq!(
        child_query("p'1", "it's", ChildKind::File),
        "name = 'it\\'s' and 'p\\'1' in parents and trashed = false and mimeType != 'application/vnd.google-apps.folder'"
    );
    assert_eq!(
        child_query("root", "docs", ChildKind::Folder),
        "name = 'docs' and 'root' in parents and trashed = false and mimeType = 'application/vnd.google-apps.folder'"
    );
}

#[test]
fn failures_stand_for_statuses() {
    assert_eq!(error_status_code(DriveFailureKind::Status(500)), Some(500));
    assert_eq!(error_status_code(DriveFailureKind::BadRequest(Some(404))), Some(404));
    assert_eq!(error_status_code(DriveFailureKind::BadRequest(Some(65536 + 410))), Some(410));
    assert_eq!(error_status_code(DriveFailureKind::BadRequest(None)), None);
    assert_eq!(error_status_code(DriveFailureKind::Other), None);
    assert!(is_not_found(DriveFailureKind::Status(404)));
    assert!(!is_not_found(DriveFailureKind::Status(410)));
    assert!(is_gone(DriveFailureKind::BadRequest(Some(410))));
    assert!(!is_gone(DriveFailureKind::Other));
}

#[test]
fn answers_of_drive_are_read() {
    let why = || Failure::new("offline");
    assert_eq!(
        find_child("p", "n", Err(why())).unwrap_err().message,
        "failed to list Drive children for parent p and name 'n': offline"
    );
    let two = vec![file("1", "n", "p", ""), file("2", "n", "p", "")];
    assert_eq!(find_child("p", "n", Ok(two)).unwrap().unwrap().id, text("1"));
    assert_eq!(find_child("p", "n", Ok(vec![])).unwrap(), None);
    assert_eq!(
        create_folder("p", "n", Err(why())).unwrap_err().message,
        "failed to create Drive folder 'n' under parent p: offline"
    );
    let other = Err((DriveFailureKind::Status(500), why()));
    assert_eq!(
        get_file_by_id("f", other).unwrap_err().message,
        "failed to fetch Drive file metadata for f: offline"
    );
    let unknown = Err((DriveFailureKind::Status(404), why()));
    assert_eq!(get_file_by_id("f", unknown).unwrap(), None);
    assert_eq!(
        fetch_start_page_token(Err(why())).unwrap_err().message,
        "failed to fetch Drive start page token: offline"
    );
    assert_eq!(
        fetch_start_page_token(Ok(None)).unwrap_err().message,
        "Drive did not return a startPageToken"
    );
}

#[test]
fn drive_metadata_is_read() {
    let mut f = file("f", "a", "p", "one");
    assert_eq!(to_remote_file_meta(&f, "a".to_string(), NOW).unwrap(), meta("f", "a", "one"));
    f.modified_time = Some(Timestamp { secs: 0, nanos: 5_000_000 });
    f.md5_checksum = None;
    let known = to_remote_file_meta(&f, "a".to_string(), NOW).unwrap();
    assert_eq!(known.modified_time, "1970-01-01T00:00:00.005+00:00");
    assert_eq!(known.md5_hash, "");
    f.id = None;
    assert_eq!(
        to_remote_file_meta(&f, "a".to_string(), NOW).unwrap_err().message,
        "Drive metadata missing file id"
    );
}

#[test]
fn drive_metadata_needs_an_identifier_and_a_time() {
    let mut f = file("f", "a", "p", "one");
    let known = describe_file(&f, "x/a".to_string(), text("noon")).unwrap();
    assert_eq!(known.drive_id, "f");
    assert_eq!(known.virtual_path, "x/a");
    assert_eq!(known.md5_hash, compute_md5(b"one"));
    assert_eq!(known.modified_time, "noon");
    assert_eq!(
        describe_file(&f, "x/a".to_string(), None).unwrap_err().message,
        "Drive metadata has no valid time"
    );
    f.id = None;
    assert_eq!(
        describe_file(&f, "x/a".to_string(), None).unwrap_err().message,
        "Drive metadata missing file id"
    );
}

#[test]
fn the_sandbox_is_made_once() {
    let mut drive = FakeDrive::new();
    assert_eq!(drive.sandbox_id(), Ok("id-sand_box".to_string()));
    assert_eq!(drive.sandbox_id(), Ok("id-sand_box".to_string()));
    assert_eq!(drive.take_log(), vec!["find sand_box", "make sand_box"]);
}

#[test]
fn folders_are_made_once_and_remembered() {
    let mut drive = with_file();
    drive.local.insert("/l".to_string(), "x".to_string());
    let stored = drive.upload("docs/new/deep/f", "/l", PathKind::File).unwrap();
    assert_eq!(stored, meta("id-f", "docs/new/deep/f", "x"));
    assert_eq!(
        drive.take_log(),
        vec![
            "find sand_box",
            "find docs",
            "find new",
            "make new",
            "find deep",
            "make deep",
            "find f",
            "create f in id-deep"
        ]
    );
    drive.upload("docs/new/g", "/l", PathKind::File).unwrap();
    assert_eq!(drive.take_log(), vec!["find g", "create g in id-new"]);
}

#[test]
fn an_upload_updates_the_file_that_is_there() {
    let mut drive = with_file();
    drive.local.insert("/l".to_string(), "two".to_string());
    assert_eq!(
        drive.upload("/docs/a", "/l", PathKind::File).unwrap(),
        meta("fa", "docs/a", "two")
    );
    assert_eq!(drive.take_log(), vec!["find sand_box", "find docs", "find a", "update fa"]);
    assert_eq!(
        drive.upload("docs/a", "/none", PathKind::File).unwrap_err().message,
        "failed to open /none for upload: no such file"
    );
}

#[test]
fn a_second_upload_updates_the_file() {
    let mut drive = with_file();
    drive.local.insert("/l".to_string(), "one".to_string());
    drive.local.insert("/m".to_string(), "two".to_string());
    let first = drive.upload("new/f", "/l", PathKind::File).unwrap();
    drive.take_log();
    let count = drive.files.len();
    let second = drive.upload("new//f", "/m", PathKind::File).unwrap();
    assert_eq!(drive.take_log(), vec!["find f", "update id-f"]);
    assert_eq!(second, RemoteFileMeta { md5_hash: compute_md5(b"two"), ..first });
    assert_eq!(drive.files.len(), count);
}

#[test]
fn an_upload_updates_the_file_that_a_look_found() {
    let mut drive = with_file();
    drive.local.insert("/l".to_string(), "two".to_string());
    let known = drive.get_metadata("docs/a").unwrap().unwrap();
    drive.take_log();
    let stored = drive.upload("docs/a", "/l", PathKind::File).unwrap();
    assert_eq!(stored.drive_id, known.drive_id);
    assert_eq!(drive.take_log(), vec!["find a", "update fa"]);
}

#[test]
fn an_uploaded_file_is_found_again() {
    let mut drive = with_file();
    drive.local.insert("/l".to_string(), "x".to_string());
    let stored = drive.upload("docs/new/f", "/l", PathKind::File).unwrap();
    drive.take_log();
    assert_eq!(drive.get_metadata("docs/new/f").unwrap(), Some(stored));
    assert_eq!(drive.take_log(), vec!["find docs", "find new", "find f"]);
}

#[test]
fn changes_that_mean_nothing_are_passed_over_in_a_row() {
    let mut drive = with_file();
    drive.token = text("t1");
    let mut changes: Vec<DriveChange> = (0..50)
        .map(|i| change(&format!("d{i}"), false, Some(folder(&format!("d{i}"), "d", "box"))))
        .collect();
    changes.push(change("fa", false, drive.fetch("fa")));
    drive.pages.insert(
        "t1".to_string(),
        ChangePage { changes, next_page_token: None, new_start_page_token: text("t2") },
    );
    assert_eq!(
        drive.poll().unwrap(),
        vec![RemoteChange::Upsert(meta("fa", "docs/a", "one"))]
    );
}

#[test]
fn uploads_of_nothing_are_refused() {
    let mut drive = with_file();
    let mut why = |p: &str, kind| drive.upload(p, "/l", kind).unwrap_err().message;
    assert_eq!(why("a", PathKind::Missing), "local path does not exist: /l");
    assert_eq!(
        why("a", PathKind::Directory),
        "upload_or_update currently supports files only, got directory /l"
    );
    assert_eq!(why("/", PathKind::File), "remote path cannot be empty");
    assert_eq!(why("../a", PathKind::File), "invalid remote path segment '..' in ../a");
}

#[test]
fn a_download_is_written_to_the_local_path() {
    let mut drive = with_file();
    assert_eq!(drive.download("docs/a", "/d/e/f").unwrap(), meta("fa", "docs/a", "one"));
    assert_eq!(drive.local["/d/e/f"], "one");
    assert_eq!(
        drive.take_log(),
        vec!["find sand_box", "find docs", "find a", "make folder /d/e"]
    );
    assert_eq!(
        drive.download("docs/b", "/x").unwrap_err().message,
        "remote file does not exist: docs/b"
    );
    drive.contents.clear();
    assert_eq!(
        drive.download("docs/a", "/x").unwrap_err().message,
        "Drive download returned empty body for docs/a"
    );
}

#[test]
fn a_rename_moves_between_folders() {
    let mut drive = with_file();
    assert_eq!(drive.rename("docs/a", "b").unwrap(), meta("fa", "b", "one"));
    let log = drive.take_log();
    assert_eq!(log.last().unwrap(), "move fa to b, Some(\"docs\"), Some(\"box\")");
    assert_eq!(drive.rename("b", "c").unwrap(), meta("fa", "c", "one"));
    assert_eq!(drive.take_log().last().unwrap(), "move fa to c, None, None");
}

#[test]
fn a_rename_trashes_what_it_replaces() {
    let mut drive = with_file();
    drive.put(file("fb", "b", "docs", "two"), "two");
    drive.rename("docs/a", "docs/b").unwrap();
    let log = drive.take_log();
    assert_eq!(log[log.len() - 2..], ["trash fb", "move fa to b, None, None"]);
}

#[test]
fn a_rename_to_itself_only_looks() {
    let mut drive = with_file();
    assert_eq!(drive.rename("docs/a", "/docs/a/").unwrap(), meta("fa", "docs/a", "one"));
    assert_eq!(
        drive.rename("docs/x", "docs/x").unwrap_err().message,
        "rename source and destination are equal but metadata is missing"
    );
    assert_eq!(
        drive.rename("docs/x", "docs/y").unwrap_err().message,
        "remote source does not exist: docs/x"
    );
}

#[test]
fn the_trash_takes_files_that_are_there() {
    let mut drive = with_file();
    drive.trash("docs/a").unwrap();
    drive.trash("docs/a").unwrap();
    let trashed: Vec<String> =
        drive.take_log().into_iter().filter(|line| line.starts_with("trash")).collect();
    assert_eq!(trashed, vec!["trash fa"]);
    assert_eq!(drive.get_metadata("docs/a").unwrap(), None);
}

#[test]
fn metadata_is_found_by_path() {
    let mut drive = with_file();
    assert_eq!(drive.get_metadata("/docs//a").unwrap(), Some(meta("fa", "docs/a", "one")));
    assert_eq!(drive.get_metadata("docs").unwrap(), None);
    assert_eq!(drive.get_metadata("").unwrap_err().message, "remote path cannot be empty");
}

#[test]
fn a_changed_file_is_an_upsert() {
    let mut drive = with_file();
    let known = drive.fetch("fa");
    assert_eq!(
        drive.translate(change("fa", false, known)).unwrap(),
        Some(RemoteChange::Upsert(meta("fa", "docs/a", "one")))
    );
    assert_eq!(
        drive.translate(change("fa", false, None)).unwrap(),
        Some(RemoteChange::Upsert(meta("fa", "docs/a", "one")))
    );
}

#[test]
fn a_trashed_file_is_a_delete() {
    let mut drive = with_file();
    let mut gone = drive.fetch("fa").unwrap();
    gone.trashed = Some(true);
    let expected = Some(RemoteChange::Delete { virtual_path: "docs/a".to_string() });
    assert_eq!(drive.translate(change("fa", false, Some(gone))).unwrap(), expected);
    drive.recorded.insert("fz".to_string(), "docs/z".to_string());
    let recorded = Some(RemoteChange::Delete { virtual_path: "docs/z".to_string() });
    assert_eq!(drive.translate(change("fz", true, None)).unwrap(), recorded);
    assert_eq!(drive.translate(change("fz", false, None)).unwrap(), recorded);
    assert_eq!(drive.translate(change("fy", true, None)).unwrap(), None);
}

#[test]
fn a_file_that_left_the_sandbox_is_a_delete() {
    let mut drive = with_file();
    drive.files.push(folder("out", "out", "root"));
    drive.put(file("fo", "o", "out", "x"), "x");
    drive.recorded.insert("fo".to_string(), "docs/o".to_string());
    let known = drive.fetch("fo");
    assert_eq!(
        drive.translate(change("fo", false, known)).unwrap(),
        Some(RemoteChange::Delete { virtual_path: "docs/o".to_string() })
    );
}

#[test]
fn changes_of_folders_and_drives_mean_nothing() {
    let mut drive = with_file();
    let docs = drive.fetch("docs");
    assert_eq!(drive.translate(change("docs", true, docs)).unwrap(), None);
    assert_eq!(drive.translate(change("docs", false, None)).unwrap(), None);
    let of_drive = DriveChange { change_type: text("drive"), ..change("fa", false, None) };
    assert_eq!(drive.translate(of_drive).unwrap(), None);
    let nothing =
        DriveChange { change_type: None, file_id: None, removed: None, file: None };
    assert_eq!(drive.translate(nothing).unwrap(), None);
}

#[test]
fn folders_in_a_circle_lead_nowhere() {
    let mut drive = with_file();
    drive.files.push(folder("p", "p", "q"));
    drive.files.push(folder("q", "q", "p"));
    drive.put(file("fc", "c", "p", "x"), "x");
    let known = drive.fetch("fc");
    assert_eq!(drive.translate(change("fc", false, known)).unwrap(), None);
}

#[test]
fn the_first_poll_takes_a_token() {
    let mut drive = with_file();
    assert_eq!(drive.poll().unwrap(), vec![]);
    assert_eq!(drive.take_log(), vec!["save start"]);
}

#[test]
fn polls_go_through_all_pages() {
    let mut drive = with_file();
    drive.put(file("fb", "b", "box", "two"), "two");
    drive.token = text("t1");
    let (a, b) = (drive.fetch("fa"), drive.fetch("fb"));
    drive.pages.insert(
        "t1".to_string(),
        ChangePage {
            changes: vec![change("fa", false, a), change("fy", true, None)],
            next_page_token: text("t2"),
            new_start_page_token: None,
        },
    );
    drive.pages.insert(
        "t2".to_string(),
        ChangePage {
            changes: vec![change("fb", false, b)],
            next_page_token: None,
            new_start_page_token: text("t3"),
        },
    );
    assert_eq!(
        drive.poll().unwrap(),
        vec![
            RemoteChange::Upsert(meta("fa", "docs/a", "one")),
            RemoteChange::Upsert(meta("fb", "b", "two"))
        ]
    );
    assert_eq!(drive.token, text("t3"));
}

#[test]
fn a_poll_without_a_new_token_keeps_the_old_one() {
    let mut drive = with_file();
    drive.token = text("t1");
    drive.pages.insert(
        "t1".to_string(),
        ChangePage { changes: vec![], next_page_token: None, new_start_page_token: None },
    );
    assert_eq!(drive.poll().unwrap(), vec![]);
    assert_eq!(drive.take_log(), vec!["list t1", "save t1"]);
}

#[test]
fn an_expired_token_is_replaced() {
    let mut drive = with_file();
    drive.token = text("old");
    drive.expired = true;
    assert_eq!(drive.poll().unwrap(), vec![]);
    assert_eq!(drive.take_log(), vec!["list old", "save start"]);
}

#[test]
fn a_poll_that_fails_keeps_its_token() {
    let mut drive = with_file();
    drive.token = text("t1");
    assert_eq!(
        drive.poll().unwrap_err().message,
        "Drive changes.list failed: no connection"
    );
    assert_eq!(drive.token, text("t1"));
}

#[test]
fn items_without_an_identifier_are_refused() {
    let mut drive = with_file();
    drive.files[2].id = None;
    assert_eq!(
        drive.get_metadata("docs/a").unwrap_err().message,
        "Drive path resolver found item without id"
    );
    drive.local.insert("/l".to_string(), "x".to_string());
    assert_eq!(
        drive.upload("docs/a", "/l", PathKind::File).unwrap_err().message,
        "Drive existing file missing id during update"
    );
    let mut fresh = FakeDrive::new();
    fresh.files.push(DriveFile { id: None, ..folder("x", "sand_box", "root") });
    assert_eq!(
        fresh.sandbox_id().unwrap_err().message,
        "Drive returned sandbox folder without id"
    );
    let mut nameless = FakeDrive::new();
    nameless.files.push(folder("box", "sand_box", "root"));
    nameless.files.push(DriveFile { id: None, ..folder("x", "docs", "box") });
    nameless.local.insert("/l".to_string(), "x".to_string());
    assert_eq!(
        nameless.upload("docs/a", "/l", PathKind::File).unwrap_err().message,
        "Drive folder lookup returned object without id"
    );
}
