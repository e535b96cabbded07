//! What the sync engine asks for and is told, and how its work goes on with
//! each reply.
use vstd::prelude::*;

use crate::config::{local_of, remote_of, runtime_path, AppConfigView, PathFacts, PathKind};
use crate::events::{
    LocalFileEventKind, RemoteChangeView, RemoteFileMeta, RemoteFileMetaView, SyncEvent,
    SyncEventView,
};
use crate::failure::Failure;
use crate::keyed::find;
use crate::path::{parent_of, same_path, LocalPath};
use crate::path_map::{inserted, removed};
use crate::state_db::{record_views, FileState, FileStateView};
use crate::sync_engine::conflict::{conflicted_copy, no_parent_text};
use crate::text::{lossy_text, text_view};

verus! {

/// How long a deleted file waits to turn up under another name before its
/// remote copy is moved to the trash, in nanoseconds.
pub const RENAME_WINDOW_NANOS: u64 = 5_000_000_000;

/// The seconds between two looks at the deletes that wait.
pub const CLEANUP_SECONDS: u64 = 1;

/// What is said of a reply that does not belong to what was asked for.
pub const UNEXPECTED_REPLY: &'static str = "unexpected reply";

/// A deleted file whose remote copy is still there.
#[derive(Debug, PartialEq, Eq)]
pub struct PendingDelete {
    /// The baseline of the file.
    pub record: FileState,
    /// The clock reading from which on the remote copy is moved to the trash.
    pub expires_at: u64,
}

/// The view of a [`PendingDelete`].
pub struct PendingDeleteView {
    pub record: FileStateView,
    pub expires_at: u64,
}

impl View for PendingDelete {
    type V = PendingDeleteView;

    open spec fn view(&self) -> PendingDeleteView {
        PendingDeleteView { record: self.record@, expires_at: self.expires_at }
    }
}

/// Something that is done outside the engine.
#[derive(Debug, PartialEq, Eq)]
pub enum Request<P, T, R> {
    /// Tell what there is at a local path.
    Inspect(P),
    /// Fingerprint a local file.
    HashFile(P),
    /// Tell when a local file was modified.
    ReadModified(P),
    /// Read the record of a local path.
    FindByLocal(P),
    /// Read the record of a remote path.
    FindByRemote(T),
    /// Read the records at or below a local path.
    ListByLocalPrefix(P),
    /// Read the records at or below a remote path.
    ListByRemotePrefix(T),
    /// Read every record.
    ListAll,
    /// Write a record.
    Save(R),
    /// Remove the record of a local path.
    RemoveByLocal(P),
    /// Remove the record of a remote path.
    RemoveByRemote(T),
    /// Set the local timestamp in the record of a local path.
    SetLocalTimestamp(P, i64),
    /// Store a local file under a remote path.
    Upload { virtual_path: T, local_path: P },
    /// Fetch a remote file to a local path.
    Download { virtual_path: T, local_path: P },
    /// Move a remote file.
    Rename { from: T, to: T },
    /// Tell what is known of a remote file.
    GetMetadata(T),
    /// Move a remote file to the remote trash.
    TrashRemote(T),
    /// Move a local file to the desktop trash.
    TrashLocal(P),
    /// Tell the milliseconds since 1970.
    ReadClock,
    /// Begin to walk a local folder, and give its first entry.
    Walk(P),
    /// Give the next entry of the folder that is walked.
    WalkNext,
}

/// What the engine asks for.
pub type EngineRequest = Request<LocalPath, String, FileState>;

/// The view of an [`EngineRequest`].
pub type RequestView = Request<Seq<u8>, Seq<char>, FileStateView>;

impl View for EngineRequest {
    type V = RequestView;

    open spec fn view(&self) -> RequestView {
        match self {
            Request::Inspect(path) => Request::Inspect(path@),
            Request::HashFile(path) => Request::HashFile(path@),
            Request::ReadModified(path) => Request::ReadModified(path@),
            Request::FindByLocal(path) => Request::FindByLocal(path@),
            Request::FindByRemote(path) => Request::FindByRemote(path@),
            Request::ListByLocalPrefix(path) => Request::ListByLocalPrefix(path@),
            Request::ListByRemotePrefix(path) => Request::ListByRemotePrefix(path@),
            Request::ListAll => Request::ListAll,
            Request::Save(record) => Request::Save(record@),
            Request::RemoveByLocal(path) => Request::RemoveByLocal(path@),
            Request::RemoveByRemote(path) => Request::RemoveByRemote(path@),
            Request::SetLocalTimestamp(path, n) => Request::SetLocalTimestamp(path@, *n),
            Request::Upload { virtual_path, local_path } => Request::Upload {
                virtual_path: virtual_path@,
                local_path: local_path@,
            },
            Request::Download { virtual_path, local_path } => Request::Download {
                virtual_path: virtual_path@,
                local_path: local_path@,
            },
            Request::Rename { from, to } => Request::Rename { from: from@, to: to@ },
            Request::GetMetadata(path) => Request::GetMetadata(path@),
            Request::TrashRemote(path) => Request::TrashRemote(path@),
            Request::TrashLocal(path) => Request::TrashLocal(path@),
            Request::ReadClock => Request::ReadClock,
            Request::Walk(path) => Request::Walk(path@),
            Request::WalkNext => Request::WalkNext,
        }
    }
}

/// An entry of a folder that is walked.
#[derive(Debug, PartialEq, Eq)]
pub struct WalkEntry {
    pub path: LocalPath,
    /// Whether the entry is a file itself, and no link to one.
    pub is_file: bool,
}

/// What came of a request.
#[derive(Debug)]
pub enum Reply {
    /// To [`Request::Inspect`].
    Facts(PathFacts),
    /// To [`Request::HashFile`].
    Hash(Result<String, Failure>),
    /// To [`Request::ReadModified`].
    Modified(Result<i64, Failure>),
    /// To [`Request::FindByLocal`] and [`Request::FindByRemote`].
    Found(Result<Option<FileState>, Failure>),
    /// To the requests that list records.
    Records(Result<Vec<FileState>, Failure>),
    /// To [`Request::Upload`], [`Request::Download`] and [`Request::Rename`].
    Stored(Result<RemoteFileMeta, Failure>),
    /// To [`Request::GetMetadata`].
    Metadata(Result<Option<RemoteFileMeta>, Failure>),
    /// To the requests that only do something.
    Done(Result<(), Failure>),
    /// To [`Request::ReadClock`]; nothing where the clock stands before 1970.
    Clock(Option<u128>),
    /// To [`Request::Walk`] and [`Request::WalkNext`]; nothing at the end.
    Walked(Option<WalkEntry>),
}

/// The view of a [`Reply`].
pub enum ReplyView {
    Facts(PathFacts),
    Hash(Result<Seq<char>, Seq<char>>),
    Modified(Result<i64, Seq<char>>),
    Found(Result<Option<FileStateView>, Seq<char>>),
    Records(Result<Seq<FileStateView>, Seq<char>>),
    Stored(Result<RemoteFileMetaView, Seq<char>>),
    Metadata(Result<Option<RemoteFileMetaView>, Seq<char>>),
    Done(Result<(), Seq<char>>),
    Clock(Option<u128>),
    Walked(Option<(Seq<u8>, bool)>),
}

impl View for Reply {
    type V = ReplyView;

    open spec fn view(&self) -> ReplyView {
        match self {
            Reply::Facts(facts) => ReplyView::Facts(*facts),
            Reply::Hash(Ok(hash)) => ReplyView::Hash(Ok(hash@)),
            Reply::Hash(Err(why)) => ReplyView::Hash(Err(why@)),
            Reply::Modified(Ok(n)) => ReplyView::Modified(Ok(*n)),
            Reply::Modified(Err(why)) => ReplyView::Modified(Err(why@)),
            Reply::Found(Ok(Some(record))) => ReplyView::Found(Ok(Some(record@))),
            Reply::Found(Ok(None)) => ReplyView::Found(Ok(None)),
            Reply::Found(Err(why)) => ReplyView::Found(Err(why@)),
            Reply::Records(Ok(list)) => ReplyView::Records(Ok(record_views(list@))),
            Reply::Records(Err(why)) => ReplyView::Records(Err(why@)),
            Reply::Stored(Ok(meta)) => ReplyView::Stored(Ok(meta@)),
            Reply::Stored(Err(why)) => ReplyView::Stored(Err(why@)),
            Reply::Metadata(Ok(Some(meta))) => ReplyView::Metadata(Ok(Some(meta@))),
            Reply::Metadata(Ok(None)) => ReplyView::Metadata(Ok(None)),
            Reply::Metadata(Err(why)) => ReplyView::Metadata(Err(why@)),
            Reply::Done(Ok(_)) => ReplyView::Done(Ok(())),
            Reply::Done(Err(why)) => ReplyView::Done(Err(why@)),
            Reply::Clock(millis) => ReplyView::Clock(*millis),
            Reply::Walked(Some(entry)) => ReplyView::Walked(Some((entry.path@, entry.is_file))),
            Reply::Walked(None) => ReplyView::Walked(None),
        }
    }
}

/// What is to be done next: a request that the engine waits for the reply to,
/// or nothing, because the work is over.
#[derive(Debug, PartialEq, Eq)]
pub enum Action<Q, F> {
    Perform(Q),
    Finish(Result<(), F>),
}

/// What the engine wants done next.
pub type EngineAction = Action<EngineRequest, Failure>;

/// The view of an [`EngineAction`].
pub type ActionView = Action<RequestView, Seq<char>>;

impl View for EngineAction {
    type V = ActionView;

    open spec fn view(&self) -> ActionView {
        match self {
            Action::Perform(request) => Action::Perform(request@),
            Action::Finish(Ok(_)) => Action::Finish(Ok(())),
            Action::Finish(Err(why)) => Action::Finish(Err(why@)),
        }
    }
}

/// A local file whose content is known, on its way to the remote store.
#[derive(Debug, PartialEq, Eq)]
pub struct Candidate<P, T> {
    pub path: P,
    pub virtual_path: T,
    pub md5_hash: T,
    pub local_timestamp: i64,
}

/// What the work on a new or changed local file waits for.
#[derive(Debug, PartialEq, Eq)]
pub enum LocalUpsert<P, T, R> {
    /// What there is at the path.
    Inspect { path: P },
    /// The fingerprint of the file.
    Hash { path: P, virtual_path: T },
    /// The time of its last modification.
    Modified { path: P, virtual_path: T, md5_hash: T },
    /// Its baseline.
    Find { candidate: Candidate<P, T> },
    /// The remote rename of the file that was at `old_path`.
    Rename { candidate: Candidate<P, T>, old_path: P },
    /// The upload that takes the place of a rename that failed.
    UploadRenamed { candidate: Candidate<P, T>, old_path: P },
    /// The removal of the baseline of `old_path`.
    Forget { record: R, old_path: P },
    /// The new timestamp of an unchanged file.
    Touch,
    /// The upload.
    Upload { candidate: Candidate<P, T> },
    /// The new baseline.
    Save,
}

/// What the work on a new or changed remote file waits for.
#[derive(Debug, PartialEq, Eq)]
pub enum RemoteUpsert<P, T, M> {
    /// What is known of the remote file.
    Metadata { virtual_path: T, local_path: P },
    /// The baseline of a remote file with the given fingerprint.
    Find { virtual_path: T, local_path: P, remote_hash: T },
    /// What there is at the local path.
    Inspect { virtual_path: T, local_path: P, base_hash: Option<T> },
    /// The fingerprint of the local file.
    Hash { virtual_path: T, local_path: P, base_hash: Option<T> },
    /// The time, for the name of the conflicted copy.
    Clock { virtual_path: T, local_path: P, md5_hash: T },
    /// The download of the conflicted copy.
    StoreCopy { virtual_path: T, local_path: P, md5_hash: T, copy_path: P },
    /// The upload of the local version.
    UploadLocal { local_path: P, md5_hash: T },
    /// The download of the remote version.
    Download { local_path: P },
    /// The time of the local file's last modification.
    Modified { local_path: P, md5_hash: T, stored: M },
    /// The new baseline.
    Save,
}

/// What the work on a deleted remote file or folder waits for.
#[derive(Debug, PartialEq, Eq)]
pub enum RemoteDelete<P, T> {
    /// The records at or below the path.
    List { virtual_path: T },
    /// What there is at the local path of an untracked file.
    InspectMapped { virtual_path: T, local_path: P },
    /// The move of an untracked file to the desktop trash.
    TrashMapped { virtual_path: T },
    /// The removal of a record by its remote path.
    ForgetMapped,
    /// What there is at the local path of a record.
    InspectRecord { next: usize },
    /// The move of its file to the desktop trash.
    TrashRecord { next: usize },
    /// The removal of the record.
    ForgetRecord { next: usize },
}

/// What a full synchronization waits for, between the files it works on.
#[derive(Debug, Clone, Copy, PartialEq, Eq, Structural)]
pub enum FullSync {
    /// What there is at the path of a watch entry.
    InspectEntry { entry: usize },
    /// The next file below a watch entry.
    Walk { entry: usize },
    /// Every record.
    ListRecords,
    /// What there is at the local path of a record.
    InspectRecord { next: usize },
}

/// What moving the remote copies of deleted files to the trash waits for.
#[derive(Debug, PartialEq, Eq)]
pub enum Flush<P> {
    /// The move of a remote file to the trash.
    Trash { cutoff: u64, local_path: P },
    /// The removal of its record.
    Forget { cutoff: u64 },
}

/// Where the work goes on after a local file.
#[derive(Debug, Clone, Copy, PartialEq, Eq, Structural)]
pub enum After {
    /// Nowhere.
    Finish,
    /// With the watch entry that follows.
    NextEntry { entry: usize },
    /// With the next file below the watch entry.
    Walk { entry: usize },
}

/// The work that the engine is at.
#[derive(Debug, PartialEq, Eq)]
pub enum Job<P, T, R, M> {
    Idle,
    LocalUpsert(LocalUpsert<P, T, R>, After),
    /// Waits for the records at or below the path of a deleted file or folder.
    LocalDelete,
    RemoteUpsert(RemoteUpsert<P, T, M>),
    RemoteDelete(RemoteDelete<P, T>),
    FullSync(FullSync),
    Flush(Flush<P>),
}

/// The engine's work.
pub type EngineJob = Job<LocalPath, String, FileState, RemoteFileMeta>;

/// The view of an [`EngineJob`].
pub type JobView = Job<Seq<u8>, Seq<char>, FileStateView, RemoteFileMetaView>;

impl View for Candidate<LocalPath, String> {
    type V = Candidate<Seq<u8>, Seq<char>>;

    open spec fn view(&self) -> Candidate<Seq<u8>, Seq<char>> {
        Candidate {
            path: self.path@,
            virtual_path: self.virtual_path@,
            md5_hash: self.md5_hash@,
            local_timestamp: self.local_timestamp,
        }
    }
}

impl View for LocalUpsert<LocalPath, String, FileState> {
    type V = LocalUpsert<Seq<u8>, Seq<char>, FileStateView>;

    open spec fn view(&self) -> LocalUpsert<Seq<u8>, Seq<char>, FileStateView> {
        match self {
            LocalUpsert::Inspect { path } => LocalUpsert::Inspect { path: path@ },
            LocalUpsert::Hash { path, virtual_path } => LocalUpsert::Hash {
                path: path@,
                virtual_path: virtual_path@,
            },
            LocalUpsert::Modified { path, virtual_path, md5_hash } => LocalUpsert::Modified {
                path: path@,
                virtual_path: virtual_path@,
                md5_hash: md5_hash@,
            },
            LocalUpsert::Find { candidate } => LocalUpsert::Find { candidate: candidate@ },
            LocalUpsert::Rename { candidate, old_path } => LocalUpsert::Rename {
                candidate: candidate@,
                old_path: old_path@,
            },
            LocalUpsert::UploadRenamed { candidate, old_path } => LocalUpsert::UploadRenamed {
                candidate: candidate@,
                old_path: old_path@,
            },
            LocalUpsert::Forget { record, old_path } => LocalUpsert::Forget {
                record: record@,
                old_path: old_path@,
            },
            LocalUpsert::Touch => LocalUpsert::Touch,
            LocalUpsert::Upload { candidate } => LocalUpsert::Upload { candidate: candidate@ },
            LocalUpsert::Save => LocalUpsert::Save,
        }
    }
}

impl View for RemoteUpsert<LocalPath, String, RemoteFileMeta> {
    type V = RemoteUpsert<Seq<u8>, Seq<char>, RemoteFileMetaView>;

    open spec fn view(&self) -> RemoteUpsert<Seq<u8>, Seq<char>, RemoteFileMetaView> {
        match self {
            RemoteUpsert::Metadata { virtual_path, local_path } => RemoteUpsert::Metadata {
                virtual_path: virtual_path@,
                local_path: local_path@,
            },
            RemoteUpsert::Find { virtual_path, local_path, remote_hash } => RemoteUpsert::Find {
                virtual_path: virtual_path@,
                local_path: local_path@,
                remote_hash: remote_hash@,
            },
            RemoteUpsert::Inspect { virtual_path, local_path, base_hash } => RemoteUpsert::Inspect {
                virtual_path: virtual_path@,
                local_path: local_path@,
                base_hash: text_view(*base_hash),
            },
            RemoteUpsert::Hash { virtual_path, local_path, base_hash } => RemoteUpsert::Hash {
                virtual_path: virtual_path@,
                local_path: local_path@,
                base_hash: text_view(*base_hash),
            },
            RemoteUpsert::Clock { virtual_path, local_path, md5_hash } => RemoteUpsert::Clock {
                virtual_path: virtual_path@,
                local_path: local_path@,
                md5_hash: md5_hash@,
            },
            RemoteUpsert::StoreCopy { virtual_path, local_path, md5_hash, copy_path } =>
                RemoteUpsert::StoreCopy {
                virtual_path: virtual_path@,
                local_path: local_path@,
                md5_hash: md5_hash@,
                copy_path: copy_path@,
            },
            RemoteUpsert::UploadLocal { local_path, md5_hash } => RemoteUpsert::UploadLocal {
                local_path: local_path@,
                md5_hash: md5_hash@,
            },
            RemoteUpsert::Download { local_path } => RemoteUpsert::Download {
                local_path: local_path@,
            },
            RemoteUpsert::Modified { local_path, md5_hash, stored } => RemoteUpsert::Modified {
                local_path: local_path@,
                md5_hash: md5_hash@,
                stored: stored@,
            },
            RemoteUpsert::Save => RemoteUpsert::Save,
        }
    }
}

impl View for RemoteDelete<LocalPath, String> {
    type V = RemoteDelete<Seq<u8>, Seq<char>>;

    open spec fn view(&self) -> RemoteDelete<Seq<u8>, Seq<char>> {
        match self {
            RemoteDelete::List { virtual_path } => RemoteDelete::List {
                virtual_path: virtual_path@,
            },
            RemoteDelete::InspectMapped { virtual_path, local_path } =>
                RemoteDelete::InspectMapped {
                virtual_path: virtual_path@,
                local_path: local_path@,
            },
            RemoteDelete::TrashMapped { virtual_path } => RemoteDelete::TrashMapped {
                virtual_path: virtual_path@,
            },
            RemoteDelete::ForgetMapped => RemoteDelete::ForgetMapped,
            RemoteDelete::InspectRecord { next } => RemoteDelete::InspectRecord { next: *next },
            RemoteDelete::TrashRecord { next } => RemoteDelete::TrashRecord { next: *next },
            RemoteDelete::ForgetRecord { next } => RemoteDelete::ForgetRecord { next: *next },
        }
    }
}

impl View for Flush<LocalPath> {
    type V = Flush<Seq<u8>>;

    open spec fn view(&self) -> Flush<Seq<u8>> {
        match self {
            Flush::Trash { cutoff, local_path } => Flush::Trash {
                cutoff: *cutoff,
                local_path: local_path@,
            },
            Flush::Forget { cutoff } => Flush::Forget { cutoff: *cutoff },
        }
    }
}

impl View for EngineJob {
    type V = JobView;

    open spec fn view(&self) -> JobView {
        match self {
            Job::Idle => Job::Idle,
            Job::LocalUpsert(stage, after) => Job::LocalUpsert(stage@, *after),
            Job::LocalDelete => Job::LocalDelete,
            Job::RemoteUpsert(stage) => Job::RemoteUpsert(stage@),
            Job::RemoteDelete(stage) => Job::RemoteDelete(stage@),
            Job::FullSync(stage) => Job::FullSync(*stage),
            Job::Flush(stage) => Job::Flush(stage@),
        }
    }
}

/// The deletes that wait, by the local paths of the deleted files.
pub type PendingView = Seq<(Seq<u8>, PendingDeleteView)>;

/// The view of a sync engine.
pub struct EngineView {
    pub config: AppConfigView,
    /// The deletes that wait.
    pub pending: PendingView,
    /// The records that the job works through.
    pub records: Seq<FileStateView>,
    pub job: JobView,
    /// Whether the engine ends when the job is over.
    pub stopping: bool,
}

/// What a step yields: the engine after it, and what is to be done next.
pub type Turn = (EngineView, ActionView);

/// The engine waits for the reply to a request.
pub open spec fn perform(s: EngineView, job: JobView, request: RequestView) -> Turn {
    (EngineView { job, ..s }, Action::Perform(request))
}

/// The engine without work.
pub open spec fn idle(s: EngineView) -> EngineView {
    EngineView { job: Job::Idle, records: Seq::empty(), ..s }
}

/// The work is over.
pub open spec fn finish(s: EngineView) -> Turn {
    (idle(s), Action::Finish(Ok(())))
}

/// The work has failed.
pub open spec fn fail(s: EngineView, why: Seq<char>) -> Turn {
    (idle(s), Action::Finish(Err(why)))
}

/// The reply does not belong to the request.
pub open spec fn unexpected(s: EngineView) -> Turn {
    fail(s, UNEXPECTED_REPLY@)
}

/// The baseline of a file that was stored under a remote path.
pub open spec fn baseline(
    candidate: Candidate<Seq<u8>, Seq<char>>,
    virtual_remote_path: Seq<char>,
    stored: RemoteFileMetaView,
) -> FileStateView {
    FileStateView {
        local_path: candidate.path,
        drive_id: stored.drive_id,
        virtual_remote_path,
        md5_hash: candidate.md5_hash,
        local_timestamp: candidate.local_timestamp,
        remote_timestamp: stored.modified_time,
    }
}

/// Holds of a pending delete of another path with the given content.
pub open spec fn renamed_from(md5_hash: Seq<char>, path: Seq<u8>) -> spec_fn(
    (Seq<u8>, PendingDeleteView),
) -> bool {
    |entry: (Seq<u8>, PendingDeleteView)|
        !same_path(entry.0, path) && entry.1.record.md5_hash == md5_hash
}

/// Holds of a pending delete whose time has come.
pub open spec fn expired(cutoff: u64) -> spec_fn((Seq<u8>, PendingDeleteView)) -> bool {
    |entry: (Seq<u8>, PendingDeleteView)| entry.1.expires_at <= cutoff
}

/// The deletes that wait after records were added to them.
pub open spec fn scheduled(
    pending: PendingView,
    records: Seq<FileStateView>,
    expires_at: u64,
) -> PendingView
    decreases records.len(),
{
    if records.len() == 0 {
        pending
    } else {
        let record = records.last();
        inserted(
            scheduled(pending, records.drop_last(), expires_at),
            record.local_path,
            PendingDeleteView { record, expires_at },
        )
    }
}

/// The work goes on with the next delete whose time has come.
pub open spec fn flush_next(s: EngineView, cutoff: u64) -> Turn {
    match find(s.pending, expired(cutoff)) {
        None => finish(s),
        Some(i) => perform(
            EngineView { pending: s.pending.remove(i), ..s },
            Job::Flush(Flush::Trash { cutoff, local_path: s.pending[i].1.record.local_path }),
            Request::TrashRemote(s.pending[i].1.record.virtual_remote_path),
        ),
    }
}

/// A full synchronization goes on with a watch entry.
pub open spec fn enter_entry(s: EngineView, entry: usize) -> Turn {
    if entry < s.config.watch.len() {
        perform(
            s,
            Job::FullSync(FullSync::InspectEntry { entry }),
            Request::Inspect(s.config.watch[entry as int].local_path),
        )
    } else {
        perform(s, Job::FullSync(FullSync::ListRecords), Request::ListAll)
    }
}

/// A full synchronization goes on with a record.
pub open spec fn sync_record(s: EngineView, next: usize, now: u64) -> Turn {
    if next < s.records.len() {
        perform(
            s,
            Job::FullSync(FullSync::InspectRecord { next }),
            Request::Inspect(s.records[next as int].local_path),
        )
    } else {
        flush_next(s, now)
    }
}

/// The work on a deleted remote folder goes on with a record.
pub open spec fn delete_record(s: EngineView, next: usize) -> Turn {
    if next < s.records.len() {
        perform(
            s,
            Job::RemoteDelete(RemoteDelete::InspectRecord { next }),
            Request::Inspect(s.records[next as int].local_path),
        )
    } else {
        finish(s)
    }
}

/// The work on a local file is over.
pub open spec fn after_upsert(s: EngineView, after: After) -> Turn {
    match after {
        After::Finish => finish(s),
        After::NextEntry { entry } => enter_entry(s, (entry + 1) as usize),
        After::Walk { entry } => perform(
            s,
            Job::FullSync(FullSync::Walk { entry }),
            Request::WalkNext,
        ),
    }
}

/// The work on a local file begins.
pub open spec fn begin_upsert(s: EngineView, path: Seq<u8>, after: After) -> Turn {
    perform(s, Job::LocalUpsert(LocalUpsert::Inspect { path }, after), Request::Inspect(path))
}

/// The work on a local file once its content and its baseline are known: a
/// file that was deleted a moment ago elsewhere is renamed; one that did not
/// change is left alone; any other is uploaded.
pub open spec fn decide_upsert(
    s: EngineView,
    candidate: Candidate<Seq<u8>, Seq<char>>,
    existing: Option<FileStateView>,
    after: After,
) -> Turn {
    let source = find(s.pending, renamed_from(candidate.md5_hash, candidate.path));
    if existing is None && source is Some {
        let entry = s.pending[source->0];
        perform(
            s,
            Job::LocalUpsert(LocalUpsert::Rename { candidate, old_path: entry.0 }, after),
            Request::Rename {
                from: entry.1.record.virtual_remote_path,
                to: candidate.virtual_path,
            },
        )
    } else if existing is Some && existing->0.md5_hash == candidate.md5_hash {
        perform(
            s,
            Job::LocalUpsert(LocalUpsert::Touch, after),
            Request::SetLocalTimestamp(candidate.path, candidate.local_timestamp),
        )
    } else {
        perform(
            s,
            Job::LocalUpsert(LocalUpsert::Upload { candidate }, after),
            Request::Upload {
                virtual_path: candidate.virtual_path,
                local_path: candidate.path,
            },
        )
    }
}

/// The work on a local file once what there is at its path is known: a folder,
/// or nothing, is passed over; so is what no watch entry covers. A file that is
/// there again is no longer deleted.
pub open spec fn inspect_upsert(
    s: EngineView,
    path: Seq<u8>,
    facts: PathFacts,
    after: After,
) -> Turn {
    if facts.kind == PathKind::Missing || facts.kind == PathKind::Directory {
        after_upsert(s, after)
    } else {
        let there = EngineView { pending: removed(s.pending, path), ..s };
        match remote_of(s.config.watch, runtime_path(path, facts)) {
            None => after_upsert(there, after),
            Some(virtual_path) => perform(
                there,
                Job::LocalUpsert(LocalUpsert::Hash { path, virtual_path }, after),
                Request::HashFile(path),
            ),
        }
    }
}

/// How the work on a local file goes on.
pub open spec fn upsert_step(
    s: EngineView,
    stage: LocalUpsert<Seq<u8>, Seq<char>, FileStateView>,
    after: After,
    reply: ReplyView,
) -> Turn {
    match (stage, reply) {
        (LocalUpsert::Inspect { path }, ReplyView::Facts(facts)) => inspect_upsert(
            s,
            path,
            facts,
            after,
        ),
        (LocalUpsert::Hash { path, virtual_path }, ReplyView::Hash(Ok(md5_hash))) => perform(
            s,
            Job::LocalUpsert(LocalUpsert::Modified { path, virtual_path, md5_hash }, after),
            Request::ReadModified(path),
        ),
        (
            LocalUpsert::Modified { path, virtual_path, md5_hash },
            ReplyView::Modified(Ok(local_timestamp)),
        ) => perform(
            s,
            Job::LocalUpsert(
                LocalUpsert::Find {
                    candidate: Candidate { path, virtual_path, md5_hash, local_timestamp },
                },
                after,
            ),
            Request::FindByLocal(path),
        ),
        (LocalUpsert::Find { candidate }, ReplyView::Found(Ok(existing))) => decide_upsert(
            s,
            candidate,
            existing,
            after,
        ),
        (LocalUpsert::Rename { candidate, old_path }, ReplyView::Stored(Err(_))) => perform(
            s,
            Job::LocalUpsert(LocalUpsert::UploadRenamed { candidate, old_path }, after),
            Request::Upload {
                virtual_path: candidate.virtual_path,
                local_path: candidate.path,
            },
        ),
        (LocalUpsert::Rename { candidate, old_path }, ReplyView::Stored(Ok(stored))) => perform(
            s,
            Job::LocalUpsert(
                LocalUpsert::Forget {
                    record: baseline(candidate, candidate.virtual_path, stored),
                    old_path,
                },
                after,
            ),
            Request::RemoveByLocal(old_path),
        ),
        (LocalUpsert::UploadRenamed { candidate, old_path }, ReplyView::Stored(Ok(stored))) =>
            perform(
            s,
            Job::LocalUpsert(
                LocalUpsert::Forget {
                    record: baseline(candidate, candidate.virtual_path, stored),
                    old_path,
                },
                after,
            ),
            Request::RemoveByLocal(old_path),
        ),
        (LocalUpsert::Forget { record, old_path }, ReplyView::Done(Ok(_))) => perform(
            EngineView { pending: removed(s.pending, old_path), ..s },
            Job::LocalUpsert(LocalUpsert::Save, after),
            Request::Save(record),
        ),
        (LocalUpsert::Upload { candidate }, ReplyView::Stored(Ok(stored))) => perform(
            s,
            Job::LocalUpsert(LocalUpsert::Save, after),
            Request::Save(baseline(candidate, stored.virtual_path, stored)),
        ),
        (LocalUpsert::Touch, ReplyView::Done(Ok(_))) => after_upsert(s, after),
        (LocalUpsert::Save, ReplyView::Done(Ok(_))) => after_upsert(s, after),
        (LocalUpsert::Hash { .. }, ReplyView::Hash(Err(why))) => fail(s, why),
        (LocalUpsert::Modified { .. }, ReplyView::Modified(Err(why))) => fail(s, why),
        (LocalUpsert::Find { .. }, ReplyView::Found(Err(why))) => fail(s, why),
        (LocalUpsert::UploadRenamed { .. }, ReplyView::Stored(Err(why))) => fail(s, why),
        (LocalUpsert::Forget { .. }, ReplyView::Done(Err(why))) => fail(s, why),
        (LocalUpsert::Upload { .. }, ReplyView::Stored(Err(why))) => fail(s, why),
        (LocalUpsert::Touch, ReplyView::Done(Err(why))) => fail(s, why),
        (LocalUpsert::Save, ReplyView::Done(Err(why))) => fail(s, why),
        _ => unexpected(s),
    }
}

/// What is said where the conflicted copy could not be stored.
pub open spec fn copy_failed_text(virtual_path: Seq<char>, copy_path: Seq<u8>) -> Seq<char> {
    "failed to store conflicted copy for "@ + virtual_path + " at "@ + lossy_text(copy_path)
}

/// The remote version is fetched to its local path.
pub open spec fn download(s: EngineView, virtual_path: Seq<char>, local_path: Seq<u8>) -> Turn {
    perform(
        s,
        Job::RemoteUpsert(RemoteUpsert::Download { local_path }),
        Request::Download { virtual_path, local_path },
    )
}

/// How the work on a remote file goes on.
pub open spec fn remote_step(
    s: EngineView,
    stage: RemoteUpsert<Seq<u8>, Seq<char>, RemoteFileMetaView>,
    reply: ReplyView,
) -> Turn {
    match (stage, reply) {
        (RemoteUpsert::Metadata { virtual_path, local_path }, ReplyView::Metadata(Ok(known))) =>
            match known {
            None => finish(s),
            Some(meta) => perform(
                s,
                Job::RemoteUpsert(
                    RemoteUpsert::Find { virtual_path, local_path, remote_hash: meta.md5_hash },
                ),
                Request::FindByRemote(virtual_path),
            ),
        },
        (
            RemoteUpsert::Find { virtual_path, local_path, remote_hash },
            ReplyView::Found(Ok(record)),
        ) => if record is Some && record->0.md5_hash == remote_hash {
            finish(s)
        } else {
            let base_hash = match record {
                Some(record) => Some(record.md5_hash),
                None => None,
            };
            perform(
                s,
                Job::RemoteUpsert(RemoteUpsert::Inspect { virtual_path, local_path, base_hash }),
                Request::Inspect(local_path),
            )
        },
        (
            RemoteUpsert::Inspect { virtual_path, local_path, base_hash },
            ReplyView::Facts(facts),
        ) => if facts.kind == PathKind::File {
            perform(
                s,
                Job::RemoteUpsert(RemoteUpsert::Hash { virtual_path, local_path, base_hash }),
                Request::HashFile(local_path),
            )
        } else {
            download(s, virtual_path, local_path)
        },
        (
            RemoteUpsert::Hash { virtual_path, local_path, base_hash },
            ReplyView::Hash(Ok(md5_hash)),
        ) => if base_hash is Some && base_hash->0 != md5_hash {
            if parent_of(local_path) is None {
                fail(s, no_parent_text(local_path))
            } else {
                perform(
                    s,
                    Job::RemoteUpsert(RemoteUpsert::Clock { virtual_path, local_path, md5_hash }),
                    Request::ReadClock,
                )
            }
        } else {
            download(s, virtual_path, local_path)
        },
        (
            RemoteUpsert::Clock { virtual_path, local_path, md5_hash },
            ReplyView::Clock(millis),
        ) => match conflicted_copy(local_path, millis) {
            Err(why) => fail(s, why),
            Ok(copy_path) => perform(
                s,
                Job::RemoteUpsert(
                    RemoteUpsert::StoreCopy { virtual_path, local_path, md5_hash, copy_path },
                ),
                Request::Download { virtual_path, local_path: copy_path },
            ),
        },
        (
            RemoteUpsert::StoreCopy { virtual_path, local_path, md5_hash, copy_path },
            ReplyView::Stored(Ok(_)),
        ) => perform(
            s,
            Job::RemoteUpsert(RemoteUpsert::UploadLocal { local_path, md5_hash }),
            Request::Upload { virtual_path, local_path },
        ),
        (
            RemoteUpsert::StoreCopy { virtual_path, local_path, md5_hash, copy_path },
            ReplyView::Stored(Err(why)),
        ) => fail(s, copy_failed_text(virtual_path, copy_path) + ": "@ + why),
        (
            RemoteUpsert::UploadLocal { local_path, md5_hash },
            ReplyView::Stored(Ok(stored)),
        ) => perform(
            s,
            Job::RemoteUpsert(RemoteUpsert::Modified { local_path, md5_hash, stored }),
            Request::ReadModified(local_path),
        ),
        (RemoteUpsert::Download { local_path }, ReplyView::Stored(Ok(stored))) => perform(
            s,
            Job::RemoteUpsert(
                RemoteUpsert::Modified { local_path, md5_hash: stored.md5_hash, stored },
            ),
            Request::ReadModified(local_path),
        ),
        (
            RemoteUpsert::Modified { local_path, md5_hash, stored },
            ReplyView::Modified(Ok(local_timestamp)),
        ) => perform(
            s,
            Job::RemoteUpsert(RemoteUpsert::Save),
            Request::Save(
                FileStateView {
                    local_path,
                    drive_id: stored.drive_id,
                    virtual_remote_path: stored.virtual_path,
                    md5_hash,
                    local_timestamp,
                    remote_timestamp: stored.modified_time,
                },
            ),
        ),
        (RemoteUpsert::Save, ReplyView::Done(Ok(_))) => finish(s),
        (RemoteUpsert::Metadata { .. }, ReplyView::Metadata(Err(why))) => fail(s, why),
        (RemoteUpsert::Find { .. }, ReplyView::Found(Err(why))) => fail(s, why),
        (RemoteUpsert::Hash { .. }, ReplyView::Hash(Err(why))) => fail(s, why),
        (RemoteUpsert::UploadLocal { .. }, ReplyView::Stored(Err(why))) => fail(s, why),
        (RemoteUpsert::Download { .. }, ReplyView::Stored(Err(why))) => fail(s, why),
        (RemoteUpsert::Modified { .. }, ReplyView::Modified(Err(why))) => fail(s, why),
        (RemoteUpsert::Save, ReplyView::Done(Err(why))) => fail(s, why),
        _ => unexpected(s),
    }
}

/// The record of a remote path is removed.
pub open spec fn forget_mapped(s: EngineView, virtual_path: Seq<char>) -> Turn {
    perform(
        s,
        Job::RemoteDelete(RemoteDelete::ForgetMapped),
        Request::RemoveByRemote(virtual_path),
    )
}

/// The record with the given index is removed.
pub open spec fn forget_record(s: EngineView, next: usize) -> Turn {
    perform(
        s,
        Job::RemoteDelete(RemoteDelete::ForgetRecord { next }),
        Request::RemoveByLocal(s.records[next as int].local_path),
    )
}

/// How the work on a deleted remote file goes on. That a local file could not
/// be moved to the desktop trash does not keep its record.
pub open spec fn remote_delete_step(
    s: EngineView,
    stage: RemoteDelete<Seq<u8>, Seq<char>>,
    reply: ReplyView,
) -> Turn {
    match (stage, reply) {
        (RemoteDelete::List { virtual_path }, ReplyView::Records(Ok(records))) => if records.len()
            == 0 {
            match local_of(s.config.watch, virtual_path) {
                None => forget_mapped(s, virtual_path),
                Some(local_path) => perform(
                    s,
                    Job::RemoteDelete(RemoteDelete::InspectMapped { virtual_path, local_path }),
                    Request::Inspect(local_path),
                ),
            }
        } else {
            delete_record(EngineView { records, ..s }, 0)
        },
        (
            RemoteDelete::InspectMapped { virtual_path, local_path },
            ReplyView::Facts(facts),
        ) => if facts.kind == PathKind::Missing {
            forget_mapped(s, virtual_path)
        } else {
            perform(
                s,
                Job::RemoteDelete(RemoteDelete::TrashMapped { virtual_path }),
                Request::TrashLocal(local_path),
            )
        },
        (RemoteDelete::TrashMapped { virtual_path }, ReplyView::Done(_)) => forget_mapped(
            s,
            virtual_path,
        ),
        (RemoteDelete::ForgetMapped, ReplyView::Done(Ok(_))) => finish(s),
        (RemoteDelete::InspectRecord { next }, ReplyView::Facts(facts)) => if facts.kind
            == PathKind::Missing {
            forget_record(s, next)
        } else {
            perform(
                s,
                Job::RemoteDelete(RemoteDelete::TrashRecord { next }),
                Request::TrashLocal(s.records[next as int].local_path),
            )
        },
        (RemoteDelete::TrashRecord { next }, ReplyView::Done(_)) => forget_record(s, next),
        (RemoteDelete::ForgetRecord { next }, ReplyView::Done(Ok(_))) => delete_record(
            s,
            (next + 1) as usize,
        ),
        (RemoteDelete::List { .. }, ReplyView::Records(Err(why))) => fail(s, why),
        (RemoteDelete::ForgetMapped, ReplyView::Done(Err(why))) => fail(s, why),
        (RemoteDelete::ForgetRecord { .. }, ReplyView::Done(Err(why))) => fail(s, why),
        _ => unexpected(s),
    }
}

/// How a full synchronization goes on.
pub open spec fn full_sync_step(
    s: EngineView,
    stage: FullSync,
    reply: ReplyView,
    now: u64,
) -> Turn {
    match (stage, reply) {
        (FullSync::InspectEntry { entry }, ReplyView::Facts(facts)) => {
            let path = s.config.watch[entry as int].local_path;
            if facts.kind == PathKind::Missing {
                enter_entry(s, (entry + 1) as usize)
            } else if facts.kind == PathKind::File {
                begin_upsert(s, path, After::NextEntry { entry })
            } else {
                perform(s, Job::FullSync(FullSync::Walk { entry }), Request::Walk(path))
            }
        },
        (FullSync::Walk { entry }, ReplyView::Walked(found)) => match found {
            None => enter_entry(s, (entry + 1) as usize),
            Some((path, is_file)) => if is_file {
                begin_upsert(s, path, After::Walk { entry })
            } else {
                perform(s, Job::FullSync(FullSync::Walk { entry }), Request::WalkNext)
            },
        },
        (FullSync::ListRecords, ReplyView::Records(Ok(records))) => sync_record(
            EngineView { records, ..s },
            0,
            now,
        ),
        (FullSync::InspectRecord { next }, ReplyView::Facts(facts)) => {
            let record = s.records[next as int];
            let pending = if facts.kind == PathKind::Missing {
                inserted(
                    s.pending,
                    record.local_path,
                    PendingDeleteView { record, expires_at: now },
                )
            } else {
                s.pending
            };
            sync_record(EngineView { pending, ..s }, (next + 1) as usize, now)
        },
        (FullSync::ListRecords, ReplyView::Records(Err(why))) => fail(s, why),
        _ => unexpected(s),
    }
}

/// How moving the remote copies of deleted files to the trash goes on.
pub open spec fn flush_step(s: EngineView, stage: Flush<Seq<u8>>, reply: ReplyView) -> Turn {
    match (stage, reply) {
        (Flush::Trash { cutoff, local_path }, ReplyView::Done(Ok(_))) => perform(
            s,
            Job::Flush(Flush::Forget { cutoff }),
            Request::RemoveByLocal(local_path),
        ),
        (Flush::Forget { cutoff }, ReplyView::Done(Ok(_))) => flush_next(s, cutoff),
        (Flush::Trash { .. }, ReplyView::Done(Err(why))) => fail(s, why),
        (Flush::Forget { .. }, ReplyView::Done(Err(why))) => fail(s, why),
        _ => unexpected(s),
    }
}

/// How the engine's work goes on with a reply that comes at the clock reading
/// `now`.
pub open spec fn step(s: EngineView, reply: ReplyView, now: u64) -> Turn {
    match s.job {
        Job::Idle => unexpected(s),
        Job::LocalUpsert(stage, after) => upsert_step(s, stage, after, reply),
        Job::LocalDelete => match reply {
            ReplyView::Records(Ok(records)) => finish(
                EngineView {
                    pending: scheduled(
                        s.pending,
                        records,
                        (now + RENAME_WINDOW_NANOS) as u64,
                    ),
                    ..s
                },
            ),
            ReplyView::Records(Err(why)) => fail(s, why),
            _ => unexpected(s),
        },
        Job::RemoteUpsert(stage) => remote_step(s, stage, reply),
        Job::RemoteDelete(stage) => remote_delete_step(s, stage, reply),
        Job::FullSync(stage) => full_sync_step(s, stage, reply, now),
        Job::Flush(stage) => flush_step(s, stage, reply),
    }
}

/// How the engine begins to work on an event.
pub open spec fn handle(s: EngineView, event: SyncEventView) -> Turn {
    match event {
        SyncEventView::Local(LocalFileEventKind::Upsert, path) => begin_upsert(
            s,
            path,
            After::Finish,
        ),
        SyncEventView::Local(LocalFileEventKind::Delete, path) => perform(
            s,
            Job::LocalDelete,
            Request::ListByLocalPrefix(path),
        ),
        SyncEventView::Remote(RemoteChangeView::Upsert(meta)) => match local_of(
            s.config.watch,
            meta.virtual_path,
        ) {
            None => finish(s),
            Some(local_path) => perform(
                s,
                Job::RemoteUpsert(
                    RemoteUpsert::Metadata { virtual_path: meta.virtual_path, local_path },
                ),
                Request::GetMetadata(meta.virtual_path),
            ),
        },
        SyncEventView::Remote(RemoteChangeView::Delete(virtual_path)) => perform(
            s,
            Job::RemoteDelete(RemoteDelete::List { virtual_path }),
            Request::ListByRemotePrefix(virtual_path),
        ),
        SyncEventView::SyncNow => enter_entry(s, 0),
        SyncEventView::Shutdown => finish(s),
    }
}

/// The deletes that wait, with their time come.
pub open spec fn all_due(pending: PendingView, now: u64) -> PendingView {
    pending.map_values(
        |entry: (Seq<u8>, PendingDeleteView)|
            (entry.0, PendingDeleteView { record: entry.1.record, expires_at: now }),
    )
}

/// Something that the engine is woken up by.
#[derive(Debug, Clone, PartialEq, Eq)]
pub enum Wake {
    /// It is time to look at the deletes that wait.
    Tick,
    /// Something happened.
    Event(SyncEvent),
    /// There will be no more events.
    Closed,
}

/// How the engine begins to work when it is woken up at the clock reading
/// `now`. Before it stops, every delete that waits is carried out.
pub open spec fn woken(s: EngineView, wake: Wake, now: u64) -> Turn {
    match wake {
        Wake::Tick => flush_next(s, now),
        Wake::Event(SyncEvent::Shutdown) => flush_next(
            EngineView { pending: all_due(s.pending, now), stopping: true, ..s },
            now,
        ),
        Wake::Closed => flush_next(
            EngineView { pending: all_due(s.pending, now), stopping: true, ..s },
            now,
        ),
        Wake::Event(event) => handle(s, event@),
    }
}

/// Whether the job's place in the lists it works through is in bounds.
pub open spec fn job_in_bounds(s: EngineView) -> bool {
    match s.job {
        Job::LocalUpsert(_, After::NextEntry { entry }) => entry < s.config.watch.len(),
        Job::LocalUpsert(_, After::Walk { entry }) => entry < s.config.watch.len(),
        Job::FullSync(FullSync::InspectEntry { entry }) => entry < s.config.watch.len(),
        Job::FullSync(FullSync::Walk { entry }) => entry < s.config.watch.len(),
        Job::FullSync(FullSync::InspectRecord { next }) => next < s.records.len(),
        Job::RemoteDelete(RemoteDelete::InspectRecord { next }) => next < s.records.len(),
        Job::RemoteDelete(RemoteDelete::TrashRecord { next }) => next < s.records.len(),
        Job::RemoteDelete(RemoteDelete::ForgetRecord { next }) => next < s.records.len(),
        _ => true,
    }
}

} // verus!
