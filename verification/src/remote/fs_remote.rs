//! A remote store in a folder of the local file system: where its files lie,
//! what is moved for each request, and what a look at the folder says has
//! changed.
use vstd::prelude::*;
use vstd::utf8::encode_utf8;

use crate::config::PathKind;
use crate::events::{
    change_views, meta_views, RemoteChange, RemoteChangeView, RemoteFileMeta, RemoteFileMetaView,
};
use crate::failure::Failure;
use crate::keyed::{
    distinct, find, lemma_filter_none, lemma_find, lemma_find_is, lemma_find_none, lemma_put_distinct, put,
};
use crate::path::{
    byte_lists, component_view, component_views, components, join_bytes,
    lemma_components_of_pushed, lemma_names_are_names, named, names, pushed, within, Component,
    LocalPath, SLASH,
};
use crate::remote::normalize_virtual_path;
use crate::text::{append, decimal, from_chars, joined, lossy_text, to_chars, to_decimal};
use crate::virtual_path::normalized;

verus! {

/// What `uuid` writes for the version 5 identifier of a name in the namespace
/// for URLs.
pub uninterp spec fn uuid_v5_url_text(name: Seq<u8>) -> Seq<char>;

/// `uuid::Uuid::new_v5` in the namespace for URLs, in its usual spelling: a
/// function of the name alone. The identifier itself is left to the name.
#[verifier::external_body]
fn uuid_v5_url(name: &[u8]) -> (s: String)
    ensures
        s@ == uuid_v5_url_text(name@),
{
    uuid::Uuid::new_v5(&uuid::Uuid::NAMESPACE_URL, name).to_string()
}

/// The identifier of the file at a remote path.
pub open spec fn drive_id_of(virtual_path: Seq<char>) -> Seq<char> {
    uuid_v5_url_text(encode_utf8(virtual_path))
}

/// The identifier of the file at a remote path.
pub fn make_drive_id(virtual_path: &str) -> (s: String)
    ensures
        s@ == drive_id_of(virtual_path@),
{
    uuid_v5_url(virtual_path.as_bytes())
}

/// Why the store refuses a request.
#[derive(Debug, PartialEq, Eq)]
pub enum FsRemoteError {
    /// The remote path leaves the sandbox.
    InvalidComponent { raw: String },
    /// The remote path names nothing.
    EmptyPath,
    /// There is no local file to store.
    LocalMissing { path: LocalPath },
    /// A folder is to be stored.
    LocalIsDirectory { path: LocalPath },
    /// There is no such remote file.
    RemoteMissing { virtual_path: String },
    /// There is no remote file to move.
    SourceMissing { virtual_path: String },
    /// A remote folder is to be fetched.
    RemoteIsDirectory { virtual_path: String },
    /// The system time lies before the Unix epoch.
    ClockBeforeEpoch,
    /// The file was not there after the request was carried out.
    MetadataMissing { after: &'static str },
}

/// The view of an [`FsRemoteError`].
pub enum FsRemoteErrorView {
    InvalidComponent(Seq<char>),
    EmptyPath,
    LocalMissing(Seq<u8>),
    LocalIsDirectory(Seq<u8>),
    RemoteMissing(Seq<char>),
    SourceMissing(Seq<char>),
    RemoteIsDirectory(Seq<char>),
    ClockBeforeEpoch,
    MetadataMissing(Seq<char>),
}

impl View for FsRemoteError {
    type V = FsRemoteErrorView;

    open spec fn view(&self) -> FsRemoteErrorView {
        match self {
            FsRemoteError::InvalidComponent { raw } => FsRemoteErrorView::InvalidComponent(raw@),
            FsRemoteError::EmptyPath => FsRemoteErrorView::EmptyPath,
            FsRemoteError::LocalMissing { path } => FsRemoteErrorView::LocalMissing(path@),
            FsRemoteError::LocalIsDirectory { path } => FsRemoteErrorView::LocalIsDirectory(path@),
            FsRemoteError::RemoteMissing { virtual_path } => FsRemoteErrorView::RemoteMissing(
                virtual_path@,
            ),
            FsRemoteError::SourceMissing { virtual_path } => FsRemoteErrorView::SourceMissing(
                virtual_path@,
            ),
            FsRemoteError::RemoteIsDirectory { virtual_path } =>
                FsRemoteErrorView::RemoteIsDirectory(virtual_path@),
            FsRemoteError::ClockBeforeEpoch => FsRemoteErrorView::ClockBeforeEpoch,
            FsRemoteError::MetadataMissing { after } => FsRemoteErrorView::MetadataMissing(after@),
        }
    }
}

/// A refusal in words.
pub open spec fn fs_error_text(error: FsRemoteErrorView) -> Seq<char> {
    match error {
        FsRemoteErrorView::InvalidComponent(raw) => "invalid remote path component in "@ + raw,
        FsRemoteErrorView::EmptyPath => "remote path cannot be empty"@,
        FsRemoteErrorView::LocalMissing(path) => "local path does not exist: "@ + lossy_text(path),
        FsRemoteErrorView::LocalIsDirectory(path) =>
            "upload_or_update currently supports files only, got directory "@ + lossy_text(path),
        FsRemoteErrorView::RemoteMissing(path) => "remote file does not exist: "@ + path,
        FsRemoteErrorView::SourceMissing(path) => "remote source does not exist: "@ + path,
        FsRemoteErrorView::RemoteIsDirectory(path) =>
            "download_to_local only supports files, got directory "@ + path,
        FsRemoteErrorView::ClockBeforeEpoch => "system time is before UNIX_EPOCH"@,
        FsRemoteErrorView::MetadataMissing(after) => "metadata not available after "@ + after,
    }
}

impl FsRemoteError {
    /// The refusal in words.
    pub fn message(&self) -> (s: String)
        ensures
            s@ == fs_error_text(self@),
    {
        match self {
            FsRemoteError::InvalidComponent { raw } => {
                "invalid remote path component in ".to_owned().concat(raw.as_str())
            },
            FsRemoteError::EmptyPath => "remote path cannot be empty".to_owned(),
            FsRemoteError::LocalMissing { path } => {
                "local path does not exist: ".to_owned().concat(path.to_text().as_str())
            },
            FsRemoteError::LocalIsDirectory { path } => {
                "upload_or_update currently supports files only, got directory ".to_owned().concat(
                    path.to_text().as_str(),
                )
            },
            FsRemoteError::RemoteMissing { virtual_path } => {
                "remote file does not exist: ".to_owned().concat(virtual_path.as_str())
            },
            FsRemoteError::SourceMissing { virtual_path } => {
                "remote source does not exist: ".to_owned().concat(virtual_path.as_str())
            },
            FsRemoteError::RemoteIsDirectory { virtual_path } => {
                "download_to_local only supports files, got directory ".to_owned().concat(
                    virtual_path.as_str(),
                )
            },
            FsRemoteError::ClockBeforeEpoch => "system time is before UNIX_EPOCH".to_owned(),
            FsRemoteError::MetadataMissing { after } => {
                "metadata not available after ".to_owned().concat(after)
            },
        }
    }
}

/// Whether some component leads out of the folder it is read in.
pub open spec fn escapes(list: Seq<Component<Seq<u8>>>) -> bool {
    exists|i: int|
        0 <= i < list.len() && (#[trigger] list[i] is RootDir || list[i] is ParentDir)
}

/// A remote path as a path below the sandbox.
pub open spec fn sanitized(raw: Seq<char>) -> Result<Seq<u8>, FsRemoteErrorView> {
    let list = components(encode_utf8(raw));
    if escapes(list) {
        Err(FsRemoteErrorView::InvalidComponent(raw))
    } else if names(list).len() == 0 {
        Err(FsRemoteErrorView::EmptyPath)
    } else {
        Ok(joined(names(list), SLASH))
    }
}

/// Where the file at a remote path lies.
pub open spec fn placed(sandbox_root: Seq<u8>, virtual_path: Seq<char>) -> Result<
    Seq<u8>,
    FsRemoteErrorView,
> {
    match sanitized(virtual_path) {
        Ok(relative) => Ok(pushed(sandbox_root, relative)),
        Err(error) => Err(error),
    }
}

/// What is known of the file at a remote path.
pub open spec fn described(
    virtual_path: Seq<char>,
    md5_hash: Seq<char>,
    modified_time: Seq<char>,
) -> RemoteFileMetaView {
    RemoteFileMetaView {
        drive_id: drive_id_of(virtual_path),
        virtual_path,
        md5_hash,
        modified_time,
    }
}

/// A file that was found below the sandbox.
#[derive(Debug, Clone, PartialEq, Eq)]
pub struct ScannedFile {
    /// Its path seen from the sandbox.
    pub relative: LocalPath,
    pub md5_hash: String,
    pub modified_time: String,
}

/// The remote path of a file that was found below the sandbox.
pub open spec fn scanned_path(relative: Seq<u8>) -> Seq<char> {
    normalized(lossy_text(relative))
}

/// What is known of a file that was found below the sandbox.
pub open spec fn scanned_meta(file: ScannedFile) -> RemoteFileMetaView {
    described(scanned_path(file.relative@), file.md5_hash@, file.modified_time@)
}

/// Picks what is known of the file at a remote path.
pub open spec fn at_path(virtual_path: Seq<char>) -> spec_fn(RemoteFileMetaView) -> bool {
    |meta: RemoteFileMetaView| meta.virtual_path == virtual_path
}

/// What is known of the files found, one for each remote path. Of files with
/// the same remote path the last one counts.
pub open spec fn scanned(files: Seq<ScannedFile>) -> Seq<RemoteFileMetaView>
    decreases files.len(),
{
    if files.len() == 0 {
        Seq::empty()
    } else {
        let meta = scanned_meta(files.last());
        put(scanned(files.drop_last()), at_path(meta.virtual_path), meta)
    }
}

/// Picks the hash that was seen at a remote path.
pub open spec fn seen_at(virtual_path: Seq<char>) -> spec_fn((Seq<char>, Seq<char>)) -> bool {
    |seen: (Seq<char>, Seq<char>)| seen.0 == virtual_path
}

/// The hash that was seen at a remote path, if any.
pub open spec fn seen_hash(
    snapshot: Seq<(Seq<char>, Seq<char>)>,
    virtual_path: Seq<char>,
) -> Option<Seq<char>> {
    match find(snapshot, seen_at(virtual_path)) {
        Some(i) => Some(snapshot[i].1),
        None => None,
    }
}

/// Whether a file is new or has another content than was seen before.
pub open spec fn is_changed(
    snapshot: Seq<(Seq<char>, Seq<char>)>,
) -> spec_fn(RemoteFileMetaView) -> bool {
    |meta: RemoteFileMetaView| seen_hash(snapshot, meta.virtual_path) != Some(meta.md5_hash)
}

/// Whether a file that was seen before is gone.
pub open spec fn is_gone(
    current: Seq<RemoteFileMetaView>,
) -> spec_fn((Seq<char>, Seq<char>)) -> bool {
    |seen: (Seq<char>, Seq<char>)| find(current, at_path(seen.0)) is None
}

/// What to report of the files that are there: those that are new or changed.
pub open spec fn upserts(
    current: Seq<RemoteFileMetaView>,
    snapshot: Seq<(Seq<char>, Seq<char>)>,
) -> Seq<RemoteChangeView> {
    current.filter(is_changed(snapshot)).map_values(
        |meta: RemoteFileMetaView| RemoteChangeView::Upsert(meta),
    )
}

/// What to report of the files that were there: those that are gone.
pub open spec fn deletes(
    current: Seq<RemoteFileMetaView>,
    snapshot: Seq<(Seq<char>, Seq<char>)>,
) -> Seq<RemoteChangeView> {
    snapshot.filter(is_gone(current)).map_values(
        |seen: (Seq<char>, Seq<char>)| RemoteChangeView::Delete(seen.0),
    )
}

/// The hashes to compare with at the next poll.
pub open spec fn snapshot_of(current: Seq<RemoteFileMetaView>) -> Seq<(Seq<char>, Seq<char>)> {
    current.map_values(|meta: RemoteFileMetaView| (meta.virtual_path, meta.md5_hash))
}

/// What a look at the sandbox found, or why it failed.
pub open spec fn scan_view(scan: Result<Vec<ScannedFile>, Failure>) -> Result<
    Seq<ScannedFile>,
    Seq<char>,
> {
    match scan {
        Ok(files) => Ok(files@),
        Err(why) => Err(why@),
    }
}

/// The view of what a poll reports, or of why it failed.
pub open spec fn changes_result(r: Result<Vec<RemoteChange>, Failure>) -> Result<
    Seq<RemoteChangeView>,
    Seq<char>,
> {
    match r {
        Ok(changes) => Ok(change_views(changes@)),
        Err(why) => Err(why@),
    }
}

/// The store after a poll, and what the poll reports. Where the look at the sandbox
/// failed, the store is left as it is.
pub open spec fn polled(s: FsRemoteStoreView, scan: Result<Seq<ScannedFile>, Seq<char>>) -> (
    FsRemoteStoreView,
    Result<Seq<RemoteChangeView>, Seq<char>>,
) {
    match scan {
        Err(why) => (s, Err(why)),
        Ok(files) => {
            let current = scanned(files);
            (
                FsRemoteStoreView { snapshot: snapshot_of(current), ..s },
                Ok(upserts(current, s.snapshot) + deletes(current, s.snapshot)),
            )
        },
    }
}

/// The store after polls whose looks at the sandbox failed.
pub open spec fn after_failed_polls(s: FsRemoteStoreView, failures: Seq<Seq<char>>) -> FsRemoteStoreView
    decreases failures.len(),
{
    if failures.len() == 0 {
        s
    } else {
        polled(after_failed_polls(s, failures.drop_last()), Err(failures.last())).0
    }
}

/// The views of a list of text pairs.
pub open spec fn pair_views(list: Seq<(String, String)>) -> Seq<(Seq<char>, Seq<char>)> {
    list.map_values(|pair: (String, String)| (pair.0@, pair.1@))
}

/// The text with two underscores for each slash.
pub open spec fn underscored(s: Seq<char>) -> Seq<char>
    decreases s.len(),
{
    if s.len() == 0 {
        Seq::empty()
    } else if s.last() == '/' {
        underscored(s.drop_last()).push('_').push('_')
    } else {
        underscored(s.drop_last()).push(s.last())
    }
}

/// The name under which a file is kept in the trash.
pub open spec fn trash_name(millis: nat, virtual_path: Seq<char>) -> Seq<char> {
    decimal(millis).push('_') + underscored(virtual_path)
}

/// A file to be copied or moved, with the remote path that it is then known
/// by. The folder that it goes to is made where it is missing.
#[derive(Debug, PartialEq, Eq)]
pub struct Transfer {
    pub virtual_path: String,
    pub from: LocalPath,
    pub to: LocalPath,
}

impl Transfer {
    /// Whether this is the transfer of a file from and to the given paths.
    pub open spec fn is(&self, virtual_path: Seq<char>, from: Seq<u8>, to: Seq<u8>) -> bool {
        self.virtual_path@ == virtual_path && self.from@ == from && self.to@ == to
    }
}

/// Whether a result is the given refusal.
pub open spec fn refused<T>(r: Result<T, FsRemoteError>, error: FsRemoteErrorView) -> bool {
    r is Err && r->Err_0@ == error
}

/// A remote path as a path below the sandbox.
pub fn sanitize_virtual_path(raw: &str) -> (r: Result<LocalPath, FsRemoteError>)
    ensures
        match sanitized(raw@) {
            Ok(path) => r is Ok && r->Ok_0@ == path,
            Err(error) => refused(r, error),
        },
{
    let list = LocalPath::new(raw).components();
    let ghost all = components(encode_utf8(raw@));
    let mut out: Vec<Vec<u8>> = Vec::new();
    let mut i: usize = 0;
    assert(names(all.take(0)) == byte_lists(out@));
    while i < list.len()
        invariant
            i <= list.len(),
            all == component_views(list@),
            all == components(encode_utf8(raw@)),
            forall|j: int| 0 <= j < i ==> !(#[trigger] all[j] is RootDir || all[j] is ParentDir),
            byte_lists(out@) == names(all.take(i as int)),
        decreases list.len() - i,
    {
        let ghost before = out@;
        let ghost done = all.take(i + 1);
        assert(done.drop_last() == all.take(i as int));
        assert(done.last() == component_view(list@[i as int]));
        assert(all[i as int] == component_view(list@[i as int]));
        match &list[i] {
            Component::Normal(name) => {
                out.push(vstd::slice::slice_to_vec(name.as_slice()));
                assert(byte_lists(out@) == byte_lists(before).push(name@));
            },
            Component::CurDir => {},
            _ => {
                assert(escapes(all));
                return Err(FsRemoteError::InvalidComponent { raw: raw.to_owned() });
            },
        }
        i += 1;
    }
    assert(all.take(i as int) == all);
    assert(!escapes(all));
    if out.len() == 0 {
        return Err(FsRemoteError::EmptyPath);
    }
    Ok(LocalPath::from_bytes(join_bytes(&out, SLASH)))
}

/// The index of the file at a remote path.
fn position_at(list: &Vec<RemoteFileMeta>, virtual_path: &String) -> (r: Option<usize>)
    ensures
        match r {
            Some(i) => find(meta_views(list@), at_path(virtual_path@)) == Some(i as int),
            None => find(meta_views(list@), at_path(virtual_path@)) is None,
        },
        r is Some ==> r->0 < list@.len(),
{
    let ghost views = meta_views(list@);
    let ghost hit = at_path(virtual_path@);
    let mut i: usize = 0;
    while i < list.len()
        invariant
            i <= list.len(),
            views == meta_views(list@),
            hit == at_path(virtual_path@),
            forall|j: int| 0 <= j < i ==> !hit(#[trigger] views[j]),
        decreases list.len() - i,
    {
        assert(views[i as int] == list@[i as int]@);
        if list[i].virtual_path == *virtual_path {
            proof {
                lemma_find_is(views, hit, i as int);
            }
            return Some(i);
        }
        i += 1;
    }
    proof {
        lemma_find_none(views, hit);
    }
    None
}

/// What is known of the files found, one for each remote path.
pub fn scan_files_sync(files: &Vec<ScannedFile>) -> (r: Vec<RemoteFileMeta>)
    ensures
        meta_views(r@) == scanned(files@),
{
    let mut r: Vec<RemoteFileMeta> = Vec::new();
    let mut i: usize = 0;
    assert(meta_views(r@) == scanned(files@.take(0)));
    while i < files.len()
        invariant
            i <= files.len(),
            meta_views(r@) == scanned(files@.take(i as int)),
        decreases files.len() - i,
    {
        let file = &files[i];
        assert(files@.take(i + 1).drop_last() == files@.take(i as int));
        assert(files@.take(i + 1).last() == *file);
        let meta = describe_scanned(file);
        let ghost before = r@;
        match position_at(&r, &meta.virtual_path) {
            Some(k) => {
                r.set(k, meta);
                assert(meta_views(r@) == meta_views(before).update(k as int, meta@));
            },
            None => {
                r.push(meta);
                assert(meta_views(r@) == meta_views(before).push(meta@));
            },
        }
        i += 1;
    }
    assert(files@.take(i as int) == files@);
    r
}

/// What is known of a file that was found below the sandbox.
pub fn describe_scanned(file: &ScannedFile) -> (meta: RemoteFileMeta)
    ensures
        meta@ == scanned_meta(*file),
{
    let virtual_path = normalize_virtual_path(file.relative.to_text().as_str());
    RemoteFileMeta {
        drive_id: make_drive_id(virtual_path.as_str()),
        virtual_path,
        md5_hash: file.md5_hash.clone(),
        modified_time: file.modified_time.clone(),
    }
}

/// Whether a file's content is looked at for what is known of it: there is
/// something, and it is no folder.
pub fn is_readable(kind: PathKind) -> (r: bool)
    ensures
        r == (kind != PathKind::Missing && kind != PathKind::Directory),
{
    match kind {
        PathKind::Missing => false,
        PathKind::Directory => false,
        _ => true,
    }
}

/// A file's fingerprint and the time it was modified.
#[derive(Debug, Clone, PartialEq, Eq)]
pub struct FileFacts {
    pub md5_hash: String,
    pub modified_time: String,
}

/// A remote store in a folder of the local file system.
#[derive(Debug)]
pub struct FsRemoteStore {
    sandbox_root: LocalPath,
    trash_root: LocalPath,
    snapshot_hashes: Vec<(String, String)>,
}

/// The view of an [`FsRemoteStore`].
pub struct FsRemoteStoreView {
    pub sandbox_root: Seq<u8>,
    pub trash_root: Seq<u8>,
    pub snapshot: Seq<(Seq<char>, Seq<char>)>,
}

impl View for FsRemoteStore {
    type V = FsRemoteStoreView;

    closed spec fn view(&self) -> FsRemoteStoreView {
        FsRemoteStoreView {
            sandbox_root: self.sandbox_root@,
            trash_root: self.trash_root@,
            snapshot: pair_views(self.snapshot_hashes@),
        }
    }
}

impl FsRemoteStore {
    /// A store in the given folder, with another one for what is thrown away.
    /// It has seen no file yet.
    pub fn new(sandbox_root: LocalPath, trash_root: LocalPath) -> (r: Result<Self, FsRemoteError>)
        ensures
            r is Ok,
            r->Ok_0@ == (FsRemoteStoreView {
                sandbox_root: sandbox_root@,
                trash_root: trash_root@,
                snapshot: Seq::empty(),
            }),
    {
        let store = FsRemoteStore { sandbox_root, trash_root, snapshot_hashes: Vec::new() };
        assert(store@.snapshot == Seq::<(Seq<char>, Seq<char>)>::empty());
        Ok(store)
    }

    /// The folder that the store keeps its files in.
    pub fn sandbox_root(&self) -> (r: &LocalPath)
        ensures
            r@ == self@.sandbox_root,
    {
        &self.sandbox_root
    }

    /// Where the file at a remote path lies.
    pub fn absolute_from_virtual(&self, virtual_path: &str) -> (r: Result<LocalPath, FsRemoteError>)
        ensures
            match placed(self@.sandbox_root, virtual_path@) {
                Ok(path) => r is Ok && r->Ok_0@ == path,
                Err(error) => refused(r, error),
            },
    {
        match sanitize_virtual_path(virtual_path) {
            Ok(relative) => Ok(self.sandbox_root.join(&relative)),
            Err(error) => Err(error),
        }
    }

    /// What is known of the file at a remote path. `found` is what a look at
    /// it says, if there is anything to be read (see [`is_readable`]) where it
    /// lies.
    pub fn metadata_sync(&self, virtual_path: &str, found: Option<FileFacts>) -> (r: Result<
        Option<RemoteFileMeta>,
        FsRemoteError,
    >)
        ensures
            match placed(self@.sandbox_root, normalized(virtual_path@)) {
                Err(error) => refused(r, error),
                Ok(_) => match found {
                    None => r is Ok && r->Ok_0 is None,
                    Some(facts) => {
                        &&& r is Ok
                        &&& r->Ok_0 is Some
                        &&& r->Ok_0->0@ == described(
                            normalized(virtual_path@),
                            facts.md5_hash@,
                            facts.modified_time@,
                        )
                    },
                },
            },
    {
        let normalized_path = normalize_virtual_path(virtual_path);
        match self.absolute_from_virtual(normalized_path.as_str()) {
            Err(error) => Err(error),
            Ok(_) => match found {
                None => Ok(None),
                Some(facts) => Ok(
                    Some(
                        RemoteFileMeta {
                            drive_id: make_drive_id(normalized_path.as_str()),
                            virtual_path: normalized_path,
                            md5_hash: facts.md5_hash,
                            modified_time: facts.modified_time,
                        },
                    ),
                ),
            },
        }
    }

    /// What is known of a file once a request was carried out; `after` names
    /// the request.
    pub fn metadata_after(
        &self,
        virtual_path: &str,
        found: Option<FileFacts>,
        after: &'static str,
    ) -> (r: Result<RemoteFileMeta, FsRemoteError>)
        ensures
            match placed(self@.sandbox_root, normalized(virtual_path@)) {
                Err(error) => refused(r, error),
                Ok(_) => match found {
                    None => refused(r, FsRemoteErrorView::MetadataMissing(after@)),
                    Some(facts) => {
                        &&& r is Ok
                        &&& r->Ok_0@ == described(
                            normalized(virtual_path@),
                            facts.md5_hash@,
                            facts.modified_time@,
                        )
                    },
                },
            },
    {
        match self.metadata_sync(virtual_path, found) {
            Err(error) => Err(error),
            Ok(None) => Err(FsRemoteError::MetadataMissing { after }),
            Ok(Some(meta)) => Ok(meta),
        }
    }

    /// The copy that stores a local file under a remote path. `local_kind` is
    /// what there is at the local path.
    pub fn upload_or_update(
        &self,
        virtual_path: &str,
        local_path: &LocalPath,
        local_kind: PathKind,
    ) -> (r: Result<Transfer, FsRemoteError>)
        ensures
            match local_kind {
                PathKind::Missing => refused(r, FsRemoteErrorView::LocalMissing(local_path@)),
                PathKind::Directory => refused(
                    r,
                    FsRemoteErrorView::LocalIsDirectory(local_path@),
                ),
                _ => match placed(self@.sandbox_root, normalized(virtual_path@)) {
                    Err(error) => refused(r, error),
                    Ok(target) => r is Ok && r->Ok_0.is(
                        normalized(virtual_path@),
                        local_path@,
                        target,
                    ),
                },
            },
    {
        match local_kind {
            PathKind::Missing => {
                return Err(FsRemoteError::LocalMissing { path: local_path.clone() });
            },
            PathKind::Directory => {
                return Err(FsRemoteError::LocalIsDirectory { path: local_path.clone() });
            },
            _ => {},
        }
        let normalized_path = normalize_virtual_path(virtual_path);
        match self.absolute_from_virtual(normalized_path.as_str()) {
            Err(error) => Err(error),
            Ok(target) => Ok(
                Transfer { virtual_path: normalized_path, from: local_path.clone(), to: target },
            ),
        }
    }

    /// The copy that fetches a remote file to a local path. `source_kind` is
    /// what there is where the remote file lies.
    pub fn download_to_local(
        &self,
        virtual_path: &str,
        local_path: &LocalPath,
        source_kind: PathKind,
    ) -> (r: Result<Transfer, FsRemoteError>)
        ensures
            match placed(self@.sandbox_root, normalized(virtual_path@)) {
                Err(error) => refused(r, error),
                Ok(source) => match source_kind {
                    PathKind::Missing => refused(
                        r,
                        FsRemoteErrorView::RemoteMissing(normalized(virtual_path@)),
                    ),
                    PathKind::Directory => refused(
                        r,
                        FsRemoteErrorView::RemoteIsDirectory(normalized(virtual_path@)),
                    ),
                    _ => r is Ok && r->Ok_0.is(normalized(virtual_path@), source, local_path@),
                },
            },
    {
        let normalized_path = normalize_virtual_path(virtual_path);
        match self.absolute_from_virtual(normalized_path.as_str()) {
            Err(error) => Err(error),
            Ok(source) => match source_kind {
                PathKind::Missing => Err(
                    FsRemoteError::RemoteMissing { virtual_path: normalized_path },
                ),
                PathKind::Directory => Err(
                    FsRemoteError::RemoteIsDirectory { virtual_path: normalized_path },
                ),
                _ => Ok(
                    Transfer {
                        virtual_path: normalized_path,
                        from: source,
                        to: local_path.clone(),
                    },
                ),
            },
        }
    }

    /// The move that gives a remote file another remote path. `source_kind` is
    /// what there is where the file lies.
    pub fn rename(
        &self,
        from_virtual_path: &str,
        to_virtual_path: &str,
        source_kind: PathKind,
    ) -> (r: Result<Transfer, FsRemoteError>)
        ensures
            match placed(self@.sandbox_root, normalized(from_virtual_path@)) {
                Err(error) => refused(r, error),
                Ok(source) => match placed(self@.sandbox_root, normalized(to_virtual_path@)) {
                    Err(error) => refused(r, error),
                    Ok(target) => if source_kind == PathKind::Missing {
                        refused(
                            r,
                            FsRemoteErrorView::SourceMissing(normalized(from_virtual_path@)),
                        )
                    } else {
                        r is Ok && r->Ok_0.is(normalized(to_virtual_path@), source, target)
                    },
                },
            },
    {
        let from_normalized = normalize_virtual_path(from_virtual_path);
        let to_normalized = normalize_virtual_path(to_virtual_path);
        let from_abs = match self.absolute_from_virtual(from_normalized.as_str()) {
            Err(error) => {
                return Err(error);
            },
            Ok(path) => path,
        };
        let to_abs = match self.absolute_from_virtual(to_normalized.as_str()) {
            Err(error) => {
                return Err(error);
            },
            Ok(path) => path,
        };
        match source_kind {
            PathKind::Missing => Err(
                FsRemoteError::SourceMissing { virtual_path: from_normalized },
            ),
            _ => Ok(Transfer { virtual_path: to_normalized, from: from_abs, to: to_abs }),
        }
    }

    /// The move that puts a remote file into the trash; none where there is no
    /// such file. `source_kind` is what there is where the file lies, `millis`
    /// the system time in milliseconds since the Unix epoch, if it is not
    /// before.
    pub fn trash(&self, virtual_path: &str, source_kind: PathKind, millis: Option<u128>) -> (r:
        Result<Option<Transfer>, FsRemoteError>)
        ensures
            match placed(self@.sandbox_root, normalized(virtual_path@)) {
                Err(error) => refused(r, error),
                Ok(source) => if source_kind == PathKind::Missing {
                    r is Ok && r->Ok_0 is None
                } else {
                    match millis {
                        None => refused(r, FsRemoteErrorView::ClockBeforeEpoch),
                        Some(now) => {
                            &&& r is Ok
                            &&& r->Ok_0 is Some
                            &&& r->Ok_0->0.is(
                                normalized(virtual_path@),
                                source,
                                pushed(
                                    self@.trash_root,
                                    encode_utf8(
                                        trash_name(now as nat, normalized(virtual_path@)),
                                    ),
                                ),
                            )
                        },
                    }
                },
            },
    {
        let normalized_path = normalize_virtual_path(virtual_path);
        let source = match self.absolute_from_virtual(normalized_path.as_str()) {
            Err(error) => {
                return Err(error);
            },
            Ok(path) => path,
        };
        match source_kind {
            PathKind::Missing => {
                return Ok(None);
            },
            _ => {},
        }
        match millis {
            None => Err(FsRemoteError::ClockBeforeEpoch),
            Some(now) => {
                let mut name = to_decimal(now);
                name.push('_');
                append(
                    &mut name,
                    with_underscores(to_chars(normalized_path.as_str()).as_slice()).as_slice(),
                );
                let text = from_chars(name.as_slice());
                Ok(
                    Some(
                        Transfer {
                            virtual_path: normalized_path,
                            from: source,
                            to: self.trash_root.join_text(text.as_str()),
                        },
                    ),
                )
            },
        }
    }

    /// What changed below the sandbox since the last poll, given what a look at
    /// it found: first the files that are new or have another content, then those
    /// that are gone. The next poll compares with what is there now. Where the
    /// look failed, so does the poll, and the next one compares with what it would
    /// have compared with.
    pub fn poll_changes(&mut self, scan: Result<Vec<ScannedFile>, Failure>) -> (r: Result<
        Vec<RemoteChange>,
        Failure,
    >)
        ensures
            (final(self)@, changes_result(r)) == polled(old(self)@, scan_view(scan)),
    {
        let files = match scan {
            Err(why) => {
                return Err(why);
            },
            Ok(files) => files,
        };
        let current = scan_files_sync(&files);
        let mut changes = changed_files(&current, &self.snapshot_hashes);
        let mut gone = gone_files(&current, &self.snapshot_hashes);
        let ghost first = changes@;
        let ghost second = gone@;
        changes.append(&mut gone);
        assert(change_views(changes@) == change_views(first) + change_views(second));
        self.snapshot_hashes = hashes_of(&current);
        Ok(changes)
    }

    /// The index of the file, among those found below the sandbox (each by its
    /// path seen from there), that is at a remote path: the first one.
    pub fn get_metadata(&self, virtual_path: &str, files: &Vec<LocalPath>) -> (r: Option<usize>)
        ensures
            match r {
                Some(i) => {
                    &&& i < files@.len()
                    &&& scanned_path(files@[i as int]@) == normalized(virtual_path@)
                    &&& forall|j: int|
                        0 <= j < i ==> scanned_path((#[trigger] files@[j])@) != normalized(
                            virtual_path@,
                        )
                },
                None => forall|j: int|
                    0 <= j < files@.len() ==> scanned_path((#[trigger] files@[j])@) != normalized(
                        virtual_path@,
                    ),
            },
    {
        let wanted = normalize_virtual_path(virtual_path);
        let mut i: usize = 0;
        while i < files.len()
            invariant
                i <= files.len(),
                wanted@ == normalized(virtual_path@),
                forall|j: int|
                    0 <= j < i ==> scanned_path((#[trigger] files@[j])@) != normalized(
                        virtual_path@,
                    ),
            decreases files.len() - i,
        {
            let found = normalize_virtual_path(files[i].to_text().as_str());
            if found == wanted {
                return Some(i);
            }
            i += 1;
        }
        None
    }
}

/// Writes two underscores for each slash.
fn with_underscores(chars: &[char]) -> (r: Vec<char>)
    ensures
        r@ == underscored(chars@),
{
    let mut r: Vec<char> = Vec::new();
    let mut i: usize = 0;
    while i < chars.len()
        invariant
            i <= chars.len(),
            r@ == underscored(chars@.take(i as int)),
        decreases chars.len() - i,
    {
        assert(chars@.take(i + 1).drop_last() == chars@.take(i as int));
        if chars[i] == '/' {
            r.push('_');
            r.push('_');
        } else {
            r.push(chars[i]);
        }
        i += 1;
    }
    assert(chars@.take(i as int) == chars@);
    r
}

/// The hash that was seen at a remote path.
fn hash_seen<'a>(snapshot: &'a Vec<(String, String)>, virtual_path: &String) -> (r: Option<
    &'a String,
>)
    ensures
        match seen_hash(pair_views(snapshot@), virtual_path@) {
            Some(hash) => r is Some && r->0@ == hash,
            None => r is None,
        },
{
    let ghost views = pair_views(snapshot@);
    let ghost hit = seen_at(virtual_path@);
    let mut i: usize = 0;
    while i < snapshot.len()
        invariant
            i <= snapshot.len(),
            views == pair_views(snapshot@),
            hit == seen_at(virtual_path@),
            forall|j: int| 0 <= j < i ==> !hit(#[trigger] views[j]),
        decreases snapshot.len() - i,
    {
        assert(views[i as int] == (snapshot@[i as int].0@, snapshot@[i as int].1@));
        if snapshot[i].0 == *virtual_path {
            proof {
                lemma_find_is(views, hit, i as int);
            }
            return Some(&snapshot[i].1);
        }
        i += 1;
    }
    proof {
        lemma_find_none(views, hit);
    }
    None
}

/// What to report of the files that are there.
fn changed_files(current: &Vec<RemoteFileMeta>, snapshot: &Vec<(String, String)>) -> (r: Vec<
    RemoteChange,
>)
    ensures
        change_views(r@) == upserts(meta_views(current@), pair_views(snapshot@)),
{
    let ghost all = meta_views(current@);
    let ghost before = pair_views(snapshot@);
    let ghost wrap = |meta: RemoteFileMetaView| RemoteChangeView::Upsert(meta);
    let mut r: Vec<RemoteChange> = Vec::new();
    let mut i: usize = 0;
    proof {
        reveal(Seq::filter);
        assert(change_views(r@) == all.take(0).filter(is_changed(before)).map_values(wrap));
    }
    while i < current.len()
        invariant
            i <= current.len(),
            all == meta_views(current@),
            before == pair_views(snapshot@),
            wrap == (|meta: RemoteFileMetaView| RemoteChangeView::Upsert(meta)),
            change_views(r@) == all.take(i as int).filter(is_changed(before)).map_values(wrap),
        decreases current.len() - i,
    {
        let meta = &current[i];
        let ghost kept = all.take(i as int).filter(is_changed(before));
        let ghost reported = r@;
        proof {
            reveal(Seq::filter);
            assert(all.take(i + 1).drop_last() == all.take(i as int));
            assert(all.take(i + 1).last() == meta@);
        }
        let same: bool = match hash_seen(snapshot, &meta.virtual_path) {
            Some(hash) => *hash == meta.md5_hash,
            None => false,
        };
        if !same {
            r.push(RemoteChange::Upsert(meta.clone()));
            assert(change_views(r@) == change_views(reported).push(
                RemoteChangeView::Upsert(meta@),
            ));
            assert(kept.push(meta@).map_values(wrap) == kept.map_values(wrap).push(
                RemoteChangeView::Upsert(meta@),
            ));
        }
        i += 1;
    }
    assert(all.take(i as int) == all);
    r
}

/// What to report of the files that were there.
fn gone_files(current: &Vec<RemoteFileMeta>, snapshot: &Vec<(String, String)>) -> (r: Vec<
    RemoteChange,
>)
    ensures
        change_views(r@) == deletes(meta_views(current@), pair_views(snapshot@)),
{
    let ghost now = meta_views(current@);
    let ghost all = pair_views(snapshot@);
    let ghost wrap = |seen: (Seq<char>, Seq<char>)| RemoteChangeView::Delete(seen.0);
    let mut r: Vec<RemoteChange> = Vec::new();
    let mut i: usize = 0;
    proof {
        reveal(Seq::filter);
        assert(change_views(r@) == all.take(0).filter(is_gone(now)).map_values(wrap));
    }
    while i < snapshot.len()
        invariant
            i <= snapshot.len(),
            now == meta_views(current@),
            all == pair_views(snapshot@),
            wrap == (|seen: (Seq<char>, Seq<char>)| RemoteChangeView::Delete(seen.0)),
            change_views(r@) == all.take(i as int).filter(is_gone(now)).map_values(wrap),
        decreases snapshot.len() - i,
    {
        let ghost kept = all.take(i as int).filter(is_gone(now));
        let ghost reported = r@;
        let ghost seen = (snapshot@[i as int].0@, snapshot@[i as int].1@);
        proof {
            reveal(Seq::filter);
            assert(all.take(i + 1).drop_last() == all.take(i as int));
            assert(all.take(i + 1).last() == seen);
        }
        if position_at(current, &snapshot[i].0).is_none() {
            r.push(RemoteChange::Delete { virtual_path: snapshot[i].0.clone() });
            assert(change_views(r@) == change_views(reported).push(
                RemoteChangeView::Delete(seen.0),
            ));
            assert(kept.push(seen).map_values(wrap) == kept.map_values(wrap).push(
                RemoteChangeView::Delete(seen.0),
            ));
        }
        i += 1;
    }
    assert(all.take(i as int) == all);
    r
}

/// The hashes to compare with at the next poll.
fn hashes_of(current: &Vec<RemoteFileMeta>) -> (r: Vec<(String, String)>)
    ensures
        pair_views(r@) == snapshot_of(meta_views(current@)),
{
    let ghost all = snapshot_of(meta_views(current@));
    let mut r: Vec<(String, String)> = Vec::new();
    let mut i: usize = 0;
    while i < current.len()
        invariant
            i <= current.len(),
            all == snapshot_of(meta_views(current@)),
            pair_views(r@) == all.take(i as int),
        decreases current.len() - i,
    {
        let meta = &current[i];
        let ghost before = r@;
        r.push((meta.virtual_path.clone(), meta.md5_hash.clone()));
        assert(pair_views(r@) == pair_views(before).push((meta@.virtual_path, meta@.md5_hash)));
        assert(all.take(i + 1) == all.take(i as int).push(all[i as int]));
        i += 1;
    }
    assert(all.take(i as int) == all);
    r
}

/// Wherever the store places a file, it lies below the sandbox: its path is the
/// sandbox's, followed by names alone, at least one.
pub proof fn law_files_stay_in_the_sandbox(sandbox_root: Seq<u8>, virtual_path: Seq<char>)
    requires
        placed(sandbox_root, virtual_path) is Ok,
    ensures
        names(components(encode_utf8(virtual_path))).len() > 0,
        components(placed(sandbox_root, virtual_path)->Ok_0) == components(sandbox_root) + named(
            names(components(encode_utf8(virtual_path))),
        ),
        within(placed(sandbox_root, virtual_path)->Ok_0, sandbox_root),
{
    let parts = names(components(encode_utf8(virtual_path)));
    lemma_names_are_names(encode_utf8(virtual_path));
    lemma_components_of_pushed(sandbox_root, parts);
    let whole = components(sandbox_root) + named(parts);
    assert(components(sandbox_root) == whole.take(components(sandbox_root).len() as int));
}

/// A look at the sandbox knows one file for each remote path.
pub proof fn law_scan_has_one_file_per_path(files: Seq<ScannedFile>)
    ensures
        distinct(scanned(files), |meta: RemoteFileMetaView| meta.virtual_path),
    decreases files.len(),
{
    if files.len() > 0 {
        law_scan_has_one_file_per_path(files.drop_last());
        let meta = scanned_meta(files.last());
        lemma_put_distinct(
            scanned(files.drop_last()),
            |meta: RemoteFileMetaView| meta.virtual_path,
            at_path(meta.virtual_path),
            meta,
        );
    }
}

/// A poll that fails loses no change: after any number of them, a poll reports the
/// difference to the last one that went well, as if they had not been made.
pub proof fn law_failed_polls_lose_no_change(
    s: FsRemoteStoreView,
    failures: Seq<Seq<char>>,
    scan: Result<Seq<ScannedFile>, Seq<char>>,
)
    ensures
        polled(after_failed_polls(s, failures), scan) == polled(s, scan),
    decreases failures.len(),
{
    if failures.len() > 0 {
        law_failed_polls_lose_no_change(s, failures.drop_last(), scan);
        law_failed_polls_lose_no_change(s, failures.drop_last(), Err(failures.last()));
    }
}

/// Where nothing was touched since the last poll, the next one reports nothing.
pub proof fn law_second_poll_is_silent(files: Seq<ScannedFile>)
    ensures
        upserts(scanned(files), snapshot_of(scanned(files))).len() == 0,
        deletes(scanned(files), snapshot_of(scanned(files))).len() == 0,
{
    let current = scanned(files);
    let snapshot = snapshot_of(current);
    law_scan_has_one_file_per_path(files);
    assert forall|i: int| 0 <= i < current.len() implies !is_changed(snapshot)(
        #[trigger] current[i],
    ) by {
        let path = current[i].virtual_path;
        assert forall|j: int| 0 <= j < i implies !seen_at(path)(#[trigger] snapshot[j]) by {
            assert(current[j].virtual_path != current[i].virtual_path);
        }
        assert(seen_at(path)(snapshot[i]));
        lemma_find_is(snapshot, seen_at(path), i);
    }
    lemma_filter_none(current, is_changed(snapshot));
    assert forall|i: int| 0 <= i < snapshot.len() implies !is_gone(current)(
        #[trigger] snapshot[i],
    ) by {
        lemma_find(current, at_path(snapshot[i].0));
        assert(at_path(snapshot[i].0)(current[i]));
    }
    lemma_filter_none(snapshot, is_gone(current));
}

/// A poll reports a file that is there exactly where its content is not the
/// one seen before, and a path that was seen before exactly where no file is at
/// it any more.
pub proof fn law_poll_reports_every_change(
    files: Seq<ScannedFile>,
    snapshot: Seq<(Seq<char>, Seq<char>)>,
)
    ensures
        forall|meta: RemoteFileMetaView|
            scanned(files).contains(meta) ==> (#[trigger] upserts(
                scanned(files),
                snapshot,
            ).contains(RemoteChangeView::Upsert(meta)) <==> seen_hash(snapshot, meta.virtual_path)
                != Some(meta.md5_hash)),
        forall|seen: (Seq<char>, Seq<char>)|
            snapshot.contains(seen) ==> (#[trigger] deletes(scanned(files), snapshot).contains(
                RemoteChangeView::Delete(seen.0),
            ) <==> find(scanned(files), at_path(seen.0)) is None),
{
    let current = scanned(files);
    let changed = current.filter(is_changed(snapshot));
    let reported = upserts(current, snapshot);
    assert forall|meta: RemoteFileMetaView| current.contains(meta) implies (
    #[trigger] reported.contains(RemoteChangeView::Upsert(meta)) <==> seen_hash(
        snapshot,
        meta.virtual_path,
    ) != Some(meta.md5_hash)) by {
        if is_changed(snapshot)(meta) {
            let i = choose|i: int| 0 <= i < current.len() && current[i] == meta;
            current.lemma_filter_contains(is_changed(snapshot), i);
            let k = choose|k: int| 0 <= k < changed.len() && changed[k] == meta;
            assert(reported[k] == RemoteChangeView::Upsert(meta));
        }
        if reported.contains(RemoteChangeView::Upsert(meta)) {
            let k = choose|k: int|
                0 <= k < reported.len() && reported[k] == RemoteChangeView::Upsert(meta);
            current.lemma_filter_pred(is_changed(snapshot), k);
            assert(changed[k] == meta);
        }
    }
    let left = snapshot.filter(is_gone(current));
    let removed = deletes(current, snapshot);
    assert forall|seen: (Seq<char>, Seq<char>)| snapshot.contains(seen) implies (
    #[trigger] removed.contains(RemoteChangeView::Delete(seen.0)) <==> find(
        current,
        at_path(seen.0),
    ) is None) by {
        if is_gone(current)(seen) {
            let i = choose|i: int| 0 <= i < snapshot.len() && snapshot[i] == seen;
            snapshot.lemma_filter_contains(is_gone(current), i);
            let k = choose|k: int| 0 <= k < left.len() && left[k] == seen;
            assert(removed[k] == RemoteChangeView::Delete(seen.0));
        }
        if removed.contains(RemoteChangeView::Delete(seen.0)) {
            let k = choose|k: int|
                0 <= k < removed.len() && removed[k] == RemoteChangeView::Delete(seen.0);
            snapshot.lemma_filter_pred(is_gone(current), k);
            assert(left[k].0 == seen.0);
        }
    }
}

} // verus!
