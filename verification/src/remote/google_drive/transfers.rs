//! What the Drive store does for a request: uploads, downloads, renames, moves
//! to the trash, and metadata.
use vstd::prelude::*;

use crate::config::PathKind;
use crate::events::{RemoteFileMeta, RemoteFileMetaView};
use crate::failure::Failure;
use crate::path::{parent_of, LocalPath};
use crate::remote::google_drive::protocol::{
    DriveReply, DriveReplyView, DriveRequest, StoreRequest, StoreRequestView, Turn, UploadFailure,
    UNEXPECTED_DRIVE_REPLY,
};
use crate::remote::google_drive::{
    drive_meta, path_segments, split_parent_and_file_name, to_remote_file_meta, ChildKind,
    DriveFile, DriveFileView, Timestamp,
};
use crate::text::{clone_text, lossy_text, text_view};
use crate::virtual_path::{normalize, normalized};

verus! {

/// The view of what is known of a file, or of why nothing is.
pub open spec fn meta_result(r: Result<RemoteFileMeta, Failure>) -> Result<
    RemoteFileMetaView,
    Seq<char>,
> {
    match r {
        Ok(meta) => Ok(meta@),
        Err(why) => Err(why@),
    }
}

/// What an upload waits for.
#[derive(Debug, PartialEq, Eq)]
pub enum UploadStage<P, T> {
    /// The identifier of the folder.
    Chain { virtual_path: T, name: T, local_path: P },
    /// The file that is there already.
    Find { virtual_path: T, name: T, parent_id: T, local_path: P },
    /// The new content of that file.
    Update { virtual_path: T, local_path: P },
    /// The new file.
    Create { virtual_path: T, local_path: P },
}

impl View for UploadStage<LocalPath, String> {
    type V = UploadStage<Seq<u8>, Seq<char>>;

    open spec fn view(&self) -> UploadStage<Seq<u8>, Seq<char>> {
        match self {
            UploadStage::Chain { virtual_path, name, local_path } => UploadStage::Chain {
                virtual_path: virtual_path@,
                name: name@,
                local_path: local_path@,
            },
            UploadStage::Find { virtual_path, name, parent_id, local_path } => UploadStage::Find {
                virtual_path: virtual_path@,
                name: name@,
                parent_id: parent_id@,
                local_path: local_path@,
            },
            UploadStage::Update { virtual_path, local_path } => UploadStage::Update {
                virtual_path: virtual_path@,
                local_path: local_path@,
            },
            UploadStage::Create { virtual_path, local_path } => UploadStage::Create {
                virtual_path: virtual_path@,
                local_path: local_path@,
            },
        }
    }
}

/// What an upload comes to.
pub type UploadTurn = Turn<
    UploadStage<LocalPath, String>,
    StoreRequest,
    Result<RemoteFileMeta, Failure>,
>;

/// The view of an [`UploadTurn`].
pub type UploadTurnView = Turn<
    UploadStage<Seq<u8>, Seq<char>>,
    StoreRequestView,
    Result<RemoteFileMetaView, Seq<char>>,
>;

impl View for UploadTurn {
    type V = UploadTurnView;

    open spec fn view(&self) -> UploadTurnView {
        match self {
            Turn::Ask(stage, request) => Turn::Ask(stage@, request@),
            Turn::Done(r) => Turn::Done(meta_result(*r)),
        }
    }
}

/// How an upload begins, by what there is at the local path.
pub open spec fn begin_upload(
    virtual_path: Seq<char>,
    local_path: Seq<u8>,
    kind: PathKind,
) -> UploadTurnView {
    let path = normalized(virtual_path);
    if kind == PathKind::Missing {
        Turn::Done(Err("local path does not exist: "@ + lossy_text(local_path)))
    } else if kind == PathKind::Directory {
        Turn::Done(
            Err(
                "upload_or_update currently supports files only, got directory "@ + lossy_text(
                    local_path,
                ),
            ),
        )
    } else {
        match path_segments(path) {
            Err(why) => Turn::Done(Err(why)),
            Ok(segments) => Turn::Ask(
                UploadStage::Chain { virtual_path: path, name: segments.last(), local_path },
                DriveRequest::FolderChain(segments.drop_last()),
            ),
        }
    }
}

/// What is said where a local file could not be opened.
pub open spec fn open_failed_text(local_path: Seq<u8>) -> Seq<char> {
    "failed to open "@ + lossy_text(local_path) + " for upload"@
}

/// What is said where Drive did not take a file.
pub open spec fn upload_failed_text(
    verb: Seq<char>,
    virtual_path: Seq<char>,
    local_path: Seq<u8>,
) -> Seq<char> {
    "failed Drive "@ + verb + " upload for "@ + virtual_path + " ("@ + lossy_text(local_path) + ")"@
}

/// An upload that has come back.
pub open spec fn uploaded(
    verb: Seq<char>,
    virtual_path: Seq<char>,
    local_path: Seq<u8>,
    r: Result<DriveFileView, UploadFailure<Seq<char>>>,
    now: Timestamp,
) -> Result<RemoteFileMetaView, Seq<char>> {
    match r {
        Ok(file) => drive_meta(file, virtual_path, now),
        Err(UploadFailure::Open(why)) => Err(open_failed_text(local_path) + ": "@ + why),
        Err(UploadFailure::Transfer(why)) => Err(
            upload_failed_text(verb, virtual_path, local_path) + ": "@ + why,
        ),
    }
}

/// How an upload goes on: a file that is there already gets the new content,
/// else a file is made.
pub open spec fn upload_step(
    stage: UploadStage<Seq<u8>, Seq<char>>,
    reply: DriveReplyView,
    now: Timestamp,
) -> UploadTurnView {
    match (stage, reply) {
        (
            UploadStage::Chain { virtual_path, name, local_path },
            DriveReplyView::Text(Ok(parent_id)),
        ) => Turn::Ask(
            UploadStage::Find { virtual_path, name, parent_id, local_path },
            DriveRequest::FindChild { parent_id, name, kind: ChildKind::File },
        ),
        (
            UploadStage::Find { virtual_path, name, parent_id, local_path },
            DriveReplyView::MaybeFile(Ok(found)),
        ) => match found {
            Some(file) => match file.id {
                None => Turn::Done(Err("Drive existing file missing id during update"@)),
                Some(file_id) => Turn::Ask(
                    UploadStage::Update { virtual_path, local_path },
                    DriveRequest::UpdateContent { file_id, local_path },
                ),
            },
            None => Turn::Ask(
                UploadStage::Create { virtual_path, local_path },
                DriveRequest::CreateContent { parent_id, name, local_path },
            ),
        },
        (UploadStage::Update { virtual_path, local_path }, DriveReplyView::Uploaded(r)) =>
            Turn::Done(uploaded("update"@, virtual_path, local_path, r, now)),
        (UploadStage::Create { virtual_path, local_path }, DriveReplyView::Uploaded(r)) =>
            Turn::Done(uploaded("create"@, virtual_path, local_path, r, now)),
        (UploadStage::Chain { .. }, DriveReplyView::Text(Err(why))) => Turn::Done(Err(why)),
        (UploadStage::Find { .. }, DriveReplyView::MaybeFile(Err(why))) => Turn::Done(Err(why)),
        _ => Turn::Done(Err(UNEXPECTED_DRIVE_REPLY@)),
    }
}

/// Begins to store a local file under a remote path.
pub fn upload_or_update(virtual_path: &str, local_path: LocalPath, kind: PathKind) -> (r: UploadTurn)
    ensures
        r@ == begin_upload(virtual_path@, local_path@, kind),
{
    match kind {
        PathKind::Missing => {
            let mut message = "local path does not exist: ".to_owned();
            message.append(local_path.to_text().as_str());
            return Turn::Done(Err(Failure { message }));
        },
        PathKind::Directory => {
            let mut message =
                "upload_or_update currently supports files only, got directory ".to_owned();
            message.append(local_path.to_text().as_str());
            return Turn::Done(Err(Failure { message }));
        },
        _ => {},
    }
    let path = normalize(virtual_path);
    match split_parent_and_file_name(path.as_str()) {
        Err(why) => Turn::Done(Err(why)),
        Ok((folders, name)) => Turn::Ask(
            UploadStage::Chain { virtual_path: path, name, local_path },
            DriveRequest::FolderChain(folders),
        ),
    }
}

/// What is made of an upload that has come back.
fn after_upload(
    verb: &str,
    virtual_path: String,
    local_path: &LocalPath,
    r: Result<DriveFile, UploadFailure<Failure>>,
    now: Timestamp,
) -> (meta: Result<RemoteFileMeta, Failure>)
    ensures
        meta_result(meta) == uploaded(
            verb@,
            virtual_path@,
            local_path@,
            match r {
                Ok(file) => Ok(file@),
                Err(UploadFailure::Open(why)) => Err(UploadFailure::Open(why@)),
                Err(UploadFailure::Transfer(why)) => Err(UploadFailure::Transfer(why@)),
            },
            now,
        ),
{
    match r {
        Ok(file) => to_remote_file_meta(&file, virtual_path, now),
        Err(UploadFailure::Open(why)) => {
            let mut what = "failed to open ".to_owned();
            what.append(local_path.to_text().as_str());
            what.append(" for upload");
            Err(why.context(what.as_str()))
        },
        Err(UploadFailure::Transfer(why)) => {
            let mut what = "failed Drive ".to_owned();
            what.append(verb);
            what.append(" upload for ");
            what.append(virtual_path.as_str());
            what.append(" (");
            what.append(local_path.to_text().as_str());
            what.append(")");
            Err(why.context(what.as_str()))
        },
    }
}

/// Goes on with an upload.
pub fn upload_or_update_step(
    stage: UploadStage<LocalPath, String>,
    reply: DriveReply,
    now: Timestamp,
) -> (r: UploadTurn)
    ensures
        r@ == upload_step(stage@, reply@, now),
{
    match (stage, reply) {
        (
            UploadStage::Chain { virtual_path, name, local_path },
            DriveReply::Text(Ok(parent_id)),
        ) => {
            let request = DriveRequest::FindChild {
                parent_id: parent_id.clone(),
                name: name.clone(),
                kind: ChildKind::File,
            };
            Turn::Ask(UploadStage::Find { virtual_path, name, parent_id, local_path }, request)
        },
        (
            UploadStage::Find { virtual_path, name, parent_id, local_path },
            DriveReply::MaybeFile(Ok(found)),
        ) => match found {
            Some(file) => match file.id {
                None => Turn::Done(
                    Err(Failure::new("Drive existing file missing id during update")),
                ),
                Some(file_id) => {
                    let request = DriveRequest::UpdateContent {
                        file_id,
                        local_path: local_path.clone(),
                    };
                    Turn::Ask(UploadStage::Update { virtual_path, local_path }, request)
                },
            },
            None => {
                let request = DriveRequest::CreateContent {
                    parent_id,
                    name,
                    local_path: local_path.clone(),
                };
                Turn::Ask(UploadStage::Create { virtual_path, local_path }, request)
            },
        },
        (UploadStage::Update { virtual_path, local_path }, DriveReply::Uploaded(r)) => Turn::Done(
            after_upload("update", virtual_path, &local_path, r, now),
        ),
        (UploadStage::Create { virtual_path, local_path }, DriveReply::Uploaded(r)) => Turn::Done(
            after_upload("create", virtual_path, &local_path, r, now),
        ),
        (UploadStage::Chain { .. }, DriveReply::Text(Err(why))) => Turn::Done(Err(why)),
        (UploadStage::Find { .. }, DriveReply::MaybeFile(Err(why))) => Turn::Done(Err(why)),
        _ => Turn::Done(Err(Failure::new(UNEXPECTED_DRIVE_REPLY))),
    }
}

/// What a download waits for.
#[derive(Debug, PartialEq, Eq)]
pub enum DownloadStage<P, T, F, B> {
    /// The file at the remote path.
    Resolve { virtual_path: T, local_path: P },
    /// Its content.
    Content { virtual_path: T, local_path: P, file: F, file_id: T },
    /// The local folder that it goes to.
    MakeFolder { virtual_path: T, local_path: P, file: F, file_id: T, content: B },
    /// The local file.
    Write { virtual_path: T, local_path: P, file: F, file_id: T },
    /// What Drive knows of the file after the download.
    Refetch { virtual_path: T, file: F },
}

impl View for DownloadStage<LocalPath, String, DriveFile, Vec<u8>> {
    type V = DownloadStage<Seq<u8>, Seq<char>, DriveFileView, Seq<u8>>;

    open spec fn view(&self) -> DownloadStage<Seq<u8>, Seq<char>, DriveFileView, Seq<u8>> {
        match self {
            DownloadStage::Resolve { virtual_path, local_path } => DownloadStage::Resolve {
                virtual_path: virtual_path@,
                local_path: local_path@,
            },
            DownloadStage::Content { virtual_path, local_path, file, file_id } =>
                DownloadStage::Content {
                virtual_path: virtual_path@,
                local_path: local_path@,
                file: file@,
                file_id: file_id@,
            },
            DownloadStage::MakeFolder { virtual_path, local_path, file, file_id, content } =>
                DownloadStage::MakeFolder {
                virtual_path: virtual_path@,
                local_path: local_path@,
                file: file@,
                file_id: file_id@,
                content: content@,
            },
            DownloadStage::Write { virtual_path, local_path, file, file_id } =>
                DownloadStage::Write {
                virtual_path: virtual_path@,
                local_path: local_path@,
                file: file@,
                file_id: file_id@,
            },
            DownloadStage::Refetch { virtual_path, file } => DownloadStage::Refetch {
                virtual_path: virtual_path@,
                file: file@,
            },
        }
    }
}

/// What a download comes to.
pub type DownloadTurn = Turn<
    DownloadStage<LocalPath, String, DriveFile, Vec<u8>>,
    StoreRequest,
    Result<RemoteFileMeta, Failure>,
>;

/// The view of a [`DownloadTurn`].
pub type DownloadTurnView = Turn<
    DownloadStage<Seq<u8>, Seq<char>, DriveFileView, Seq<u8>>,
    StoreRequestView,
    Result<RemoteFileMetaView, Seq<char>>,
>;

impl View for DownloadTurn {
    type V = DownloadTurnView;

    open spec fn view(&self) -> DownloadTurnView {
        match self {
            Turn::Ask(stage, request) => Turn::Ask(stage@, request@),
            Turn::Done(r) => Turn::Done(meta_result(*r)),
        }
    }
}

/// How a download begins.
pub open spec fn begin_download(virtual_path: Seq<char>, local_path: Seq<u8>) -> DownloadTurnView {
    let path = normalized(virtual_path);
    Turn::Ask(
        DownloadStage::Resolve { virtual_path: path, local_path },
        DriveRequest::Resolve(path),
    )
}

/// How a download goes on: the content is written to the local path, after its
/// folder is made.
pub open spec fn download_step(
    stage: DownloadStage<Seq<u8>, Seq<char>, DriveFileView, Seq<u8>>,
    reply: DriveReplyView,
    now: Timestamp,
) -> DownloadTurnView {
    match (stage, reply) {
        (
            DownloadStage::Resolve { virtual_path, local_path },
            DriveReplyView::MaybeFile(Ok(found)),
        ) => match found {
            None => Turn::Done(Err("remote file does not exist: "@ + virtual_path)),
            Some(file) => match file.id {
                None => Turn::Done(Err("Drive download target missing file id"@)),
                Some(file_id) => Turn::Ask(
                    DownloadStage::Content { virtual_path, local_path, file, file_id },
                    DriveRequest::Download(file_id),
                ),
            },
        },
        (
            DownloadStage::Content { virtual_path, local_path, file, file_id },
            DriveReplyView::Content(Ok(body)),
        ) => match body {
            None => Turn::Done(
                Err("Drive download returned empty body for "@ + virtual_path),
            ),
            Some(content) => match parent_of(local_path) {
                Some(parent) => Turn::Ask(
                    DownloadStage::MakeFolder { virtual_path, local_path, file, file_id, content },
                    DriveRequest::MakeLocalFolder(parent),
                ),
                None => Turn::Ask(
                    DownloadStage::Write { virtual_path, local_path, file, file_id },
                    DriveRequest::WriteLocal { local_path, content },
                ),
            },
        },
        (
            DownloadStage::MakeFolder { virtual_path, local_path, file, file_id, content },
            DriveReplyView::Done(Ok(_)),
        ) => Turn::Ask(
            DownloadStage::Write { virtual_path, local_path, file, file_id },
            DriveRequest::WriteLocal { local_path, content },
        ),
        (
            DownloadStage::Write { virtual_path, local_path, file, file_id },
            DriveReplyView::Done(Ok(_)),
        ) => Turn::Ask(
            DownloadStage::Refetch { virtual_path, file },
            DriveRequest::Fetch(file_id),
        ),
        (
            DownloadStage::Refetch { virtual_path, file },
            DriveReplyView::MaybeFile(Ok(latest)),
        ) => Turn::Done(
            drive_meta(
                match latest {
                    Some(latest) => latest,
                    None => file,
                },
                virtual_path,
                now,
            ),
        ),
        (DownloadStage::Resolve { .. }, DriveReplyView::MaybeFile(Err(why))) => Turn::Done(Err(why)),
        (DownloadStage::Content { virtual_path, .. }, DriveReplyView::Content(Err(why))) =>
            Turn::Done(Err("failed Drive download for "@ + virtual_path + ": "@ + why)),
        (DownloadStage::MakeFolder { local_path, .. }, DriveReplyView::Done(Err(why))) =>
            Turn::Done(
            Err(
                "failed to create "@ + lossy_text(
                    match parent_of(local_path) {
                        Some(parent) => parent,
                        None => local_path,
                    },
                ) + ": "@ + why,
            ),
        ),
        (DownloadStage::Write { local_path, .. }, DriveReplyView::Done(Err(why))) => Turn::Done(
            Err("failed to write "@ + lossy_text(local_path) + ": "@ + why),
        ),
        (DownloadStage::Refetch { .. }, DriveReplyView::MaybeFile(Err(why))) => Turn::Done(Err(why)),
        _ => Turn::Done(Err(UNEXPECTED_DRIVE_REPLY@)),
    }
}

/// Begins to fetch a remote file to a local path.
pub fn download_to_local(virtual_path: &str, local_path: LocalPath) -> (r: DownloadTurn)
    ensures
        r@ == begin_download(virtual_path@, local_path@),
{
    let path = normalize(virtual_path);
    let asked = path.clone();
    Turn::Ask(
        DownloadStage::Resolve { virtual_path: path, local_path },
        DriveRequest::Resolve(asked),
    )
}

/// A failure with the words `what` and a path before it.
fn failed_at(what: &str, path: &LocalPath, why: Failure) -> (r: Failure)
    ensures
        r@ == what@ + lossy_text(path@) + ": "@ + why@,
{
    let mut text = what.to_owned();
    text.append(path.to_text().as_str());
    why.context(text.as_str())
}

/// Goes on with a download.
pub fn download_to_local_step(
    stage: DownloadStage<LocalPath, String, DriveFile, Vec<u8>>,
    reply: DriveReply,
    now: Timestamp,
) -> (r: DownloadTurn)
    ensures
        r@ == download_step(stage@, reply@, now),
{
    match (stage, reply) {
        (
            DownloadStage::Resolve { virtual_path, local_path },
            DriveReply::MaybeFile(Ok(found)),
        ) => match found {
            None => {
                let mut message = "remote file does not exist: ".to_owned();
                message.append(virtual_path.as_str());
                Turn::Done(Err(Failure { message }))
            },
            Some(file) => match clone_text(&file.id) {
                None => Turn::Done(Err(Failure::new("Drive download target missing file id"))),
                Some(file_id) => {
                    let asked = file_id.clone();
                    Turn::Ask(
                        DownloadStage::Content { virtual_path, local_path, file, file_id },
                        DriveRequest::Download(asked),
                    )
                },
            },
        },
        (
            DownloadStage::Content { virtual_path, local_path, file, file_id },
            DriveReply::Content(Ok(body)),
        ) => match body {
            None => {
                let mut message = "Drive download returned empty body for ".to_owned();
                message.append(virtual_path.as_str());
                Turn::Done(Err(Failure { message }))
            },
            Some(content) => match local_path.parent() {
                Some(parent) => Turn::Ask(
                    DownloadStage::MakeFolder { virtual_path, local_path, file, file_id, content },
                    DriveRequest::MakeLocalFolder(parent),
                ),
                None => {
                    let asked = local_path.clone();
                    Turn::Ask(
                        DownloadStage::Write { virtual_path, local_path, file, file_id },
                        DriveRequest::WriteLocal { local_path: asked, content },
                    )
                },
            },
        },
        (
            DownloadStage::MakeFolder { virtual_path, local_path, file, file_id, content },
            DriveReply::Done(Ok(_)),
        ) => {
            let asked = local_path.clone();
            Turn::Ask(
                DownloadStage::Write { virtual_path, local_path, file, file_id },
                DriveRequest::WriteLocal { local_path: asked, content },
            )
        },
        (
            DownloadStage::Write { virtual_path, local_path, file, file_id },
            DriveReply::Done(Ok(_)),
        ) => Turn::Ask(
            DownloadStage::Refetch { virtual_path, file },
            DriveRequest::Fetch(file_id),
        ),
        (
            DownloadStage::Refetch { virtual_path, file },
            DriveReply::MaybeFile(Ok(latest)),
        ) => match latest {
            Some(latest) => Turn::Done(to_remote_file_meta(&latest, virtual_path, now)),
            None => Turn::Done(to_remote_file_meta(&file, virtual_path, now)),
        },
        (DownloadStage::Resolve { .. }, DriveReply::MaybeFile(Err(why))) => Turn::Done(Err(why)),
        (DownloadStage::Content { virtual_path, .. }, DriveReply::Content(Err(why))) => {
            let mut what = "failed Drive download for ".to_owned();
            what.append(virtual_path.as_str());
            Turn::Done(Err(why.context(what.as_str())))
        },
        (DownloadStage::MakeFolder { local_path, .. }, DriveReply::Done(Err(why))) => {
            match local_path.parent() {
                Some(parent) => Turn::Done(Err(failed_at("failed to create ", &parent, why))),
                None => Turn::Done(Err(failed_at("failed to create ", &local_path, why))),
            }
        },
        (DownloadStage::Write { local_path, .. }, DriveReply::Done(Err(why))) => Turn::Done(
            Err(failed_at("failed to write ", &local_path, why)),
        ),
        (DownloadStage::Refetch { .. }, DriveReply::MaybeFile(Err(why))) => Turn::Done(Err(why)),
        _ => Turn::Done(Err(Failure::new(UNEXPECTED_DRIVE_REPLY))),
    }
}

/// A rename whose source is known.
#[derive(Debug, PartialEq, Eq)]
pub struct RenamePlan<T> {
    pub from: T,
    pub to: T,
    /// The new file name.
    pub name: T,
    pub source_id: T,
    /// The folder that the source lies in.
    pub old_parent: Option<T>,
}

impl View for RenamePlan<String> {
    type V = RenamePlan<Seq<char>>;

    open spec fn view(&self) -> RenamePlan<Seq<char>> {
        RenamePlan {
            from: self.from@,
            to: self.to@,
            name: self.name@,
            source_id: self.source_id@,
            old_parent: text_view(self.old_parent),
        }
    }
}

/// What a rename waits for.
#[derive(Debug, PartialEq, Eq)]
pub enum RenameStage<T> {
    /// What is known of a file that is to keep its path.
    Same,
    /// The file to rename.
    Source { from: T, to: T },
    /// The identifier of the folder that it goes to.
    Chain { plan: RenamePlan<T> },
    /// The file that is there already.
    Target { plan: RenamePlan<T>, parent_id: T },
    /// The move of that file to the trash.
    TrashTarget { plan: RenamePlan<T>, parent_id: T },
    /// The move.
    Move { from: T, to: T },
}

impl View for RenameStage<String> {
    type V = RenameStage<Seq<char>>;

    open spec fn view(&self) -> RenameStage<Seq<char>> {
        match self {
            RenameStage::Same => RenameStage::Same,
            RenameStage::Source { from, to } => RenameStage::Source { from: from@, to: to@ },
            RenameStage::Chain { plan } => RenameStage::Chain { plan: plan@ },
            RenameStage::Target { plan, parent_id } => RenameStage::Target {
                plan: plan@,
                parent_id: parent_id@,
            },
            RenameStage::TrashTarget { plan, parent_id } => RenameStage::TrashTarget {
                plan: plan@,
                parent_id: parent_id@,
            },
            RenameStage::Move { from, to } => RenameStage::Move { from: from@, to: to@ },
        }
    }
}

/// What a rename comes to.
pub type RenameTurn = Turn<RenameStage<String>, StoreRequest, Result<RemoteFileMeta, Failure>>;

/// The view of a [`RenameTurn`].
pub type RenameTurnView = Turn<
    RenameStage<Seq<char>>,
    StoreRequestView,
    Result<RemoteFileMetaView, Seq<char>>,
>;

impl View for RenameTurn {
    type V = RenameTurnView;

    open spec fn view(&self) -> RenameTurnView {
        match self {
            Turn::Ask(stage, request) => Turn::Ask(stage@, request@),
            Turn::Done(r) => Turn::Done(meta_result(*r)),
        }
    }
}

/// How a rename begins.
pub open spec fn begin_rename(from: Seq<char>, to: Seq<char>) -> RenameTurnView {
    if normalized(from) == normalized(to) {
        Turn::Ask(RenameStage::Same, DriveRequest::GetMetadata(normalized(to)))
    } else {
        Turn::Ask(
            RenameStage::Source { from: normalized(from), to: normalized(to) },
            DriveRequest::Resolve(normalized(from)),
        )
    }
}

/// The move of the source: it changes folders only where it must.
pub open spec fn move_source(plan: RenamePlan<Seq<char>>, parent_id: Seq<char>) -> RenameTurnView {
    let stays = plan.old_parent == Some(parent_id);
    Turn::Ask(
        RenameStage::Move { from: plan.from, to: plan.to },
        DriveRequest::MoveFile {
            file_id: plan.source_id,
            name: plan.name,
            remove_parent: if stays {
                None
            } else {
                plan.old_parent
            },
            add_parent: if stays {
                None
            } else {
                Some(parent_id)
            },
        },
    )
}

/// How a rename goes on. Another file that is at the new path is moved to the
/// trash first.
pub open spec fn rename_step(
    stage: RenameStage<Seq<char>>,
    reply: DriveReplyView,
    now: Timestamp,
) -> RenameTurnView {
    match (stage, reply) {
        (RenameStage::Same, DriveReplyView::Metadata(Ok(known))) => match known {
            Some(meta) => Turn::Done(Ok(meta)),
            None => Turn::Done(
                Err("rename source and destination are equal but metadata is missing"@),
            ),
        },
        (RenameStage::Source { from, to }, DriveReplyView::MaybeFile(Ok(found))) => match found {
            None => Turn::Done(Err("remote source does not exist: "@ + from)),
            Some(file) => match file.id {
                None => Turn::Done(Err("Drive source missing id during rename"@)),
                Some(source_id) => match path_segments(to) {
                    Err(why) => Turn::Done(Err(why)),
                    Ok(segments) => Turn::Ask(
                        RenameStage::Chain {
                            plan: RenamePlan {
                                from,
                                to,
                                name: segments.last(),
                                source_id,
                                old_parent: file.parent(),
                            },
                        },
                        DriveRequest::FolderChain(segments.drop_last()),
                    ),
                },
            },
        },
        (RenameStage::Chain { plan }, DriveReplyView::Text(Ok(parent_id))) => Turn::Ask(
            RenameStage::Target { plan, parent_id },
            DriveRequest::FindChild { parent_id, name: plan.name, kind: ChildKind::File },
        ),
        (RenameStage::Target { plan, parent_id }, DriveReplyView::MaybeFile(Ok(found))) =>
            match found {
            None => move_source(plan, parent_id),
            Some(target) => match target.id {
                None => Turn::Done(Err("Drive target file missing id"@)),
                Some(target_id) => if target_id == plan.source_id {
                    move_source(plan, parent_id)
                } else {
                    Turn::Ask(
                        RenameStage::TrashTarget { plan, parent_id },
                        DriveRequest::TrashFile(target_id),
                    )
                },
            },
        },
        (RenameStage::TrashTarget { plan, parent_id }, DriveReplyView::Done(Ok(_))) => move_source(
            plan,
            parent_id,
        ),
        (RenameStage::Move { from, to }, DriveReplyView::File(Ok(file))) => Turn::Done(
            drive_meta(file, to, now),
        ),
        (RenameStage::Same, DriveReplyView::Metadata(Err(why))) => Turn::Done(Err(why)),
        (RenameStage::Source { .. }, DriveReplyView::MaybeFile(Err(why))) => Turn::Done(Err(why)),
        (RenameStage::Chain { .. }, DriveReplyView::Text(Err(why))) => Turn::Done(Err(why)),
        (RenameStage::Target { .. }, DriveReplyView::MaybeFile(Err(why))) => Turn::Done(Err(why)),
        (RenameStage::TrashTarget { plan, .. }, DriveReplyView::Done(Err(why))) => Turn::Done(
            Err("failed to trash existing target "@ + plan.to + " before rename"@ + ": "@ + why),
        ),
        (RenameStage::Move { from, to }, DriveReplyView::File(Err(why))) => Turn::Done(
            Err("failed Drive rename "@ + from + " -> "@ + to + ": "@ + why),
        ),
        _ => Turn::Done(Err(UNEXPECTED_DRIVE_REPLY@)),
    }
}

/// Begins to move a remote file to another path.
pub fn rename(from_virtual_path: &str, to_virtual_path: &str) -> (r: RenameTurn)
    ensures
        r@ == begin_rename(from_virtual_path@, to_virtual_path@),
{
    let from = normalize(from_virtual_path);
    let to = normalize(to_virtual_path);
    if from == to {
        return Turn::Ask(RenameStage::Same, DriveRequest::GetMetadata(to));
    }
    let asked = from.clone();
    Turn::Ask(RenameStage::Source { from, to }, DriveRequest::Resolve(asked))
}

/// Asks for the move of the source.
fn ask_move(plan: RenamePlan<String>, parent_id: String) -> (r: RenameTurn)
    ensures
        r@ == move_source(plan@, parent_id@),
{
    let stays: bool = match &plan.old_parent {
        Some(old) => *old == parent_id,
        None => false,
    };
    let request = if stays {
        DriveRequest::MoveFile {
            file_id: plan.source_id,
            name: plan.name,
            remove_parent: None,
            add_parent: None,
        }
    } else {
        DriveRequest::MoveFile {
            file_id: plan.source_id,
            name: plan.name,
            remove_parent: plan.old_parent,
            add_parent: Some(parent_id),
        }
    };
    Turn::Ask(RenameStage::Move { from: plan.from, to: plan.to }, request)
}

/// Goes on with a rename.
pub fn rename_file_step(stage: RenameStage<String>, reply: DriveReply, now: Timestamp) -> (r:
    RenameTurn)
    ensures
        r@ == rename_step(stage@, reply@, now),
{
    match (stage, reply) {
        (RenameStage::Same, DriveReply::Metadata(Ok(known))) => match known {
            Some(meta) => Turn::Done(Ok(meta)),
            None => Turn::Done(
                Err(
                    Failure::new(
                        "rename source and destination are equal but metadata is missing",
                    ),
                ),
            ),
        },
        (RenameStage::Source { from, to }, DriveReply::MaybeFile(Ok(found))) => match found {
            None => {
                let mut message = "remote source does not exist: ".to_owned();
                message.append(from.as_str());
                Turn::Done(Err(Failure { message }))
            },
            Some(file) => {
                let old_parent = file.parent();
                match file.id {
                    None => Turn::Done(Err(Failure::new("Drive source missing id during rename"))),
                    Some(source_id) => match split_parent_and_file_name(to.as_str()) {
                        Err(why) => Turn::Done(Err(why)),
                        Ok((folders, name)) => Turn::Ask(
                            RenameStage::Chain {
                                plan: RenamePlan { from, to, name, source_id, old_parent },
                            },
                            DriveRequest::FolderChain(folders),
                        ),
                    },
                }
            },
        },
        (RenameStage::Chain { plan }, DriveReply::Text(Ok(parent_id))) => {
            let request = DriveRequest::FindChild {
                parent_id: parent_id.clone(),
                name: plan.name.clone(),
                kind: ChildKind::File,
            };
            Turn::Ask(RenameStage::Target { plan, parent_id }, request)
        },
        (RenameStage::Target { plan, parent_id }, DriveReply::MaybeFile(Ok(found))) => match found {
            None => ask_move(plan, parent_id),
            Some(target) => match target.id {
                None => Turn::Done(Err(Failure::new("Drive target file missing id"))),
                Some(target_id) => {
                    if target_id == plan.source_id {
                        ask_move(plan, parent_id)
                    } else {
                        Turn::Ask(
                            RenameStage::TrashTarget { plan, parent_id },
                            DriveRequest::TrashFile(target_id),
                        )
                    }
                },
            },
        },
        (RenameStage::TrashTarget { plan, parent_id }, DriveReply::Done(Ok(_))) => ask_move(
            plan,
            parent_id,
        ),
        (RenameStage::Move { from, to }, DriveReply::File(Ok(file))) => Turn::Done(
            to_remote_file_meta(&file, to, now),
        ),
        (RenameStage::Same, DriveReply::Metadata(Err(why))) => Turn::Done(Err(why)),
        (RenameStage::Source { .. }, DriveReply::MaybeFile(Err(why))) => Turn::Done(Err(why)),
        (RenameStage::Chain { .. }, DriveReply::Text(Err(why))) => Turn::Done(Err(why)),
        (RenameStage::Target { .. }, DriveReply::MaybeFile(Err(why))) => Turn::Done(Err(why)),
        (RenameStage::TrashTarget { plan, .. }, DriveReply::Done(Err(why))) => {
            let mut what = "failed to trash existing target ".to_owned();
            what.append(plan.to.as_str());
            what.append(" before rename");
            Turn::Done(Err(why.context(what.as_str())))
        },
        (RenameStage::Move { from, to }, DriveReply::File(Err(why))) => {
            let mut what = "failed Drive rename ".to_owned();
            what.append(from.as_str());
            what.append(" -> ");
            what.append(to.as_str());
            Turn::Done(Err(why.context(what.as_str())))
        },
        _ => Turn::Done(Err(Failure::new(UNEXPECTED_DRIVE_REPLY))),
    }
}

/// What a move to the trash waits for.
#[derive(Debug, PartialEq, Eq)]
pub enum TrashStage<T> {
    /// The file at the remote path.
    Resolve { virtual_path: T },
    /// The move.
    Trash { virtual_path: T },
}

impl View for TrashStage<String> {
    type V = TrashStage<Seq<char>>;

    open spec fn view(&self) -> TrashStage<Seq<char>> {
        match self {
            TrashStage::Resolve { virtual_path } => TrashStage::Resolve {
                virtual_path: virtual_path@,
            },
            TrashStage::Trash { virtual_path } => TrashStage::Trash {
                virtual_path: virtual_path@,
            },
        }
    }
}

/// What a move to the trash comes to.
pub type TrashTurn = Turn<TrashStage<String>, StoreRequest, Result<(), Failure>>;

/// The view of a [`TrashTurn`].
pub type TrashTurnView = Turn<TrashStage<Seq<char>>, StoreRequestView, Result<(), Seq<char>>>;

impl View for TrashTurn {
    type V = TrashTurnView;

    open spec fn view(&self) -> TrashTurnView {
        match self {
            Turn::Ask(stage, request) => Turn::Ask(stage@, request@),
            Turn::Done(Ok(_)) => Turn::Done(Ok(())),
            Turn::Done(Err(why)) => Turn::Done(Err(why@)),
        }
    }
}

/// How a move to the trash begins.
pub open spec fn begin_trash(virtual_path: Seq<char>) -> TrashTurnView {
    let path = normalized(virtual_path);
    Turn::Ask(TrashStage::Resolve { virtual_path: path }, DriveRequest::Resolve(path))
}

/// How a move to the trash goes on. A file that is not there needs none.
pub open spec fn trash_step(stage: TrashStage<Seq<char>>, reply: DriveReplyView) -> TrashTurnView {
    match (stage, reply) {
        (TrashStage::Resolve { virtual_path }, DriveReplyView::MaybeFile(Ok(found))) => match found {
            None => Turn::Done(Ok(())),
            Some(file) => match file.id {
                None => Turn::Done(Err("Drive trash target missing id"@)),
                Some(file_id) => Turn::Ask(
                    TrashStage::Trash { virtual_path },
                    DriveRequest::TrashFile(file_id),
                ),
            },
        },
        (TrashStage::Trash { .. }, DriveReplyView::Done(Ok(_))) => Turn::Done(Ok(())),
        (TrashStage::Resolve { .. }, DriveReplyView::MaybeFile(Err(why))) => Turn::Done(Err(why)),
        (TrashStage::Trash { virtual_path }, DriveReplyView::Done(Err(why))) => Turn::Done(
            Err("failed to move Drive file to trash: "@ + virtual_path + ": "@ + why),
        ),
        _ => Turn::Done(Err(UNEXPECTED_DRIVE_REPLY@)),
    }
}

/// Begins to move a remote file to the trash.
pub fn trash(virtual_path: &str) -> (r: TrashTurn)
    ensures
        r@ == begin_trash(virtual_path@),
{
    let path = normalize(virtual_path);
    let asked = path.clone();
    Turn::Ask(TrashStage::Resolve { virtual_path: path }, DriveRequest::Resolve(asked))
}

/// Goes on with a move to the trash.
pub fn trash_file_step(stage: TrashStage<String>, reply: DriveReply) -> (r: TrashTurn)
    ensures
        r@ == trash_step(stage@, reply@),
{
    match (stage, reply) {
        (TrashStage::Resolve { virtual_path }, DriveReply::MaybeFile(Ok(found))) => match found {
            None => Turn::Done(Ok(())),
            Some(file) => match file.id {
                None => Turn::Done(Err(Failure::new("Drive trash target missing id"))),
                Some(file_id) => Turn::Ask(
                    TrashStage::Trash { virtual_path },
                    DriveRequest::TrashFile(file_id),
                ),
            },
        },
        (TrashStage::Trash { .. }, DriveReply::Done(Ok(_))) => Turn::Done(Ok(())),
        (TrashStage::Resolve { .. }, DriveReply::MaybeFile(Err(why))) => Turn::Done(Err(why)),
        (TrashStage::Trash { virtual_path }, DriveReply::Done(Err(why))) => {
            let mut what = "failed to move Drive file to trash: ".to_owned();
            what.append(virtual_path.as_str());
            Turn::Done(Err(why.context(what.as_str())))
        },
        _ => Turn::Done(Err(Failure::new(UNEXPECTED_DRIVE_REPLY))),
    }
}

/// What a question for metadata waits for: the file at the remote path.
#[derive(Debug, PartialEq, Eq)]
pub struct MetadataStage<T> {
    pub virtual_path: T,
}

/// What a question for metadata comes to.
pub type MetadataTurn = Turn<
    MetadataStage<String>,
    StoreRequest,
    Result<Option<RemoteFileMeta>, Failure>,
>;

/// The view of a [`MetadataTurn`].
pub type MetadataTurnView = Turn<
    MetadataStage<Seq<char>>,
    StoreRequestView,
    Result<Option<RemoteFileMetaView>, Seq<char>>,
>;

impl View for MetadataTurn {
    type V = MetadataTurnView;

    open spec fn view(&self) -> MetadataTurnView {
        match self {
            Turn::Ask(stage, request) => Turn::Ask(
                MetadataStage { virtual_path: stage.virtual_path@ },
                request@,
            ),
            Turn::Done(Ok(Some(meta))) => Turn::Done(Ok(Some(meta@))),
            Turn::Done(Ok(None)) => Turn::Done(Ok(None)),
            Turn::Done(Err(why)) => Turn::Done(Err(why@)),
        }
    }
}

/// How a question for metadata begins.
pub open spec fn begin_metadata(virtual_path: Seq<char>) -> MetadataTurnView {
    let path = normalized(virtual_path);
    Turn::Ask(MetadataStage { virtual_path: path }, DriveRequest::Resolve(path))
}

/// How a question for metadata goes on.
pub open spec fn metadata_step(
    virtual_path: Seq<char>,
    reply: DriveReplyView,
    now: Timestamp,
) -> MetadataTurnView {
    match reply {
        DriveReplyView::MaybeFile(Ok(None)) => Turn::Done(Ok(None)),
        DriveReplyView::MaybeFile(Ok(Some(file))) => match drive_meta(file, virtual_path, now) {
            Ok(meta) => Turn::Done(Ok(Some(meta))),
            Err(why) => Turn::Done(Err(why)),
        },
        DriveReplyView::MaybeFile(Err(why)) => Turn::Done(Err(why)),
        _ => Turn::Done(Err(UNEXPECTED_DRIVE_REPLY@)),
    }
}

/// Begins to ask what is known of a remote file.
pub fn get_metadata(virtual_path: &str) -> (r: MetadataTurn)
    ensures
        r@ == begin_metadata(virtual_path@),
{
    let path = normalize(virtual_path);
    let asked = path.clone();
    Turn::Ask(MetadataStage { virtual_path: path }, DriveRequest::Resolve(asked))
}

/// Goes on with asking what is known of a remote file.
pub fn get_metadata_step(stage: MetadataStage<String>, reply: DriveReply, now: Timestamp) -> (r:
    MetadataTurn)
    ensures
        r@ == metadata_step(stage.virtual_path@, reply@, now),
{
    match reply {
        DriveReply::MaybeFile(Ok(None)) => Turn::Done(Ok(None)),
        DriveReply::MaybeFile(Ok(Some(file))) => match to_remote_file_meta(
            &file,
            stage.virtual_path,
            now,
        ) {
            Ok(meta) => Turn::Done(Ok(Some(meta))),
            Err(why) => Turn::Done(Err(why)),
        },
        DriveReply::MaybeFile(Err(why)) => Turn::Done(Err(why)),
        _ => Turn::Done(Err(Failure::new(UNEXPECTED_DRIVE_REPLY))),
    }
}

} // verus!
