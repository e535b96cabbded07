//! What the Drive store asks for and is told.
use vstd::prelude::*;

use crate::events::{RemoteChange, RemoteChangeView, RemoteFileMeta, RemoteFileMetaView};
use crate::failure::Failure;
use crate::path::LocalPath;
use crate::remote::google_drive::{
    file_view, ChildKind, DriveChange, DriveChangeView, DriveFailureKind, DriveFile, DriveFileView,
};
use crate::text::{text_view, texts};

verus! {

/// What is said of a reply that does not belong to what was asked for.
pub const UNEXPECTED_DRIVE_REPLY: &'static str = "unexpected reply from Drive";

/// Something that is done outside the store: by Drive, by the local file
/// system, by the state database, or by other work of the store.
#[derive(Debug, PartialEq, Eq)]
pub enum DriveRequest<P, T, L, F, C, B> {
    /// Tell the identifier of the sandbox folder.
    SandboxId,
    /// Tell the identifier of the last folder of a chain, making what is
    /// missing.
    FolderChain(L),
    /// Find the file at a remote path.
    Resolve(T),
    /// Tell what is known of the file at a remote path.
    GetMetadata(T),
    /// Tell the remote path of a file.
    PathOf(F),
    /// Say what a change means.
    Translate(C),
    /// Look for a child of a folder.
    FindChild { parent_id: T, name: T, kind: ChildKind },
    /// Make a folder.
    CreateFolder { parent_id: T, name: T },
    /// Fetch what Drive knows of a file.
    Fetch(T),
    /// Give a file the content of a local one.
    UpdateContent { file_id: T, local_path: P },
    /// Make a file with the content of a local one.
    CreateContent { parent_id: T, name: T, local_path: P },
    /// Fetch the content of a file.
    Download(T),
    /// Move a file to the trash.
    TrashFile(T),
    /// Rename a file, and move it where a parent is given.
    MoveFile { file_id: T, name: T, remove_parent: Option<T>, add_parent: Option<T> },
    /// Tell the page token from which on changes are reported.
    StartToken,
    /// List the changes from a page token on.
    ListChanges(T),
    /// Read the page token that is kept.
    LoadToken,
    /// Keep a page token.
    SaveToken(T),
    /// Read the remote path that is recorded for a file.
    LookUpPath(T),
    /// Make a local folder, with those above it.
    MakeLocalFolder(P),
    /// Write a local file.
    WriteLocal { local_path: P, content: B },
}

/// What the store asks for.
pub type StoreRequest = DriveRequest<
    LocalPath,
    String,
    Vec<String>,
    DriveFile,
    DriveChange,
    Vec<u8>,
>;

/// The view of a [`StoreRequest`].
pub type StoreRequestView = DriveRequest<
    Seq<u8>,
    Seq<char>,
    Seq<Seq<char>>,
    DriveFileView,
    DriveChangeView,
    Seq<u8>,
>;

impl View for StoreRequest {
    type V = StoreRequestView;

    open spec fn view(&self) -> StoreRequestView {
        match self {
            DriveRequest::SandboxId => DriveRequest::SandboxId,
            DriveRequest::FolderChain(folders) => DriveRequest::FolderChain(texts(folders@)),
            DriveRequest::Resolve(path) => DriveRequest::Resolve(path@),
            DriveRequest::GetMetadata(path) => DriveRequest::GetMetadata(path@),
            DriveRequest::PathOf(file) => DriveRequest::PathOf(file@),
            DriveRequest::Translate(change) => DriveRequest::Translate(change@),
            DriveRequest::FindChild { parent_id, name, kind } => DriveRequest::FindChild {
                parent_id: parent_id@,
                name: name@,
                kind: *kind,
            },
            DriveRequest::CreateFolder { parent_id, name } => DriveRequest::CreateFolder {
                parent_id: parent_id@,
                name: name@,
            },
            DriveRequest::Fetch(file_id) => DriveRequest::Fetch(file_id@),
            DriveRequest::UpdateContent { file_id, local_path } => DriveRequest::UpdateContent {
                file_id: file_id@,
                local_path: local_path@,
            },
            DriveRequest::CreateContent { parent_id, name, local_path } =>
                DriveRequest::CreateContent {
                parent_id: parent_id@,
                name: name@,
                local_path: local_path@,
            },
            DriveRequest::Download(file_id) => DriveRequest::Download(file_id@),
            DriveRequest::TrashFile(file_id) => DriveRequest::TrashFile(file_id@),
            DriveRequest::MoveFile { file_id, name, remove_parent, add_parent } =>
                DriveRequest::MoveFile {
                file_id: file_id@,
                name: name@,
                remove_parent: text_view(*remove_parent),
                add_parent: text_view(*add_parent),
            },
            DriveRequest::StartToken => DriveRequest::StartToken,
            DriveRequest::ListChanges(token) => DriveRequest::ListChanges(token@),
            DriveRequest::LoadToken => DriveRequest::LoadToken,
            DriveRequest::SaveToken(token) => DriveRequest::SaveToken(token@),
            DriveRequest::LookUpPath(file_id) => DriveRequest::LookUpPath(file_id@),
            DriveRequest::MakeLocalFolder(path) => DriveRequest::MakeLocalFolder(path@),
            DriveRequest::WriteLocal { local_path, content } => DriveRequest::WriteLocal {
                local_path: local_path@,
                content: content@,
            },
        }
    }
}

/// A page of changes.
#[derive(Debug, PartialEq, Eq)]
pub struct ChangePage {
    pub changes: Vec<DriveChange>,
    pub next_page_token: Option<String>,
    pub new_start_page_token: Option<String>,
}

/// The view of a [`ChangePage`].
pub struct ChangePageView {
    pub changes: Seq<DriveChangeView>,
    pub next_page_token: Option<Seq<char>>,
    pub new_start_page_token: Option<Seq<char>>,
}

/// The views of a list of changes.
pub open spec fn drive_change_views(list: Seq<DriveChange>) -> Seq<DriveChangeView> {
    list.map_values(|change: DriveChange| change@)
}

impl View for ChangePage {
    type V = ChangePageView;

    open spec fn view(&self) -> ChangePageView {
        ChangePageView {
            changes: drive_change_views(self.changes@),
            next_page_token: text_view(self.next_page_token),
            new_start_page_token: text_view(self.new_start_page_token),
        }
    }
}

/// Where an upload failed.
#[derive(Debug, PartialEq, Eq)]
pub enum UploadFailure<W> {
    /// The local file could not be opened.
    Open(W),
    /// Drive did not take it.
    Transfer(W),
}

/// What came of a request.
#[derive(Debug)]
pub enum DriveReply {
    /// To [`DriveRequest::SandboxId`], [`DriveRequest::FolderChain`] and
    /// [`DriveRequest::StartToken`].
    Text(Result<String, Failure>),
    /// To [`DriveRequest::PathOf`], [`DriveRequest::LookUpPath`] and
    /// [`DriveRequest::LoadToken`].
    MaybeText(Result<Option<String>, Failure>),
    /// To [`DriveRequest::CreateFolder`] and [`DriveRequest::MoveFile`].
    File(Result<DriveFile, Failure>),
    /// To [`DriveRequest::Resolve`], [`DriveRequest::FindChild`] and
    /// [`DriveRequest::Fetch`].
    MaybeFile(Result<Option<DriveFile>, Failure>),
    /// To [`DriveRequest::UpdateContent`] and [`DriveRequest::CreateContent`].
    Uploaded(Result<DriveFile, UploadFailure<Failure>>),
    /// To [`DriveRequest::Download`]; nothing where the body could not be read.
    Content(Result<Option<Vec<u8>>, Failure>),
    /// To the requests that only do something.
    Done(Result<(), Failure>),
    /// To [`DriveRequest::ListChanges`].
    Changes(Result<ChangePage, (DriveFailureKind, Failure)>),
    /// To [`DriveRequest::Translate`].
    Change(Result<Option<RemoteChange>, Failure>),
    /// To [`DriveRequest::GetMetadata`].
    Metadata(Result<Option<RemoteFileMeta>, Failure>),
}

/// The view of a [`DriveReply`].
pub enum DriveReplyView {
    Text(Result<Seq<char>, Seq<char>>),
    MaybeText(Result<Option<Seq<char>>, Seq<char>>),
    File(Result<DriveFileView, Seq<char>>),
    MaybeFile(Result<Option<DriveFileView>, Seq<char>>),
    Uploaded(Result<DriveFileView, UploadFailure<Seq<char>>>),
    Content(Result<Option<Seq<u8>>, Seq<char>>),
    Done(Result<(), Seq<char>>),
    Changes(Result<ChangePageView, (DriveFailureKind, Seq<char>)>),
    Change(Result<Option<RemoteChangeView>, Seq<char>>),
    Metadata(Result<Option<RemoteFileMetaView>, Seq<char>>),
}

impl View for DriveReply {
    type V = DriveReplyView;

    open spec fn view(&self) -> DriveReplyView {
        match self {
            DriveReply::Text(Ok(text)) => DriveReplyView::Text(Ok(text@)),
            DriveReply::Text(Err(why)) => DriveReplyView::Text(Err(why@)),
            DriveReply::MaybeText(Ok(text)) => DriveReplyView::MaybeText(Ok(text_view(*text))),
            DriveReply::MaybeText(Err(why)) => DriveReplyView::MaybeText(Err(why@)),
            DriveReply::File(Ok(file)) => DriveReplyView::File(Ok(file@)),
            DriveReply::File(Err(why)) => DriveReplyView::File(Err(why@)),
            DriveReply::MaybeFile(Ok(file)) => DriveReplyView::MaybeFile(Ok(file_view(*file))),
            DriveReply::MaybeFile(Err(why)) => DriveReplyView::MaybeFile(Err(why@)),
            DriveReply::Uploaded(Ok(file)) => DriveReplyView::Uploaded(Ok(file@)),
            DriveReply::Uploaded(Err(UploadFailure::Open(why))) => DriveReplyView::Uploaded(
                Err(UploadFailure::Open(why@)),
            ),
            DriveReply::Uploaded(Err(UploadFailure::Transfer(why))) => DriveReplyView::Uploaded(
                Err(UploadFailure::Transfer(why@)),
            ),
            DriveReply::Content(Ok(Some(content))) => DriveReplyView::Content(Ok(Some(content@))),
            DriveReply::Content(Ok(None)) => DriveReplyView::Content(Ok(None)),
            DriveReply::Content(Err(why)) => DriveReplyView::Content(Err(why@)),
            DriveReply::Done(Ok(_)) => DriveReplyView::Done(Ok(())),
            DriveReply::Done(Err(why)) => DriveReplyView::Done(Err(why@)),
            DriveReply::Changes(Ok(page)) => DriveReplyView::Changes(Ok(page@)),
            DriveReply::Changes(Err((kind, why))) => DriveReplyView::Changes(Err((*kind, why@))),
            DriveReply::Change(Ok(Some(change))) => DriveReplyView::Change(Ok(Some(change@))),
            DriveReply::Change(Ok(None)) => DriveReplyView::Change(Ok(None)),
            DriveReply::Change(Err(why)) => DriveReplyView::Change(Err(why@)),
            DriveReply::Metadata(Ok(Some(meta))) => DriveReplyView::Metadata(Ok(Some(meta@))),
            DriveReply::Metadata(Ok(None)) => DriveReplyView::Metadata(Ok(None)),
            DriveReply::Metadata(Err(why)) => DriveReplyView::Metadata(Err(why@)),
        }
    }
}

/// What work comes to: a stage in which it waits for the reply to a request, or
/// its end.
#[derive(Debug, PartialEq, Eq)]
pub enum Turn<S, Q, O> {
    Ask(S, Q),
    Done(O),
}

} // verus!
