//! The store's work from the request that begins it to its result: what a machine
//! asks of another one is answered by that one, so that only what Drive, the local
//! file system and the state database do is asked outside.
use vstd::prelude::*;

use crate::config::PathKind;
use crate::events::{
    change_views, RemoteChange, RemoteChangeView, RemoteFileMeta, RemoteFileMetaView,
};
use crate::failure::Failure;
use crate::path::LocalPath;
use crate::remote::google_drive::changes::{
    begin_path, begin_poll, begin_translate, path_step, poll_changes, poll_changes_step, poll_step,
    translate_change, translate_change_step, translate_step, virtual_path_from_file,
    virtual_path_step, PathStage, PathTurn, PathTurnView, PollStage, PollTurn, PollTurnView,
    TranslateStage, TranslateTurn, TranslateTurnView,
};
use crate::remote::google_drive::folders::{
    begin_chain, begin_resolve, begin_sandbox, chain_from, chain_step, known_folder, resolve_step,
    running_path, sandbox_step, ChainStage, ChainTurn, ChainTurnView, DriveStoreView,
    GoogleDriveRemoteStore, ResolveStage, ResolveTurn, ResolveTurnView, SandboxStage, SandboxTurn,
    SandboxTurnView,
};
use crate::remote::google_drive::protocol::{
    ChangePage, ChangePageView, DriveReply, DriveReplyView, DriveRequest, StoreRequest,
    StoreRequestView, Turn,
};
use crate::remote::google_drive::transfers::{
    begin_download, begin_metadata, begin_rename, begin_trash, begin_upload, download_step,
    download_to_local, download_to_local_step, get_metadata, get_metadata_step, meta_result,
    metadata_step, rename, rename_file_step, rename_step, trash, trash_file_step, trash_step,
    upload_or_update, upload_or_update_step, upload_step, DownloadStage, DownloadTurn,
    DownloadTurnView, MetadataStage, MetadataTurn, MetadataTurnView, RenameStage, RenameTurn,
    RenameTurnView, TrashStage, TrashTurn, TrashTurnView, UploadStage, UploadTurn, UploadTurnView,
};
use crate::remote::google_drive::{DriveFile, DriveFileView, Timestamp};

verus! {

/// A machine that waits for a reply.
#[derive(Debug, PartialEq, Eq)]
pub enum Frame {
    Sandbox(SandboxStage),
    Chain(ChainStage<String, Vec<String>>),
    Resolve(ResolveStage<Vec<String>>),
    Path(PathStage<String, Vec<String>>),
    Translate(TranslateStage<String, DriveFile>),
    Metadata(MetadataStage<String>),
    Upload(UploadStage<LocalPath, String>),
    Download(DownloadStage<LocalPath, String, DriveFile, Vec<u8>>),
    Rename(RenameStage<String>),
    Trash(TrashStage<String>),
    Poll(PollStage<String, Vec<RemoteChange>, ChangePage, usize>),
}

/// The view of a [`Frame`].
pub enum FrameView {
    Sandbox(SandboxStage),
    Chain(ChainStage<Seq<char>, Seq<Seq<char>>>),
    Resolve(ResolveStage<Seq<Seq<char>>>),
    Path(PathStage<Seq<char>, Seq<Seq<char>>>),
    Translate(TranslateStage<Seq<char>, DriveFileView>),
    Metadata(MetadataStage<Seq<char>>),
    Upload(UploadStage<Seq<u8>, Seq<char>>),
    Download(DownloadStage<Seq<u8>, Seq<char>, DriveFileView, Seq<u8>>),
    Rename(RenameStage<Seq<char>>),
    Trash(TrashStage<Seq<char>>),
    Poll(PollStage<Seq<char>, Seq<RemoteChangeView>, ChangePageView, int>),
}

impl View for Frame {
    type V = FrameView;

    open spec fn view(&self) -> FrameView {
        match self {
            Frame::Sandbox(stage) => FrameView::Sandbox(*stage),
            Frame::Chain(stage) => FrameView::Chain(stage@),
            Frame::Resolve(stage) => FrameView::Resolve(stage@),
            Frame::Path(stage) => FrameView::Path(stage@),
            Frame::Translate(stage) => FrameView::Translate(stage@),
            Frame::Metadata(stage) => FrameView::Metadata(
                MetadataStage { virtual_path: stage.virtual_path@ },
            ),
            Frame::Upload(stage) => FrameView::Upload(stage@),
            Frame::Download(stage) => FrameView::Download(stage@),
            Frame::Rename(stage) => FrameView::Rename(stage@),
            Frame::Trash(stage) => FrameView::Trash(stage@),
            Frame::Poll(stage) => FrameView::Poll(stage@),
        }
    }
}

/// The views of machines that wait for each other, the innermost last.
pub open spec fn frame_views(list: Seq<Frame>) -> Seq<FrameView> {
    list.map_values(|frame: Frame| frame@)
}

/// What work comes to.
#[derive(Debug)]
pub enum Outcome {
    /// What another machine asked for, or the result of a request that is answered in
    /// the same way.
    Reply(DriveReply),
    /// What is known of a file that was uploaded, downloaded or renamed.
    Stored(Result<RemoteFileMeta, Failure>),
    /// What a poll reports.
    Polled(Result<Vec<RemoteChange>, Failure>),
}

/// The view of an [`Outcome`].
pub enum OutcomeView {
    Reply(DriveReplyView),
    Stored(Result<RemoteFileMetaView, Seq<char>>),
    Polled(Result<Seq<RemoteChangeView>, Seq<char>>),
}

impl View for Outcome {
    type V = OutcomeView;

    open spec fn view(&self) -> OutcomeView {
        match self {
            Outcome::Reply(reply) => OutcomeView::Reply(reply@),
            Outcome::Stored(r) => OutcomeView::Stored(meta_result(*r)),
            Outcome::Polled(Ok(events)) => OutcomeView::Polled(Ok(change_views(events@))),
            Outcome::Polled(Err(why)) => OutcomeView::Polled(Err(why@)),
        }
    }
}

/// What a step of a machine comes to.
pub type FrameTurn = Turn<Frame, StoreRequest, Outcome>;

/// The view of a [`FrameTurn`].
pub type FrameTurnView = Turn<FrameView, StoreRequestView, OutcomeView>;

impl View for FrameTurn {
    type V = FrameTurnView;

    open spec fn view(&self) -> FrameTurnView {
        match self {
            Turn::Ask(frame, request) => Turn::Ask(frame@, request@),
            Turn::Done(outcome) => Turn::Done(outcome@),
        }
    }
}

/// What work comes to: machines that wait, the innermost for the reply to a request,
/// or a result.
pub type WorkTurn = Turn<Vec<Frame>, StoreRequest, Outcome>;

/// The view of a [`WorkTurn`].
pub type WorkTurnView = Turn<Seq<FrameView>, StoreRequestView, OutcomeView>;

impl View for WorkTurn {
    type V = WorkTurnView;

    open spec fn view(&self) -> WorkTurnView {
        match self {
            Turn::Ask(work, request) => Turn::Ask(frame_views(work@), request@),
            Turn::Done(outcome) => Turn::Done(outcome@),
        }
    }
}

/// A turn of the search for the sandbox folder.
pub open spec fn sandbox_turn(turn: SandboxTurnView) -> FrameTurnView {
    match turn {
        Turn::Ask(stage, request) => Turn::Ask(FrameView::Sandbox(stage), request),
        Turn::Done(r) => Turn::Done(OutcomeView::Reply(DriveReplyView::Text(r))),
    }
}

/// A turn of the walk along a chain of folders.
pub open spec fn chain_turn(turn: ChainTurnView) -> FrameTurnView {
    match turn {
        Turn::Ask(stage, request) => Turn::Ask(FrameView::Chain(stage), request),
        Turn::Done(r) => Turn::Done(OutcomeView::Reply(DriveReplyView::Text(r))),
    }
}

/// A turn of the way down to a file.
pub open spec fn resolve_turn(turn: ResolveTurnView) -> FrameTurnView {
    match turn {
        Turn::Ask(stage, request) => Turn::Ask(FrameView::Resolve(stage), request),
        Turn::Done(r) => Turn::Done(OutcomeView::Reply(DriveReplyView::MaybeFile(r))),
    }
}

/// A turn of the way up from a file.
pub open spec fn path_turn(turn: PathTurnView) -> FrameTurnView {
    match turn {
        Turn::Ask(stage, request) => Turn::Ask(FrameView::Path(stage), request),
        Turn::Done(r) => Turn::Done(OutcomeView::Reply(DriveReplyView::MaybeText(r))),
    }
}

/// A turn of finding out what a change means.
pub open spec fn translate_turn(turn: TranslateTurnView) -> FrameTurnView {
    match turn {
        Turn::Ask(stage, request) => Turn::Ask(FrameView::Translate(stage), request),
        Turn::Done(r) => Turn::Done(OutcomeView::Reply(DriveReplyView::Change(r))),
    }
}

/// A turn of a question for metadata.
pub open spec fn metadata_turn(turn: MetadataTurnView) -> FrameTurnView {
    match turn {
        Turn::Ask(stage, request) => Turn::Ask(FrameView::Metadata(stage), request),
        Turn::Done(r) => Turn::Done(OutcomeView::Reply(DriveReplyView::Metadata(r))),
    }
}

/// A turn of an upload.
pub open spec fn upload_turn(turn: UploadTurnView) -> FrameTurnView {
    match turn {
        Turn::Ask(stage, request) => Turn::Ask(FrameView::Upload(stage), request),
        Turn::Done(r) => Turn::Done(OutcomeView::Stored(r)),
    }
}

/// A turn of a download.
pub open spec fn download_turn(turn: DownloadTurnView) -> FrameTurnView {
    match turn {
        Turn::Ask(stage, request) => Turn::Ask(FrameView::Download(stage), request),
        Turn::Done(r) => Turn::Done(OutcomeView::Stored(r)),
    }
}

/// A turn of a rename.
pub open spec fn rename_turn(turn: RenameTurnView) -> FrameTurnView {
    match turn {
        Turn::Ask(stage, request) => Turn::Ask(FrameView::Rename(stage), request),
        Turn::Done(r) => Turn::Done(OutcomeView::Stored(r)),
    }
}

/// A turn of a move to the trash.
pub open spec fn trash_turn(turn: TrashTurnView) -> FrameTurnView {
    match turn {
        Turn::Ask(stage, request) => Turn::Ask(FrameView::Trash(stage), request),
        Turn::Done(r) => Turn::Done(OutcomeView::Reply(DriveReplyView::Done(r))),
    }
}

/// A turn of a poll.
pub open spec fn poll_turn(turn: PollTurnView) -> FrameTurnView {
    match turn {
        Turn::Ask(stage, request) => Turn::Ask(FrameView::Poll(stage), request),
        Turn::Done(r) => Turn::Done(OutcomeView::Polled(r)),
    }
}

/// How the machine begins that answers a request; nothing where the request is one
/// that is carried out outside.
pub open spec fn begin_request(s: DriveStoreView, request: StoreRequestView) -> Option<
    FrameTurnView,
> {
    match request {
        DriveRequest::SandboxId => Some(sandbox_turn(begin_sandbox(s))),
        DriveRequest::FolderChain(folders) => Some(chain_turn(begin_chain(folders))),
        DriveRequest::Resolve(path) => Some(resolve_turn(begin_resolve(path))),
        DriveRequest::GetMetadata(path) => Some(metadata_turn(begin_metadata(path))),
        DriveRequest::PathOf(file) => Some(path_turn(begin_path(file))),
        DriveRequest::Translate(change) => Some(translate_turn(begin_translate(change))),
        _ => None,
    }
}

/// How a machine goes on.
pub open spec fn frame_step(
    s: DriveStoreView,
    frame: FrameView,
    reply: DriveReplyView,
    now: Timestamp,
) -> (DriveStoreView, FrameTurnView) {
    match frame {
        FrameView::Sandbox(stage) => {
            let (after, turn) = sandbox_step(s, stage, reply);
            (after, sandbox_turn(turn))
        },
        FrameView::Chain(stage) => {
            let (after, turn) = chain_step(s, stage, reply);
            (after, chain_turn(turn))
        },
        FrameView::Resolve(stage) => {
            let (after, turn) = resolve_step(s, stage, reply);
            (after, resolve_turn(turn))
        },
        FrameView::Path(stage) => (s, path_turn(path_step(stage, reply))),
        FrameView::Translate(stage) => (s, translate_turn(translate_step(stage, reply, now))),
        FrameView::Metadata(stage) => (
            s,
            metadata_turn(metadata_step(stage.virtual_path, reply, now)),
        ),
        FrameView::Upload(stage) => (s, upload_turn(upload_step(stage, reply, now))),
        FrameView::Download(stage) => (s, download_turn(download_step(stage, reply, now))),
        FrameView::Rename(stage) => (s, rename_turn(rename_step(stage, reply, now))),
        FrameView::Trash(stage) => (s, trash_turn(trash_step(stage, reply))),
        FrameView::Poll(stage) => (s, poll_turn(poll_step(stage, reply))),
    }
}

/// A bound on how often machines go on before one of them asks outside, once a
/// machine has its reply.
pub open spec fn frame_weight(frame: FrameView) -> nat {
    match frame {
        FrameView::Translate(TranslateStage::Fetched { .. }) => 5,
        FrameView::Rename(RenameStage::Source { .. }) => 5,
        FrameView::Poll(PollStage::Translate { page, next, .. }) => if 0 <= next
            < page.changes.len() {
            (7 * (page.changes.len() - next) + 1) as nat
        } else {
            1
        },
        _ => 1,
    }
}

/// Such a bound for a request that another machine answers.
pub open spec fn request_weight(request: StoreRequestView) -> nat {
    match request {
        DriveRequest::SandboxId => 2,
        DriveRequest::FolderChain(_) => 4,
        DriveRequest::Resolve(_) => 4,
        DriveRequest::PathOf(_) => 4,
        DriveRequest::GetMetadata(_) => 6,
        DriveRequest::Translate(_) => 6,
        _ => 0,
    }
}

/// Such a bound for a reply.
pub open spec fn reply_weight(reply: DriveReplyView) -> nat {
    match reply {
        DriveReplyView::Changes(Ok(page)) => 7 * page.changes.len() + 7,
        _ => 0,
    }
}

/// Such a bound for what a machine comes to.
pub open spec fn turn_weight(turn: FrameTurnView) -> nat {
    match turn {
        Turn::Ask(frame, request) => if request_weight(request) > 0 {
            frame_weight(frame) + request_weight(request)
        } else {
            0
        },
        Turn::Done(OutcomeView::Reply(reply)) => 1 + reply_weight(reply),
        Turn::Done(_) => 1,
    }
}

/// Such a bound for machines that wait for each other.
pub open spec fn stack_weight(stack: Seq<FrameView>) -> nat
    decreases stack.len(),
{
    if stack.len() == 0 {
        0
    } else {
        stack_weight(stack.drop_last()) + frame_weight(stack.last())
    }
}

/// The walk along a chain goes on to a question or its end.
proof fn lemma_chain_weight(
    s: DriveStoreView,
    folders: Seq<Seq<char>>,
    next: int,
    parent_id: Seq<char>,
)
    ensures
        turn_weight(chain_turn(chain_from(s, folders, next, parent_id))) <= 1,
    decreases folders.len() - next,
{
    if next < folders.len() {
        if let Some(id) = known_folder(s.folder_cache, running_path(folders.take(next + 1))) {
            lemma_chain_weight(s, folders, next + 1, id);
        }
    }
}

/// A machine that begins stays below the bound of the request.
pub proof fn lemma_begin_weight(s: DriveStoreView, request: StoreRequestView)
    ensures
        begin_request(s, request) is Some <==> request_weight(request) > 0,
        begin_request(s, request) matches Some(turn) ==> turn_weight(turn) + 1 <= request_weight(
            request,
        ),
{
}

/// A machine that goes on stays below its bound.
pub proof fn lemma_step_weight(
    s: DriveStoreView,
    frame: FrameView,
    reply: DriveReplyView,
    now: Timestamp,
)
    ensures
        turn_weight(frame_step(s, frame, reply, now).1) <= frame_weight(frame) + reply_weight(reply),
{
    match (frame, reply) {
        (
            FrameView::Chain(ChainStage::Sandbox { folders }),
            DriveReplyView::Text(Ok(id)),
        ) => lemma_chain_weight(s, folders, 0, id),
        (FrameView::Chain(ChainStage::Find { folders, next, .. }), _) => {
            let after = frame_step(s, frame, reply, now).0;
            assert forall|id: Seq<char>| turn_weight(
                #[trigger] chain_turn(chain_from(after, folders, next + 1, id)),
            ) <= 1 by {
                lemma_chain_weight(after, folders, next + 1, id);
            }
        },
        (FrameView::Chain(ChainStage::Create { folders, next }), _) => {
            let after = frame_step(s, frame, reply, now).0;
            assert forall|id: Seq<char>| turn_weight(
                #[trigger] chain_turn(chain_from(after, folders, next + 1, id)),
            ) <= 1 by {
                lemma_chain_weight(after, folders, next + 1, id);
            }
        },
        _ => {},
    }
}

/// How work goes on with what a machine came to. What it asks of another machine is
/// answered by that one; what it comes to is the reply that the machine around it
/// waits for. Work stops at a request that is carried out outside, and ends with the
/// outermost machine.
pub open spec fn settle(
    s: DriveStoreView,
    stack: Seq<FrameView>,
    turn: FrameTurnView,
    now: Timestamp,
) -> (DriveStoreView, WorkTurnView)
    decreases stack_weight(stack) + turn_weight(turn),
{
    match turn {
        Turn::Ask(frame, request) => match begin_request(s, request) {
            None => (s, Turn::Ask(stack.push(frame), request)),
            Some(inner) => {
                proof {
                    lemma_begin_weight(s, request);
                    assert(stack.push(frame).drop_last() == stack);
                }
                settle(s, stack.push(frame), inner, now)
            },
        },
        Turn::Done(outcome) => match outcome {
            OutcomeView::Reply(reply) => if stack.len() > 0 {
                let (after, next) = frame_step(s, stack.last(), reply, now);
                proof {
                    lemma_step_weight(s, stack.last(), reply, now);
                }
                settle(after, stack.drop_last(), next, now)
            } else {
                (s, Turn::Done(outcome))
            },
            _ => (s, Turn::Done(outcome)),
        },
    }
}

/// How work begins with what its outermost machine came to.
pub open spec fn begun(s: DriveStoreView, turn: FrameTurnView, now: Timestamp) -> (
    DriveStoreView,
    WorkTurnView,
) {
    settle(s, Seq::empty(), turn, now)
}

/// How work goes on with the reply to what was asked outside.
pub open spec fn resume(
    s: DriveStoreView,
    work: Seq<FrameView>,
    reply: DriveReplyView,
    now: Timestamp,
) -> (DriveStoreView, WorkTurnView) {
    settle(s, work, Turn::Done(OutcomeView::Reply(reply)), now)
}

/// A turn of the search for the sandbox folder.
fn from_sandbox(turn: SandboxTurn) -> (r: FrameTurn)
    ensures
        r@ == sandbox_turn(turn@),
{
    match turn {
        Turn::Ask(stage, request) => Turn::Ask(Frame::Sandbox(stage), request),
        Turn::Done(r) => Turn::Done(Outcome::Reply(DriveReply::Text(r))),
    }
}

/// A turn of the walk along a chain of folders.
fn from_chain(turn: ChainTurn) -> (r: FrameTurn)
    ensures
        r@ == chain_turn(turn@),
{
    match turn {
        Turn::Ask(stage, request) => Turn::Ask(Frame::Chain(stage), request),
        Turn::Done(r) => Turn::Done(Outcome::Reply(DriveReply::Text(r))),
    }
}

/// A turn of the way down to a file.
fn from_resolve(turn: ResolveTurn) -> (r: FrameTurn)
    ensures
        r@ == resolve_turn(turn@),
{
    match turn {
        Turn::Ask(stage, request) => Turn::Ask(Frame::Resolve(stage), request),
        Turn::Done(r) => Turn::Done(Outcome::Reply(DriveReply::MaybeFile(r))),
    }
}

/// A turn of the way up from a file.
fn from_path(turn: PathTurn) -> (r: FrameTurn)
    ensures
        r@ == path_turn(turn@),
{
    match turn {
        Turn::Ask(stage, request) => Turn::Ask(Frame::Path(stage), request),
        Turn::Done(r) => Turn::Done(Outcome::Reply(DriveReply::MaybeText(r))),
    }
}

/// A turn of finding out what a change means.
fn from_translate(turn: TranslateTurn) -> (r: FrameTurn)
    ensures
        r@ == translate_turn(turn@),
{
    match turn {
        Turn::Ask(stage, request) => Turn::Ask(Frame::Translate(stage), request),
        Turn::Done(r) => Turn::Done(Outcome::Reply(DriveReply::Change(r))),
    }
}

/// A turn of a question for metadata.
fn from_metadata(turn: MetadataTurn) -> (r: FrameTurn)
    ensures
        r@ == metadata_turn(turn@),
{
    match turn {
        Turn::Ask(stage, request) => Turn::Ask(Frame::Metadata(stage), request),
        Turn::Done(r) => Turn::Done(Outcome::Reply(DriveReply::Metadata(r))),
    }
}

/// A turn of an upload.
fn from_upload(turn: UploadTurn) -> (r: FrameTurn)
    ensures
        r@ == upload_turn(turn@),
{
    match turn {
        Turn::Ask(stage, request) => Turn::Ask(Frame::Upload(stage), request),
        Turn::Done(r) => Turn::Done(Outcome::Stored(r)),
    }
}

/// A turn of a download.
fn from_download(turn: DownloadTurn) -> (r: FrameTurn)
    ensures
        r@ == download_turn(turn@),
{
    match turn {
        Turn::Ask(stage, request) => Turn::Ask(Frame::Download(stage), request),
        Turn::Done(r) => Turn::Done(Outcome::Stored(r)),
    }
}

/// A turn of a rename.
fn from_rename(turn: RenameTurn) -> (r: FrameTurn)
    ensures
        r@ == rename_turn(turn@),
{
    match turn {
        Turn::Ask(stage, request) => Turn::Ask(Frame::Rename(stage), request),
        Turn::Done(r) => Turn::Done(Outcome::Stored(r)),
    }
}

/// A turn of a move to the trash.
fn from_trash(turn: TrashTurn) -> (r: FrameTurn)
    ensures
        r@ == trash_turn(turn@),
{
    match turn {
        Turn::Ask(stage, request) => Turn::Ask(Frame::Trash(stage), request),
        Turn::Done(r) => Turn::Done(Outcome::Reply(DriveReply::Done(r))),
    }
}

/// A turn of a poll.
fn from_poll(turn: PollTurn) -> (r: FrameTurn)
    ensures
        r@ == poll_turn(turn@),
{
    match turn {
        Turn::Ask(stage, request) => Turn::Ask(Frame::Poll(stage), request),
        Turn::Done(r) => Turn::Done(Outcome::Polled(r)),
    }
}

impl GoogleDriveRemoteStore {
    /// Begins the machine that answers a request, or gives back a request that is
    /// carried out outside.
    fn begin_request(&self, request: StoreRequest) -> (r: Result<FrameTurn, StoreRequest>)
        ensures
            match begin_request(self@, request@) {
                Some(turn) => r is Ok && r->Ok_0@ == turn,
                None => r is Err && r->Err_0@ == request@,
            },
    {
        match request {
            DriveRequest::SandboxId => Ok(from_sandbox(self.ensure_sandbox_id())),
            DriveRequest::FolderChain(folders) => Ok(from_chain(self.ensure_folder_chain(folders))),
            DriveRequest::Resolve(path) => Ok(
                from_resolve(self.resolve_file_by_virtual_path(path.as_str())),
            ),
            DriveRequest::GetMetadata(path) => Ok(from_metadata(get_metadata(path.as_str()))),
            DriveRequest::PathOf(file) => Ok(from_path(virtual_path_from_file(&file))),
            DriveRequest::Translate(change) => Ok(from_translate(translate_change(change))),
            other => Err(other),
        }
    }

    /// Goes on with a machine.
    fn frame_step(&mut self, frame: Frame, reply: DriveReply, now: Timestamp) -> (r: FrameTurn)
        ensures
            (final(self)@, r@) == frame_step(old(self)@, frame@, reply@, now),
    {
        match frame {
            Frame::Sandbox(stage) => from_sandbox(self.sandbox_step(stage, reply)),
            Frame::Chain(stage) => from_chain(self.chain_step(stage, reply)),
            Frame::Resolve(stage) => from_resolve(self.resolve_step(stage, reply)),
            Frame::Path(stage) => from_path(virtual_path_step(stage, reply)),
            Frame::Translate(stage) => from_translate(translate_change_step(stage, reply, now)),
            Frame::Metadata(stage) => from_metadata(get_metadata_step(stage, reply, now)),
            Frame::Upload(stage) => from_upload(upload_or_update_step(stage, reply, now)),
            Frame::Download(stage) => from_download(download_to_local_step(stage, reply, now)),
            Frame::Rename(stage) => from_rename(rename_file_step(stage, reply, now)),
            Frame::Trash(stage) => from_trash(trash_file_step(stage, reply)),
            Frame::Poll(stage) => from_poll(poll_changes_step(stage, reply)),
        }
    }

    /// Goes on with work until something is asked outside, or it is over.
    fn settle(&mut self, stack: Vec<Frame>, turn: FrameTurn, now: Timestamp) -> (r: WorkTurn)
        ensures
            (final(self)@, r@) == settle(old(self)@, frame_views(stack@), turn@, now),
    {
        let mut work = stack;
        let mut current = turn;
        let ghost whole = settle(self@, frame_views(work@), current@, now);
        loop
            invariant
                whole == settle(old(self)@, frame_views(stack@), turn@, now),
                whole == settle(self@, frame_views(work@), current@, now),
            decreases stack_weight(frame_views(work@)) + turn_weight(current@),
        {
            let ghost before = work@;
            let ghost views = frame_views(before);
            match current {
                Turn::Ask(frame, request) => {
                    proof {
                        lemma_begin_weight(self@, request@);
                        assert(views.push(frame@).drop_last() == views);
                        assert(frame_views(before.push(frame)) == views.push(frame@));
                    }
                    work.push(frame);
                    match self.begin_request(request) {
                        Err(asked) => {
                            return Turn::Ask(work, asked);
                        },
                        Ok(inner) => {
                            current = inner;
                        },
                    }
                },
                Turn::Done(Outcome::Reply(reply)) => match work.pop() {
                    None => {
                        return Turn::Done(Outcome::Reply(reply));
                    },
                    Some(frame) => {
                        proof {
                            assert(frame_views(before.drop_last()) == views.drop_last());
                            assert(views.last() == frame@);
                            lemma_step_weight(self@, frame@, reply@, now);
                        }
                        current = self.frame_step(frame, reply, now);
                    },
                },
                Turn::Done(outcome) => {
                    return Turn::Done(outcome);
                },
            }
        }
    }

    /// Goes on with work, given the reply to what it asked.
    pub fn resume(&mut self, work: Vec<Frame>, reply: DriveReply, now: Timestamp) -> (r: WorkTurn)
        ensures
            (final(self)@, r@) == resume(old(self)@, frame_views(work@), reply@, now),
    {
        self.settle(work, Turn::Done(Outcome::Reply(reply)), now)
    }

    /// Begins work with what its outermost machine came to.
    fn begin(&mut self, turn: FrameTurn, now: Timestamp) -> (r: WorkTurn)
        ensures
            (final(self)@, r@) == begun(old(self)@, turn@, now),
    {
        let stack: Vec<Frame> = Vec::new();
        assert(frame_views(stack@) == Seq::<FrameView>::empty());
        self.settle(stack, turn, now)
    }

    /// Begins to make sure that the sandbox folder is there. The result tells its
    /// identifier.
    pub fn ensure_sandbox(&mut self, now: Timestamp) -> (r: WorkTurn)
        ensures
            (final(self)@, r@) == begun(old(self)@, sandbox_turn(begin_sandbox(old(self)@)), now),
    {
        let turn = from_sandbox(self.ensure_sandbox_id());
        self.begin(turn, now)
    }

    /// Begins to store a local file under a remote path. `kind` is what there is at
    /// the local path.
    pub fn upload_or_update(
        &mut self,
        virtual_path: &str,
        local_path: LocalPath,
        kind: PathKind,
        now: Timestamp,
    ) -> (r: WorkTurn)
        ensures
            (final(self)@, r@) == begun(
                old(self)@,
                upload_turn(begin_upload(virtual_path@, local_path@, kind)),
                now,
            ),
    {
        self.begin(from_upload(upload_or_update(virtual_path, local_path, kind)), now)
    }

    /// Begins to fetch a remote file to a local path.
    pub fn download_to_local(
        &mut self,
        virtual_path: &str,
        local_path: LocalPath,
        now: Timestamp,
    ) -> (r: WorkTurn)
        ensures
            (final(self)@, r@) == begun(
                old(self)@,
                download_turn(begin_download(virtual_path@, local_path@)),
                now,
            ),
    {
        self.begin(from_download(download_to_local(virtual_path, local_path)), now)
    }

    /// Begins to move a remote file to another path.
    pub fn rename(&mut self, from_virtual_path: &str, to_virtual_path: &str, now: Timestamp) -> (r:
        WorkTurn)
        ensures
            (final(self)@, r@) == begun(
                old(self)@,
                rename_turn(begin_rename(from_virtual_path@, to_virtual_path@)),
                now,
            ),
    {
        self.begin(from_rename(rename(from_virtual_path, to_virtual_path)), now)
    }

    /// Begins to move a remote file to the trash.
    pub fn trash(&mut self, virtual_path: &str, now: Timestamp) -> (r: WorkTurn)
        ensures
            (final(self)@, r@) == begun(
                old(self)@,
                trash_turn(begin_trash(virtual_path@)),
                now,
            ),
    {
        self.begin(from_trash(trash(virtual_path)), now)
    }

    /// Begins to ask what changed.
    pub fn poll_changes(&mut self, now: Timestamp) -> (r: WorkTurn)
        ensures
            (final(self)@, r@) == begun(old(self)@, poll_turn(begin_poll()), now),
    {
        self.begin(from_poll(poll_changes()), now)
    }

    /// Begins to ask what is known of a remote file.
    pub fn get_metadata(&mut self, virtual_path: &str, now: Timestamp) -> (r: WorkTurn)
        ensures
            (final(self)@, r@) == begun(
                old(self)@,
                metadata_turn(begin_metadata(virtual_path@)),
                now,
            ),
    {
        self.begin(from_metadata(get_metadata(virtual_path)), now)
    }
}

/// What is asked by work is carried out outside: no machine waits for another one.
pub proof fn law_only_outside_requests_are_asked(
    s: DriveStoreView,
    stack: Seq<FrameView>,
    turn: FrameTurnView,
    now: Timestamp,
)
    ensures
        settle(s, stack, turn, now).1 matches Turn::Ask(_, request) ==> begin_request(
            s,
            request,
        ) is None,
    decreases stack_weight(stack) + turn_weight(turn),
{
    match turn {
        Turn::Ask(frame, request) => {
            if let Some(inner) = begin_request(s, request) {
                lemma_begin_weight(s, request);
                assert(stack.push(frame).drop_last() == stack);
                law_only_outside_requests_are_asked(s, stack.push(frame), inner, now);
            }
        },
        Turn::Done(OutcomeView::Reply(reply)) => {
            if stack.len() > 0 {
                let (after, next) = frame_step(s, stack.last(), reply, now);
                lemma_step_weight(s, stack.last(), reply, now);
                law_only_outside_requests_are_asked(after, stack.drop_last(), next, now);
                match settle(s, stack, turn, now).1 {
                    Turn::Ask(_, request) => {
                        lemma_begin_weight(s, request);
                        lemma_begin_weight(after, request);
                    },
                    _ => {},
                }
            }
        },
        _ => {},
    }
}

/// A machine inside others works as it would on its own: it asks the same, and what
/// it comes to is the reply that the machine around it waits for.
pub proof fn law_inner_work_answers_the_machine_around_it(
    s: DriveStoreView,
    outer: Seq<FrameView>,
    stack: Seq<FrameView>,
    turn: FrameTurnView,
    now: Timestamp,
)
    ensures
        settle(s, outer + stack, turn, now) == match settle(s, stack, turn, now) {
            (after, Turn::Ask(work, request)) => (after, Turn::Ask(outer + work, request)),
            (after, Turn::Done(OutcomeView::Reply(reply))) => resume(after, outer, reply, now),
            (after, Turn::Done(outcome)) => (after, Turn::Done(outcome)),
        },
    decreases stack_weight(stack) + turn_weight(turn),
{
    match turn {
        Turn::Ask(frame, request) => {
            assert((outer + stack).push(frame) == outer + stack.push(frame));
            if let Some(inner) = begin_request(s, request) {
                lemma_begin_weight(s, request);
                assert(stack.push(frame).drop_last() == stack);
                law_inner_work_answers_the_machine_around_it(
                    s,
                    outer,
                    stack.push(frame),
                    inner,
                    now,
                );
            }
        },
        Turn::Done(OutcomeView::Reply(reply)) => {
            if stack.len() > 0 {
                let (after, next) = frame_step(s, stack.last(), reply, now);
                lemma_step_weight(s, stack.last(), reply, now);
                assert((outer + stack).last() == stack.last());
                assert((outer + stack).drop_last() == outer + stack.drop_last());
                law_inner_work_answers_the_machine_around_it(
                    after,
                    outer,
                    stack.drop_last(),
                    next,
                    now,
                );
            } else {
                assert(outer + stack == outer);
            }
        },
        _ => {},
    }
}

} // verus!
