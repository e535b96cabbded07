//! Changes in Drive: where a changed file lies, what a change means, and the
//! pages that changes come in.
use vstd::prelude::*;

use crate::events::{change_views, RemoteChange, RemoteChangeView};
use crate::failure::Failure;
use crate::remote::google_drive::protocol::{
    ChangePage, ChangePageView, DriveReply, DriveReplyView, DriveRequest, StoreRequest,
    StoreRequestView, Turn, UNEXPECTED_DRIVE_REPLY,
};
use crate::remote::google_drive::{
    drive_meta, is_gone, status_code, to_remote_file_meta, DriveChange, DriveChangeView, DriveFile,
    DriveFileView, Timestamp,
};
use crate::text::{
    char_lists, clone_text, from_chars, join, joined, same_text, text_view, texts, to_chars,
};
use crate::virtual_path::{normalize, normalized};

verus! {

/// What the way up from a file to the sandbox waits for. The names are those
/// of the file and of the folders above it, from the file upwards.
#[derive(Debug, PartialEq, Eq)]
pub enum PathStage<T, L> {
    /// The identifier of the sandbox folder.
    Sandbox { names: L, parent: Option<T> },
    /// What Drive knows of the last folder that was visited.
    Parent { sandbox_id: T, names: L, visited: L },
}

impl View for PathStage<String, Vec<String>> {
    type V = PathStage<Seq<char>, Seq<Seq<char>>>;

    open spec fn view(&self) -> PathStage<Seq<char>, Seq<Seq<char>>> {
        match self {
            PathStage::Sandbox { names, parent } => PathStage::Sandbox {
                names: texts(names@),
                parent: text_view(*parent),
            },
            PathStage::Parent { sandbox_id, names, visited } => PathStage::Parent {
                sandbox_id: sandbox_id@,
                names: texts(names@),
                visited: texts(visited@),
            },
        }
    }
}

/// What the way up from a file comes to.
pub type PathTurn = Turn<
    PathStage<String, Vec<String>>,
    StoreRequest,
    Result<Option<String>, Failure>,
>;

/// The view of a [`PathTurn`].
pub type PathTurnView = Turn<
    PathStage<Seq<char>, Seq<Seq<char>>>,
    StoreRequestView,
    Result<Option<Seq<char>>, Seq<char>>,
>;

impl View for PathTurn {
    type V = PathTurnView;

    open spec fn view(&self) -> PathTurnView {
        match self {
            Turn::Ask(stage, request) => Turn::Ask(stage@, request@),
            Turn::Done(Ok(path)) => Turn::Done(Ok(text_view(*path))),
            Turn::Done(Err(why)) => Turn::Done(Err(why@)),
        }
    }
}

/// The remote path that names from a file upwards make, if any.
pub open spec fn path_of_names(names: Seq<Seq<char>>) -> Option<Seq<char>> {
    let path = normalized(joined(names.reverse(), '/'));
    if path.len() == 0 {
        None
    } else {
        Some(path)
    }
}

/// The way up goes on at a folder. It ends at the sandbox; outside of it, or
/// where it comes to a folder for the second time, there is no path.
pub open spec fn climb(
    sandbox_id: Seq<char>,
    names: Seq<Seq<char>>,
    visited: Seq<Seq<char>>,
    parent: Option<Seq<char>>,
) -> PathTurnView {
    match parent {
        None => Turn::Done(Ok(None)),
        Some(id) => if id == sandbox_id {
            Turn::Done(Ok(path_of_names(names)))
        } else if visited.contains(id) {
            Turn::Done(Ok(None))
        } else {
            Turn::Ask(
                PathStage::Parent { sandbox_id, names, visited: visited.push(id) },
                DriveRequest::Fetch(id),
            )
        },
    }
}

/// How the way up from a file begins.
pub open spec fn begin_path(file: DriveFileView) -> PathTurnView {
    match file.name {
        None => Turn::Done(Ok(None)),
        Some(name) => if name.len() == 0 {
            Turn::Done(Ok(None))
        } else {
            Turn::Ask(
                PathStage::Sandbox { names: seq![name], parent: file.parent() },
                DriveRequest::SandboxId,
            )
        },
    }
}

/// How the way up from a file goes on. A folder that is gone, in the trash or
/// without a name leads nowhere.
pub open spec fn path_step(
    stage: PathStage<Seq<char>, Seq<Seq<char>>>,
    reply: DriveReplyView,
) -> PathTurnView {
    match (stage, reply) {
        (PathStage::Sandbox { names, parent }, DriveReplyView::Text(Ok(id))) => climb(
            id,
            names,
            Seq::empty(),
            parent,
        ),
        (
            PathStage::Parent { sandbox_id, names, visited },
            DriveReplyView::MaybeFile(Ok(found)),
        ) => match found {
            None => Turn::Done(Ok(None)),
            Some(folder) => if folder.is_trashed() || folder.name is None {
                Turn::Done(Ok(None))
            } else {
                climb(sandbox_id, names.push(folder.name->0), visited, folder.parent())
            },
        },
        (PathStage::Sandbox { .. }, DriveReplyView::Text(Err(why))) => Turn::Done(Err(why)),
        (PathStage::Parent { .. }, DriveReplyView::MaybeFile(Err(why))) => Turn::Done(Err(why)),
        _ => Turn::Done(Err(UNEXPECTED_DRIVE_REPLY@)),
    }
}

/// Whether a list holds a text.
fn holds(list: &Vec<String>, text: &String) -> (r: bool)
    ensures
        r == texts(list@).contains(text@),
{
    let mut i: usize = 0;
    while i < list.len()
        invariant
            i <= list.len(),
            forall|j: int| 0 <= j < i ==> (#[trigger] texts(list@)[j]) != text@,
        decreases list.len() - i,
    {
        assert(texts(list@)[i as int] == list@[i as int]@);
        if list[i] == *text {
            return true;
        }
        i += 1;
    }
    false
}

/// The names from a file upwards as a remote path, if they make one.
fn join_upwards(names: &Vec<String>) -> (r: Option<String>)
    ensures
        text_view(r) == path_of_names(texts(names@)),
{
    let mut parts: Vec<Vec<char>> = Vec::new();
    let mut i: usize = names.len();
    let ghost all = texts(names@);
    assert(char_lists(parts@) == all.skip(all.len() as int).reverse());
    while i > 0
        invariant
            i <= names.len(),
            all == texts(names@),
            char_lists(parts@) == all.skip(i as int).reverse(),
        decreases i,
    {
        i -= 1;
        let ghost before = parts@;
        parts.push(to_chars(names[i].as_str()));
        assert(char_lists(parts@) == char_lists(before).push(all[i as int]));
        assert(all.skip(i as int).reverse() == all.skip(i + 1).reverse().push(all[i as int]));
    }
    assert(all.skip(0) == all);
    let whole = from_chars(join(&parts, '/').as_slice());
    let path = normalize(whole.as_str());
    if path.as_str().is_empty() {
        None
    } else {
        Some(path)
    }
}

/// Goes on with the way up at a folder.
fn climb_to(sandbox_id: String, names: Vec<String>, visited: Vec<String>, parent: Option<String>) -> (r:
    PathTurn)
    ensures
        r@ == climb(sandbox_id@, texts(names@), texts(visited@), text_view(parent)),
{
    match parent {
        None => Turn::Done(Ok(None)),
        Some(id) => {
            if id == sandbox_id {
                return Turn::Done(Ok(join_upwards(&names)));
            }
            if holds(&visited, &id) {
                return Turn::Done(Ok(None));
            }
            let ghost before = visited@;
            let mut seen = visited;
            seen.push(id.clone());
            assert(texts(seen@) == texts(before).push(id@));
            Turn::Ask(
                PathStage::Parent { sandbox_id, names, visited: seen },
                DriveRequest::Fetch(id),
            )
        },
    }
}

/// Begins the way up from a file to the sandbox, which tells its remote path.
pub fn virtual_path_from_file(file: &DriveFile) -> (r: PathTurn)
    ensures
        r@ == begin_path(file@),
{
    match &file.name {
        None => Turn::Done(Ok(None)),
        Some(name) => {
            if name.as_str().is_empty() {
                return Turn::Done(Ok(None));
            }
            let mut names: Vec<String> = Vec::new();
            names.push(name.clone());
            assert(texts(names@) == seq![name@]);
            Turn::Ask(
                PathStage::Sandbox { names, parent: file.parent() },
                DriveRequest::SandboxId,
            )
        },
    }
}

/// Goes on with the way up from a file to the sandbox.
pub fn virtual_path_step(stage: PathStage<String, Vec<String>>, reply: DriveReply) -> (r: PathTurn)
    ensures
        r@ == path_step(stage@, reply@),
{
    match (stage, reply) {
        (PathStage::Sandbox { names, parent }, DriveReply::Text(Ok(id))) => {
            let visited: Vec<String> = Vec::new();
            assert(texts(visited@) == Seq::<Seq<char>>::empty());
            climb_to(id, names, visited, parent)
        },
        (
            PathStage::Parent { sandbox_id, names, visited },
            DriveReply::MaybeFile(Ok(found)),
        ) => match found {
            None => Turn::Done(Ok(None)),
            Some(folder) => {
                if folder.is_trashed() {
                    return Turn::Done(Ok(None));
                }
                let parent = folder.parent();
                match folder.name {
                    None => Turn::Done(Ok(None)),
                    Some(name) => {
                        let ghost before = names@;
                        let mut upwards = names;
                        upwards.push(name);
                        assert(texts(upwards@) == texts(before).push(name@));
                        climb_to(sandbox_id, upwards, visited, parent)
                    },
                }
            },
        },
        (PathStage::Sandbox { .. }, DriveReply::Text(Err(why))) => Turn::Done(Err(why)),
        (PathStage::Parent { .. }, DriveReply::MaybeFile(Err(why))) => Turn::Done(Err(why)),
        _ => Turn::Done(Err(Failure::new(UNEXPECTED_DRIVE_REPLY))),
    }
}

/// What finding out what a change means waits for.
#[derive(Debug, PartialEq, Eq)]
pub enum TranslateStage<T, F> {
    /// The remote path of the file that the change holds.
    Mapped { file: F, file_id: Option<T>, gone: bool },
    /// What Drive knows of the file.
    Fetched { file_id: T },
    /// The remote path of the file that was fetched.
    FetchedPath { file: F, file_id: T },
    /// The remote path that is recorded for the file.
    Recorded,
}

impl View for TranslateStage<String, DriveFile> {
    type V = TranslateStage<Seq<char>, DriveFileView>;

    open spec fn view(&self) -> TranslateStage<Seq<char>, DriveFileView> {
        match self {
            TranslateStage::Mapped { file, file_id, gone } => TranslateStage::Mapped {
                file: file@,
                file_id: text_view(*file_id),
                gone: *gone,
            },
            TranslateStage::Fetched { file_id } => TranslateStage::Fetched { file_id: file_id@ },
            TranslateStage::FetchedPath { file, file_id } => TranslateStage::FetchedPath {
                file: file@,
                file_id: file_id@,
            },
            TranslateStage::Recorded => TranslateStage::Recorded,
        }
    }
}

/// What finding out what a change means comes to.
pub type TranslateTurn = Turn<
    TranslateStage<String, DriveFile>,
    StoreRequest,
    Result<Option<RemoteChange>, Failure>,
>;

/// The view of a [`TranslateTurn`].
pub type TranslateTurnView = Turn<
    TranslateStage<Seq<char>, DriveFileView>,
    StoreRequestView,
    Result<Option<RemoteChangeView>, Seq<char>>,
>;

impl View for TranslateTurn {
    type V = TranslateTurnView;

    open spec fn view(&self) -> TranslateTurnView {
        match self {
            Turn::Ask(stage, request) => Turn::Ask(stage@, request@),
            Turn::Done(Ok(Some(change))) => Turn::Done(Ok(Some(change@))),
            Turn::Done(Ok(None)) => Turn::Done(Ok(None)),
            Turn::Done(Err(why)) => Turn::Done(Err(why@)),
        }
    }
}

/// A file that was changed.
pub open spec fn upserted(file: DriveFileView, path: Seq<char>, now: Timestamp) -> TranslateTurnView {
    match drive_meta(file, path, now) {
        Ok(meta) => Turn::Done(Ok(Some(RemoteChangeView::Upsert(meta)))),
        Err(why) => Turn::Done(Err(why)),
    }
}

/// A file that is gone: what is recorded of it tells where it was.
pub open spec fn deleted_by_record(file_id: Option<Seq<char>>) -> TranslateTurnView {
    match file_id {
        None => Turn::Done(Ok(None)),
        Some(id) => Turn::Ask(TranslateStage::Recorded, DriveRequest::LookUpPath(id)),
    }
}

/// A file that is not gone, and of which the change does not tell enough.
pub open spec fn fetch_changed(file_id: Option<Seq<char>>) -> TranslateTurnView {
    match file_id {
        None => Turn::Done(Ok(None)),
        Some(id) => Turn::Ask(TranslateStage::Fetched { file_id: id }, DriveRequest::Fetch(id)),
    }
}

/// The file that a change is of.
pub open spec fn changed_id(change: DriveChangeView) -> Option<Seq<char>> {
    match (change.file_id, change.file) {
        (Some(id), _) => Some(id),
        (None, Some(file)) => file.id,
        (None, None) => None,
    }
}

/// How finding out what a change means begins. Changes of drives and of folders
/// mean nothing.
pub open spec fn begin_translate(change: DriveChangeView) -> TranslateTurnView {
    let removed = change.removed == Some(true);
    let file_id = changed_id(change);
    if change.change_type == Some("drive"@) {
        Turn::Done(Ok(None))
    } else {
        match change.file {
            None => if removed {
                deleted_by_record(file_id)
            } else {
                fetch_changed(file_id)
            },
            Some(file) => if file.is_folder() {
                Turn::Done(Ok(None))
            } else {
                Turn::Ask(
                    TranslateStage::Mapped { file, file_id, gone: removed || file.is_trashed() },
                    DriveRequest::PathOf(file),
                )
            },
        }
    }
}

/// How finding out what a change means goes on. A file that is gone, in the
/// trash or out of the sandbox is deleted where it was.
pub open spec fn translate_step(
    stage: TranslateStage<Seq<char>, DriveFileView>,
    reply: DriveReplyView,
    now: Timestamp,
) -> TranslateTurnView {
    match (stage, reply) {
        (TranslateStage::Mapped { file, file_id, gone }, DriveReplyView::MaybeText(Ok(mapped))) =>
            match mapped {
            Some(path) => if gone {
                Turn::Done(Ok(Some(RemoteChangeView::Delete(path))))
            } else {
                upserted(file, path, now)
            },
            None => if gone {
                deleted_by_record(file_id)
            } else {
                fetch_changed(file_id)
            },
        },
        (TranslateStage::Fetched { file_id }, DriveReplyView::MaybeFile(Ok(fetched))) =>
            match fetched {
            None => deleted_by_record(Some(file_id)),
            Some(file) => if file.is_folder() {
                Turn::Done(Ok(None))
            } else if file.is_trashed() {
                deleted_by_record(Some(file_id))
            } else {
                Turn::Ask(
                    TranslateStage::FetchedPath { file, file_id },
                    DriveRequest::PathOf(file),
                )
            },
        },
        (
            TranslateStage::FetchedPath { file, file_id },
            DriveReplyView::MaybeText(Ok(mapped)),
        ) => match mapped {
            Some(path) => upserted(file, path, now),
            None => deleted_by_record(Some(file_id)),
        },
        (TranslateStage::Recorded, DriveReplyView::MaybeText(Ok(recorded))) => match recorded {
            Some(path) => Turn::Done(Ok(Some(RemoteChangeView::Delete(path)))),
            None => Turn::Done(Ok(None)),
        },
        (TranslateStage::Mapped { .. }, DriveReplyView::MaybeText(Err(why))) => Turn::Done(Err(why)),
        (TranslateStage::Fetched { .. }, DriveReplyView::MaybeFile(Err(why))) => Turn::Done(
            Err(why),
        ),
        (TranslateStage::FetchedPath { .. }, DriveReplyView::MaybeText(Err(why))) => Turn::Done(
            Err(why),
        ),
        (TranslateStage::Recorded, DriveReplyView::MaybeText(Err(why))) => Turn::Done(Err(why)),
        _ => Turn::Done(Err(UNEXPECTED_DRIVE_REPLY@)),
    }
}

/// The change that a changed file means.
fn to_upsert(file: &DriveFile, path: String, now: Timestamp) -> (r: TranslateTurn)
    ensures
        r@ == upserted(file@, path@, now),
{
    match to_remote_file_meta(file, path, now) {
        Ok(meta) => Turn::Done(Ok(Some(RemoteChange::Upsert(meta)))),
        Err(why) => Turn::Done(Err(why)),
    }
}

/// Asks where a file that is gone was.
fn to_recorded_delete(file_id: Option<String>) -> (r: TranslateTurn)
    ensures
        r@ == deleted_by_record(text_view(file_id)),
{
    match file_id {
        None => Turn::Done(Ok(None)),
        Some(id) => Turn::Ask(TranslateStage::Recorded, DriveRequest::LookUpPath(id)),
    }
}

/// Asks what Drive knows of a changed file.
fn to_fetch(file_id: Option<String>) -> (r: TranslateTurn)
    ensures
        r@ == fetch_changed(text_view(file_id)),
{
    match file_id {
        None => Turn::Done(Ok(None)),
        Some(id) => {
            let asked = id.clone();
            Turn::Ask(TranslateStage::Fetched { file_id: id }, DriveRequest::Fetch(asked))
        },
    }
}

/// Begins to find out what a change means.
pub fn translate_change(change: DriveChange) -> (r: TranslateTurn)
    ensures
        r@ == begin_translate(change@),
{
    match &change.change_type {
        Some(kind) => {
            if same_text(kind.as_str(), "drive") {
                return Turn::Done(Ok(None));
            }
        },
        None => {},
    }
    let removed: bool = match change.removed {
        Some(removed) => removed,
        None => false,
    };
    let file_id = match &change.file_id {
        Some(id) => Some(id.clone()),
        None => match &change.file {
            Some(file) => clone_text(&file.id),
            None => None,
        },
    };
    match change.file {
        None => {
            if removed {
                to_recorded_delete(file_id)
            } else {
                to_fetch(file_id)
            }
        },
        Some(file) => {
            if file.is_folder() {
                return Turn::Done(Ok(None));
            }
            let gone: bool = removed || file.is_trashed();
            let asked = file.clone();
            Turn::Ask(TranslateStage::Mapped { file, file_id, gone }, DriveRequest::PathOf(asked))
        },
    }
}

/// Goes on with finding out what a change means.
pub fn translate_change_step(
    stage: TranslateStage<String, DriveFile>,
    reply: DriveReply,
    now: Timestamp,
) -> (r: TranslateTurn)
    ensures
        r@ == translate_step(stage@, reply@, now),
{
    match (stage, reply) {
        (TranslateStage::Mapped { file, file_id, gone }, DriveReply::MaybeText(Ok(mapped))) => {
            match mapped {
                Some(path) => {
                    if gone {
                        Turn::Done(Ok(Some(RemoteChange::Delete { virtual_path: path })))
                    } else {
                        to_upsert(&file, path, now)
                    }
                },
                None => {
                    if gone {
                        to_recorded_delete(file_id)
                    } else {
                        to_fetch(file_id)
                    }
                },
            }
        },
        (TranslateStage::Fetched { file_id }, DriveReply::MaybeFile(Ok(fetched))) => match fetched {
            None => to_recorded_delete(Some(file_id)),
            Some(file) => {
                if file.is_folder() {
                    return Turn::Done(Ok(None));
                }
                if file.is_trashed() {
                    return to_recorded_delete(Some(file_id));
                }
                let asked = file.clone();
                Turn::Ask(
                    TranslateStage::FetchedPath { file, file_id },
                    DriveRequest::PathOf(asked),
                )
            },
        },
        (TranslateStage::FetchedPath { file, file_id }, DriveReply::MaybeText(Ok(mapped))) => {
            match mapped {
                Some(path) => to_upsert(&file, path, now),
                None => to_recorded_delete(Some(file_id)),
            }
        },
        (TranslateStage::Recorded, DriveReply::MaybeText(Ok(recorded))) => match recorded {
            Some(path) => Turn::Done(Ok(Some(RemoteChange::Delete { virtual_path: path }))),
            None => Turn::Done(Ok(None)),
        },
        (TranslateStage::Mapped { .. }, DriveReply::MaybeText(Err(why))) => Turn::Done(Err(why)),
        (TranslateStage::Fetched { .. }, DriveReply::MaybeFile(Err(why))) => Turn::Done(Err(why)),
        (TranslateStage::FetchedPath { .. }, DriveReply::MaybeText(Err(why))) => Turn::Done(
            Err(why),
        ),
        (TranslateStage::Recorded, DriveReply::MaybeText(Err(why))) => Turn::Done(Err(why)),
        _ => Turn::Done(Err(Failure::new(UNEXPECTED_DRIVE_REPLY))),
    }
}

/// What a poll waits for.
#[derive(Debug, PartialEq, Eq)]
pub enum PollStage<T, E, G, N> {
    /// The page token that is kept.
    Load,
    /// A first page token, or a new one for one that is no longer known.
    Start,
    /// The keeping of that page token.
    Reset,
    /// The page of changes at the token, after the given events.
    List { token: T, events: E },
    /// What the change with the given index on a page means.
    Translate { token: T, events: E, page: G, next: N },
    /// The keeping of the page token for the next poll.
    Save { events: E },
}

impl View for PollStage<String, Vec<RemoteChange>, ChangePage, usize> {
    type V = PollStage<Seq<char>, Seq<RemoteChangeView>, ChangePageView, int>;

    open spec fn view(&self) -> PollStage<Seq<char>, Seq<RemoteChangeView>, ChangePageView, int> {
        match self {
            PollStage::Load => PollStage::Load,
            PollStage::Start => PollStage::Start,
            PollStage::Reset => PollStage::Reset,
            PollStage::List { token, events } => PollStage::List {
                token: token@,
                events: change_views(events@),
            },
            PollStage::Translate { token, events, page, next } => PollStage::Translate {
                token: token@,
                events: change_views(events@),
                page: page@,
                next: *next as int,
            },
            PollStage::Save { events } => PollStage::Save { events: change_views(events@) },
        }
    }
}

/// What a poll comes to.
pub type PollTurn = Turn<
    PollStage<String, Vec<RemoteChange>, ChangePage, usize>,
    StoreRequest,
    Result<Vec<RemoteChange>, Failure>,
>;

/// The view of a [`PollTurn`].
pub type PollTurnView = Turn<
    PollStage<Seq<char>, Seq<RemoteChangeView>, ChangePageView, int>,
    StoreRequestView,
    Result<Seq<RemoteChangeView>, Seq<char>>,
>;

impl View for PollTurn {
    type V = PollTurnView;

    open spec fn view(&self) -> PollTurnView {
        match self {
            Turn::Ask(stage, request) => Turn::Ask(stage@, request@),
            Turn::Done(Ok(events)) => Turn::Done(Ok(change_views(events@))),
            Turn::Done(Err(why)) => Turn::Done(Err(why@)),
        }
    }
}

/// How a poll begins.
pub open spec fn begin_poll() -> PollTurnView {
    Turn::Ask(PollStage::Load, DriveRequest::LoadToken)
}

/// A poll asks for the page at a token.
pub open spec fn list_page(token: Seq<char>, events: Seq<RemoteChangeView>) -> PollTurnView {
    Turn::Ask(PollStage::List { token, events }, DriveRequest::ListChanges(token))
}

/// A poll goes on with the change with the given index on a page; after the
/// last, with the next page; after the last page, it keeps the token for the
/// next poll.
pub open spec fn poll_from(
    token: Seq<char>,
    events: Seq<RemoteChangeView>,
    page: ChangePageView,
    next: int,
) -> PollTurnView {
    if next < page.changes.len() {
        Turn::Ask(
            PollStage::Translate { token, events, page, next },
            DriveRequest::Translate(page.changes[next]),
        )
    } else {
        match page.next_page_token {
            Some(following) => list_page(following, events),
            None => Turn::Ask(
                PollStage::Save { events },
                DriveRequest::SaveToken(
                    match page.new_start_page_token {
                        Some(fresh) => fresh,
                        None => token,
                    },
                ),
            ),
        }
    }
}

/// How a poll goes on. The first poll, and one whose token is no longer known,
/// only take a new token.
pub open spec fn poll_step(
    stage: PollStage<Seq<char>, Seq<RemoteChangeView>, ChangePageView, int>,
    reply: DriveReplyView,
) -> PollTurnView {
    match (stage, reply) {
        (PollStage::Load, DriveReplyView::MaybeText(Ok(kept))) => match kept {
            Some(token) => list_page(token, Seq::empty()),
            None => Turn::Ask(PollStage::Start, DriveRequest::StartToken),
        },
        (PollStage::Start, DriveReplyView::Text(Ok(token))) => Turn::Ask(
            PollStage::Reset,
            DriveRequest::SaveToken(token),
        ),
        (PollStage::Reset, DriveReplyView::Done(Ok(_))) => Turn::Done(Ok(Seq::empty())),
        (PollStage::List { token, events }, DriveReplyView::Changes(Ok(page))) => poll_from(
            token,
            events,
            page,
            0,
        ),
        (PollStage::List { .. }, DriveReplyView::Changes(Err((kind, why)))) => if status_code(kind)
            == Some(410u16) {
            Turn::Ask(PollStage::Start, DriveRequest::StartToken)
        } else {
            Turn::Done(Err("Drive changes.list failed"@ + ": "@ + why))
        },
        (
            PollStage::Translate { token, events, page, next },
            DriveReplyView::Change(Ok(meant)),
        ) => if !(0 <= next < page.changes.len()) {
            Turn::Done(Err(UNEXPECTED_DRIVE_REPLY@))
        } else {
            let after = match meant {
                Some(event) => events.push(event),
                None => events,
            };
            poll_from(token, after, page, next + 1)
        },
        (PollStage::Save { events }, DriveReplyView::Done(Ok(_))) => Turn::Done(Ok(events)),
        (PollStage::Load, DriveReplyView::MaybeText(Err(why))) => Turn::Done(Err(why)),
        (PollStage::Start, DriveReplyView::Text(Err(why))) => Turn::Done(Err(why)),
        (PollStage::Reset, DriveReplyView::Done(Err(why))) => Turn::Done(Err(why)),
        (PollStage::Translate { .. }, DriveReplyView::Change(Err(why))) => Turn::Done(Err(why)),
        (PollStage::Save { .. }, DriveReplyView::Done(Err(why))) => Turn::Done(Err(why)),
        _ => Turn::Done(Err(UNEXPECTED_DRIVE_REPLY@)),
    }
}

/// Begins a poll.
pub fn poll_changes() -> (r: PollTurn)
    ensures
        r@ == begin_poll(),
{
    Turn::Ask(PollStage::Load, DriveRequest::LoadToken)
}

/// Asks for the page at a token.
fn ask_page(token: String, events: Vec<RemoteChange>) -> (r: PollTurn)
    ensures
        r@ == list_page(token@, change_views(events@)),
{
    let asked = token.clone();
    Turn::Ask(PollStage::List { token, events }, DriveRequest::ListChanges(asked))
}

/// Goes on with the change with the given index on a page.
fn poll_next(token: String, events: Vec<RemoteChange>, page: ChangePage, next: usize) -> (r:
    PollTurn)
    ensures
        r@ == poll_from(token@, change_views(events@), page@, next as int),
{
    if next < page.changes.len() {
        let asked = page.changes[next].clone();
        assert(asked@ == page@.changes[next as int]);
        return Turn::Ask(
            PollStage::Translate { token, events, page, next },
            DriveRequest::Translate(asked),
        );
    }
    match page.next_page_token {
        Some(following) => ask_page(following, events),
        None => {
            let kept = match page.new_start_page_token {
                Some(fresh) => fresh,
                None => token,
            };
            Turn::Ask(PollStage::Save { events }, DriveRequest::SaveToken(kept))
        },
    }
}

/// Goes on with a poll.
pub fn poll_changes_step(
    stage: PollStage<String, Vec<RemoteChange>, ChangePage, usize>,
    reply: DriveReply,
) -> (r: PollTurn)
    ensures
        r@ == poll_step(stage@, reply@),
{
    match (stage, reply) {
        (PollStage::Load, DriveReply::MaybeText(Ok(kept))) => match kept {
            Some(token) => {
                let events: Vec<RemoteChange> = Vec::new();
                assert(change_views(events@) == Seq::<RemoteChangeView>::empty());
                ask_page(token, events)
            },
            None => Turn::Ask(PollStage::Start, DriveRequest::StartToken),
        },
        (PollStage::Start, DriveReply::Text(Ok(token))) => Turn::Ask(
            PollStage::Reset,
            DriveRequest::SaveToken(token),
        ),
        (PollStage::Reset, DriveReply::Done(Ok(_))) => {
            let events: Vec<RemoteChange> = Vec::new();
            assert(change_views(events@) == Seq::<RemoteChangeView>::empty());
            Turn::Done(Ok(events))
        },
        (PollStage::List { token, events }, DriveReply::Changes(Ok(page))) => poll_next(
            token,
            events,
            page,
            0,
        ),
        (PollStage::List { .. }, DriveReply::Changes(Err((kind, why)))) => {
            if is_gone(kind) {
                Turn::Ask(PollStage::Start, DriveRequest::StartToken)
            } else {
                Turn::Done(Err(why.context("Drive changes.list failed")))
            }
        },
        (
            PollStage::Translate { token, events, page, next },
            DriveReply::Change(Ok(meant)),
        ) => {
            let count: usize = page.changes.len();
            if next >= count {
                return Turn::Done(Err(Failure::new(UNEXPECTED_DRIVE_REPLY)));
            }
            let ghost before = events@;
            let mut after = events;
            match meant {
                Some(event) => {
                    after.push(event);
                    assert(change_views(after@) == change_views(before).push(event@));
                },
                None => {},
            }
            poll_next(token, after, page, next + 1)
        },
        (PollStage::Save { events }, DriveReply::Done(Ok(_))) => Turn::Done(Ok(events)),
        (PollStage::Load, DriveReply::MaybeText(Err(why))) => Turn::Done(Err(why)),
        (PollStage::Start, DriveReply::Text(Err(why))) => Turn::Done(Err(why)),
        (PollStage::Reset, DriveReply::Done(Err(why))) => Turn::Done(Err(why)),
        (PollStage::Translate { .. }, DriveReply::Change(Err(why))) => Turn::Done(Err(why)),
        (PollStage::Save { .. }, DriveReply::Done(Err(why))) => Turn::Done(Err(why)),
        _ => Turn::Done(Err(Failure::new(UNEXPECTED_DRIVE_REPLY))),
    }
}

} // verus!
