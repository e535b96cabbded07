//! What an upload comes to as a whole, from the remote path to the one file in Drive
//! that has it.
use vstd::prelude::*;

use crate::config::PathKind;
use crate::remote::google_drive::folders::{
    begin_chain, begin_resolve, begin_sandbox, chain_from, chain_step, known_folder, learned,
    resolve_from, resolve_step, running_path, sandbox_step, ChainStage, DriveStoreView,
    ResolveStage,
};
use crate::remote::google_drive::laws::{
    law_known_chains_need_no_question, law_learned_folders_are_known,
};
use crate::remote::google_drive::protocol::{
    DriveReplyView, DriveRequest, StoreRequestView, Turn,
};
use crate::remote::google_drive::transfers::{
    begin_metadata, begin_upload, metadata_step, upload_step, MetadataStage, UploadStage,
};
use crate::remote::google_drive::work::{
    begun, chain_turn, metadata_turn, resolve_turn, resume, sandbox_turn, settle, upload_turn, FrameView,
    OutcomeView, WorkTurnView,
};
use crate::remote::google_drive::{
    drive_meta, path_segments, ChildKind, DriveFileView, Timestamp,
};
use crate::virtual_path::normalized;

verus! {

/// Where a file or folder of Drive lies.
pub struct Place {
    pub parent_id: Seq<char>,
    pub name: Seq<char>,
    pub is_folder: bool,
}

/// What lies in Drive outside of the trash, by identifiers.
pub type DriveFiles = Map<Seq<char>, Place>;

/// Whether the item with an identifier is a child of a folder, of the given name and
/// kind.
pub open spec fn is_child(
    files: DriveFiles,
    id: Seq<char>,
    parent_id: Seq<char>,
    name: Seq<char>,
    kind: ChildKind,
) -> bool {
    &&& files.contains_key(id)
    &&& files[id] == (Place { parent_id, name, is_folder: kind == ChildKind::Folder })
}

/// Whether a folder has no child of the given name and kind.
pub open spec fn no_child(
    files: DriveFiles,
    parent_id: Seq<char>,
    name: Seq<char>,
    kind: ChildKind,
) -> bool {
    forall|id: Seq<char>| !(#[trigger] is_child(files, id, parent_id, name, kind))
}

/// Whether a reply is true of what lies in Drive, and what lies there after it is what
/// the request leaves. Drive tells the identifiers of its items, and gives new ones to
/// new items. Nothing is said of a request that fails where it may have changed
/// something, nor of requests that an upload does not make.
pub open spec fn drive_answers(
    before: DriveFiles,
    request: StoreRequestView,
    reply: DriveReplyView,
    after: DriveFiles,
) -> bool {
    match request {
        DriveRequest::FindChild { parent_id, name, kind } => after == before && match reply {
            DriveReplyView::MaybeFile(Ok(Some(file))) => file.id is Some && is_child(
                before,
                file.id->0,
                parent_id,
                name,
                kind,
            ),
            DriveReplyView::MaybeFile(Ok(None)) => no_child(before, parent_id, name, kind),
            DriveReplyView::MaybeFile(Err(_)) => true,
            _ => false,
        },
        DriveRequest::CreateFolder { parent_id, name } => match reply {
            DriveReplyView::File(Ok(folder)) => {
                &&& folder.id is Some
                &&& !before.contains_key(folder.id->0)
                &&& after == before.insert(
                    folder.id->0,
                    Place { parent_id, name, is_folder: true },
                )
            },
            DriveReplyView::File(Err(_)) => true,
            _ => false,
        },
        DriveRequest::CreateContent { parent_id, name, .. } => match reply {
            DriveReplyView::Uploaded(Ok(file)) => {
                &&& file.id is Some
                &&& !before.contains_key(file.id->0)
                &&& after == before.insert(
                    file.id->0,
                    Place { parent_id, name, is_folder: false },
                )
            },
            DriveReplyView::Uploaded(Err(_)) => true,
            _ => false,
        },
        DriveRequest::UpdateContent { file_id, .. } => after == before && match reply {
            DriveReplyView::Uploaded(Ok(file)) => file.id == Some(file_id),
            DriveReplyView::Uploaded(Err(_)) => true,
            _ => false,
        },
        _ => true,
    }
}

/// The store and what its work comes to.
pub type StoreTurn = (DriveStoreView, WorkTurnView);

/// Whether the turn after the one with the given index follows from it, by a reply that
/// is true of Drive.
pub open spec fn drive_follows_at(
    turns: Seq<StoreTurn>,
    replies: Seq<(DriveReplyView, Timestamp)>,
    drives: Seq<DriveFiles>,
    i: int,
) -> bool {
    &&& turns[i].1 is Ask
    &&& turns[i + 1] == resume(turns[i].0, turns[i].1->Ask_0, replies[i].0, replies[i].1)
    &&& drive_answers(drives[i], turns[i].1->Ask_1, replies[i].0, drives[i + 1])
}

/// Whether the turns follow each other by replies that are true of Drive.
pub open spec fn drive_happens(
    turns: Seq<StoreTurn>,
    replies: Seq<(DriveReplyView, Timestamp)>,
    drives: Seq<DriveFiles>,
) -> bool {
    &&& turns.len() == replies.len() + 1
    &&& drives.len() == turns.len()
    &&& forall|i: int|
        0 <= i < replies.len() ==> #[trigger] drive_follows_at(turns, replies, drives, i)
}

/// Whether the store knows the way from the sandbox along the folders, to the one with
/// the given identifier.
pub open spec fn leads_to(s: DriveStoreView, folders: Seq<Seq<char>>, parent_id: Seq<char>) -> bool {
    &&& s.sandbox_id is Some
    &&& knows_first(s, folders, folders.len() as int)
    &&& if folders.len() == 0 {
        s.sandbox_id == Some(parent_id)
    } else {
        known_folder(s.folder_cache, running_path(folders)) == Some(parent_id)
    }
}

/// The folder that the known way along the folders ends at.
pub open spec fn known_end(s: DriveStoreView, folders: Seq<Seq<char>>) -> Seq<char> {
    if folders.len() == 0 {
        s.sandbox_id->0
    } else {
        known_folder(s.folder_cache, running_path(folders))->0
    }
}

/// Whether the store knows the first folders of a chain.
pub open spec fn knows_first(s: DriveStoreView, folders: Seq<Seq<char>>, count: int) -> bool {
    forall|i: int|
        0 <= i < count ==> known_folder(
            s.folder_cache,
            #[trigger] running_path(folders.take(i + 1)),
        ) is Some
}

/// Whether there is at most one file of a name in a folder.
pub open spec fn at_most_one_file(
    files: DriveFiles,
    parent_id: Seq<char>,
    name: Seq<char>,
) -> bool {
    forall|a: Seq<char>, b: Seq<char>| #[trigger]
        is_child(files, a, parent_id, name, ChildKind::File) && #[trigger] is_child(
            files,
            b,
            parent_id,
            name,
            ChildKind::File,
        ) ==> a == b
}

/// Whether the file with an identifier is the only one of its name in a folder.
pub open spec fn is_the_file(
    files: DriveFiles,
    id: Seq<char>,
    parent_id: Seq<char>,
    name: Seq<char>,
) -> bool {
    &&& is_child(files, id, parent_id, name, ChildKind::File)
    &&& at_most_one_file(files, parent_id, name)
}

/// What is learned of one folder leaves the others known.
proof fn lemma_learning_keeps_first(
    s: DriveStoreView,
    path: Seq<char>,
    id: Seq<char>,
    folders: Seq<Seq<char>>,
    count: int,
)
    requires
        knows_first(s, folders, count),
    ensures
        knows_first(learned(s, path, id), folders, count),
        known_folder(learned(s, path, id).folder_cache, path) == Some(id),
{
    law_learned_folders_are_known(s, path, id, path);
    assert forall|i: int| 0 <= i < count implies known_folder(
        learned(s, path, id).folder_cache,
        #[trigger] running_path(folders.take(i + 1)),
    ) is Some by {
        law_learned_folders_are_known(s, path, id, running_path(folders.take(i + 1)));
    }
}

/// The walk along a chain ends at the folder that the known way leads to, or asks for
/// the first folder that is not known.
proof fn lemma_chain_goes_on(
    s: DriveStoreView,
    folders: Seq<Seq<char>>,
    next: int,
    parent_id: Seq<char>,
)
    requires
        folders.len() <= usize::MAX,
        0 <= next <= folders.len(),
        s.sandbox_id is Some,
        knows_first(s, folders, next),
        if next == 0 {
            s.sandbox_id == Some(parent_id)
        } else {
            known_folder(s.folder_cache, running_path(folders.take(next))) == Some(parent_id)
        },
    ensures
        match chain_from(s, folders, next, parent_id) {
            Turn::Done(Ok(id)) => leads_to(s, folders, id),
            Turn::Done(Err(_)) => false,
            Turn::Ask(ChainStage::Find { folders: f, next: n, parent_id: p }, request) => {
                &&& f == folders
                &&& n < folders.len()
                &&& knows_first(s, folders, n as int)
                &&& request == StoreRequestView::FindChild {
                    parent_id: p,
                    name: folders[n as int],
                    kind: ChildKind::Folder,
                }
            },
            _ => false,
        },
    decreases folders.len() - next,
{
    if next < folders.len() {
        let path = running_path(folders.take(next + 1));
        if let Some(id) = known_folder(s.folder_cache, path) {
            assert(knows_first(s, folders, next + 1));
            lemma_chain_goes_on(s, folders, next + 1, id);
        }
    } else {
        assert(folders.take(next) == folders);
    }
}

/// A known way is gone without a question.
proof fn lemma_known_way(s: DriveStoreView, folders: Seq<Seq<char>>, parent_id: Seq<char>)
    requires
        leads_to(s, folders, parent_id),
    ensures
        chain_from(s, folders, 0, s.sandbox_id->0) == Turn::<
            ChainStage<Seq<char>, Seq<Seq<char>>>,
            StoreRequestView,
            Result<Seq<char>, Seq<char>>,
        >::Done(Ok(parent_id)),
{
    if folders.len() > 0 {
        law_known_chains_need_no_question(s, folders, 0, s.sandbox_id->0);
    }
}

/// An upload that waits for the folder.
spec fn waits_for_chain(virtual_path: Seq<char>, name: Seq<char>, local_path: Seq<u8>) -> FrameView {
    FrameView::Upload(UploadStage::Chain { virtual_path, name, local_path })
}

/// An upload that waits for the file that is there already.
spec fn waits_for_file(
    virtual_path: Seq<char>,
    name: Seq<char>,
    parent_id: Seq<char>,
    local_path: Seq<u8>,
) -> FrameView {
    FrameView::Upload(UploadStage::Find { virtual_path, name, parent_id, local_path })
}

/// Whether the files are the same, whatever folders there are.
spec fn same_files(a: DriveFiles, b: DriveFiles) -> bool {
    forall|id: Seq<char>, parent_id: Seq<char>, name: Seq<char>|
        #[trigger] is_child(a, id, parent_id, name, ChildKind::File) <==> is_child(
            b,
            id,
            parent_id,
            name,
            ChildKind::File,
        )
}

/// Where an upload stands. `files` is what lay in Drive when it began.
spec fn upload_stands(
    path: Seq<char>,
    folders: Seq<Seq<char>>,
    name: Seq<char>,
    local_path: Seq<u8>,
    files: DriveFiles,
    drive: DriveFiles,
    turn: StoreTurn,
) -> bool {
    let s = turn.0;
    let outer = waits_for_chain(path, name, local_path);
    match turn.1 {
        Turn::Ask(work, request) => {
            ||| {
                &&& work.len() == 3
                &&& work[0] == outer
                &&& work[1] == FrameView::Chain(ChainStage::Sandbox { folders })
                &&& work[2] is Sandbox
                &&& same_files(drive, files)
                &&& request is FindChild || request is CreateFolder
            }
            ||| {
                &&& work.len() == 2
                &&& work[0] == outer
                &&& s.sandbox_id is Some
                &&& same_files(drive, files)
                &&& match work[1] {
                    FrameView::Chain(ChainStage::Find { folders: f, next, .. }) => {
                        &&& f == folders
                        &&& next < folders.len()
                        &&& knows_first(s, folders, next as int)
                        &&& request is FindChild
                    },
                    FrameView::Chain(ChainStage::Create { folders: f, next }) => {
                        &&& f == folders
                        &&& next < folders.len()
                        &&& knows_first(s, folders, next as int)
                        &&& request is CreateFolder
                    },
                    _ => false,
                }
            }
            ||| {
                &&& work.len() == 1
                &&& work[0] is Upload
                &&& match work[0]->Upload_0 {
                    UploadStage::Find { virtual_path, name: n, parent_id, local_path: l } => {
                        &&& virtual_path == path
                        &&& n == name
                        &&& l == local_path
                        &&& leads_to(s, folders, parent_id)
                        &&& same_files(drive, files)
                        &&& request == StoreRequestView::FindChild {
                            parent_id,
                            name,
                            kind: ChildKind::File,
                        }
                    },
                    UploadStage::Update { virtual_path, .. } => {
                        &&& virtual_path == path
                        &&& request matches DriveRequest::UpdateContent { file_id, .. } && exists|
                            parent_id: Seq<char>,
                        | #[trigger]
                            leads_to(s, folders, parent_id) && is_child(
                                drive,
                                file_id,
                                parent_id,
                                name,
                                ChildKind::File,
                            )
                        &&& same_files(drive, files)
                    },
                    UploadStage::Create { virtual_path, .. } => {
                        &&& virtual_path == path
                        &&& request matches DriveRequest::CreateContent { parent_id, name: n, .. }
                            && n == name && leads_to(s, folders, parent_id) && no_child(
                            drive,
                            parent_id,
                            name,
                            ChildKind::File,
                        )
                        &&& same_files(drive, files)
                    },
                    _ => false,
                }
            }
        },
        Turn::Done(OutcomeView::Stored(Ok(meta))) => {
            &&& meta.virtual_path == path
            &&& exists|parent_id: Seq<char>| #[trigger]
                leads_to(s, folders, parent_id) && is_child(
                    drive,
                    meta.drive_id,
                    parent_id,
                    name,
                    ChildKind::File,
                ) && (at_most_one_file(files, parent_id, name) ==> at_most_one_file(
                    drive,
                    parent_id,
                    name,
                ))
        },
        Turn::Done(OutcomeView::Stored(Err(_))) => true,
        _ => false,
    }
}

/// An upload goes on with what the walk along the chain comes to.
proof fn lemma_chain_settles(
    path: Seq<char>,
    folders: Seq<Seq<char>>,
    name: Seq<char>,
    local_path: Seq<u8>,
    files: DriveFiles,
    drive: DriveFiles,
    s: DriveStoreView,
    next: int,
    parent_id: Seq<char>,
    now: Timestamp,
)
    requires
        folders.len() <= usize::MAX,
        0 <= next <= folders.len(),
        s.sandbox_id is Some,
        knows_first(s, folders, next),
        if next == 0 {
            s.sandbox_id == Some(parent_id)
        } else {
            known_folder(s.folder_cache, running_path(folders.take(next))) == Some(parent_id)
        },
        same_files(drive, files),
    ensures
        upload_stands(
            path,
            folders,
            name,
            local_path,
            files,
            drive,
            settle(
                s,
                seq![waits_for_chain(path, name, local_path)],
                chain_turn(chain_from(s, folders, next, parent_id)),
                now,
            ),
        ),
{
    let outer = waits_for_chain(path, name, local_path);
    let stack = seq![outer];
    lemma_chain_goes_on(s, folders, next, parent_id);
    match chain_from(s, folders, next, parent_id) {
        Turn::Done(Ok(id)) => {
            let turn = upload_turn(
                Turn::Ask(
                    UploadStage::Find { virtual_path: path, name, parent_id: id, local_path },
                    DriveRequest::FindChild { parent_id: id, name, kind: ChildKind::File },
                ),
            );
            let outcome = chain_turn(chain_from(s, folders, next, parent_id));
            assert(stack.drop_last() == Seq::<FrameView>::empty());
            assert(settle(s, stack, outcome, now) == settle(s, Seq::empty(), turn, now));
            let work = Seq::<FrameView>::empty().push(
                waits_for_file(path, name, id, local_path),
            );
            assert(settle(s, Seq::empty(), turn, now) == (
                s,
                WorkTurnView::Ask(
                    work,
                    DriveRequest::FindChild { parent_id: id, name, kind: ChildKind::File },
                ),
            ));
        },
        _ => {},
    }
}

/// An upload that has found the sandbox goes on along the chain.
proof fn lemma_sandbox_settles(
    path: Seq<char>,
    folders: Seq<Seq<char>>,
    name: Seq<char>,
    local_path: Seq<u8>,
    files: DriveFiles,
    drive: DriveFiles,
    s: DriveStoreView,
    r: Result<Seq<char>, Seq<char>>,
    now: Timestamp,
)
    requires
        folders.len() <= usize::MAX,
        r matches Ok(id) ==> s.sandbox_id == Some(id) && same_files(drive, files),
    ensures
        upload_stands(
            path,
            folders,
            name,
            local_path,
            files,
            drive,
            settle(
                s,
                seq![
                    waits_for_chain(path, name, local_path),
                    FrameView::Chain(ChainStage::Sandbox { folders }),
                ],
                Turn::Done(OutcomeView::Reply(DriveReplyView::Text(r))),
                now,
            ),
        ),
{
    let outer = waits_for_chain(path, name, local_path);
    let stack = seq![outer, FrameView::Chain(ChainStage::Sandbox { folders })];
    let reply = DriveReplyView::Text(r);
    let stage = ChainStage::Sandbox { folders };
    assert(stack.drop_last() == seq![outer]);
    let (after, next) = chain_step(s, stage, reply);
    assert(settle(s, stack, Turn::Done(OutcomeView::Reply(reply)), now) == settle(
        after,
        seq![outer],
        chain_turn(next),
        now,
    ));
    match r {
        Ok(id) => {
            lemma_chain_settles(path, folders, name, local_path, files, drive, s, 0, id, now);
        },
        Err(why) => {
            lemma_chain_fails(path, name, local_path, s, why, now);
        },
    }
}

/// An upload whose way to the folder failed is over.
proof fn lemma_chain_fails(
    path: Seq<char>,
    name: Seq<char>,
    local_path: Seq<u8>,
    s: DriveStoreView,
    why: Seq<char>,
    now: Timestamp,
)
    ensures
        settle(
            s,
            seq![waits_for_chain(path, name, local_path)],
            Turn::Done(OutcomeView::Reply(DriveReplyView::Text(Err(why)))),
            now,
        ) == (s, WorkTurnView::Done(OutcomeView::Stored(Err(why)))),
{
    let stack = seq![waits_for_chain(path, name, local_path)];
    assert(stack.drop_last() == Seq::<FrameView>::empty());
    assert(settle(
        s,
        stack,
        Turn::Done(OutcomeView::Reply(DriveReplyView::Text(Err(why)))),
        now,
    ) == settle(s, Seq::empty(), upload_turn(Turn::Done(Err(why))), now));
}

/// How an upload begins.
proof fn lemma_upload_begins(
    virtual_path: Seq<char>,
    segments: Seq<Seq<char>>,
    local_path: Seq<u8>,
    kind: PathKind,
    drive: DriveFiles,
    s: DriveStoreView,
    now: Timestamp,
)
    requires
        path_segments(normalized(virtual_path)) == Ok::<Seq<Seq<char>>, Seq<char>>(segments),
        0 < segments.len() <= usize::MAX,
    ensures
        upload_stands(
            normalized(virtual_path),
            segments.drop_last(),
            segments.last(),
            local_path,
            drive,
            drive,
            begun(s, upload_turn(begin_upload(virtual_path, local_path, kind)), now),
        ),
{
    let path = normalized(virtual_path);
    let folders = segments.drop_last();
    let name = segments.last();
    if kind != PathKind::Missing && kind != PathKind::Directory {
        lemma_upload_enters_chain(virtual_path, segments, local_path, kind, s, now);
        let stack = seq![
            waits_for_chain(path, name, local_path),
            FrameView::Chain(ChainStage::Sandbox { folders }),
        ];
        match begin_sandbox(s) {
            Turn::Done(r) => {
                lemma_sandbox_settles(path, folders, name, local_path, drive, drive, s, r, now);
            },
            Turn::Ask(stage, request) => {
                let work = stack.push(FrameView::Sandbox(stage));
                assert(settle(s, stack, sandbox_turn(begin_sandbox(s)), now) == (
                    s,
                    WorkTurnView::Ask(work, request),
                ));
            },
        }
    }
}

/// An upload first looks for the sandbox.
proof fn lemma_upload_enters_chain(
    virtual_path: Seq<char>,
    segments: Seq<Seq<char>>,
    local_path: Seq<u8>,
    kind: PathKind,
    s: DriveStoreView,
    now: Timestamp,
)
    requires
        path_segments(normalized(virtual_path)) == Ok::<Seq<Seq<char>>, Seq<char>>(segments),
        kind != PathKind::Missing,
        kind != PathKind::Directory,
    ensures
        begun(s, upload_turn(begin_upload(virtual_path, local_path, kind)), now) == settle(
            s,
            seq![
                waits_for_chain(normalized(virtual_path), segments.last(), local_path),
                FrameView::Chain(ChainStage::Sandbox { folders: segments.drop_last() }),
            ],
            sandbox_turn(begin_sandbox(s)),
            now,
        ),
{
    let folders = segments.drop_last();
    let outer = waits_for_chain(normalized(virtual_path), segments.last(), local_path);
    let inner = FrameView::Chain(ChainStage::Sandbox { folders });
    let first = upload_turn(begin_upload(virtual_path, local_path, kind));
    let empty = Seq::<FrameView>::empty();
    assert(empty.push(outer) == seq![outer]);
    assert(settle(s, empty, first, now) == settle(
        s,
        seq![outer],
        chain_turn(begin_chain(folders)),
        now,
    ));
    assert(seq![outer].push(inner) == seq![outer, inner]);
    assert(settle(s, seq![outer], chain_turn(begin_chain(folders)), now) == settle(
        s,
        seq![outer, inner],
        sandbox_turn(begin_sandbox(s)),
        now,
    ));
}

/// A new folder leaves the files as they are.
proof fn lemma_new_folder(files: DriveFiles, drive: DriveFiles, id: Seq<char>, place: Place)
    requires
        same_files(drive, files),
        !drive.contains_key(id),
        place.is_folder,
    ensures
        same_files(drive.insert(id, place), files),
{
    let after = drive.insert(id, place);
    assert forall|other: Seq<char>, parent_id: Seq<char>, name: Seq<char>| #[trigger]
        is_child(after, other, parent_id, name, ChildKind::File) <==> is_child(
            files,
            other,
            parent_id,
            name,
            ChildKind::File,
        ) by {
        assert(is_child(drive, other, parent_id, name, ChildKind::File) <==> is_child(
            files,
            other,
            parent_id,
            name,
            ChildKind::File,
        ));
    }
}

/// A step of an upload on its way to the folder.
proof fn lemma_upload_on_its_way(
    path: Seq<char>,
    folders: Seq<Seq<char>>,
    name: Seq<char>,
    local_path: Seq<u8>,
    files: DriveFiles,
    drive: DriveFiles,
    turn: StoreTurn,
    reply: DriveReplyView,
    now: Timestamp,
    after: DriveFiles,
)
    requires
        folders.len() <= usize::MAX,
        upload_stands(path, folders, name, local_path, files, drive, turn),
        turn.1 is Ask,
        turn.1->Ask_0.len() > 1,
        drive_answers(drive, turn.1->Ask_1, reply, after),
    ensures
        upload_stands(
            path,
            folders,
            name,
            local_path,
            files,
            after,
            resume(turn.0, turn.1->Ask_0, reply, now),
        ),
{
    let s = turn.0;
    let work = turn.1->Ask_0;
    let request = turn.1->Ask_1;
    let outer = waits_for_chain(path, name, local_path);
    match (request, reply) {
        (
            DriveRequest::CreateFolder { parent_id, name: n },
            DriveReplyView::File(Ok(folder)),
        ) => {
            lemma_new_folder(
                files,
                drive,
                folder.id->0,
                Place { parent_id, name: n, is_folder: true },
            );
        },
        _ => {},
    }
    let rest = work.drop_last();
    if work.len() == 3 {
        let inner = FrameView::Chain(ChainStage::Sandbox { folders });
        assert(rest == seq![outer, inner]);
        let stage = work[2]->Sandbox_0;
        let (then, next) = sandbox_step(s, stage, reply);
        assert(resume(s, work, reply, now) == settle(then, rest, sandbox_turn(next), now));
        match next {
            Turn::Done(r) => {
                lemma_sandbox_settles(path, folders, name, local_path, files, after, then, r, now);
            },
            Turn::Ask(later, asked) => {
                assert(settle(then, rest, sandbox_turn(next), now) == (
                    then,
                    WorkTurnView::Ask(rest.push(FrameView::Sandbox(later)), asked),
                ));
            },
        }
    } else {
        assert(rest == seq![outer]);
        let stage = work[1]->Chain_0;
        let (then, next) = chain_step(s, stage, reply);
        assert(resume(s, work, reply, now) == settle(then, rest, chain_turn(next), now));
        let n = match stage {
            ChainStage::Find { next: n, .. } => n,
            ChainStage::Create { next: n, .. } => n,
            _ => 0,
        };
        let found = match reply {
            DriveReplyView::MaybeFile(Ok(found)) => found,
            DriveReplyView::File(Ok(folder)) => Some(folder),
            _ => None,
        };
        if let Some(folder) = found {
            let id = folder.id->0;
            let at = running_path(folders.take(n + 1));
            lemma_learning_keeps_first(s, at, id, folders, n as int);
            assert(knows_first(then, folders, n + 1));
            lemma_chain_settles(
                path,
                folders,
                name,
                local_path,
                files,
                after,
                then,
                n + 1,
                id,
                now,
            );
        } else {
            match next {
                Turn::Done(r) => {
                    lemma_chain_fails(path, name, local_path, s, r->Err_0, now);
                },
                Turn::Ask(later, asked) => {
                    assert(settle(then, rest, chain_turn(next), now) == (
                        then,
                        WorkTurnView::Ask(rest.push(FrameView::Chain(later)), asked),
                    ));
                },
            }
        }
    }
}

/// A step of an upload that knows the folder.
proof fn lemma_upload_in_its_folder(
    path: Seq<char>,
    folders: Seq<Seq<char>>,
    name: Seq<char>,
    local_path: Seq<u8>,
    files: DriveFiles,
    drive: DriveFiles,
    turn: StoreTurn,
    reply: DriveReplyView,
    now: Timestamp,
    after: DriveFiles,
)
    requires
        upload_stands(path, folders, name, local_path, files, drive, turn),
        turn.1 is Ask,
        turn.1->Ask_0.len() == 1,
        drive_answers(drive, turn.1->Ask_1, reply, after),
    ensures
        upload_stands(
            path,
            folders,
            name,
            local_path,
            files,
            after,
            resume(turn.0, turn.1->Ask_0, reply, now),
        ),
{
    let s = turn.0;
    let work = turn.1->Ask_0;
    let stage = work[0]->Upload_0;
    let next = upload_step(stage, reply, now);
    let empty = Seq::<FrameView>::empty();
    assert(work.drop_last() == empty);
    assert(resume(s, work, reply, now) == settle(s, empty, upload_turn(next), now));
    match next {
        Turn::Done(r) => {
            assert(settle(s, empty, upload_turn(next), now) == (
                s,
                WorkTurnView::Done(OutcomeView::Stored(r)),
            ));
            if let (Ok(meta), DriveReplyView::Uploaded(Ok(file))) = (r, reply) {
                match turn.1->Ask_1 {
                    DriveRequest::UpdateContent { file_id, .. } => {
                        let parent_id = choose|parent_id: Seq<char>| #[trigger]
                            leads_to(s, folders, parent_id) && is_child(
                                drive,
                                file_id,
                                parent_id,
                                name,
                                ChildKind::File,
                            );
                        assert(leads_to(s, folders, parent_id));
                        assert(meta.drive_id == file_id);
                        if at_most_one_file(files, parent_id, name) {
                            assert forall|a: Seq<char>, b: Seq<char>| #[trigger]
                                is_child(after, a, parent_id, name, ChildKind::File)
                                    && #[trigger] is_child(
                                    after,
                                    b,
                                    parent_id,
                                    name,
                                    ChildKind::File,
                                ) implies a == b by {
                                assert(is_child(files, a, parent_id, name, ChildKind::File));
                                assert(is_child(files, b, parent_id, name, ChildKind::File));
                            }
                        }
                        assert(is_child(after, file_id, parent_id, name, ChildKind::File));
                    },
                    DriveRequest::CreateContent { parent_id, .. } => {
                        assert(leads_to(s, folders, parent_id));
                        assert(is_child(after, meta.drive_id, parent_id, name, ChildKind::File));
                        assert forall|a: Seq<char>| #[trigger]
                            is_child(after, a, parent_id, name, ChildKind::File) implies a
                            == meta.drive_id by {
                            if a != meta.drive_id {
                                assert(is_child(drive, a, parent_id, name, ChildKind::File));
                            }
                        }
                        assert(at_most_one_file(after, parent_id, name));
                    },
                    _ => {},
                }
            }
        },
        Turn::Ask(later, asked) => {
            let pushed = empty.push(FrameView::Upload(later));
            assert(settle(s, empty, upload_turn(next), now) == (
                s,
                WorkTurnView::Ask(pushed, asked),
            ));
            let parent_id = stage->Find_parent_id;
            assert(leads_to(s, folders, parent_id));
        },
    }
}

/// An upload goes on.
proof fn lemma_upload_stands(
    virtual_path: Seq<char>,
    segments: Seq<Seq<char>>,
    local_path: Seq<u8>,
    kind: PathKind,
    s: DriveStoreView,
    now: Timestamp,
    turns: Seq<StoreTurn>,
    replies: Seq<(DriveReplyView, Timestamp)>,
    drives: Seq<DriveFiles>,
    n: int,
)
    requires
        path_segments(normalized(virtual_path)) == Ok::<Seq<Seq<char>>, Seq<char>>(segments),
        0 < segments.len() <= usize::MAX,
        drive_happens(turns, replies, drives),
        turns[0] == begun(s, upload_turn(begin_upload(virtual_path, local_path, kind)), now),
        0 <= n <= replies.len(),
    ensures
        upload_stands(
            normalized(virtual_path),
            segments.drop_last(),
            segments.last(),
            local_path,
            drives[0],
            drives[n],
            turns[n],
        ),
    decreases n,
{
    let path = normalized(virtual_path);
    let folders = segments.drop_last();
    let name = segments.last();
    if n == 0 {
        lemma_upload_begins(virtual_path, segments, local_path, kind, drives[0], s, now);
    } else {
        let k = n - 1;
        lemma_upload_stands(
            virtual_path,
            segments,
            local_path,
            kind,
            s,
            now,
            turns,
            replies,
            drives,
            k,
        );
        assert(drive_follows_at(turns, replies, drives, k));
        if turns[k].1->Ask_0.len() > 1 {
            lemma_upload_on_its_way(
                path,
                folders,
                name,
                local_path,
                drives[0],
                drives[k],
                turns[k],
                replies[k].0,
                replies[k].1,
                drives[n],
            );
        } else {
            lemma_upload_in_its_folder(
                path,
                folders,
                name,
                local_path,
                drives[0],
                drives[k],
                turns[k],
                replies[k].0,
                replies[k].1,
                drives[n],
            );
        }
    }
}

/// An upload that knows its folder begins with the question for the file in it.
proof fn lemma_known_upload_begins(
    virtual_path: Seq<char>,
    segments: Seq<Seq<char>>,
    local_path: Seq<u8>,
    kind: PathKind,
    s: DriveStoreView,
    parent_id: Seq<char>,
    now: Timestamp,
)
    requires
        path_segments(normalized(virtual_path)) == Ok::<Seq<Seq<char>>, Seq<char>>(segments),
        kind != PathKind::Missing,
        kind != PathKind::Directory,
        leads_to(s, segments.drop_last(), parent_id),
    ensures
        begun(s, upload_turn(begin_upload(virtual_path, local_path, kind)), now) == (
            s,
            WorkTurnView::Ask(
                seq![
                    waits_for_file(
                        normalized(virtual_path),
                        segments.last(),
                        parent_id,
                        local_path,
                    ),
                ],
                DriveRequest::FindChild {
                    parent_id,
                    name: segments.last(),
                    kind: ChildKind::File,
                },
            ),
        ),
{
    let path = normalized(virtual_path);
    let folders = segments.drop_last();
    let name = segments.last();
    let id = s.sandbox_id->0;
    let outer = waits_for_chain(path, name, local_path);
    let stage = ChainStage::Sandbox { folders };
    let stack = seq![outer, FrameView::Chain(stage)];
    lemma_upload_enters_chain(virtual_path, segments, local_path, kind, s, now);
    lemma_known_way(s, folders, parent_id);
    assert(stack.drop_last() == seq![outer]);
    let found = chain_turn(chain_from(s, folders, 0, id));
    assert(settle(s, stack, sandbox_turn(begin_sandbox(s)), now) == settle(
        s,
        seq![outer],
        found,
        now,
    ));
    let empty = Seq::<FrameView>::empty();
    let request = StoreRequestView::FindChild { parent_id, name, kind: ChildKind::File };
    let next = upload_turn(
        Turn::Ask(
            UploadStage::Find { virtual_path: path, name, parent_id, local_path },
            request,
        ),
    );
    assert(seq![outer].drop_last() == empty);
    assert(settle(s, seq![outer], found, now) == settle(s, empty, next, now));
    let frame = waits_for_file(path, name, parent_id, local_path);
    assert(empty.push(frame) == seq![frame]);
    assert(settle(s, empty, next, now) == (s, WorkTurnView::Ask(seq![frame], request)));
}

/// Whether work stores a local file as the new content of the file with an identifier,
/// and does nothing else to Drive: it asks for the file in its folder and gives it the
/// content, and no file or folder is made. Where both go well, what it comes to is what
/// Drive tells of that file.
pub open spec fn only_updates(
    virtual_path: Seq<char>,
    local_path: Seq<u8>,
    file_id: Seq<char>,
    turns: Seq<StoreTurn>,
    replies: Seq<(DriveReplyView, Timestamp)>,
    drives: Seq<DriveFiles>,
) -> bool {
    &&& turns.len() <= 3
    &&& forall|i: int|
        0 <= i < turns.len() ==> ((#[trigger] turns[i]).1 matches Turn::Ask(_, request) ==> request
            is FindChild || request == StoreRequestView::UpdateContent { file_id, local_path })
    &&& forall|i: int| 0 <= i < drives.len() ==> #[trigger] drives[i] == drives[0]
    &&& turns[0].1 is Ask
    &&& replies.len() >= 1 ==> (replies[0].0 matches DriveReplyView::MaybeFile(Ok(_))
        ==> turns[1].1 is Ask)
    &&& replies.len() >= 2 ==> (turns[1].1 matches Turn::Ask(_, request) && request
        == StoreRequestView::UpdateContent { file_id, local_path })
    &&& replies.len() >= 2 ==> turns[2].1 is Done
    &&& replies.len() >= 2 ==> (replies[1].0 matches DriveReplyView::Uploaded(Ok(file))
        ==> turns[2].1 == WorkTurnView::Done(
        OutcomeView::Stored(drive_meta(file, normalized(virtual_path), replies[1].1)),
    ))
    &&& turns.last().1 matches Turn::Done(OutcomeView::Stored(Ok(meta))) ==> meta.drive_id
        == file_id && meta.virtual_path == normalized(virtual_path)
}

/// Where the store knows the way to the folder and one file in it has the name, an
/// upload updates that file.
proof fn lemma_known_upload_updates(
    virtual_path: Seq<char>,
    segments: Seq<Seq<char>>,
    local_path: Seq<u8>,
    kind: PathKind,
    s: DriveStoreView,
    parent_id: Seq<char>,
    file_id: Seq<char>,
    now: Timestamp,
    turns: Seq<StoreTurn>,
    replies: Seq<(DriveReplyView, Timestamp)>,
    drives: Seq<DriveFiles>,
)
    requires
        path_segments(normalized(virtual_path)) == Ok::<Seq<Seq<char>>, Seq<char>>(segments),
        kind != PathKind::Missing,
        kind != PathKind::Directory,
        leads_to(s, segments.drop_last(), parent_id),
        drive_happens(turns, replies, drives),
        turns[0] == begun(s, upload_turn(begin_upload(virtual_path, local_path, kind)), now),
        is_the_file(drives[0], file_id, parent_id, segments.last()),
    ensures
        only_updates(virtual_path, local_path, file_id, turns, replies, drives),
{
    let path = normalized(virtual_path);
    let name = segments.last();
    let empty = Seq::<FrameView>::empty();
    lemma_known_upload_begins(virtual_path, segments, local_path, kind, s, parent_id, now);
    if replies.len() > 0 {
        assert(drive_follows_at(turns, replies, drives, 0));
        let (reply, at) = replies[0];
        let work = turns[0].1->Ask_0;
        let stage = UploadStage::Find { virtual_path: path, name, parent_id, local_path };
        let next = upload_step(stage, reply, at);
        assert(work.drop_last() == empty);
        assert(resume(s, work, reply, at) == settle(s, empty, upload_turn(next), at));
        if let DriveReplyView::MaybeFile(Ok(found)) = reply {
            if let Some(file) = found {
                assert(is_child(drives[0], file.id->0, parent_id, name, ChildKind::File));
                assert(file.id == Some(file_id));
            } else {
                assert(no_child(drives[0], parent_id, name, ChildKind::File));
                assert(is_child(drives[0], file_id, parent_id, name, ChildKind::File));
            }
            let later = FrameView::Upload(UploadStage::Update { virtual_path: path, local_path });
            assert(empty.push(later) == seq![later]);
            assert(turns[1] == (
                s,
                WorkTurnView::Ask(
                    seq![later],
                    DriveRequest::UpdateContent { file_id, local_path },
                ),
            ));
        } else {
            assert(turns[1].1 is Done);
        }
        if replies.len() > 1 {
            assert(drive_follows_at(turns, replies, drives, 1));
            let (last, end) = replies[1];
            let update = UploadStage::Update { virtual_path: path, local_path };
            let done = upload_step(update, last, end);
            assert(turns[1].1->Ask_0.drop_last() == empty);
            assert(turns[2] == settle(s, empty, upload_turn(done), end));
            assert(turns[2].1 is Done);
            if replies.len() > 2 {
                assert(drive_follows_at(turns, replies, drives, 2));
            }
        }
    }
    assert forall|i: int| 0 <= i < drives.len() implies #[trigger] drives[i] == drives[0] by {
        if i > 0 {
            assert(drive_follows_at(turns, replies, drives, i - 1));
            assert(i == 1 || i == 2);
            assert(drives[1] == drives[0]);
        }
    }
}

/// There is never a second file at one path: where an upload went well, Drive held at
/// most one file of that name in its folder before, and Drive did not change since,
/// another upload to the path only gives that file a new content. It comes to the same
/// identifier.
pub proof fn law_a_second_upload_updates_the_file(
    virtual_path: Seq<char>,
    segments: Seq<Seq<char>>,
    local_path: Seq<u8>,
    kind: PathKind,
    s: DriveStoreView,
    now: Timestamp,
    turns: Seq<StoreTurn>,
    replies: Seq<(DriveReplyView, Timestamp)>,
    drives: Seq<DriveFiles>,
    next_local_path: Seq<u8>,
    next_kind: PathKind,
    next_now: Timestamp,
    next_turns: Seq<StoreTurn>,
    next_replies: Seq<(DriveReplyView, Timestamp)>,
    next_drives: Seq<DriveFiles>,
)
    requires
        path_segments(normalized(virtual_path)) == Ok::<Seq<Seq<char>>, Seq<char>>(segments),
        segments.len() <= usize::MAX,
        drive_happens(turns, replies, drives),
        turns[0] == begun(s, upload_turn(begin_upload(virtual_path, local_path, kind)), now),
        turns.last().1 matches Turn::Done(OutcomeView::Stored(Ok(_))),
        at_most_one_file(
            drives[0],
            known_end(turns.last().0, segments.drop_last()),
            segments.last(),
        ),
        next_kind != PathKind::Missing,
        next_kind != PathKind::Directory,
        drive_happens(next_turns, next_replies, next_drives),
        next_turns[0] == begun(
            turns.last().0,
            upload_turn(begin_upload(virtual_path, next_local_path, next_kind)),
            next_now,
        ),
        next_drives[0] == drives.last(),
    ensures
        turns.last().1 matches Turn::Done(OutcomeView::Stored(Ok(meta))) && only_updates(
            virtual_path,
            next_local_path,
            meta.drive_id,
            next_turns,
            next_replies,
            next_drives,
        ),
{
    let folders = segments.drop_last();
    let name = segments.last();
    let n = replies.len() as int;
    lemma_upload_stands(
        virtual_path,
        segments,
        local_path,
        kind,
        s,
        now,
        turns,
        replies,
        drives,
        n,
    );
    let after = turns.last().0;
    let meta = turns.last().1->Done_0->Stored_0->Ok_0;
    let parent_id = choose|parent_id: Seq<char>| #[trigger]
        leads_to(after, folders, parent_id) && is_child(
            drives[n],
            meta.drive_id,
            parent_id,
            name,
            ChildKind::File,
        ) && (at_most_one_file(drives[0], parent_id, name) ==> at_most_one_file(
            drives[n],
            parent_id,
            name,
        ));
    assert(parent_id == known_end(after, folders));
    lemma_known_upload_updates(
        virtual_path,
        segments,
        next_local_path,
        next_kind,
        after,
        parent_id,
        meta.drive_id,
        next_now,
        next_turns,
        next_replies,
        next_drives,
    );
}

/// Where the way down to a file stands.
spec fn resolve_stands(segments: Seq<Seq<char>>, drive: DriveFiles, turn: StoreTurn) -> bool {
    let s = turn.0;
    match turn.1 {
        Turn::Ask(work, request) => {
            ||| {
                &&& work.len() == 2
                &&& work[0] == FrameView::Resolve(ResolveStage::Sandbox { segments })
                &&& work[1] is Sandbox
                &&& request is FindChild || request is CreateFolder
            }
            ||| {
                &&& work.len() == 1
                &&& work[0] matches FrameView::Resolve(ResolveStage::Find { segments: g, next })
                &&& g == segments
                &&& next < segments.len()
                &&& request matches DriveRequest::FindChild { parent_id, name, kind }
                &&& leads_to(s, segments.take(next as int), parent_id)
                &&& name == segments[next as int]
                &&& next + 1 == segments.len() ==> kind == ChildKind::File
            }
        },
        Turn::Done(OutcomeView::Reply(DriveReplyView::MaybeFile(r))) => r matches Ok(Some(file))
            ==> file.id is Some && exists|parent_id: Seq<char>| #[trigger]
            leads_to(s, segments.drop_last(), parent_id) && is_child(
                drive,
                file.id->0,
                parent_id,
                segments.last(),
                ChildKind::File,
            ),
        _ => false,
    }
}

/// The way down goes on from a folder.
proof fn lemma_resolve_settles(
    segments: Seq<Seq<char>>,
    drive: DriveFiles,
    s: DriveStoreView,
    next: int,
    parent_id: Seq<char>,
    now: Timestamp,
)
    requires
        segments.len() <= usize::MAX,
        0 <= next < segments.len(),
        leads_to(s, segments.take(next), parent_id),
    ensures
        resolve_stands(
            segments,
            drive,
            settle(
                s,
                Seq::empty(),
                resolve_turn(resolve_from(segments, next, parent_id)),
                now,
            ),
        ),
{
    let empty = Seq::<FrameView>::empty();
    let turn = resolve_from(segments, next, parent_id);
    let frame = FrameView::Resolve(turn->Ask_0);
    assert(settle(s, empty, resolve_turn(turn), now) == (
        s,
        WorkTurnView::Ask(empty.push(frame), turn->Ask_1),
    ));
}

/// The way down that has found the sandbox, or failed to.
proof fn lemma_resolve_enters(
    segments: Seq<Seq<char>>,
    drive: DriveFiles,
    s: DriveStoreView,
    r: Result<Seq<char>, Seq<char>>,
    now: Timestamp,
)
    requires
        0 < segments.len() <= usize::MAX,
        r matches Ok(id) ==> s.sandbox_id == Some(id),
    ensures
        resolve_stands(
            segments,
            drive,
            settle(
                s,
                seq![FrameView::Resolve(ResolveStage::Sandbox { segments })],
                Turn::Done(OutcomeView::Reply(DriveReplyView::Text(r))),
                now,
            ),
        ),
{
    let empty = Seq::<FrameView>::empty();
    let stage = ResolveStage::Sandbox { segments };
    let stack = seq![FrameView::Resolve(stage)];
    let reply = DriveReplyView::Text(r);
    let (after, next) = resolve_step(s, stage, reply);
    assert(stack.drop_last() == empty);
    assert(settle(s, stack, Turn::Done(OutcomeView::Reply(reply)), now) == settle(
        after,
        empty,
        resolve_turn(next),
        now,
    ));
    match r {
        Ok(id) => {
            assert(segments.take(0).len() == 0);
            lemma_resolve_settles(segments, drive, s, 0, id, now);
        },
        Err(why) => {
            assert(settle(after, empty, resolve_turn(next), now) == (
                s,
                WorkTurnView::Done(OutcomeView::Reply(DriveReplyView::MaybeFile(Err(why)))),
            ));
        },
    }
}

/// A step of the way down to a file.
proof fn lemma_resolve_step(
    segments: Seq<Seq<char>>,
    drive: DriveFiles,
    turn: StoreTurn,
    reply: DriveReplyView,
    now: Timestamp,
    after: DriveFiles,
)
    requires
        0 < segments.len() <= usize::MAX,
        resolve_stands(segments, drive, turn),
        turn.1 is Ask,
        drive_answers(drive, turn.1->Ask_1, reply, after),
    ensures
        resolve_stands(segments, after, resume(turn.0, turn.1->Ask_0, reply, now)),
{
    let s = turn.0;
    let work = turn.1->Ask_0;
    let rest = work.drop_last();
    if work.len() == 2 {
        assert(rest == seq![FrameView::Resolve(ResolveStage::Sandbox { segments })]);
        let (then, next) = sandbox_step(s, work[1]->Sandbox_0, reply);
        assert(resume(s, work, reply, now) == settle(then, rest, sandbox_turn(next), now));
        match next {
            Turn::Done(r) => {
                lemma_resolve_enters(segments, after, then, r, now);
            },
            Turn::Ask(later, asked) => {
                assert(settle(then, rest, sandbox_turn(next), now) == (
                    then,
                    WorkTurnView::Ask(rest.push(FrameView::Sandbox(later)), asked),
                ));
            },
        }
    } else {
        let stage = work[0]->Resolve_0;
        let n = stage->Find_next;
        let parent_id = turn.1->Ask_1->FindChild_parent_id;
        let (then, next) = resolve_step(s, stage, reply);
        assert(rest == Seq::<FrameView>::empty());
        assert(resume(s, work, reply, now) == settle(then, rest, resolve_turn(next), now));
        match next {
            Turn::Done(r) => {
                assert(settle(then, rest, resolve_turn(next), now) == (
                    then,
                    WorkTurnView::Done(OutcomeView::Reply(DriveReplyView::MaybeFile(r))),
                ));
                if let Ok(Some(file)) = r {
                    assert(segments.take(n as int) == segments.drop_last());
                    assert(leads_to(then, segments.drop_last(), parent_id));
                }
            },
            Turn::Ask(_, _) => {
                let id = reply->MaybeFile_0->Ok_0->0.id->0;
                let at = running_path(segments.take(n + 1));
                let before = segments.take(n as int);
                let through = segments.take(n + 1);
                lemma_learning_keeps_first(s, at, id, before, n as int);
                assert forall|i: int| 0 <= i < through.len() implies known_folder(
                    then.folder_cache,
                    #[trigger] running_path(through.take(i + 1)),
                ) is Some by {
                    if i < n {
                        assert(through.take(i + 1) == before.take(i + 1));
                        assert(known_folder(
                            then.folder_cache,
                            running_path(before.take(i + 1)),
                        ) is Some);
                    } else {
                        assert(through.take(i + 1) == through);
                    }
                }
                assert(leads_to(then, through, id));
                lemma_resolve_settles(segments, after, then, n + 1, id, now);
            },
        }
    }
}

/// The way down to a file goes on.
proof fn lemma_resolve_stands(
    virtual_path: Seq<char>,
    segments: Seq<Seq<char>>,
    s: DriveStoreView,
    now: Timestamp,
    turns: Seq<StoreTurn>,
    replies: Seq<(DriveReplyView, Timestamp)>,
    drives: Seq<DriveFiles>,
    n: int,
)
    requires
        path_segments(virtual_path) == Ok::<Seq<Seq<char>>, Seq<char>>(segments),
        0 < segments.len() <= usize::MAX,
        drive_happens(turns, replies, drives),
        turns[0] == begun(s, resolve_turn(begin_resolve(virtual_path)), now),
        0 <= n <= replies.len(),
    ensures
        resolve_stands(segments, drives[n], turns[n]),
    decreases n,
{
    if n == 0 {
        let empty = Seq::<FrameView>::empty();
        let frame = FrameView::Resolve(ResolveStage::Sandbox { segments });
        let first = resolve_turn(begin_resolve(virtual_path));
        assert(empty.push(frame) == seq![frame]);
        assert(settle(s, empty, first, now) == settle(
            s,
            seq![frame],
            sandbox_turn(begin_sandbox(s)),
            now,
        ));
        match begin_sandbox(s) {
            Turn::Done(r) => {
                lemma_resolve_enters(segments, drives[0], s, r, now);
            },
            Turn::Ask(stage, request) => {
                assert(settle(s, seq![frame], sandbox_turn(begin_sandbox(s)), now) == (
                    s,
                    WorkTurnView::Ask(seq![frame].push(FrameView::Sandbox(stage)), request),
                ));
            },
        }
    } else {
        let k = n - 1;
        lemma_resolve_stands(virtual_path, segments, s, now, turns, replies, drives, k);
        assert(drive_follows_at(turns, replies, drives, k));
        lemma_resolve_step(
            segments,
            drives[k],
            turns[k],
            replies[k].0,
            replies[k].1,
            drives[n],
        );
    }
}

/// Where the way down to a remote path found a file, the only one of its name in its
/// folder, and Drive did not change since, an upload to the path only gives that file a
/// new content.
pub proof fn law_an_upload_updates_the_file_that_is_found(
    virtual_path: Seq<char>,
    segments: Seq<Seq<char>>,
    s: DriveStoreView,
    now: Timestamp,
    turns: Seq<StoreTurn>,
    replies: Seq<(DriveReplyView, Timestamp)>,
    drives: Seq<DriveFiles>,
    local_path: Seq<u8>,
    kind: PathKind,
    next_now: Timestamp,
    next_turns: Seq<StoreTurn>,
    next_replies: Seq<(DriveReplyView, Timestamp)>,
    next_drives: Seq<DriveFiles>,
)
    requires
        path_segments(normalized(virtual_path)) == Ok::<Seq<Seq<char>>, Seq<char>>(segments),
        segments.len() <= usize::MAX,
        drive_happens(turns, replies, drives),
        turns[0] == begun(s, resolve_turn(begin_resolve(normalized(virtual_path))), now),
        turns.last().1 matches Turn::Done(
            OutcomeView::Reply(DriveReplyView::MaybeFile(Ok(Some(_)))),
        ),
        at_most_one_file(
            drives.last(),
            known_end(turns.last().0, segments.drop_last()),
            segments.last(),
        ),
        kind != PathKind::Missing,
        kind != PathKind::Directory,
        drive_happens(next_turns, next_replies, next_drives),
        next_turns[0] == begun(
            turns.last().0,
            upload_turn(begin_upload(virtual_path, local_path, kind)),
            next_now,
        ),
        next_drives[0] == drives.last(),
    ensures
        turns.last().1 matches Turn::Done(
            OutcomeView::Reply(DriveReplyView::MaybeFile(Ok(Some(file)))),
        ) && file.id is Some && only_updates(
            virtual_path,
            local_path,
            file.id->0,
            next_turns,
            next_replies,
            next_drives,
        ),
{
    let folders = segments.drop_last();
    let name = segments.last();
    let n = replies.len() as int;
    lemma_resolve_stands(normalized(virtual_path), segments, s, now, turns, replies, drives, n);
    let after = turns.last().0;
    let file = turns.last().1->Done_0->Reply_0->MaybeFile_0->Ok_0->0;
    let parent_id = choose|parent_id: Seq<char>| #[trigger]
        leads_to(after, folders, parent_id) && is_child(
            drives[n],
            file.id->0,
            parent_id,
            name,
            ChildKind::File,
        );
    assert(parent_id == known_end(after, folders));
    lemma_known_upload_updates(
        virtual_path,
        segments,
        local_path,
        kind,
        after,
        parent_id,
        file.id->0,
        next_now,
        next_turns,
        next_replies,
        next_drives,
    );
}

/// Whether the folders on the known way lie in each other, and each is the only one of
/// its name where it lies.
pub open spec fn way_is_true(s: DriveStoreView, drive: DriveFiles, folders: Seq<Seq<char>>) -> bool {
    forall|i: int|
        0 <= i < folders.len() ==> is_the_folder(
            drive,
            #[trigger] known_end(s, folders.take(i + 1)),
            known_end(s, folders.take(i)),
            folders[i],
        )
}

/// Whether the folder with an identifier is the only one of its name in a folder.
pub open spec fn is_the_folder(
    files: DriveFiles,
    id: Seq<char>,
    parent_id: Seq<char>,
    name: Seq<char>,
) -> bool {
    &&& is_child(files, id, parent_id, name, ChildKind::Folder)
    &&& forall|other: Seq<char>| #[trigger]
        is_child(files, other, parent_id, name, ChildKind::Folder) ==> other == id
}

/// Where a question for metadata stands that goes along a true way. `known` is the store
/// that knows the way.
spec fn question_stands(
    path: Seq<char>,
    segments: Seq<Seq<char>>,
    known: DriveStoreView,
    file_id: Seq<char>,
    turn: StoreTurn,
) -> bool {
    match turn.1 {
        Turn::Ask(work, request) => {
            &&& work.len() == 2
            &&& work[0] == FrameView::Metadata(MetadataStage { virtual_path: path })
            &&& work[1] matches FrameView::Resolve(ResolveStage::Find { segments: g, next })
            &&& g == segments
            &&& next < segments.len()
            &&& request == StoreRequestView::FindChild {
                parent_id: known_end(known, segments.take(next as int)),
                name: segments[next as int],
                kind: if next + 1 == segments.len() {
                    ChildKind::File
                } else {
                    ChildKind::Folder
                },
            }
        },
        Turn::Done(OutcomeView::Reply(DriveReplyView::Metadata(Ok(found)))) => found matches Some(
            meta,
        ) && meta.drive_id == file_id && meta.virtual_path == path,
        Turn::Done(OutcomeView::Reply(DriveReplyView::Metadata(Err(_)))) => true,
        _ => false,
    }
}

/// A question for metadata goes on with what the way down comes to.
proof fn lemma_question_settles(
    path: Seq<char>,
    segments: Seq<Seq<char>>,
    known: DriveStoreView,
    file_id: Seq<char>,
    s: DriveStoreView,
    next: int,
    now: Timestamp,
)
    requires
        segments.len() <= usize::MAX,
        0 <= next < segments.len(),
    ensures
        question_stands(
            path,
            segments,
            known,
            file_id,
            settle(
                s,
                seq![FrameView::Metadata(MetadataStage { virtual_path: path })],
                resolve_turn(
                    resolve_from(segments, next, known_end(known, segments.take(next))),
                ),
                now,
            ),
        ),
{
    let outer = seq![FrameView::Metadata(MetadataStage { virtual_path: path })];
    let turn = resolve_from(segments, next, known_end(known, segments.take(next)));
    assert(settle(s, outer, resolve_turn(turn), now) == (
        s,
        WorkTurnView::Ask(outer.push(FrameView::Resolve(turn->Ask_0)), turn->Ask_1),
    ));
}

/// A question for metadata ends with what the way down comes to.
proof fn lemma_question_ends(
    path: Seq<char>,
    s: DriveStoreView,
    r: Result<Option<DriveFileView>, Seq<char>>,
    now: Timestamp,
)
    ensures
        settle(
            s,
            seq![FrameView::Metadata(MetadataStage { virtual_path: path })],
            Turn::Done(OutcomeView::Reply(DriveReplyView::MaybeFile(r))),
            now,
        ) == (
            s,
            WorkTurnView::Done(
                OutcomeView::Reply(
                    DriveReplyView::Metadata(
                        metadata_step(path, DriveReplyView::MaybeFile(r), now)->Done_0,
                    ),
                ),
            ),
        ),
{
    let outer = seq![FrameView::Metadata(MetadataStage { virtual_path: path })];
    let empty = Seq::<FrameView>::empty();
    let reply = DriveReplyView::MaybeFile(r);
    assert(outer.drop_last() == empty);
    assert(settle(s, outer, Turn::Done(OutcomeView::Reply(reply)), now) == settle(
        s,
        empty,
        metadata_turn(metadata_step(path, reply, now)),
        now,
    ));
}

/// How a question for metadata begins in a store that knows the sandbox.
proof fn lemma_question_begins(
    virtual_path: Seq<char>,
    segments: Seq<Seq<char>>,
    file_id: Seq<char>,
    s: DriveStoreView,
    now: Timestamp,
)
    requires
        path_segments(normalized(virtual_path)) == Ok::<Seq<Seq<char>>, Seq<char>>(segments),
        0 < segments.len() <= usize::MAX,
        s.sandbox_id is Some,
    ensures
        question_stands(
            normalized(virtual_path),
            segments,
            s,
            file_id,
            begun(s, metadata_turn(begin_metadata(virtual_path)), now),
        ),
{
    let path = normalized(virtual_path);
    let id = s.sandbox_id->0;
    let empty = Seq::<FrameView>::empty();
    let outer = FrameView::Metadata(MetadataStage { virtual_path: path });
    let stage = ResolveStage::Sandbox { segments };
    let inner = FrameView::Resolve(stage);
    assert(empty.push(outer) == seq![outer]);
    assert(begun(s, metadata_turn(begin_metadata(virtual_path)), now) == settle(
        s,
        seq![outer],
        resolve_turn(begin_resolve(path)),
        now,
    ));
    assert(seq![outer].push(inner) == seq![outer, inner]);
    assert(settle(s, seq![outer], resolve_turn(begin_resolve(path)), now) == settle(
        s,
        seq![outer, inner],
        sandbox_turn(begin_sandbox(s)),
        now,
    ));
    assert(seq![outer, inner].drop_last() == seq![outer]);
    assert(settle(s, seq![outer, inner], sandbox_turn(begin_sandbox(s)), now) == settle(
        s,
        seq![outer],
        resolve_turn(resolve_from(segments, 0, id)),
        now,
    ));
    assert(segments.take(0).len() == 0);
    lemma_question_settles(path, segments, s, file_id, s, 0, now);
}

/// A step of a question for metadata along a true way.
proof fn lemma_question_step(
    path: Seq<char>,
    segments: Seq<Seq<char>>,
    known: DriveStoreView,
    file_id: Seq<char>,
    drive: DriveFiles,
    turn: StoreTurn,
    reply: DriveReplyView,
    now: Timestamp,
    after: DriveFiles,
)
    requires
        0 < segments.len() <= usize::MAX,
        way_is_true(known, drive, segments.drop_last()),
        is_the_file(
            drive,
            file_id,
            known_end(known, segments.drop_last()),
            segments.last(),
        ),
        question_stands(path, segments, known, file_id, turn),
        turn.1 is Ask,
        drive_answers(drive, turn.1->Ask_1, reply, after),
    ensures
        after == drive,
        question_stands(
            path,
            segments,
            known,
            file_id,
            resume(turn.0, turn.1->Ask_0, reply, now),
        ),
{
    let s = turn.0;
    let work = turn.1->Ask_0;
    let folders = segments.drop_last();
    let outer = FrameView::Metadata(MetadataStage { virtual_path: path });
    let stage = work[1]->Resolve_0;
    let n = stage->Find_next;
    let here = known_end(known, segments.take(n as int));
    let (then, next) = resolve_step(s, stage, reply);
    assert(work.drop_last() == seq![outer]);
    assert(resume(s, work, reply, now) == settle(then, seq![outer], resolve_turn(next), now));
    if n < folders.len() {
        let there = known_end(known, folders.take(n + 1));
        assert(folders.take(n as int) == segments.take(n as int));
        assert(folders.take(n + 1) == segments.take(n + 1));
        assert(is_the_folder(drive, there, here, segments[n as int]));
        if let DriveReplyView::MaybeFile(Ok(found)) = reply {
            if let Some(folder) = found {
                assert(is_child(
                    drive,
                    folder.id->0,
                    here,
                    segments[n as int],
                    ChildKind::Folder,
                ));
                assert(folder.id == Some(there));
                lemma_question_settles(path, segments, known, file_id, then, n + 1, now);
            } else {
                assert(no_child(drive, here, segments[n as int], ChildKind::Folder));
                assert(is_child(drive, there, here, segments[n as int], ChildKind::Folder));
            }
        } else {
            lemma_question_ends(path, then, next->Done_0, now);
        }
    } else {
        assert(segments.take(n as int) == folders);
        if let DriveReplyView::MaybeFile(Ok(found)) = reply {
            if let Some(file) = found {
                assert(is_child(drive, file.id->0, here, segments.last(), ChildKind::File));
                assert(is_child(drive, file_id, here, segments.last(), ChildKind::File));
                assert(file.id == Some(file_id));
            } else {
                assert(no_child(drive, here, segments.last(), ChildKind::File));
                assert(is_child(drive, file_id, here, segments.last(), ChildKind::File));
            }
        }
        lemma_question_ends(path, then, next->Done_0, now);
    }
}

/// A question for metadata goes on along a true way.
proof fn lemma_question_stands(
    virtual_path: Seq<char>,
    segments: Seq<Seq<char>>,
    s: DriveStoreView,
    file_id: Seq<char>,
    now: Timestamp,
    turns: Seq<StoreTurn>,
    replies: Seq<(DriveReplyView, Timestamp)>,
    drives: Seq<DriveFiles>,
    n: int,
)
    requires
        path_segments(normalized(virtual_path)) == Ok::<Seq<Seq<char>>, Seq<char>>(segments),
        0 < segments.len() <= usize::MAX,
        s.sandbox_id is Some,
        way_is_true(s, drives[0], segments.drop_last()),
        is_the_file(
            drives[0],
            file_id,
            known_end(s, segments.drop_last()),
            segments.last(),
        ),
        drive_happens(turns, replies, drives),
        turns[0] == begun(s, metadata_turn(begin_metadata(virtual_path)), now),
        0 <= n <= replies.len(),
    ensures
        drives[n] == drives[0],
        question_stands(normalized(virtual_path), segments, s, file_id, turns[n]),
    decreases n,
{
    if n == 0 {
        lemma_question_begins(virtual_path, segments, file_id, s, now);
    } else {
        let k = n - 1;
        lemma_question_stands(
            virtual_path,
            segments,
            s,
            file_id,
            now,
            turns,
            replies,
            drives,
            k,
        );
        assert(drive_follows_at(turns, replies, drives, k));
        lemma_question_step(
            normalized(virtual_path),
            segments,
            s,
            file_id,
            drives[k],
            turns[k],
            replies[k].0,
            replies[k].1,
            drives[n],
        );
    }
}

/// A file that was uploaded is found again: where an upload went well, there was at most
/// one file of that name in its folder before, the folders on the way are the only ones of
/// their names, and Drive did not change since, a question for what is known of the file
/// asks Drive for children alone, and tells of the file that was uploaded, unless it fails.
pub proof fn law_uploaded_files_are_found_again(
    virtual_path: Seq<char>,
    segments: Seq<Seq<char>>,
    local_path: Seq<u8>,
    kind: PathKind,
    s: DriveStoreView,
    now: Timestamp,
    turns: Seq<StoreTurn>,
    replies: Seq<(DriveReplyView, Timestamp)>,
    drives: Seq<DriveFiles>,
    next_now: Timestamp,
    next_turns: Seq<StoreTurn>,
    next_replies: Seq<(DriveReplyView, Timestamp)>,
    next_drives: Seq<DriveFiles>,
)
    requires
        path_segments(normalized(virtual_path)) == Ok::<Seq<Seq<char>>, Seq<char>>(segments),
        segments.len() <= usize::MAX,
        drive_happens(turns, replies, drives),
        turns[0] == begun(s, upload_turn(begin_upload(virtual_path, local_path, kind)), now),
        turns.last().1 matches Turn::Done(OutcomeView::Stored(Ok(_))),
        at_most_one_file(
            drives[0],
            known_end(turns.last().0, segments.drop_last()),
            segments.last(),
        ),
        way_is_true(turns.last().0, drives.last(), segments.drop_last()),
        drive_happens(next_turns, next_replies, next_drives),
        next_turns[0] == begun(
            turns.last().0,
            metadata_turn(begin_metadata(virtual_path)),
            next_now,
        ),
        next_drives[0] == drives.last(),
    ensures
        forall|i: int|
            0 <= i < next_turns.len() ==> ((#[trigger] next_turns[i]).1 matches Turn::Ask(
                _,
                request,
            ) ==> request is FindChild),
        next_drives.last() == drives.last(),
        next_turns.last().1 matches Turn::Done(outcome) ==> match outcome {
            OutcomeView::Reply(DriveReplyView::Metadata(Ok(found))) => found matches Some(meta)
                && meta.drive_id == turns.last().1->Done_0->Stored_0->Ok_0.drive_id
                && meta.virtual_path == normalized(virtual_path),
            OutcomeView::Reply(DriveReplyView::Metadata(Err(_))) => true,
            _ => false,
        },
{
    let folders = segments.drop_last();
    let name = segments.last();
    let n = replies.len() as int;
    lemma_upload_stands(
        virtual_path,
        segments,
        local_path,
        kind,
        s,
        now,
        turns,
        replies,
        drives,
        n,
    );
    let after = turns.last().0;
    let id = turns.last().1->Done_0->Stored_0->Ok_0.drive_id;
    let parent_id = choose|parent_id: Seq<char>| #[trigger]
        leads_to(after, folders, parent_id) && is_child(
            drives[n],
            id,
            parent_id,
            name,
            ChildKind::File,
        ) && (at_most_one_file(drives[0], parent_id, name) ==> at_most_one_file(
            drives[n],
            parent_id,
            name,
        ));
    assert(parent_id == known_end(after, folders));
    assert forall|i: int| 0 <= i < next_turns.len() implies ((#[trigger] next_turns[i]).1 matches Turn::Ask(
        _,
        request,
    ) ==> request is FindChild) by {
        lemma_question_stands(
            virtual_path,
            segments,
            after,
            id,
            next_now,
            next_turns,
            next_replies,
            next_drives,
            i,
        );
    }
    lemma_question_stands(
        virtual_path,
        segments,
        after,
        id,
        next_now,
        next_turns,
        next_replies,
        next_drives,
        next_replies.len() as int,
    );
}

} // verus!
