//! How the machines of the Drive store work together: each goes on by its own step, with
//! what the machines inside of it come to.
use vstd::prelude::*;

use crate::events::RemoteChangeView;
use crate::remote::google_drive::changes::{
    begin_translate, path_step, poll_step, translate_step, PathStage, PollStage,
    TranslateStage,
};
use crate::remote::google_drive::folders::{begin_chain, begin_resolve, DriveStoreView};
use crate::remote::google_drive::machines::{folder_above, leads_up, names_down};
use crate::remote::google_drive::protocol::{
    ChangePageView, DriveReplyView, DriveRequest, StoreRequestView, Turn,
};
use crate::remote::google_drive::transfers::{
    begin_metadata, download_step, metadata_step, rename_step, trash_step, upload_step,
    DownloadStage, MetadataStage, RenameStage, TrashStage, UploadStage,
};
use crate::remote::google_drive::work::{
    begun, frame_step, law_inner_work_answers_the_machine_around_it, resume, settle, FrameTurnView,
    FrameView, OutcomeView, WorkTurnView,
};
use crate::remote::google_drive::{DriveChangeView, DriveFileView, Timestamp};
use crate::text::joined;
use crate::virtual_path::normalized;

verus! {

/// Whether work with a machine at its bottom goes on as that machine's step says: as long as
/// a machine inside of it works, it waits; what those come to is the reply that it goes on
/// with.
pub open spec fn works_as(
    s: DriveStoreView,
    frame: FrameView,
    inner: Seq<FrameView>,
    reply: DriveReplyView,
    now: Timestamp,
    step: spec_fn(DriveReplyView) -> FrameTurnView,
) -> bool {
    resume(s, seq![frame] + inner, reply, now) == match resume(s, inner, reply, now) {
        (after, Turn::Ask(work, request)) => (after, Turn::Ask(seq![frame] + work, request)),
        (after, Turn::Done(OutcomeView::Reply(told))) => begun(after, step(told), now),
        (after, Turn::Done(outcome)) => (after, Turn::Done(outcome)),
    }
}

/// Work goes on as the step of the machine at its bottom says, where that does not change
/// the store.
proof fn lemma_works_as(
    s: DriveStoreView,
    frame: FrameView,
    inner: Seq<FrameView>,
    reply: DriveReplyView,
    now: Timestamp,
    step: spec_fn(DriveReplyView) -> FrameTurnView,
)
    requires
        forall|after: DriveStoreView, told: DriveReplyView|
            #[trigger] frame_step(after, frame, told, now) == (after, step(told)),
    ensures
        works_as(s, frame, inner, reply, now, step),
{
    let outer = seq![frame];
    law_inner_work_answers_the_machine_around_it(
        s,
        outer,
        inner,
        Turn::Done(OutcomeView::Reply(reply)),
        now,
    );
    match resume(s, inner, reply, now) {
        (after, Turn::Done(OutcomeView::Reply(told))) => {
            assert(outer.last() == frame);
            assert(outer.drop_last() == Seq::<FrameView>::empty());
            assert(frame_step(after, frame, told, now) == (after, step(told)));
            assert(resume(after, outer, told, now) == settle(
                after,
                Seq::empty(),
                step(told),
                now,
            ));
        },
        _ => {},
    }
}

/// An upload through the store goes on as its own step says, and ends with what that comes
/// to.
pub proof fn law_uploads_work_through_the_store(
    s: DriveStoreView,
    stage: UploadStage<Seq<u8>, Seq<char>>,
    inner: Seq<FrameView>,
    reply: DriveReplyView,
    now: Timestamp,
)
    ensures
        works_as(
            s,
            FrameView::Upload(stage),
            inner,
            reply,
            now,
            |told: DriveReplyView|
                match upload_step(stage, told, now) {
                    Turn::Ask(next, request) => Turn::Ask(FrameView::Upload(next), request),
                    Turn::Done(r) => Turn::Done(OutcomeView::Stored(r)),
                },
        ),
{
    let step = |told: DriveReplyView|
        match upload_step(stage, told, now) {
            Turn::Ask(next, request) => Turn::Ask(FrameView::Upload(next), request),
            Turn::Done(r) => Turn::Done(OutcomeView::Stored(r)),
        };
    lemma_works_as(s, FrameView::Upload(stage), inner, reply, now, step);
}

/// So does a download.
pub proof fn law_downloads_work_through_the_store(
    s: DriveStoreView,
    stage: DownloadStage<Seq<u8>, Seq<char>, DriveFileView, Seq<u8>>,
    inner: Seq<FrameView>,
    reply: DriveReplyView,
    now: Timestamp,
)
    ensures
        works_as(
            s,
            FrameView::Download(stage),
            inner,
            reply,
            now,
            |told: DriveReplyView|
                match download_step(stage, told, now) {
                    Turn::Ask(next, request) => Turn::Ask(FrameView::Download(next), request),
                    Turn::Done(r) => Turn::Done(OutcomeView::Stored(r)),
                },
        ),
{
    let step = |told: DriveReplyView|
        match download_step(stage, told, now) {
            Turn::Ask(next, request) => Turn::Ask(FrameView::Download(next), request),
            Turn::Done(r) => Turn::Done(OutcomeView::Stored(r)),
        };
    lemma_works_as(s, FrameView::Download(stage), inner, reply, now, step);
}

/// So does a rename.
pub proof fn law_renames_work_through_the_store(
    s: DriveStoreView,
    stage: RenameStage<Seq<char>>,
    inner: Seq<FrameView>,
    reply: DriveReplyView,
    now: Timestamp,
)
    ensures
        works_as(
            s,
            FrameView::Rename(stage),
            inner,
            reply,
            now,
            |told: DriveReplyView|
                match rename_step(stage, told, now) {
                    Turn::Ask(next, request) => Turn::Ask(FrameView::Rename(next), request),
                    Turn::Done(r) => Turn::Done(OutcomeView::Stored(r)),
                },
        ),
{
    let step = |told: DriveReplyView|
        match rename_step(stage, told, now) {
            Turn::Ask(next, request) => Turn::Ask(FrameView::Rename(next), request),
            Turn::Done(r) => Turn::Done(OutcomeView::Stored(r)),
        };
    lemma_works_as(s, FrameView::Rename(stage), inner, reply, now, step);
}

/// So does a move to the trash.
pub proof fn law_trashing_works_through_the_store(
    s: DriveStoreView,
    stage: TrashStage<Seq<char>>,
    inner: Seq<FrameView>,
    reply: DriveReplyView,
    now: Timestamp,
)
    ensures
        works_as(
            s,
            FrameView::Trash(stage),
            inner,
            reply,
            now,
            |told: DriveReplyView|
                match trash_step(stage, told) {
                    Turn::Ask(next, request) => Turn::Ask(FrameView::Trash(next), request),
                    Turn::Done(r) => Turn::Done(OutcomeView::Reply(DriveReplyView::Done(r))),
                },
        ),
{
    let step = |told: DriveReplyView|
        match trash_step(stage, told) {
            Turn::Ask(next, request) => Turn::Ask(FrameView::Trash(next), request),
            Turn::Done(r) => Turn::Done(OutcomeView::Reply(DriveReplyView::Done(r))),
        };
    lemma_works_as(s, FrameView::Trash(stage), inner, reply, now, step);
}

/// So does a question for metadata.
pub proof fn law_questions_work_through_the_store(
    s: DriveStoreView,
    stage: MetadataStage<Seq<char>>,
    inner: Seq<FrameView>,
    reply: DriveReplyView,
    now: Timestamp,
)
    ensures
        works_as(
            s,
            FrameView::Metadata(stage),
            inner,
            reply,
            now,
            |told: DriveReplyView|
                match metadata_step(stage.virtual_path, told, now) {
                    Turn::Ask(next, request) => Turn::Ask(FrameView::Metadata(next), request),
                    Turn::Done(r) => Turn::Done(OutcomeView::Reply(DriveReplyView::Metadata(r))),
                },
        ),
{
    let step = |told: DriveReplyView|
        match metadata_step(stage.virtual_path, told, now) {
            Turn::Ask(next, request) => Turn::Ask(FrameView::Metadata(next), request),
            Turn::Done(r) => Turn::Done(OutcomeView::Reply(DriveReplyView::Metadata(r))),
        };
    lemma_works_as(s, FrameView::Metadata(stage), inner, reply, now, step);
}

/// So does a poll.
pub proof fn law_polls_work_through_the_store(
    s: DriveStoreView,
    stage: PollStage<Seq<char>, Seq<RemoteChangeView>, ChangePageView, int>,
    inner: Seq<FrameView>,
    reply: DriveReplyView,
    now: Timestamp,
)
    ensures
        works_as(
            s,
            FrameView::Poll(stage),
            inner,
            reply,
            now,
            |told: DriveReplyView|
                match poll_step(stage, told) {
                    Turn::Ask(next, request) => Turn::Ask(FrameView::Poll(next), request),
                    Turn::Done(r) => Turn::Done(OutcomeView::Polled(r)),
                },
        ),
{
    let step = |told: DriveReplyView|
        match poll_step(stage, told) {
            Turn::Ask(next, request) => Turn::Ask(FrameView::Poll(next), request),
            Turn::Done(r) => Turn::Done(OutcomeView::Polled(r)),
        };
    lemma_works_as(s, FrameView::Poll(stage), inner, reply, now, step);
}

/// So does finding out what a change means.
pub proof fn law_translating_works_through_the_store(
    s: DriveStoreView,
    stage: TranslateStage<Seq<char>, DriveFileView>,
    inner: Seq<FrameView>,
    reply: DriveReplyView,
    now: Timestamp,
)
    ensures
        works_as(
            s,
            FrameView::Translate(stage),
            inner,
            reply,
            now,
            |told: DriveReplyView|
                match translate_step(stage, told, now) {
                    Turn::Ask(next, request) => Turn::Ask(FrameView::Translate(next), request),
                    Turn::Done(r) => Turn::Done(OutcomeView::Reply(DriveReplyView::Change(r))),
                },
        ),
{
    let step = |told: DriveReplyView|
        match translate_step(stage, told, now) {
            Turn::Ask(next, request) => Turn::Ask(FrameView::Translate(next), request),
            Turn::Done(r) => Turn::Done(OutcomeView::Reply(DriveReplyView::Change(r))),
        };
    lemma_works_as(s, FrameView::Translate(stage), inner, reply, now, step);
}

/// So does the way up from a file.
pub proof fn law_the_way_up_works_through_the_store(
    s: DriveStoreView,
    stage: PathStage<Seq<char>, Seq<Seq<char>>>,
    inner: Seq<FrameView>,
    reply: DriveReplyView,
    now: Timestamp,
)
    ensures
        works_as(
            s,
            FrameView::Path(stage),
            inner,
            reply,
            now,
            |told: DriveReplyView|
                match path_step(stage, told) {
                    Turn::Ask(next, request) => Turn::Ask(FrameView::Path(next), request),
                    Turn::Done(r) => Turn::Done(OutcomeView::Reply(DriveReplyView::MaybeText(r))),
                },
        ),
{
    let step = |told: DriveReplyView|
        match path_step(stage, told) {
            Turn::Ask(next, request) => Turn::Ask(FrameView::Path(next), request),
            Turn::Done(r) => Turn::Done(OutcomeView::Reply(DriveReplyView::MaybeText(r))),
        };
    lemma_works_as(s, FrameView::Path(stage), inner, reply, now, step);
}

/// Whether the turns of work follow each other, each by the reply to what was asked outside
/// before, at its time.
pub open spec fn works(
    turns: Seq<(DriveStoreView, WorkTurnView)>,
    replies: Seq<(DriveReplyView, Timestamp)>,
) -> bool {
    &&& turns.len() == replies.len() + 1
    &&& forall|i: int| 0 <= i < replies.len() ==> #[trigger] works_at(turns, replies, i)
}

/// Whether the turn after the one with the given index follows from it.
pub open spec fn works_at(
    turns: Seq<(DriveStoreView, WorkTurnView)>,
    replies: Seq<(DriveReplyView, Timestamp)>,
    i: int,
) -> bool {
    &&& turns[i].1 is Ask
    &&& turns[i + 1] == resume(turns[i].0, turns[i].1->Ask_0, replies[i].0, replies[i].1)
}

/// The names from the file up to the folder with the given index.
spec fn names_so_far(file: DriveFileView, folders: Seq<DriveFileView>, k: int) -> Seq<Seq<char>> {
    Seq::new(
        (k + 1) as nat,
        |i: int|
            if i == 0 {
                file.name->0
            } else {
                folders[i - 1].name->0
            },
    )
}

/// The machine that waits for what Drive knows of the folder with the given index.
spec fn at_folder(
    sandbox_id: Seq<char>,
    file: DriveFileView,
    ids: Seq<Seq<char>>,
    folders: Seq<DriveFileView>,
    k: int,
) -> FrameView {
    FrameView::Path(
        PathStage::Parent {
            sandbox_id,
            names: names_so_far(file, folders, k),
            visited: ids.take(k + 1),
        },
    )
}

/// The remote path that the names from the sandbox down to the file make, if any.
spec fn joined_path(file: DriveFileView, folders: Seq<DriveFileView>) -> Option<Seq<char>> {
    let path = normalized(joined(names_down(file, folders), '/'));
    if path.len() > 0 {
        Some(path)
    } else {
        None
    }
}

/// What the way up comes to after `k` folders: the next request or its end.
spec fn way_after(
    s: DriveStoreView,
    outer: Seq<FrameView>,
    sandbox_id: Seq<char>,
    file: DriveFileView,
    ids: Seq<Seq<char>>,
    folders: Seq<DriveFileView>,
    k: int,
    now: Timestamp,
) -> (DriveStoreView, WorkTurnView) {
    if k < ids.len() {
        (
            s,
            Turn::Ask(
                outer.push(at_folder(sandbox_id, file, ids, folders, k)),
                DriveRequest::Fetch(ids[k]),
            ),
        )
    } else {
        resume(s, outer, DriveReplyView::MaybeText(Ok(joined_path(file, folders))), now)
    }
}

/// No folder on the way was come to before.
proof fn lemma_not_visited(sandbox_id: Seq<char>, ids: Seq<Seq<char>>, k: int)
    requires
        ids.no_duplicates(),
        !ids.contains(sandbox_id),
        0 <= k < ids.len(),
    ensures
        ids[k] != sandbox_id,
        !ids.take(k).contains(ids[k]),
        ids.take(k).push(ids[k]) == ids.take(k + 1),
{
    assert(ids.contains(ids[k]));
    let before = ids.take(k);
    if before.contains(ids[k]) {
        let j = choose|j: int| 0 <= j < before.len() && before[j] == ids[k];
        assert(ids[j] == ids[k]);
    }
}

/// The way up through the store begins at the first folder.
proof fn lemma_way_begins(
    s: DriveStoreView,
    stack: Seq<FrameView>,
    frame: FrameView,
    sandbox_id: Seq<char>,
    file: DriveFileView,
    ids: Seq<Seq<char>>,
    folders: Seq<DriveFileView>,
    now: Timestamp,
)
    requires
        s.sandbox_id == Some(sandbox_id),
        file.name is Some,
        file.name->0.len() > 0,
        leads_up(sandbox_id, file, ids, folders),
    ensures
        settle(s, stack, Turn::Ask(frame, DriveRequest::PathOf(file)), now) == way_after(
            s,
            stack.push(frame),
            sandbox_id,
            file,
            ids,
            folders,
            0,
            now,
        ),
{
    let outer = stack.push(frame);
    let names = seq![file.name->0];
    let stage = PathStage::Sandbox { names, parent: file.parent() };
    let waiting = FrameView::Path(stage);
    let first = folder_above(sandbox_id, ids, 0);
    assert(settle(s, stack, Turn::Ask(frame, DriveRequest::PathOf(file)), now) == settle(
        s,
        outer,
        Turn::Ask(waiting, DriveRequest::SandboxId),
        now,
    ));
    let told = DriveReplyView::Text(Ok(sandbox_id));
    assert(settle(s, outer, Turn::Ask(waiting, DriveRequest::SandboxId), now) == settle(
        s,
        outer.push(waiting),
        Turn::Done(OutcomeView::Reply(told)),
        now,
    ));
    assert(outer.push(waiting).last() == waiting);
    assert(outer.push(waiting).drop_last() == outer);
    assert(names_so_far(file, folders, 0) == names);
    let (after, next) = frame_step(s, waiting, told, now);
    assert(settle(s, outer.push(waiting), Turn::Done(OutcomeView::Reply(told)), now) == settle(
        after,
        outer,
        next,
        now,
    ));
    if ids.len() > 0 {
        lemma_not_visited(sandbox_id, ids, 0);
        assert(ids.take(0) == Seq::<Seq<char>>::empty());
        assert(Seq::<Seq<char>>::empty().push(ids[0]) == ids.take(1));
        assert(next == FrameTurnView::Ask(
            at_folder(sandbox_id, file, ids, folders, 0),
            DriveRequest::Fetch(ids[0]),
        ));
    } else {
        assert(names.reverse() == names_down(file, folders));
        assert(next == FrameTurnView::Done(
            OutcomeView::Reply(DriveReplyView::MaybeText(Ok(joined_path(file, folders)))),
        ));
    }
}

/// The way up through the store goes on from a folder to the next one.
proof fn lemma_way_goes_on(
    s: DriveStoreView,
    outer: Seq<FrameView>,
    sandbox_id: Seq<char>,
    file: DriveFileView,
    ids: Seq<Seq<char>>,
    folders: Seq<DriveFileView>,
    k: int,
    now: Timestamp,
)
    requires
        file.name is Some,
        leads_up(sandbox_id, file, ids, folders),
        0 <= k < ids.len(),
    ensures
        resume(
            s,
            outer.push(at_folder(sandbox_id, file, ids, folders, k)),
            DriveReplyView::MaybeFile(Ok(Some(folders[k]))),
            now,
        ) == way_after(s, outer, sandbox_id, file, ids, folders, k + 1, now),
{
    let waiting = at_folder(sandbox_id, file, ids, folders, k);
    let told = DriveReplyView::MaybeFile(Ok(Some(folders[k])));
    assert(outer.push(waiting).last() == waiting);
    assert(outer.push(waiting).drop_last() == outer);
    let (after, next) = frame_step(s, waiting, told, now);
    assert(resume(s, outer.push(waiting), told, now) == settle(after, outer, next, now));
    assert(names_so_far(file, folders, k).push(folders[k].name->0) == names_so_far(
        file,
        folders,
        k + 1,
    ));
    if k + 1 < ids.len() {
        lemma_not_visited(sandbox_id, ids, k + 1);
        assert(next == FrameTurnView::Ask(
            at_folder(sandbox_id, file, ids, folders, k + 1),
            DriveRequest::Fetch(ids[k + 1]),
        ));
    } else {
        assert(names_so_far(file, folders, k + 1).reverse() == names_down(file, folders));
        assert(next == FrameTurnView::Done(
            OutcomeView::Reply(DriveReplyView::MaybeText(Ok(joined_path(file, folders)))),
        ));
    }
}

/// Where work of the store asks for the remote path of a file, and folders lead from the
/// sandbox down to the file, each folder is asked of Drive, and the work then goes on with
/// the path that joins the names of all of them and of the file: no folder is left out.
pub proof fn law_the_store_tells_the_whole_path(
    s: DriveStoreView,
    stack: Seq<FrameView>,
    frame: FrameView,
    sandbox_id: Seq<char>,
    file: DriveFileView,
    ids: Seq<Seq<char>>,
    folders: Seq<DriveFileView>,
    turns: Seq<(DriveStoreView, WorkTurnView)>,
    replies: Seq<(DriveReplyView, Timestamp)>,
    now: Timestamp,
)
    requires
        s.sandbox_id == Some(sandbox_id),
        file.name is Some,
        file.name->0.len() > 0,
        leads_up(sandbox_id, file, ids, folders),
        works(turns, replies),
        turns[0] == settle(s, stack, Turn::Ask(frame, DriveRequest::PathOf(file)), now),
        replies.len() == folders.len(),
        forall|i: int|
            0 <= i < folders.len() ==> (#[trigger] replies[i]).0 == DriveReplyView::MaybeFile(
                Ok(Some(folders[i])),
            ),
    ensures
        forall|i: int|
            0 <= i < folders.len() ==> (#[trigger] turns[i]).1 is Ask && turns[i].1->Ask_1
                == StoreRequestView::Fetch(ids[i]),
        ({
            let path = normalized(joined(names_down(file, folders), '/'));
            turns.last() == resume(
                s,
                stack.push(frame),
                DriveReplyView::MaybeText(
                    Ok(
                        if path.len() > 0 {
                            Some(path)
                        } else {
                            None
                        },
                    ),
                ),
                if replies.len() == 0 {
                    now
                } else {
                    replies.last().1
                },
            )
        }),
{
    let n = folders.len() as int;
    assert forall|i: int| 0 <= i < n implies (#[trigger] turns[i]).1 is Ask && turns[i].1->Ask_1
        == StoreRequestView::Fetch(ids[i]) by {
        lemma_way_at(s, stack, frame, sandbox_id, file, ids, folders, turns, replies, now, i);
    }
    lemma_way_at(s, stack, frame, sandbox_id, file, ids, folders, turns, replies, now, n);
}

/// The turns of the way up.
proof fn lemma_way_at(
    s: DriveStoreView,
    stack: Seq<FrameView>,
    frame: FrameView,
    sandbox_id: Seq<char>,
    file: DriveFileView,
    ids: Seq<Seq<char>>,
    folders: Seq<DriveFileView>,
    turns: Seq<(DriveStoreView, WorkTurnView)>,
    replies: Seq<(DriveReplyView, Timestamp)>,
    now: Timestamp,
    k: int,
)
    requires
        s.sandbox_id == Some(sandbox_id),
        file.name is Some,
        file.name->0.len() > 0,
        leads_up(sandbox_id, file, ids, folders),
        works(turns, replies),
        turns[0] == settle(s, stack, Turn::Ask(frame, DriveRequest::PathOf(file)), now),
        replies.len() == folders.len(),
        forall|i: int|
            0 <= i < folders.len() ==> (#[trigger] replies[i]).0 == DriveReplyView::MaybeFile(
                Ok(Some(folders[i])),
            ),
        0 <= k <= folders.len(),
    ensures
        turns[k] == way_after(
            s,
            stack.push(frame),
            sandbox_id,
            file,
            ids,
            folders,
            k,
            if k == 0 {
                now
            } else {
                replies[k - 1].1
            },
        ),
    decreases k,
{
    if k == 0 {
        lemma_way_begins(s, stack, frame, sandbox_id, file, ids, folders, now);
    } else {
        lemma_way_at(s, stack, frame, sandbox_id, file, ids, folders, turns, replies, now, k - 1);
        assert(works_at(turns, replies, k - 1));
        assert(replies[k - 1].0 == DriveReplyView::MaybeFile(Ok(Some(folders[k - 1]))));
        lemma_way_goes_on(
            s,
            stack.push(frame),
            sandbox_id,
            file,
            ids,
            folders,
            k - 1,
            replies[k - 1].1,
        );
    }
}

/// What work asks of another machine of the store is begun by that machine, with the one
/// that asked waiting: the meaning of a change, what is known of the file at a path, the
/// file at a path, and the folder that names lead to.
pub proof fn law_requests_begin_their_machines(
    s: DriveStoreView,
    stack: Seq<FrameView>,
    frame: FrameView,
    change: DriveChangeView,
    path: Seq<char>,
    folders: Seq<Seq<char>>,
    now: Timestamp,
)
    ensures
        settle(s, stack, Turn::Ask(frame, DriveRequest::Translate(change)), now) == settle(
            s,
            stack.push(frame),
            match begin_translate(change) {
                Turn::Ask(stage, request) => Turn::Ask(FrameView::Translate(stage), request),
                Turn::Done(r) => Turn::Done(OutcomeView::Reply(DriveReplyView::Change(r))),
            },
            now,
        ),
        settle(s, stack, Turn::Ask(frame, DriveRequest::GetMetadata(path)), now) == settle(
            s,
            stack.push(frame),
            match begin_metadata(path) {
                Turn::Ask(stage, request) => Turn::Ask(FrameView::Metadata(stage), request),
                Turn::Done(r) => Turn::Done(OutcomeView::Reply(DriveReplyView::Metadata(r))),
            },
            now,
        ),
        settle(s, stack, Turn::Ask(frame, DriveRequest::Resolve(path)), now) == settle(
            s,
            stack.push(frame),
            match begin_resolve(path) {
                Turn::Ask(stage, request) => Turn::Ask(FrameView::Resolve(stage), request),
                Turn::Done(r) => Turn::Done(OutcomeView::Reply(DriveReplyView::MaybeFile(r))),
            },
            now,
        ),
        settle(s, stack, Turn::Ask(frame, DriveRequest::FolderChain(folders)), now) == settle(
            s,
            stack.push(frame),
            match begin_chain(folders) {
                Turn::Ask(stage, request) => Turn::Ask(FrameView::Chain(stage), request),
                Turn::Done(r) => Turn::Done(OutcomeView::Reply(DriveReplyView::Text(r))),
            },
            now,
        ),
{
}

} // verus!
