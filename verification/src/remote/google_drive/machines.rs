//! What the work of the Drive store comes to, from its first request to its end.
use vstd::prelude::*;

use crate::config::PathKind;
use crate::events::{RemoteChangeView, RemoteFileMetaView};
use crate::hash_utils::rfc3339_text;
use crate::path::parent_of;
use crate::remote::google_drive::changes::{
    begin_path, begin_poll, begin_translate, climb, path_step, poll_step, translate_step, PathStage,
    PathTurnView, PollStage, PollTurnView, TranslateStage, TranslateTurnView,
};
use crate::remote::google_drive::folders::{
    begin_sandbox, chain_step, resolve_step, sandbox_step, ChainStage, DriveStoreView, ResolveStage,
    SandboxStage, SandboxTurnView,
};
use crate::remote::google_drive::protocol::{
    ChangePageView, DriveReplyView, DriveRequest, StoreRequestView, Turn, UploadFailure,
    UNEXPECTED_DRIVE_REPLY,
};
use crate::remote::google_drive::transfers::{
    begin_download, begin_metadata, begin_rename, begin_trash, begin_upload, download_step,
    metadata_step, open_failed_text, rename_step, trash_step, upload_failed_text, upload_step,
    DownloadStage, DownloadTurnView,
    MetadataStage, MetadataTurnView, RenameStage, RenameTurnView, TrashStage, TrashTurnView,
    UploadStage, UploadTurnView,
};
use crate::remote::google_drive::{
    child_query_text, escaped, law_escaped_text_reads_back, path_segments, read_literal, ChildKind,
    DriveChangeView, DriveFailureKind, DriveFileView, Timestamp, FOLDER_MIME_TYPE,
};
use crate::text::{joined, split_on, trimmed, CharClass};
use crate::virtual_path::{
    law_normalize_is_idempotent, law_normalized_splits_into_segments, law_segments_are_proper,
    lemma_normalized_names, name_segments, normalized, proper,
};

verus! {

/// Whether the turn after the one with the given index follows from it, by the reply
/// to what it asks.
pub open spec fn goes_at<S, O>(
    step: spec_fn(S, DriveReplyView, Timestamp) -> Turn<S, StoreRequestView, O>,
    turns: Seq<Turn<S, StoreRequestView, O>>,
    replies: Seq<(DriveReplyView, Timestamp)>,
    i: int,
) -> bool {
    &&& turns[i] is Ask
    &&& turns[i + 1] == step(turns[i]->Ask_0, replies[i].0, replies[i].1)
}

/// Whether the turns of a machine follow each other, each by the reply to what was
/// asked before, at its time.
pub open spec fn goes<S, O>(
    step: spec_fn(S, DriveReplyView, Timestamp) -> Turn<S, StoreRequestView, O>,
    turns: Seq<Turn<S, StoreRequestView, O>>,
    replies: Seq<(DriveReplyView, Timestamp)>,
) -> bool {
    &&& turns.len() == replies.len() + 1
    &&& forall|i: int| 0 <= i < replies.len() ==> #[trigger] goes_at(step, turns, replies, i)
}

/// Whether a turn asks for the request.
pub open spec fn requests<S, O>(
    turn: Turn<S, StoreRequestView, O>,
    request: StoreRequestView,
) -> bool {
    turn is Ask && turn->Ask_1 == request
}

/// Whether what was only to be done was done.
pub open spec fn went_well(reply: DriveReplyView) -> bool {
    reply is Done && reply->Done_0 is Ok
}

/// Whether a turn ends the work with a failure.
pub open spec fn fails<S, A>(turn: Turn<S, StoreRequestView, Result<A, Seq<char>>>) -> bool {
    turn is Done && turn->Done_0 is Err
}

/// Whether what is told of a remote file is what Drive tells of it: its identifier,
/// its fingerprint, which is empty where Drive tells none, and the time of its last
/// modification, which is the time of the reply where Drive tells none.
pub open spec fn describes(
    meta: RemoteFileMetaView,
    file: DriveFileView,
    virtual_path: Seq<char>,
    now: Timestamp,
) -> bool {
    let time = match file.modified_time {
        Some(time) => time,
        None => now,
    };
    &&& file.id == Some(meta.drive_id)
    &&& meta.virtual_path == virtual_path
    &&& meta.md5_hash == match file.md5_checksum {
        Some(md5) => md5,
        None => Seq::empty(),
    }
    &&& rfc3339_text(time.secs, time.nanos) == Some(meta.modified_time)
}

/// Whether enough is known of a file to tell of it: its identifier, and a time that
/// can be written.
pub open spec fn is_known(file: DriveFileView, now: Timestamp) -> bool {
    let time = match file.modified_time {
        Some(time) => time,
        None => now,
    };
    file.id is Some && rfc3339_text(time.secs, time.nanos) is Some
}

/// Whether work ends with what is known of the file, or with a failure where not
/// enough is known.
pub open spec fn ends_with_file<S>(
    turn: Turn<S, StoreRequestView, Result<RemoteFileMetaView, Seq<char>>>,
    file: DriveFileView,
    virtual_path: Seq<char>,
    now: Timestamp,
) -> bool {
    &&& turn is Done
    &&& match turn->Done_0 {
        Ok(meta) => describes(meta, file, virtual_path, now),
        Err(_) => !is_known(file, now),
    }
}

/// The way up from a file, as a machine.
pub open spec fn path_machine() -> spec_fn(
    PathStage<Seq<char>, Seq<Seq<char>>>,
    DriveReplyView,
    Timestamp,
) -> PathTurnView {
    |stage: PathStage<Seq<char>, Seq<Seq<char>>>, reply: DriveReplyView, now: Timestamp|
        path_step(stage, reply)
}

/// The identifier of the folder with the given index above a file, where the sandbox
/// comes after the last one.
pub open spec fn folder_above(sandbox_id: Seq<char>, ids: Seq<Seq<char>>, i: int) -> Seq<char> {
    if i < ids.len() {
        ids[i]
    } else {
        sandbox_id
    }
}

/// Whether an item of Drive lies in the folder.
pub open spec fn lies_in(file: DriveFileView, parent_id: Seq<char>) -> bool {
    file.parents.len() > 0 && file.parents[0] == parent_id
}

/// Whether the folders lead from the file up to the sandbox: the file lies in the
/// first of them, each in the next, and the last in the sandbox; none is in the trash
/// and each has a name.
pub open spec fn leads_up(
    sandbox_id: Seq<char>,
    file: DriveFileView,
    ids: Seq<Seq<char>>,
    folders: Seq<DriveFileView>,
) -> bool {
    &&& ids.len() == folders.len()
    &&& ids.no_duplicates()
    &&& !ids.contains(sandbox_id)
    &&& lies_in(file, folder_above(sandbox_id, ids, 0))
    &&& forall|i: int|
        0 <= i < folders.len() ==> {
            let folder = #[trigger] folders[i];
            &&& lies_in(folder, folder_above(sandbox_id, ids, i + 1))
            &&& folder.trashed != Some(true)
            &&& folder.name is Some
        }
}

/// The names from the sandbox down to the file: those of the folders, the last one
/// first, and then the file's own.
pub open spec fn names_down(file: DriveFileView, folders: Seq<DriveFileView>) -> Seq<Seq<char>> {
    Seq::new(
        folders.len() + 1,
        |i: int|
            if i < folders.len() {
                folders[folders.len() - 1 - i].name->0
            } else {
                file.name->0
            },
    )
}

/// The names from the file up to the folder with the given index.
spec fn names_up(file: DriveFileView, folders: Seq<DriveFileView>, k: int) -> Seq<Seq<char>> {
    Seq::new(
        (k + 1) as nat,
        |i: int|
            if i == 0 {
                file.name->0
            } else {
                folders[i - 1].name->0
            },
    )
}

/// The way up has come to the folder with the given index.
proof fn lemma_way_up(
    sandbox_id: Seq<char>,
    file: DriveFileView,
    ids: Seq<Seq<char>>,
    folders: Seq<DriveFileView>,
    turns: Seq<PathTurnView>,
    replies: Seq<(DriveReplyView, Timestamp)>,
    k: int,
)
    requires
        file.name is Some,
        file.name->0.len() > 0,
        leads_up(sandbox_id, file, ids, folders),
        goes(path_machine(), turns, replies),
        turns[0] == begin_path(file),
        replies.len() == ids.len() + 1,
        replies[0].0 == DriveReplyView::Text(Ok(sandbox_id)),
        forall|i: int|
            0 <= i < folders.len() ==> (#[trigger] replies[i + 1]).0 == DriveReplyView::MaybeFile(
                Ok(Some(folders[i])),
            ),
        0 <= k <= ids.len(),
    ensures
        turns[k + 1] == climb(
            sandbox_id,
            names_up(file, folders, k),
            ids.take(k),
            Some(folder_above(sandbox_id, ids, k)),
        ),
    decreases k,
{
    if k == 0 {
        assert(goes_at(path_machine(), turns, replies, 0));
        assert(names_up(file, folders, 0) == seq![file.name->0]);
        assert(ids.take(0) == Seq::<Seq<char>>::empty());
    } else {
        lemma_way_up(sandbox_id, file, ids, folders, turns, replies, k - 1);
        let id = ids[k - 1];
        assert(ids.contains(id));
        assert(!ids.take(k - 1).contains(id)) by {
            if ids.take(k - 1).contains(id) {
                let before = ids.take(k - 1);
                let j = choose|j: int| 0 <= j < before.len() && before[j] == id;
                assert(ids[j] == ids[k - 1]);
            }
        }
        assert(ids.take(k - 1).push(id) == ids.take(k));
        assert(replies[k - 1 + 1].0 == DriveReplyView::MaybeFile(Ok(Some(folders[k - 1]))));
        assert(goes_at(path_machine(), turns, replies, k));
        assert(names_up(file, folders, k - 1).push(folders[k - 1].name->0) == names_up(
            file,
            folders,
            k,
        ));
    }
}

/// Where folders lead from the sandbox down to a file, the way up from the file asks
/// for each of them, and ends with the remote path that joins the names of all of
/// them, from the sandbox down, and the file's own name with slashes, in the form in
/// which remote paths are kept.
pub proof fn law_the_way_up_joins_every_name(
    sandbox_id: Seq<char>,
    file: DriveFileView,
    ids: Seq<Seq<char>>,
    folders: Seq<DriveFileView>,
    turns: Seq<PathTurnView>,
    replies: Seq<(DriveReplyView, Timestamp)>,
)
    requires
        file.name is Some,
        file.name->0.len() > 0,
        leads_up(sandbox_id, file, ids, folders),
        goes(path_machine(), turns, replies),
        turns[0] == begin_path(file),
        replies.len() == ids.len() + 1,
        replies[0].0 == DriveReplyView::Text(Ok(sandbox_id)),
        forall|i: int|
            0 <= i < folders.len() ==> (#[trigger] replies[i + 1]).0 == DriveReplyView::MaybeFile(
                Ok(Some(folders[i])),
            ),
    ensures
        requests(turns[0], DriveRequest::SandboxId),
        forall|i: int|
            0 <= i < ids.len() ==> requests(
                #[trigger] turns[i + 1],
                DriveRequest::Fetch(ids[i]),
            ),
        ({
            let path = normalized(joined(names_down(file, folders), '/'));
            turns.last() == PathTurnView::Done(
                Ok(
                    if path.len() > 0 {
                        Some(path)
                    } else {
                        None
                    },
                ),
            )
        }),
{
    let n = ids.len() as int;
    assert forall|i: int| 0 <= i < ids.len() implies requests(
        #[trigger] turns[i + 1],
        DriveRequest::Fetch(ids[i]),
    ) by {
        lemma_way_up(sandbox_id, file, ids, folders, turns, replies, i);
        assert(ids.contains(ids[i]));
        if ids.take(i).contains(ids[i]) {
            let before = ids.take(i);
            let j = choose|j: int| 0 <= j < before.len() && before[j] == ids[i];
            assert(ids[j] == ids[i]);
        }
    }
    lemma_way_up(sandbox_id, file, ids, folders, turns, replies, n);
    assert(names_up(file, folders, n).reverse() == names_down(file, folders));
}

/// Where, besides, each name can stand in a remote path as it is, the way up ends with
/// just these names and slashes between them.
pub proof fn law_the_way_up_gives_the_plain_path(
    sandbox_id: Seq<char>,
    file: DriveFileView,
    ids: Seq<Seq<char>>,
    folders: Seq<DriveFileView>,
    turns: Seq<PathTurnView>,
    replies: Seq<(DriveReplyView, Timestamp)>,
)
    requires
        file.name is Some,
        leads_up(sandbox_id, file, ids, folders),
        goes(path_machine(), turns, replies),
        turns[0] == begin_path(file),
        replies.len() == ids.len() + 1,
        replies[0].0 == DriveReplyView::Text(Ok(sandbox_id)),
        forall|i: int|
            0 <= i < folders.len() ==> (#[trigger] replies[i + 1]).0 == DriveReplyView::MaybeFile(
                Ok(Some(folders[i])),
            ),
        forall|i: int|
            0 <= i < names_down(file, folders).len() ==> {
                let name = #[trigger] names_down(file, folders)[i];
                proper(name) && !name.contains('/') && !name.contains('\\')
            },
        trimmed(joined(names_down(file, folders), '/'), CharClass::WhiteSpace) == joined(
            names_down(file, folders),
            '/',
        ),
    ensures
        turns.last() == PathTurnView::Done(Ok(Some(joined(names_down(file, folders), '/')))),
{
    let names = names_down(file, folders);
    assert(proper(names[folders.len() as int]));
    assert(names[folders.len() as int] == file.name->0);
    law_the_way_up_joins_every_name(sandbox_id, file, ids, folders, turns, replies);
    lemma_normalized_names(names);
    assert(names[0].len() > 0) by {
        assert(proper(names[0]));
    }
    lemma_joined_len(names, '/');
}

/// The path that a file was uploaded under is the one that a change of it is reported with:
/// where the file and the folders above it have the names that the upload went through, the
/// way up from it ends with that path. A path that is kept with white space at an end, such
/// as `/ a`, is reported without it.
pub proof fn law_uploaded_paths_are_reported(
    virtual_path: Seq<char>,
    sandbox_id: Seq<char>,
    file: DriveFileView,
    ids: Seq<Seq<char>>,
    folders: Seq<DriveFileView>,
    turns: Seq<PathTurnView>,
    replies: Seq<(DriveReplyView, Timestamp)>,
)
    requires
        path_segments(normalized(virtual_path)) is Ok,
        trimmed(normalized(virtual_path), CharClass::WhiteSpace) == normalized(virtual_path),
        file.name is Some,
        names_down(file, folders) == path_segments(normalized(virtual_path))->Ok_0,
        leads_up(sandbox_id, file, ids, folders),
        goes(path_machine(), turns, replies),
        turns[0] == begin_path(file),
        replies.len() == ids.len() + 1,
        replies[0].0 == DriveReplyView::Text(Ok(sandbox_id)),
        forall|i: int|
            0 <= i < folders.len() ==> (#[trigger] replies[i + 1]).0 == DriveReplyView::MaybeFile(
                Ok(Some(folders[i])),
            ),
    ensures
        turns.last() == PathTurnView::Done(Ok(Some(normalized(virtual_path)))),
{
    let path = normalized(virtual_path);
    let names = names_down(file, folders);
    law_normalize_is_idempotent(virtual_path);
    law_segments_are_proper(path);
    assert(joined(names, '/') == path);
    assert forall|i: int| 0 <= i < names.len() implies {
        let name = #[trigger] names[i];
        proper(name) && !name.contains('/') && !name.contains('\\')
    } by {
        assert(proper(name_segments(path)[i]));
    }
    law_the_way_up_gives_the_plain_path(sandbox_id, file, ids, folders, turns, replies);
}

/// A text joined from parts is at least as long as the first of them.
proof fn lemma_joined_len(parts: Seq<Seq<char>>, sep: char)
    requires
        parts.len() > 0,
    ensures
        joined(parts, sep).len() >= parts[0].len(),
    decreases parts.len(),
{
    if parts.len() > 1 {
        lemma_joined_len(parts.drop_last(), sep);
    }
}

/// The way up leads nowhere from a file without a name or outside of every folder,
/// from a folder that is not there, in the trash, without a name or outside of every
/// folder, and from one that was come to before.
pub proof fn law_broken_ways_lead_nowhere(
    file: DriveFileView,
    turns: Seq<PathTurnView>,
    replies: Seq<(DriveReplyView, Timestamp)>,
    n: int,
)
    requires
        goes(path_machine(), turns, replies),
        turns[0] == begin_path(file),
        0 <= n < replies.len(),
    ensures
        replies[n].0 == DriveReplyView::MaybeFile(Ok(None)) && n > 0 ==> turns[n + 1]
            == PathTurnView::Done(Ok(None)),
        replies[n].0 matches DriveReplyView::MaybeFile(Ok(Some(folder))) && n > 0 && (
        folder.trashed == Some(true) || folder.name is None || folder.parents.len() == 0)
            ==> turns[n + 1] == PathTurnView::Done(Ok(None)),
        replies[0].0 is Text && replies[0].0->Text_0 is Ok && file.parents.len() == 0 ==> turns[1]
            == PathTurnView::Done(Ok(None)),
{
    lemma_path_stages(file, turns, replies, n);
    assert(goes_at(path_machine(), turns, replies, n));
    assert(goes_at(path_machine(), turns, replies, 0));
}

/// After its first turn the way up waits for folders.
proof fn lemma_path_stages(
    file: DriveFileView,
    turns: Seq<PathTurnView>,
    replies: Seq<(DriveReplyView, Timestamp)>,
    n: int,
)
    requires
        goes(path_machine(), turns, replies),
        turns[0] == begin_path(file),
        0 <= n < replies.len(),
    ensures
        turns[n] is Ask,
        n > 0 ==> turns[n]->Ask_0 is Parent,
        n == 0 ==> turns[n]->Ask_0 is Sandbox && requests(turns[n], DriveRequest::SandboxId),
    decreases n,
{
    assert(goes_at(path_machine(), turns, replies, n));
    if n > 0 {
        lemma_path_stages(file, turns, replies, n - 1);
        assert(goes_at(path_machine(), turns, replies, n - 1));
    }
}

/// A file has a remote path only where it lies in the sandbox: a way up that ends with
/// one has come to an item that lies in the sandbox and is not in the trash.
pub proof fn law_only_files_in_the_sandbox_have_paths(
    file: DriveFileView,
    turns: Seq<PathTurnView>,
    replies: Seq<(DriveReplyView, Timestamp)>,
    path: Seq<char>,
)
    requires
        goes(path_machine(), turns, replies),
        turns[0] == begin_path(file),
        turns.last() == PathTurnView::Done(Ok(Some(path))),
    ensures
        replies.len() > 0,
        replies[0].0 matches DriveReplyView::Text(Ok(sandbox_id)) && if replies.len() == 1 {
            lies_in(file, sandbox_id)
        } else {
            replies.last().0 matches DriveReplyView::MaybeFile(Ok(Some(folder))) && lies_in(
                folder,
                sandbox_id,
            ) && folder.trashed != Some(true)
        },
{
    let n = replies.len() as int;
    assert(n > 0);
    lemma_path_stages(file, turns, replies, n - 1);
    lemma_path_sandbox(file, turns, replies, n - 1);
    assert(goes_at(path_machine(), turns, replies, n - 1));
}

/// The way up keeps the sandbox that it was told.
proof fn lemma_path_sandbox(
    file: DriveFileView,
    turns: Seq<PathTurnView>,
    replies: Seq<(DriveReplyView, Timestamp)>,
    n: int,
)
    requires
        goes(path_machine(), turns, replies),
        turns[0] == begin_path(file),
        0 <= n < replies.len(),
    ensures
        n == 0 ==> turns[0]->Ask_0 is Sandbox && turns[0]->Ask_0->parent == file.parent(),
        n > 0 ==> turns[n]->Ask_0 is Parent && replies[0].0 == DriveReplyView::Text(
            Ok(turns[n]->Ask_0->sandbox_id),
        ),
    decreases n,
{
    assert(goes_at(path_machine(), turns, replies, n));
    if n > 0 {
        lemma_path_sandbox(file, turns, replies, n - 1);
        assert(goes_at(path_machine(), turns, replies, n - 1));
    }
}

/// A download, as a machine.
pub open spec fn download_machine() -> spec_fn(
    DownloadStage<Seq<u8>, Seq<char>, DriveFileView, Seq<u8>>,
    DriveReplyView,
    Timestamp,
) -> DownloadTurnView {
    |
        stage: DownloadStage<Seq<u8>, Seq<char>, DriveFileView, Seq<u8>>,
        reply: DriveReplyView,
        now: Timestamp,
    |
        download_step(stage, reply, now)
}

/// Whether turn `n` of a download asks to write the content to the local path and the
/// turns after it ask what Drive now knows of the file, and end with that.
pub open spec fn writes_content(
    turns: Seq<DownloadTurnView>,
    replies: Seq<(DriveReplyView, Timestamp)>,
    n: int,
    virtual_path: Seq<char>,
    local_path: Seq<u8>,
    file: DriveFileView,
    content: Seq<u8>,
) -> bool {
    &&& requests(turns[n], DriveRequest::WriteLocal { local_path, content })
    &&& n < replies.len() ==> if went_well(replies[n].0) {
        &&& requests(turns[n + 1], DriveRequest::Fetch(file.id->0))
        &&& n + 1 < replies.len() ==> match replies[n + 1].0 {
            DriveReplyView::MaybeFile(Ok(Some(latest))) => ends_with_file(
                turns[n + 2],
                latest,
                normalized(virtual_path),
                replies[n + 1].1,
            ),
            DriveReplyView::MaybeFile(Ok(None)) => ends_with_file(
                turns[n + 2],
                file,
                normalized(virtual_path),
                replies[n + 1].1,
            ),
            _ => fails(turns[n + 2]),
        }
    } else {
        fails(turns[n + 1])
    }
}

/// A download asks for the file at the remote path, for the content of the file that
/// it is told of, for the folder of the local path, and then that just this content be
/// written to just this local path. Any other reply ends it with a failure.
pub proof fn law_downloads_write_what_was_fetched(
    virtual_path: Seq<char>,
    local_path: Seq<u8>,
    turns: Seq<DownloadTurnView>,
    replies: Seq<(DriveReplyView, Timestamp)>,
)
    requires
        goes(download_machine(), turns, replies),
        turns[0] == begin_download(virtual_path, local_path),
    ensures
        requests(turns[0], DriveRequest::Resolve(normalized(virtual_path))),
        replies.len() > 0 ==> match replies[0].0 {
            DriveReplyView::MaybeFile(Ok(Some(file))) => if file.id is Some {
                &&& requests(turns[1], DriveRequest::Download(file.id->0))
                &&& replies.len() > 1 ==> match replies[1].0 {
                    DriveReplyView::Content(Ok(Some(content))) => match parent_of(local_path) {
                        Some(folder) => {
                            &&& requests(turns[2], DriveRequest::MakeLocalFolder(folder))
                            &&& replies.len() > 2 ==> if went_well(replies[2].0) {
                                writes_content(
                                    turns,
                                    replies,
                                    3,
                                    virtual_path,
                                    local_path,
                                    file,
                                    content,
                                )
                            } else {
                                fails(turns[3])
                            }
                        },
                        None => writes_content(
                            turns,
                            replies,
                            2,
                            virtual_path,
                            local_path,
                            file,
                            content,
                        ),
                    },
                    _ => fails(turns[2]),
                }
            } else {
                fails(turns[1])
            },
            _ => fails(turns[1]),
        },
{
    if replies.len() > 0 {
        assert(goes_at(download_machine(), turns, replies, 0));
        if replies.len() > 1 {
            assert(goes_at(download_machine(), turns, replies, 1));
            if replies.len() > 2 {
                assert(goes_at(download_machine(), turns, replies, 2));
                if replies.len() > 3 {
                    assert(goes_at(download_machine(), turns, replies, 3));
                    if replies.len() > 4 {
                        assert(goes_at(download_machine(), turns, replies, 4));
                    }
                }
            }
        }
    }
}

/// A download that ends well has had the content written: the bytes that were told as
/// the content of the file that the remote path led to, all of them, at the local path
/// that it was called with.
pub proof fn law_a_download_that_ends_well_has_written_the_file(
    virtual_path: Seq<char>,
    local_path: Seq<u8>,
    turns: Seq<DownloadTurnView>,
    replies: Seq<(DriveReplyView, Timestamp)>,
    meta: RemoteFileMetaView,
)
    requires
        goes(download_machine(), turns, replies),
        turns[0] == begin_download(virtual_path, local_path),
        turns.last() == DownloadTurnView::Done(Ok(meta)),
    ensures
        replies.len() >= 4,
        requests(turns[0], DriveRequest::Resolve(normalized(virtual_path))),
        replies[0].0 matches DriveReplyView::MaybeFile(Ok(Some(file))) && file.id is Some
            && requests(turns[1], DriveRequest::Download(file.id->0)),
        replies[1].0 matches DriveReplyView::Content(Ok(Some(content))) && requests(
            turns[turns.len() - 3],
            DriveRequest::WriteLocal { local_path, content },
        ),
        went_well(replies[replies.len() - 2].0),
        meta.virtual_path == normalized(virtual_path),
{
    law_downloads_write_what_was_fetched(virtual_path, local_path, turns, replies);
    let n = replies.len() as int;
    assert(n > 0);
    assert(goes_at(download_machine(), turns, replies, 0));
    assert(n > 1);
    assert(goes_at(download_machine(), turns, replies, 1));
    assert(n > 2);
    assert(goes_at(download_machine(), turns, replies, 2));
    assert(n > 3);
    assert(goes_at(download_machine(), turns, replies, 3));
    if n > 4 {
        assert(goes_at(download_machine(), turns, replies, 4));
        if n > 5 {
            assert(goes_at(download_machine(), turns, replies, 5));
        }
    }
}

/// An upload, as a machine.
pub open spec fn upload_machine() -> spec_fn(
    UploadStage<Seq<u8>, Seq<char>>,
    DriveReplyView,
    Timestamp,
) -> UploadTurnView {
    |stage: UploadStage<Seq<u8>, Seq<char>>, reply: DriveReplyView, now: Timestamp|
        upload_step(stage, reply, now)
}

/// Whether turn `n` of an upload asks for the transfer of the local file and the next
/// one ends with what Drive then knows of the remote one.
pub open spec fn sends_content(
    turns: Seq<UploadTurnView>,
    replies: Seq<(DriveReplyView, Timestamp)>,
    n: int,
    request: StoreRequestView,
    virtual_path: Seq<char>,
) -> bool {
    &&& requests(turns[n], request)
    &&& n < replies.len() ==> match replies[n].0 {
        DriveReplyView::Uploaded(Ok(file)) => ends_with_file(
            turns[n + 1],
            file,
            normalized(virtual_path),
            replies[n].1,
        ),
        _ => fails(turns[n + 1]),
    }
}

/// An upload of a local file asks for the folder that the remote path names, with the
/// folders above it, and for the file with the last name in it. A file that is there
/// gets the content of the local one; else a file of that name is made in that folder
/// with this content. Any other reply ends it with a failure, and so does a local path
/// that leads to nothing or to a folder.
pub proof fn law_uploads_send_the_local_file(
    virtual_path: Seq<char>,
    local_path: Seq<u8>,
    kind: PathKind,
    turns: Seq<UploadTurnView>,
    replies: Seq<(DriveReplyView, Timestamp)>,
)
    requires
        goes(upload_machine(), turns, replies),
        turns[0] == begin_upload(virtual_path, local_path, kind),
    ensures
        kind is Missing || kind is Directory || path_segments(normalized(virtual_path)) is Err
            <==> fails(turns[0]),
        !fails(turns[0]) ==> {
            let names = path_segments(normalized(virtual_path))->Ok_0;
            let name = names.last();
            &&& requests(turns[0], DriveRequest::FolderChain(names.drop_last()))
            &&& replies.len() > 0 ==> match replies[0].0 {
                DriveReplyView::Text(Ok(parent_id)) => {
                    &&& requests(
                        turns[1],
                        DriveRequest::FindChild { parent_id, name, kind: ChildKind::File },
                    )
                    &&& replies.len() > 1 ==> match replies[1].0 {
                        DriveReplyView::MaybeFile(Ok(Some(file))) => if file.id is Some {
                            sends_content(
                                turns,
                                replies,
                                2,
                                DriveRequest::UpdateContent { file_id: file.id->0, local_path },
                                virtual_path,
                            )
                        } else {
                            fails(turns[2])
                        },
                        DriveReplyView::MaybeFile(Ok(None)) => sends_content(
                            turns,
                            replies,
                            2,
                            DriveRequest::CreateContent { parent_id, name, local_path },
                            virtual_path,
                        ),
                        _ => fails(turns[2]),
                    }
                },
                _ => fails(turns[1]),
            }
        },
{
    if replies.len() > 0 {
        assert(goes_at(upload_machine(), turns, replies, 0));
        if replies.len() > 1 {
            assert(goes_at(upload_machine(), turns, replies, 1));
            if replies.len() > 2 {
                assert(goes_at(upload_machine(), turns, replies, 2));
            }
        }
    }
}

/// A rename, as a machine.
pub open spec fn rename_machine() -> spec_fn(
    RenameStage<Seq<char>>,
    DriveReplyView,
    Timestamp,
) -> RenameTurnView {
    |stage: RenameStage<Seq<char>>, reply: DriveReplyView, now: Timestamp|
        rename_step(stage, reply, now)
}

/// Whether turn `n` of a rename asks that the file be given the name and, where it does
/// not lie in the folder yet, be moved there from where it lies, and the next one ends
/// with what Drive then knows of it.
pub open spec fn moves_file(
    turns: Seq<RenameTurnView>,
    replies: Seq<(DriveReplyView, Timestamp)>,
    n: int,
    file: DriveFileView,
    name: Seq<char>,
    parent_id: Seq<char>,
    to: Seq<char>,
) -> bool {
    &&& turns[n] is Ask
    &&& turns[n]->Ask_1 matches DriveRequest::MoveFile {
        file_id,
        name: new_name,
        remove_parent,
        add_parent,
    }
    &&& file.id == Some(file_id)
    &&& new_name == name
    &&& if lies_in(file, parent_id) {
        remove_parent is None && add_parent is None
    } else {
        &&& add_parent == Some(parent_id)
        &&& if file.parents.len() > 0 {
            remove_parent == Some(file.parents[0])
        } else {
            remove_parent is None
        }
    }
    &&& n < replies.len() ==> match replies[n].0 {
        DriveReplyView::File(Ok(moved)) => ends_with_file(
            turns[n + 1],
            moved,
            normalized(to),
            replies[n].1,
        ),
        _ => fails(turns[n + 1]),
    }
}

/// A rename of a file to the path that it has tells what is known of it. Else the file
/// at the first path is looked for, and then the folder that the second one names and a
/// file of the last name in it. Another file there is moved to the trash; then the
/// first file is given that name in that folder. Any other reply ends it with a
/// failure.
pub proof fn law_renames_move_the_source(
    from: Seq<char>,
    to: Seq<char>,
    turns: Seq<RenameTurnView>,
    replies: Seq<(DriveReplyView, Timestamp)>,
)
    requires
        goes(rename_machine(), turns, replies),
        turns[0] == begin_rename(from, to),
        normalized(from) != normalized(to),
    ensures
        requests(turns[0], DriveRequest::Resolve(normalized(from))),
        replies.len() > 0 ==> match replies[0].0 {
            DriveReplyView::MaybeFile(Ok(Some(file))) => if file.id is Some && path_segments(
                normalized(to),
            ) is Ok {
                let names = path_segments(normalized(to))->Ok_0;
                let name = names.last();
                &&& requests(turns[1], DriveRequest::FolderChain(names.drop_last()))
                &&& replies.len() > 1 ==> match replies[1].0 {
                    DriveReplyView::Text(Ok(parent_id)) => {
                        &&& requests(
                            turns[2],
                            DriveRequest::FindChild { parent_id, name, kind: ChildKind::File },
                        )
                        &&& replies.len() > 2 ==> match replies[2].0 {
                            DriveReplyView::MaybeFile(Ok(None)) => moves_file(
                                turns,
                                replies,
                                3,
                                file,
                                name,
                                parent_id,
                                to,
                            ),
                            DriveReplyView::MaybeFile(Ok(Some(target))) => if target.id is None {
                                fails(turns[3])
                            } else if target.id == file.id {
                                moves_file(turns, replies, 3, file, name, parent_id, to)
                            } else {
                                &&& requests(turns[3], DriveRequest::TrashFile(target.id->0))
                                &&& replies.len() > 3 ==> if went_well(replies[3].0) {
                                    moves_file(turns, replies, 4, file, name, parent_id, to)
                                } else {
                                    fails(turns[4])
                                }
                            },
                            _ => fails(turns[3]),
                        }
                    },
                    _ => fails(turns[2]),
                }
            } else {
                fails(turns[1])
            },
            _ => fails(turns[1]),
        },
{
    if replies.len() > 0 {
        assert(goes_at(rename_machine(), turns, replies, 0));
        if replies.len() > 1 {
            assert(goes_at(rename_machine(), turns, replies, 1));
            if replies.len() > 2 {
                assert(goes_at(rename_machine(), turns, replies, 2));
                if replies.len() > 3 {
                    assert(goes_at(rename_machine(), turns, replies, 3));
                    if replies.len() > 4 {
                        assert(goes_at(rename_machine(), turns, replies, 4));
                    }
                }
            }
        }
    }
}

/// A rename of a file to the path that it has moves nothing: it tells what is known of
/// the file, and fails where there is none.
pub proof fn law_a_rename_to_itself_moves_nothing(
    from: Seq<char>,
    to: Seq<char>,
    turns: Seq<RenameTurnView>,
    replies: Seq<(DriveReplyView, Timestamp)>,
)
    requires
        goes(rename_machine(), turns, replies),
        turns[0] == begin_rename(from, to),
        normalized(from) == normalized(to),
    ensures
        requests(turns[0], DriveRequest::GetMetadata(normalized(to))),
        replies.len() > 0 ==> match replies[0].0 {
            DriveReplyView::Metadata(Ok(Some(meta))) => turns[1] == RenameTurnView::Done(Ok(meta)),
            _ => fails(turns[1]),
        },
{
    if replies.len() > 0 {
        assert(goes_at(rename_machine(), turns, replies, 0));
    }
}

/// A move to the trash, as a machine.
pub open spec fn trash_machine() -> spec_fn(
    TrashStage<Seq<char>>,
    DriveReplyView,
    Timestamp,
) -> TrashTurnView {
    |stage: TrashStage<Seq<char>>, reply: DriveReplyView, now: Timestamp| trash_step(stage, reply)
}

/// A move to the trash asks for the file at the remote path, and that just this file be
/// moved to the trash; where there is none, there is nothing to do. Any other reply
/// ends it with a failure.
pub proof fn law_the_file_at_the_path_is_trashed(
    virtual_path: Seq<char>,
    turns: Seq<TrashTurnView>,
    replies: Seq<(DriveReplyView, Timestamp)>,
)
    requires
        goes(trash_machine(), turns, replies),
        turns[0] == begin_trash(virtual_path),
    ensures
        requests(turns[0], DriveRequest::Resolve(normalized(virtual_path))),
        replies.len() > 0 ==> match replies[0].0 {
            DriveReplyView::MaybeFile(Ok(None)) => turns[1] is Done && turns[1]->Done_0 is Ok,
            DriveReplyView::MaybeFile(Ok(Some(file))) => if file.id is Some {
                &&& requests(turns[1], DriveRequest::TrashFile(file.id->0))
                &&& replies.len() > 1 ==> turns[2] is Done && (turns[2]->Done_0 is Ok
                    <==> went_well(replies[1].0))
            } else {
                fails(turns[1])
            },
            _ => fails(turns[1]),
        },
{
    if replies.len() > 0 {
        assert(goes_at(trash_machine(), turns, replies, 0));
        if replies.len() > 1 {
            assert(goes_at(trash_machine(), turns, replies, 1));
        }
    }
}

/// A question for metadata, as a machine.
pub open spec fn metadata_machine() -> spec_fn(
    MetadataStage<Seq<char>>,
    DriveReplyView,
    Timestamp,
) -> MetadataTurnView {
    |stage: MetadataStage<Seq<char>>, reply: DriveReplyView, now: Timestamp|
        metadata_step(stage.virtual_path, reply, now)
}

/// A question for metadata asks for the file at the remote path, and tells what Drive
/// knows of it; nothing where there is none.
pub proof fn law_metadata_is_of_the_file_at_the_path(
    virtual_path: Seq<char>,
    turns: Seq<MetadataTurnView>,
    replies: Seq<(DriveReplyView, Timestamp)>,
)
    requires
        goes(metadata_machine(), turns, replies),
        turns[0] == begin_metadata(virtual_path),
    ensures
        requests(turns[0], DriveRequest::Resolve(normalized(virtual_path))),
        replies.len() > 0 ==> match replies[0].0 {
            DriveReplyView::MaybeFile(Ok(None)) => turns[1] == MetadataTurnView::Done(Ok(None)),
            DriveReplyView::MaybeFile(Ok(Some(file))) => {
                &&& turns[1] is Done
                &&& match turns[1]->Done_0 {
                    Ok(Some(meta)) => describes(
                        meta,
                        file,
                        normalized(virtual_path),
                        replies[0].1,
                    ),
                    Ok(None) => false,
                    Err(_) => !is_known(file, replies[0].1),
                }
            },
            _ => fails(turns[1]),
        },
{
    if replies.len() > 0 {
        assert(goes_at(metadata_machine(), turns, replies, 0));
    }
}

/// Finding out what a change means, as a machine.
pub open spec fn translate_machine() -> spec_fn(
    TranslateStage<Seq<char>, DriveFileView>,
    DriveReplyView,
    Timestamp,
) -> TranslateTurnView {
    |stage: TranslateStage<Seq<char>, DriveFileView>, reply: DriveReplyView, now: Timestamp|
        translate_step(stage, reply, now)
}

/// Whether a turn ends with the file being changed at the remote path, or with a failure
/// where not enough is known of it.
pub open spec fn tells_of_upsert(
    turn: TranslateTurnView,
    file: DriveFileView,
    path: Seq<char>,
    now: Timestamp,
) -> bool {
    &&& turn is Done
    &&& match turn->Done_0 {
        Ok(Some(RemoteChangeView::Upsert(meta))) => describes(meta, file, path, now),
        Ok(_) => false,
        Err(_) => !is_known(file, now),
    }
}

/// Whether turn `n` asks for the path that is recorded for the file and the next one
/// ends with a delete at that path, or with nothing where none is recorded. Of a file
/// without identifier nothing can be asked.
pub open spec fn deletes_recorded(
    turns: Seq<TranslateTurnView>,
    replies: Seq<(DriveReplyView, Timestamp)>,
    n: int,
    file_id: Option<Seq<char>>,
) -> bool {
    match file_id {
        None => turns[n] == TranslateTurnView::Done(Ok(None)),
        Some(id) => {
            &&& requests(turns[n], DriveRequest::LookUpPath(id))
            &&& n < replies.len() ==> match replies[n].0 {
                DriveReplyView::MaybeText(Ok(Some(path))) => turns[n + 1]
                    == TranslateTurnView::Done(Ok(Some(RemoteChangeView::Delete(path)))),
                DriveReplyView::MaybeText(Ok(None)) => turns[n + 1] == TranslateTurnView::Done(
                    Ok(None),
                ),
                _ => fails(turns[n + 1]),
            }
        },
    }
}

/// Whether turn `n` asks what Drive knows of the file and the turns after it tell, by
/// the file that is fetched, of a change at the path where it lies, or of a delete at
/// the recorded path where it is gone, in the trash or outside of the sandbox.
pub open spec fn tells_by_fetching(
    turns: Seq<TranslateTurnView>,
    replies: Seq<(DriveReplyView, Timestamp)>,
    n: int,
    file_id: Option<Seq<char>>,
) -> bool {
    match file_id {
        None => turns[n] == TranslateTurnView::Done(Ok(None)),
        Some(id) => {
            &&& requests(turns[n], DriveRequest::Fetch(id))
            &&& n < replies.len() ==> match replies[n].0 {
                DriveReplyView::MaybeFile(Ok(None)) => deletes_recorded(
                    turns,
                    replies,
                    n + 1,
                    file_id,
                ),
                DriveReplyView::MaybeFile(Ok(Some(file))) => if file.mime_type == Some(
                    FOLDER_MIME_TYPE@,
                ) {
                    turns[n + 1] == TranslateTurnView::Done(Ok(None))
                } else if file.trashed == Some(true) {
                    deletes_recorded(turns, replies, n + 1, file_id)
                } else {
                    &&& requests(turns[n + 1], DriveRequest::PathOf(file))
                    &&& n + 1 < replies.len() ==> match replies[n + 1].0 {
                        DriveReplyView::MaybeText(Ok(Some(path))) => tells_of_upsert(
                            turns[n + 2],
                            file,
                            path,
                            replies[n + 1].1,
                        ),
                        DriveReplyView::MaybeText(Ok(None)) => deletes_recorded(
                            turns,
                            replies,
                            n + 2,
                            file_id,
                        ),
                        _ => fails(turns[n + 2]),
                    }
                },
                _ => fails(turns[n + 1]),
            }
        },
    }
}

/// The identifier of the file that a change is of: the change's own, or the file's.
pub open spec fn id_of_change(change: DriveChangeView) -> Option<Seq<char>> {
    if change.file_id is Some {
        change.file_id
    } else if change.file is Some {
        change.file->0.id
    } else {
        None
    }
}

/// What a change in Drive means. Changes of drives and of folders mean nothing. A file
/// that is removed or in the trash is deleted at the path where it lay, as it tells or as
/// it is recorded. Any other file is changed at the path where it lies; where the change
/// does not tell, the file is fetched.
pub proof fn law_changes_mean_upserts_and_deletes(
    change: DriveChangeView,
    turns: Seq<TranslateTurnView>,
    replies: Seq<(DriveReplyView, Timestamp)>,
)
    requires
        goes(translate_machine(), turns, replies),
        turns[0] == begin_translate(change),
    ensures
        if change.change_type == Some("drive"@) {
            turns[0] == TranslateTurnView::Done(Ok(None))
        } else {
            match change.file {
                None => if change.removed == Some(true) {
                    deletes_recorded(turns, replies, 0, id_of_change(change))
                } else {
                    tells_by_fetching(turns, replies, 0, id_of_change(change))
                },
                Some(file) => if file.mime_type == Some(FOLDER_MIME_TYPE@) {
                    turns[0] == TranslateTurnView::Done(Ok(None))
                } else {
                    let gone = change.removed == Some(true) || file.trashed == Some(true);
                    &&& requests(turns[0], DriveRequest::PathOf(file))
                    &&& replies.len() > 0 ==> match replies[0].0 {
                        DriveReplyView::MaybeText(Ok(Some(path))) => if gone {
                            turns[1] == TranslateTurnView::Done(
                                Ok(Some(RemoteChangeView::Delete(path))),
                            )
                        } else {
                            tells_of_upsert(turns[1], file, path, replies[0].1)
                        },
                        DriveReplyView::MaybeText(Ok(None)) => if gone {
                            deletes_recorded(turns, replies, 1, id_of_change(change))
                        } else {
                            tells_by_fetching(turns, replies, 1, id_of_change(change))
                        },
                        _ => fails(turns[1]),
                    }
                },
            }
        },
{
    if replies.len() > 0 {
        assert(goes_at(translate_machine(), turns, replies, 0));
        if replies.len() > 1 {
            assert(goes_at(translate_machine(), turns, replies, 1));
            if replies.len() > 2 {
                assert(goes_at(translate_machine(), turns, replies, 2));
                if replies.len() > 3 {
                    assert(goes_at(translate_machine(), turns, replies, 3));
                }
            }
        }
    }
}

/// A poll, as a machine.
pub open spec fn poll_machine() -> spec_fn(
    PollStage<Seq<char>, Seq<RemoteChangeView>, ChangePageView, int>,
    DriveReplyView,
    Timestamp,
) -> PollTurnView {
    |
        stage: PollStage<Seq<char>, Seq<RemoteChangeView>, ChangePageView, int>,
        reply: DriveReplyView,
        now: Timestamp,
    |
        poll_step(stage, reply)
}

/// Whether turn `n` of a poll asks for a token to begin with and the turns after it keep
/// it and report nothing.
pub open spec fn starts_over(
    turns: Seq<PollTurnView>,
    replies: Seq<(DriveReplyView, Timestamp)>,
    n: int,
) -> bool {
    &&& requests(turns[n], DriveRequest::StartToken)
    &&& n < replies.len() ==> match replies[n].0 {
        DriveReplyView::Text(Ok(token)) => {
            &&& requests(turns[n + 1], DriveRequest::SaveToken(token))
            &&& n + 1 < replies.len() ==> if went_well(replies[n + 1].0) {
                turns[n + 2] == PollTurnView::Done(Ok(Seq::empty()))
            } else {
                fails(turns[n + 2])
            }
        },
        _ => fails(turns[n + 1]),
    }
}

/// A poll without a kept token takes a new one, keeps it and reports nothing.
pub proof fn law_the_first_poll_takes_a_token(
    turns: Seq<PollTurnView>,
    replies: Seq<(DriveReplyView, Timestamp)>,
)
    requires
        goes(poll_machine(), turns, replies),
        turns[0] == begin_poll(),
    ensures
        requests(turns[0], DriveRequest::LoadToken),
        replies.len() > 0 ==> match replies[0].0 {
            DriveReplyView::MaybeText(Ok(None)) => starts_over(turns, replies, 1),
            DriveReplyView::MaybeText(Ok(Some(token))) => requests(
                turns[1],
                DriveRequest::ListChanges(token),
            ),
            _ => fails(turns[1]),
        },
{
    if replies.len() > 0 {
        assert(goes_at(poll_machine(), turns, replies, 0));
        if replies.len() > 1 {
            assert(goes_at(poll_machine(), turns, replies, 1));
            if replies.len() > 2 {
                assert(goes_at(poll_machine(), turns, replies, 2));
            }
        }
    }
}

/// A poll whose token Drive does not know any more takes a new one, too, at whatever page
/// that happens; where the changes cannot be listed for another reason, it fails.
pub proof fn law_a_lost_token_is_replaced(
    turns: Seq<PollTurnView>,
    replies: Seq<(DriveReplyView, Timestamp)>,
    n: int,
    token: Seq<char>,
    kind: DriveFailureKind,
    why: Seq<char>,
)
    requires
        goes(poll_machine(), turns, replies),
        turns[0] == begin_poll(),
        0 <= n < replies.len(),
        requests(turns[n], DriveRequest::ListChanges(token)),
        replies[n].0 == DriveReplyView::Changes(Err((kind, why))),
    ensures
        kind == DriveFailureKind::Status(410) || kind == DriveFailureKind::BadRequest(Some(410))
            ==> starts_over(turns, replies, n + 1),
        kind is Status && kind != DriveFailureKind::Status(410) ==> fails(turns[n + 1]),
        kind is Other || kind == DriveFailureKind::BadRequest(None) ==> fails(turns[n + 1]),
{
    lemma_poll_lists(turns, replies, n);
    assert(goes_at(poll_machine(), turns, replies, n));
    if n + 1 < replies.len() {
        assert(goes_at(poll_machine(), turns, replies, n + 1));
        if n + 2 < replies.len() {
            assert(goes_at(poll_machine(), turns, replies, n + 2));
        }
    }
}

/// What a poll asks for tells its stage.
proof fn lemma_poll_lists(
    turns: Seq<PollTurnView>,
    replies: Seq<(DriveReplyView, Timestamp)>,
    n: int,
)
    requires
        goes(poll_machine(), turns, replies),
        turns[0] == begin_poll(),
        0 <= n < replies.len(),
    ensures
        turns[n] is Ask,
        turns[n]->Ask_1 is ListChanges ==> turns[n]->Ask_0 is List,
    decreases n,
{
    assert(goes_at(poll_machine(), turns, replies, n));
    if n > 0 {
        lemma_poll_lists(turns, replies, n - 1);
        assert(goes_at(poll_machine(), turns, replies, n - 1));
    }
}

/// The sandbox is a folder of its name directly in the root of the drive: one that is there
/// is taken, and only where there is none is one made, in that place and of that name. What
/// it is told of is kept, and nothing else of the store changes.
pub proof fn law_the_sandbox_lies_in_the_root(s: DriveStoreView, found: DriveReplyView)
    requires
        s.sandbox_id is None,
    ensures
        ({
            let begun = begin_sandbox(s);
            let looked = sandbox_step(s, begun->Ask_0, found);
            &&& requests(
                begun,
                DriveRequest::FindChild {
                    parent_id: "root"@,
                    name: s.sandbox_name,
                    kind: ChildKind::Folder,
                },
            )
            &&& match found {
                DriveReplyView::MaybeFile(Ok(Some(folder))) => takes_sandbox(s, folder, looked),
                DriveReplyView::MaybeFile(Ok(None)) => {
                    &&& looked.0 == s
                    &&& requests(
                        looked.1,
                        DriveRequest::CreateFolder { parent_id: "root"@, name: s.sandbox_name },
                    )
                    &&& forall|folder: DriveFileView|
                        #[trigger] takes_sandbox(
                            s,
                            folder,
                            sandbox_step(
                                s,
                                looked.1->Ask_0,
                                DriveReplyView::File(Ok(folder)),
                            ),
                        )
                },
                _ => looked.0 == s && fails(looked.1),
            }
        }),
{
}

/// Whether the store has taken the folder for its sandbox, which it can where the folder has
/// an identifier.
pub open spec fn takes_sandbox(
    s: DriveStoreView,
    folder: DriveFileView,
    after: (DriveStoreView, SandboxTurnView),
) -> bool {
    match folder.id {
        Some(id) => {
            &&& after.1 == SandboxTurnView::Done(Ok(id))
            &&& after.0 == (DriveStoreView { sandbox_id: Some(id), ..s })
        },
        None => after.0 == s && fails(after.1),
    }
}

/// A remote path is accepted exactly where it names something and none of its names is
/// `..`, and it then goes through the names that stand between its slashes.
pub proof fn law_accepted_paths_go_through_their_names(raw: Seq<char>)
    ensures
        path_segments(raw) is Ok <==> name_segments(raw).len() > 0 && forall|i: int|
            0 <= i < name_segments(raw).len() ==> #[trigger] name_segments(raw)[i] != seq![
                '.',
                '.',
            ],
        path_segments(raw) is Ok ==> split_on(normalized(raw), '/') == path_segments(raw)->Ok_0,
{
    let names = name_segments(raw);
    let dots = seq!['.', '.'];
    law_normalized_splits_into_segments(raw);
    if names.contains(dots) {
        let k = choose|k: int| 0 <= k < names.len() && names[k] == dots;
        assert(names[k] == dots);
    } else {
        assert forall|i: int| 0 <= i < names.len() implies #[trigger] names[i] != dots by {
            assert(names.contains(names[i]));
        }
    }
}

/// A query for a child of a folder asks for the name and the folder as they are, whatever
/// characters they hold, for what is not in the trash, and for folders or for anything but
/// folders: read as Drive reads it, it has these literals in this order.
pub proof fn law_queries_say_what_is_looked_for(
    parent_id: Seq<char>,
    name: Seq<char>,
    kind: ChildKind,
)
    ensures
        ({
            let query = child_query_text(parent_id, name, kind);
            let (found_name, after_name) = read_literal(query.skip("name = '"@.len() as int))->0;
            let (found_parent, after_parent) = read_literal(
                after_name.skip(" and '"@.len() as int),
            )->0;
            let words = " in parents and trashed = false"@ + match kind {
                ChildKind::Folder => " and mimeType = '"@,
                ChildKind::File => " and mimeType != '"@,
            };
            let (found_type, after_type) = read_literal(
                after_parent.skip(words.len() as int),
            )->0;
            &&& "name = '"@.is_prefix_of(query)
            &&& read_literal(query.skip("name = '"@.len() as int)) is Some
            &&& found_name == name
            &&& " and '"@.is_prefix_of(after_name)
            &&& read_literal(after_name.skip(" and '"@.len() as int)) is Some
            &&& found_parent == parent_id
            &&& words.is_prefix_of(after_parent)
            &&& read_literal(after_parent.skip(words.len() as int)) is Some
            &&& found_type == FOLDER_MIME_TYPE@
            &&& after_type.len() == 0
        }),
{
    let query = child_query_text(parent_id, name, kind);
    let is_type = match kind {
        ChildKind::Folder => " and mimeType = '"@,
        ChildKind::File => " and mimeType != '"@,
    };
    let words = " in parents and trashed = false"@ + is_type;
    let none = Seq::<char>::empty();
    let end = escaped(FOLDER_MIME_TYPE@).push('\'') + none;
    let after_parent = words + end;
    let after_name = " and '"@ + (escaped(parent_id).push('\'') + after_parent);
    reveal_strlit("' and '");
    reveal_strlit(" and '");
    reveal_strlit("' in parents and trashed = false");
    reveal_strlit(" in parents and trashed = false");
    reveal_strlit("'");
    assert("' and '"@ =~= seq!['\''] + " and '"@);
    assert("' in parents and trashed = false"@ =~= seq!['\'']
        + " in parents and trashed = false"@);
    assert("'"@ =~= seq!['\'']);
    assert(query =~= "name = '"@ + (escaped(name).push('\'') + after_name));
    assert(query.skip("name = '"@.len() as int) =~= escaped(name).push('\'') + after_name);
    assert("name = '"@ =~= query.take("name = '"@.len() as int));
    law_escaped_text_reads_back(name, after_name);
    assert(after_name.skip(" and '"@.len() as int) =~= escaped(parent_id).push('\'')
        + after_parent);
    assert(" and '"@ =~= after_name.take(" and '"@.len() as int));
    law_escaped_text_reads_back(parent_id, after_parent);
    assert(after_parent.skip(words.len() as int) =~= end);
    assert(words =~= after_parent.take(words.len() as int));
    law_escaped_text_reads_back(FOLDER_MIME_TYPE@, none);
}

/// The failure that a reply tells of, if it does.
pub open spec fn drive_failure_of(reply: DriveReplyView) -> Option<Seq<char>> {
    match reply {
        DriveReplyView::Text(Err(why)) => Some(why),
        DriveReplyView::MaybeText(Err(why)) => Some(why),
        DriveReplyView::File(Err(why)) => Some(why),
        DriveReplyView::MaybeFile(Err(why)) => Some(why),
        DriveReplyView::Uploaded(Err(UploadFailure::Open(why))) => Some(why),
        DriveReplyView::Uploaded(Err(UploadFailure::Transfer(why))) => Some(why),
        DriveReplyView::Content(Err(why)) => Some(why),
        DriveReplyView::Done(Err(why)) => Some(why),
        DriveReplyView::Change(Err(why)) => Some(why),
        DriveReplyView::Metadata(Err(why)) => Some(why),
        _ => None,
    }
}

/// Whether a turn ends the work with the failure, or with the failure behind words of its
/// own, or with that the reply was not to what was asked.
pub open spec fn fails_by<S, A>(
    turn: Turn<S, StoreRequestView, Result<A, Seq<char>>>,
    why: Seq<char>,
) -> bool {
    &&& turn is Done
    &&& turn->Done_0 matches Err(said)
    &&& said == why || said == UNEXPECTED_DRIVE_REPLY@ || exists|words: Seq<char>|
        said == #[trigger] (words + ": "@ + why)
}

/// Whatever a transfer waits for, a reply that tells of a failure ends it with that failure:
/// nothing else is asked for, and nothing is taken for done.
pub proof fn law_failures_end_transfers(
    upload: UploadStage<Seq<u8>, Seq<char>>,
    download: DownloadStage<Seq<u8>, Seq<char>, DriveFileView, Seq<u8>>,
    rename: RenameStage<Seq<char>>,
    trash: TrashStage<Seq<char>>,
    virtual_path: Seq<char>,
    reply: DriveReplyView,
    now: Timestamp,
)
    requires
        drive_failure_of(reply) is Some,
    ensures
        fails_by(upload_step(upload, reply, now), drive_failure_of(reply)->0),
        fails_by(download_step(download, reply, now), drive_failure_of(reply)->0),
        fails_by(rename_step(rename, reply, now), drive_failure_of(reply)->0),
        fails_by(trash_step(trash, reply), drive_failure_of(reply)->0),
        fails_by(metadata_step(virtual_path, reply, now), drive_failure_of(reply)->0),
{
    let why = drive_failure_of(reply)->0;
    match (upload, reply) {
        (UploadStage::Update { virtual_path, local_path }, DriveReplyView::Uploaded(Err(_))) => {
            let words = upload_step(upload, reply, now)->Done_0->Err_0;
            assert(words == open_failed_text(local_path) + ": "@ + why || words
                == upload_failed_text("update"@, virtual_path, local_path) + ": "@ + why);
        },
        (UploadStage::Create { virtual_path, local_path }, DriveReplyView::Uploaded(Err(_))) => {
            let words = upload_step(upload, reply, now)->Done_0->Err_0;
            assert(words == open_failed_text(local_path) + ": "@ + why || words
                == upload_failed_text("create"@, virtual_path, local_path) + ": "@ + why);
        },
        _ => {},
    }
    match (rename, reply) {
        (RenameStage::TrashTarget { plan, .. }, DriveReplyView::Done(Err(_))) => {
            let words = "failed to trash existing target "@ + plan.to + " before rename"@;
            assert(rename_step(rename, reply, now) == RenameTurnView::Done(
                Err(words + ": "@ + why),
            ));
        },
        (RenameStage::Move { from, to }, DriveReplyView::File(Err(_))) => {
            let words = "failed Drive rename "@ + from + " -> "@ + to;
            assert(rename_step(rename, reply, now) == RenameTurnView::Done(
                Err(words + ": "@ + why),
            ));
        },
        _ => {},
    }
}

/// So does one that tells of a failure to the way up, to finding out what a change means, or
/// to a poll.
pub proof fn law_failures_end_polls(
    path: PathStage<Seq<char>, Seq<Seq<char>>>,
    translate: TranslateStage<Seq<char>, DriveFileView>,
    poll: PollStage<Seq<char>, Seq<RemoteChangeView>, ChangePageView, int>,
    reply: DriveReplyView,
    now: Timestamp,
)
    requires
        drive_failure_of(reply) is Some,
    ensures
        fails_by(path_step(path, reply), drive_failure_of(reply)->0),
        fails_by(translate_step(translate, reply, now), drive_failure_of(reply)->0),
        fails_by(poll_step(poll, reply), drive_failure_of(reply)->0),
{
}

/// So does one that tells of a failure to the search for a folder or a file, and the store
/// learns nothing from it.
pub proof fn law_failures_end_searches(
    s: DriveStoreView,
    sandbox: SandboxStage,
    chain: ChainStage<Seq<char>, Seq<Seq<char>>>,
    resolve: ResolveStage<Seq<Seq<char>>>,
    reply: DriveReplyView,
)
    requires
        drive_failure_of(reply) is Some,
    ensures
        fails_by(sandbox_step(s, sandbox, reply).1, drive_failure_of(reply)->0),
        fails_by(chain_step(s, chain, reply).1, drive_failure_of(reply)->0),
        fails_by(resolve_step(s, resolve, reply).1, drive_failure_of(reply)->0),
        sandbox_step(s, sandbox, reply).0 == s,
        chain_step(s, chain, reply).0 == s,
        resolve_step(s, resolve, reply).0 == s,
{
}

} // verus!
