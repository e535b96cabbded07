//! What is done about a local file, wherever the work on it is taken up: for an
//! event of its own or in the course of a full synchronization.
use vstd::prelude::*;

use crate::config::{remote_of, runtime_path, PathFacts};
use crate::events::{LocalFileEventKind, RemoteFileMetaView, SyncEventView};
use crate::keyed::{find, lemma_find, lemma_find_none};
use crate::path::same_path;
use crate::path_map::{entry_of, removed};
use crate::state_db::FileStateView;
use crate::sync_engine::full_sync::{takes_up, walked_file};
use crate::sync_engine::laws::{asks, is_there, lemma_removed_keeps, transferred};
use crate::sync_engine::model::{
    handle, renamed_from, ActionView, After, EngineView, PendingView, ReplyView, Request, Turn,
};
use crate::sync_engine::runs::{follows, follows_at};

verus! {

/// What is found out of a local file before it is decided what to do about it.
pub struct Examined {
    /// What there is at its path.
    pub facts: PathFacts,
    pub md5_hash: Seq<char>,
    pub local_timestamp: i64,
    /// Its record, if it has one.
    pub record: Option<FileStateView>,
}

/// Whether the replies from the one with the given index on tell this of a file.
pub open spec fn tell_of_file(replies: Seq<(ReplyView, u64)>, n: int, file: Examined) -> bool {
    &&& n + 3 < replies.len()
    &&& replies[n].0 == ReplyView::Facts(file.facts)
    &&& replies[n + 1].0 == ReplyView::Hash(Ok(file.md5_hash))
    &&& replies[n + 2].0 == ReplyView::Modified(Ok(file.local_timestamp))
    &&& replies[n + 3].0 == ReplyView::Found(Ok(file.record))
}

/// Whether the turns from the one with the given index on find out of a file
/// what there is to know, and do nothing else.
pub open spec fn finds_out(turns: Seq<Turn>, n: int, path: Seq<u8>) -> bool {
    &&& asks(turns[n], Request::Inspect(path))
    &&& asks(turns[n + 1], Request::HashFile(path))
    &&& asks(turns[n + 2], Request::ReadModified(path))
    &&& asks(turns[n + 3], Request::FindByLocal(path))
}

/// The remote path that the watch entries give to a local file.
pub open spec fn mapped(s: EngineView, path: Seq<u8>, facts: PathFacts) -> Option<Seq<char>> {
    remote_of(s.config.watch, runtime_path(path, facts))
}

/// Whether the work that took up a file with turn `begun` goes on with `turn`
/// where it is to go on after the file, with the given deletes waiting: it is over,
/// comes to the next entry of the walk, or comes to the next watch entry and, after
/// the last one, to the records.
pub open spec fn goes_on(begun: Turn, turn: Turn, pending: PendingView) -> bool {
    let watch = begun.0.config.watch;
    &&& turn.0.pending == pending
    &&& turn.0.config == begun.0.config
    &&& match begun.0.job->LocalUpsert_1 {
        After::Finish => turn.1 == ActionView::Finish(Ok(())),
        After::Walk { .. } => asks(turn, Request::WalkNext),
        After::NextEntry { entry } => if entry + 1 < watch.len() {
            asks(turn, Request::Inspect(watch[entry + 1].local_path))
        } else {
            asks(turn, Request::ListAll)
        },
    }
}

/// Whether the watch entry that the work goes on after has a number.
pub open spec fn entry_fits(turn: Turn) -> bool {
    match turn.0.job->LocalUpsert_1 {
        After::NextEntry { entry } => entry < turn.0.config.watch.len() <= usize::MAX,
        _ => true,
    }
}

/// Whether the content of a file is not what its record says, or it has none and
/// no delete waits of another file with that content.
pub open spec fn is_changed(pending: PendingView, path: Seq<u8>, file: Examined) -> bool {
    match file.record {
        Some(record) => record.md5_hash != file.md5_hash,
        None => forall|k: int|
            0 <= k < pending.len() && !same_path((#[trigger] pending[k]).0, path)
                ==> pending[k].1.record.md5_hash != file.md5_hash,
    }
}

/// No delete that waits makes a changed file a renamed one.
proof fn lemma_changed_is_not_renamed(pending: PendingView, path: Seq<u8>, file: Examined)
    requires
        is_changed(pending, path, file),
    ensures
        file.record is None ==> find(
            removed(pending, path),
            renamed_from(file.md5_hash, path),
        ) is None,
{
    let left = removed(pending, path);
    let hit = renamed_from(file.md5_hash, path);
    lemma_find(pending, entry_of(path));
    if file.record is None {
        assert forall|i: int| 0 <= i < left.len() implies !hit(#[trigger] left[i]) by {
            lemma_removed_keeps(pending, path, i);
        }
        lemma_find_none(left, hit);
    }
}

/// Wherever the work on a local file is taken up, a file that is there, that a
/// watch entry covers and whose content is not what its record says is uploaded to
/// the remote path that the entry gives it. Only when the upload was answered with
/// success is a record written, and it holds the fingerprint and the timestamp that
/// the file was found with and what the remote store said of the upload.
pub proof fn law_changed_files_are_uploaded(
    turns: Seq<Turn>,
    replies: Seq<(ReplyView, u64)>,
    n: int,
    path: Seq<u8>,
    file: Examined,
)
    requires
        follows(turns, replies),
        0 <= n,
        takes_up(turns[n], path),
        entry_fits(turns[n]),
        tell_of_file(replies, n, file),
        is_there(file.facts),
        mapped(turns[n].0, path, file.facts) is Some,
        is_changed(turns[n].0.pending, path, file),
    ensures
        finds_out(turns, n, path),
        asks(
            turns[n + 4],
            Request::Upload {
                virtual_path: mapped(turns[n].0, path, file.facts)->0,
                local_path: path,
            },
        ),
        n + 4 < replies.len() ==> match replies[n + 4].0 {
            ReplyView::Stored(Ok(stored)) => {
                &&& asks(
                    turns[n + 5],
                    Request::Save(transferred(path, file.md5_hash, file.local_timestamp, stored)),
                )
                &&& n + 5 < replies.len() && replies[n + 5].0 == ReplyView::Done(Ok(()))
                    ==> goes_on(turns[n], turns[n + 6], removed(turns[n].0.pending, path))
            },
            _ => turns[n + 5].1 is Finish && turns[n + 5].1->Finish_0 is Err,
        },
{
    lemma_changed_is_not_renamed(turns[n].0.pending, path, file);
    assert(follows_at(turns, replies, n));
    assert(follows_at(turns, replies, n + 1));
    assert(follows_at(turns, replies, n + 2));
    assert(follows_at(turns, replies, n + 3));
    if n + 4 < replies.len() {
        assert(follows_at(turns, replies, n + 4));
        if n + 5 < replies.len() {
            assert(follows_at(turns, replies, n + 5));
        }
    }
}

/// Wherever the work on a local file is taken up, a file whose content is what its
/// record says only gets its timestamp recorded anew: nothing is asked of the remote
/// store.
pub proof fn law_unchanged_files_are_only_touched(
    turns: Seq<Turn>,
    replies: Seq<(ReplyView, u64)>,
    n: int,
    path: Seq<u8>,
    file: Examined,
)
    requires
        follows(turns, replies),
        0 <= n,
        takes_up(turns[n], path),
        entry_fits(turns[n]),
        tell_of_file(replies, n, file),
        is_there(file.facts),
        mapped(turns[n].0, path, file.facts) is Some,
        file.record is Some,
        file.record->0.md5_hash == file.md5_hash,
    ensures
        finds_out(turns, n, path),
        asks(turns[n + 4], Request::SetLocalTimestamp(path, file.local_timestamp)),
        n + 4 < replies.len() && replies[n + 4].0 == ReplyView::Done(Ok(())) ==> goes_on(
            turns[n],
            turns[n + 5],
            removed(turns[n].0.pending, path),
        ),
{
    assert(follows_at(turns, replies, n));
    assert(follows_at(turns, replies, n + 1));
    assert(follows_at(turns, replies, n + 2));
    assert(follows_at(turns, replies, n + 3));
    if n + 4 < replies.len() {
        assert(follows_at(turns, replies, n + 4));
    }
}

/// The record of a file that took the place of a deleted one.
pub open spec fn moved(
    path: Seq<u8>,
    virtual_path: Seq<char>,
    file: Examined,
    stored: RemoteFileMetaView,
) -> FileStateView {
    FileStateView {
        local_path: path,
        drive_id: stored.drive_id,
        virtual_remote_path: virtual_path,
        md5_hash: file.md5_hash,
        local_timestamp: file.local_timestamp,
        remote_timestamp: stored.modified_time,
    }
}

/// Whether turn `n` asks for the removal of the record of `old_path` and the turns
/// after it, where that goes well, write the record of the file, with the delete of
/// `old_path` waiting no longer.
pub open spec fn replaces_record(
    turns: Seq<Turn>,
    replies: Seq<(ReplyView, u64)>,
    begun: Turn,
    n: int,
    old_path: Seq<u8>,
    record: FileStateView,
) -> bool {
    let pending = removed(removed(begun.0.pending, record.local_path), old_path);
    &&& asks(turns[n], Request::RemoveByLocal(old_path))
    &&& n < replies.len() && replies[n].0 == ReplyView::Done(Ok(())) ==> {
        &&& asks(turns[n + 1], Request::Save(record))
        &&& turns[n + 1].0.pending == pending
        &&& n + 1 < replies.len() && replies[n + 1].0 == ReplyView::Done(Ok(())) ==> goes_on(
            begun,
            turns[n + 2],
            pending,
        )
    }
}

/// Whether the delete that waits is of another file, with the content of the one
/// that was examined.
pub open spec fn is_source(pending: PendingView, i: int, path: Seq<u8>, file: Examined) -> bool {
    &&& 0 <= i < pending.len()
    &&& !same_path(pending[i].0, path)
    &&& pending[i].1.record.md5_hash == file.md5_hash
}

/// Wherever the work on a local file is taken up, a file without a record that has
/// the content of another file whose delete waits is a renamed one: the remote copy
/// of the first such file is given the new file's remote path. Where that fails, the
/// file is uploaded. Then the old record is removed, and the new one written.
pub proof fn law_moved_files_are_renamed(
    turns: Seq<Turn>,
    replies: Seq<(ReplyView, u64)>,
    n: int,
    path: Seq<u8>,
    file: Examined,
    k: int,
)
    requires
        follows(turns, replies),
        0 <= n,
        takes_up(turns[n], path),
        entry_fits(turns[n]),
        tell_of_file(replies, n, file),
        is_there(file.facts),
        mapped(turns[n].0, path, file.facts) is Some,
        file.record is None,
        is_source(removed(turns[n].0.pending, path), k, path, file),
        forall|j: int|
            0 <= j < k ==> !#[trigger] is_source(removed(turns[n].0.pending, path), j, path, file),
    ensures
        finds_out(turns, n, path),
        ({
            let virtual_path = mapped(turns[n].0, path, file.facts)->0;
            let source = removed(turns[n].0.pending, path)[k];
            &&& asks(
                turns[n + 4],
                Request::Rename { from: source.1.record.virtual_remote_path, to: virtual_path },
            )
            &&& n + 4 < replies.len() ==> match replies[n + 4].0 {
                ReplyView::Stored(Ok(stored)) => replaces_record(
                    turns,
                    replies,
                    turns[n],
                    n + 5,
                    source.0,
                    moved(path, virtual_path, file, stored),
                ),
                ReplyView::Stored(Err(_)) => {
                    &&& asks(turns[n + 5], Request::Upload { virtual_path, local_path: path })
                    &&& n + 5 < replies.len() ==> match replies[n + 5].0 {
                        ReplyView::Stored(Ok(stored)) => replaces_record(
                            turns,
                            replies,
                            turns[n],
                            n + 6,
                            source.0,
                            moved(path, virtual_path, file, stored),
                        ),
                        _ => turns[n + 6].1 is Finish && turns[n + 6].1->Finish_0 is Err,
                    }
                },
                _ => turns[n + 5].1 is Finish && turns[n + 5].1->Finish_0 is Err,
            }
        }),
{
    let pending = removed(turns[n].0.pending, path);
    let hit = renamed_from(file.md5_hash, path);
    lemma_find(pending, hit);
    let i = find(pending, hit);
    assert(hit(pending[k]));
    assert(i is Some && is_source(pending, i->0, path, file));
    assert(i == Some(k));
    assert(follows_at(turns, replies, n));
    assert(follows_at(turns, replies, n + 1));
    assert(follows_at(turns, replies, n + 2));
    assert(follows_at(turns, replies, n + 3));
    if n + 4 < replies.len() {
        assert(follows_at(turns, replies, n + 4));
        if n + 5 < replies.len() {
            assert(follows_at(turns, replies, n + 5));
            if n + 6 < replies.len() {
                assert(follows_at(turns, replies, n + 6));
                if n + 7 < replies.len() {
                    assert(follows_at(turns, replies, n + 7));
                }
            }
        }
    }
}

/// Wherever the work on a local path is taken up, a folder, or nothing, is passed
/// over, and so is a file that no watch entry covers. A file that is there is no
/// longer deleted.
pub proof fn law_other_paths_are_passed_over(
    turns: Seq<Turn>,
    replies: Seq<(ReplyView, u64)>,
    n: int,
    path: Seq<u8>,
    facts: PathFacts,
)
    requires
        follows(turns, replies),
        0 <= n < replies.len(),
        takes_up(turns[n], path),
        entry_fits(turns[n]),
        replies[n].0 == ReplyView::Facts(facts),
        !is_there(facts) || mapped(turns[n].0, path, facts) is None,
    ensures
        goes_on(
            turns[n],
            turns[n + 1],
            if is_there(facts) {
                removed(turns[n].0.pending, path)
            } else {
                turns[n].0.pending
            },
        ),
{
    assert(follows_at(turns, replies, n));
}

/// The work on a local file is taken up for an event that tells of it, and by a
/// full synchronization for every watch entry that is a file and for every file that
/// the walk below an entry comes to.
pub proof fn law_files_are_taken_up(
    s: EngineView,
    path: Seq<u8>,
    turns: Seq<Turn>,
    replies: Seq<(ReplyView, u64)>,
    n: int,
)
    requires
        follows(turns, replies),
        0 <= n < replies.len(),
    ensures
        takes_up(handle(s, SyncEventView::Local(LocalFileEventKind::Upsert, path)), path),
        walked_file(turns[n], replies[n].0) == Some(path) ==> takes_up(turns[n + 1], path),
{
    assert(follows_at(turns, replies, n));
}

/// A full synchronization uploads every file that the walk below a watch entry comes
/// to, that an entry covers and whose content is not what its record says, and writes
/// its record only when the upload was answered with success.
pub proof fn law_a_full_sync_uploads_changed_files(
    turns: Seq<Turn>,
    replies: Seq<(ReplyView, u64)>,
    n: int,
    path: Seq<u8>,
    file: Examined,
)
    requires
        follows(turns, replies),
        0 <= n < replies.len(),
        walked_file(turns[n], replies[n].0) == Some(path),
        tell_of_file(replies, n + 1, file),
        is_there(file.facts),
        mapped(turns[n].0, path, file.facts) is Some,
        is_changed(turns[n].0.pending, path, file),
    ensures
        finds_out(turns, n + 1, path),
        asks(
            turns[n + 5],
            Request::Upload {
                virtual_path: mapped(turns[n].0, path, file.facts)->0,
                local_path: path,
            },
        ),
        n + 5 < replies.len() ==> match replies[n + 5].0 {
            ReplyView::Stored(Ok(stored)) => asks(
                turns[n + 6],
                Request::Save(transferred(path, file.md5_hash, file.local_timestamp, stored)),
            ),
            _ => turns[n + 6].1 is Finish && turns[n + 6].1->Finish_0 is Err,
        },
{
    assert(follows_at(turns, replies, n));
    assert(takes_up(turns[n + 1], path));
    law_changed_files_are_uploaded(turns, replies, n + 1, path, file);
}

} // verus!
