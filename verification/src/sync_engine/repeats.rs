//! What a second look at a local file comes to, and what becomes of the delete of a
//! file that is back.
use vstd::prelude::*;

use crate::config::{PathFacts, PathKind, WatchEntryView};
use crate::events::{LocalFileEventKind, SyncEventView};
use crate::keyed::{find, lemma_find};
use crate::path::same_path;
use crate::path_map::{entry_of, inserted, law_removed_is_gone, one_per_path, removed};
use crate::state_db::FileStateView;
use crate::sync_engine::full_sync::ended_well;
use crate::sync_engine::laws::{asks, is_stop, is_there, lemma_removed_keeps};
use crate::sync_engine::model::{
    all_due, expired, finish, flush_next, handle, scheduled, step, woken, ActionView,
    After, Candidate, EngineView, Flush, FullSync, Job, LocalUpsert, PendingDeleteView, PendingView,
    ReplyView, Request, Turn, Wake, RENAME_WINDOW_NANOS,
};
use crate::sync_engine::runs::{follows, follows_at};
use crate::sync_engine::settled::{
    happens, is_error, is_synced, leaves_the_remote_alone, touched, true_at, Disk, Rows,
    World,
};
use crate::text::lossy_text;

verus! {

/// Whether the row of a local file has the file's content and time.
pub open spec fn is_up_to_date(disk: Disk, rows: Rows, path: Seq<u8>) -> bool {
    &&& rows.contains_key(lossy_text(path))
    &&& rows[lossy_text(path)].md5_hash == (disk.hash)(path)
    &&& rows[lossy_text(path)].local_timestamp == (disk.modified)(path)
}

/// Whether a candidate is the file at a path as it is.
spec fn is_candidate(disk: Disk, candidate: Candidate<Seq<u8>, Seq<char>>, path: Seq<u8>) -> bool {
    &&& candidate.path == path
    &&& candidate.md5_hash == (disk.hash)(path)
    &&& candidate.local_timestamp == (disk.modified)(path)
}

/// Whether a record is of the file at a path as it is.
spec fn is_recorded(disk: Disk, record: FileStateView, path: Seq<u8>) -> bool {
    &&& record.local_path == path
    &&& record.md5_hash == (disk.hash)(path)
    &&& record.local_timestamp == (disk.modified)(path)
}

/// Where the work on a local file stands after an event for it.
spec fn event_stands(
    disk: Disk,
    watch: Seq<WatchEntryView>,
    rows: Rows,
    path: Seq<u8>,
    turn: Turn,
) -> bool {
    &&& turn.0.config.watch == watch
    &&& match turn.0.job {
        Job::LocalUpsert(stage, After::Finish) => match stage {
            LocalUpsert::Inspect { path: p } => p == path && asks(turn, Request::Inspect(path)),
            LocalUpsert::Hash { path: p, .. } => {
                &&& p == path
                &&& asks(turn, Request::HashFile(path))
            },
            LocalUpsert::Modified { path: p, md5_hash, .. } => {
                &&& p == path
                &&& md5_hash == (disk.hash)(path)
                &&& asks(turn, Request::ReadModified(path))
            },
            LocalUpsert::Find { candidate } => {
                &&& is_candidate(disk, candidate, path)
                &&& asks(turn, Request::FindByLocal(path))
            },
            LocalUpsert::Rename { candidate, .. } => {
                &&& is_candidate(disk, candidate, path)
                &&& turn.1 matches ActionView::Perform(Request::Rename { .. })
            },
            LocalUpsert::UploadRenamed { candidate, .. } => {
                &&& is_candidate(disk, candidate, path)
                &&& turn.1 matches ActionView::Perform(Request::Upload { .. })
            },
            LocalUpsert::Forget { record, .. } => {
                &&& is_recorded(disk, record, path)
                &&& turn.1 matches ActionView::Perform(Request::RemoveByLocal(_))
            },
            LocalUpsert::Touch => {
                &&& asks(turn, Request::SetLocalTimestamp(path, (disk.modified)(path)))
                &&& rows.contains_key(lossy_text(path))
                &&& rows[lossy_text(path)].md5_hash == (disk.hash)(path)
            },
            LocalUpsert::Upload { candidate } => {
                &&& is_candidate(disk, candidate, path)
                &&& turn.1 matches ActionView::Perform(Request::Upload { .. })
            },
            LocalUpsert::Save => turn.1 matches ActionView::Perform(Request::Save(record))
                && is_recorded(disk, record, path),
        },
        Job::Idle => ended_well(turn) && is_synced(disk, watch, path) ==> is_up_to_date(
            disk,
            rows,
            path,
        ),
        _ => false,
    }
}

/// The work on a local file goes on.
proof fn lemma_event_stands(
    disk: Disk,
    s: EngineView,
    path: Seq<u8>,
    turns: Seq<Turn>,
    replies: Seq<(ReplyView, u64)>,
    worlds: Seq<World>,
    n: int,
)
    requires
        happens(disk, turns, replies, worlds),
        turns[0] == handle(s, SyncEventView::Local(LocalFileEventKind::Upsert, path)),
        0 <= n <= replies.len(),
    ensures
        event_stands(disk, s.config.watch, worlds[n].rows, path, turns[n]),
    decreases n,
{
    if n > 0 {
        let k = n - 1;
        lemma_event_stands(disk, s, path, turns, replies, worlds, k);
        assert(follows_at(turns, replies, k));
        assert(true_at(disk, turns, replies, worlds, k));
    }
}

/// Where the work on a local file stands that finds it up to date, and that it takes
/// no more than the given number of requests.
spec fn repeat_stands(
    disk: Disk,
    watch: Seq<WatchEntryView>,
    path: Seq<u8>,
    turn: Turn,
    left: int,
) -> bool {
    &&& turn.0.config.watch == watch
    &&& match turn.0.job {
        Job::LocalUpsert(stage, After::Finish) => match stage {
            LocalUpsert::Inspect { path: p } => {
                &&& p == path
                &&& asks(turn, Request::Inspect(path))
                &&& left == 5
            },
            LocalUpsert::Hash { path: p, .. } => {
                &&& p == path
                &&& asks(turn, Request::HashFile(path))
                &&& is_synced(disk, watch, path)
                &&& left == 4
            },
            LocalUpsert::Modified { path: p, md5_hash, .. } => {
                &&& p == path
                &&& md5_hash == (disk.hash)(path)
                &&& asks(turn, Request::ReadModified(path))
                &&& is_synced(disk, watch, path)
                &&& left == 3
            },
            LocalUpsert::Find { candidate } => {
                &&& is_candidate(disk, candidate, path)
                &&& asks(turn, Request::FindByLocal(path))
                &&& is_synced(disk, watch, path)
                &&& left == 2
            },
            LocalUpsert::Touch => {
                &&& asks(turn, Request::SetLocalTimestamp(path, (disk.modified)(path)))
                &&& is_synced(disk, watch, path)
                &&& left == 1
            },
            _ => false,
        },
        Job::Idle => left >= 0 && (ended_well(turn) || turn.1 matches ActionView::Finish(Err(_))),
        _ => false,
    }
}

/// Setting the time that a row has already changes nothing.
proof fn lemma_touched_again(disk: Disk, rows: Rows, path: Seq<u8>)
    requires
        is_up_to_date(disk, rows, path),
    ensures
        touched(rows, path, (disk.modified)(path)) == rows,
{
    let row = rows[lossy_text(path)];
    assert(FileStateView { local_timestamp: (disk.modified)(path), ..row } == row);
    assert(rows.insert(lossy_text(path), row) == rows);
}

/// The work on a local file that is up to date goes on.
proof fn lemma_repeat_stands(
    disk: Disk,
    s: EngineView,
    path: Seq<u8>,
    turns: Seq<Turn>,
    replies: Seq<(ReplyView, u64)>,
    worlds: Seq<World>,
    n: int,
)
    requires
        happens(disk, turns, replies, worlds),
        turns[0] == handle(s, SyncEventView::Local(LocalFileEventKind::Upsert, path)),
        is_synced(disk, s.config.watch, path) ==> is_up_to_date(disk, worlds[0].rows, path),
        0 <= n <= replies.len(),
    ensures
        repeat_stands(disk, s.config.watch, path, turns[n], 5 - n),
        worlds[n].rows == worlds[0].rows,
        turns[n].1 matches ActionView::Finish(Err(_)) ==> n > 0 && is_error(replies[n - 1].0),
    decreases n,
{
    if n > 0 {
        let k = n - 1;
        lemma_repeat_stands(disk, s, path, turns, replies, worlds, k);
        assert(follows_at(turns, replies, k));
        assert(true_at(disk, turns, replies, worlds, k));
        if is_synced(disk, s.config.watch, path) {
            lemma_touched_again(disk, worlds[0].rows, path);
        }
    }
}

/// Whether two looks at a local path find the same.
pub open spec fn same_file(a: Disk, b: Disk, path: Seq<u8>) -> bool {
    &&& (a.facts)(path) == (b.facts)(path)
    &&& (a.hash)(path) == (b.hash)(path)
    &&& (a.modified)(path) == (b.modified)(path)
}

/// Where the work on a local event ended well, whether the file was uploaded,
/// renamed or only touched, and neither the file nor the rows changed since,
/// another event for it asks the remote store for nothing and leaves the rows as
/// they are. It takes at most five requests, and ends well unless a reply tells of
/// a failure.
pub proof fn law_a_second_local_event_leaves_the_remote_alone(
    disk: Disk,
    s: EngineView,
    path: Seq<u8>,
    turns: Seq<Turn>,
    replies: Seq<(ReplyView, u64)>,
    worlds: Seq<World>,
    next_disk: Disk,
    later: EngineView,
    next_turns: Seq<Turn>,
    next_replies: Seq<(ReplyView, u64)>,
    next_worlds: Seq<World>,
)
    requires
        happens(disk, turns, replies, worlds),
        turns[0] == handle(s, SyncEventView::Local(LocalFileEventKind::Upsert, path)),
        ended_well(turns.last()),
        happens(next_disk, next_turns, next_replies, next_worlds),
        same_file(next_disk, disk, path),
        later.config == s.config,
        next_worlds[0].rows == worlds.last().rows,
        next_turns[0] == handle(later, SyncEventView::Local(LocalFileEventKind::Upsert, path)),
    ensures
        forall|i: int|
            0 <= i < next_turns.len() ==> leaves_the_remote_alone(#[trigger] next_turns[i]),
        forall|i: int|
            0 <= i < next_worlds.len() ==> (#[trigger] next_worlds[i]).rows == worlds.last().rows,
        next_replies.len() <= 5,
        next_turns.last().1 is Finish && (forall|i: int|
            0 <= i < next_replies.len() ==> !is_error((#[trigger] next_replies[i]).0))
            ==> ended_well(next_turns.last()),
{
    lemma_event_stands(disk, s, path, turns, replies, worlds, replies.len() as int);
    let n = replies.len() as int;
    assert(turns[n].0.job is Idle) by {
        assert(follows_at(turns, replies, n - 1));
    }
    assert forall|i: int| 0 <= i < next_turns.len() implies leaves_the_remote_alone(
        #[trigger] next_turns[i],
    ) by {
        lemma_repeat_stands(next_disk, later, path, next_turns, next_replies, next_worlds, i);
    }
    assert forall|i: int| 0 <= i < next_worlds.len() implies (#[trigger] next_worlds[i]).rows
        == worlds.last().rows by {
        lemma_repeat_stands(next_disk, later, path, next_turns, next_replies, next_worlds, i);
    }
    lemma_repeat_stands(
        next_disk,
        later,
        path,
        next_turns,
        next_replies,
        next_worlds,
        next_replies.len() as int,
    );
    if next_turns.last().1 matches ActionView::Finish(Err(_)) {
        assert(is_error(next_replies[next_replies.len() - 1].0));
    }
}

/// Whether no delete of a path waits.
pub open spec fn no_delete_waits(pending: PendingView, path: Seq<u8>) -> bool {
    forall|i: int| 0 <= i < pending.len() ==> !same_path((#[trigger] pending[i]).0, path)
}

/// Whether each delete waits under the path of its record.
pub open spec fn under_their_paths(pending: PendingView) -> bool {
    forall|i: int|
        0 <= i < pending.len() ==> same_path(
            (#[trigger] pending[i]).0,
            pending[i].1.record.local_path,
        )
}

/// Adding the delete of a record keeps each delete under its path.
proof fn lemma_inserted_under_path(pending: PendingView, record: FileStateView, expires_at: u64)
    requires
        under_their_paths(pending),
    ensures
        under_their_paths(
            inserted(pending, record.local_path, PendingDeleteView { record, expires_at }),
        ),
{
    lemma_find(pending, entry_of::<PendingDeleteView>(record.local_path));
}

/// So does adding the deletes of records.
proof fn lemma_scheduled_under_paths(
    pending: PendingView,
    records: Seq<FileStateView>,
    expires_at: u64,
)
    requires
        under_their_paths(pending),
    ensures
        under_their_paths(scheduled(pending, records, expires_at)),
    decreases records.len(),
{
    if records.len() > 0 {
        lemma_scheduled_under_paths(pending, records.drop_last(), expires_at);
        lemma_inserted_under_path(
            scheduled(pending, records.drop_last(), expires_at),
            records.last(),
            expires_at,
        );
    }
}

/// So does going on with a flush.
proof fn lemma_flush_next_under_paths(s: EngineView, cutoff: u64)
    requires
        under_their_paths(s.pending),
    ensures
        under_their_paths(flush_next(s, cutoff).0.pending),
{
    lemma_find(s.pending, expired(cutoff));
    if let Some(i) = find(s.pending, expired(cutoff)) {
        let after = s.pending.remove(i);
        assert forall|j: int| 0 <= j < after.len() implies same_path(
            (#[trigger] after[j]).0,
            after[j].1.record.local_path,
        ) by {
            let a = if j < i {
                j
            } else {
                j + 1
            };
            assert(after[j] == s.pending[a]);
        }
    }
}

/// So does taking out the entry of a path.
proof fn lemma_removed_under_paths(pending: PendingView, path: Seq<u8>)
    requires
        under_their_paths(pending),
    ensures
        under_their_paths(removed(pending, path)),
{
    let after = removed(pending, path);
    assert forall|i: int| 0 <= i < after.len() implies same_path(
        (#[trigger] after[i]).0,
        after[i].1.record.local_path,
    ) by {
        lemma_removed_keeps(pending, path, i);
    }
}

/// Each delete waits under the path of its record, whatever happens.
pub proof fn law_deletes_wait_under_their_paths(
    s: EngineView,
    wake: Wake,
    reply: ReplyView,
    now: u64,
)
    requires
        under_their_paths(s.pending),
    ensures
        under_their_paths(woken(s, wake, now).0.pending),
        under_their_paths(step(s, reply, now).0.pending),
{
    let due = all_due(s.pending, now);
    assert(under_their_paths(due)) by {
        assert forall|i: int| 0 <= i < due.len() implies same_path(
            (#[trigger] due[i]).0,
            due[i].1.record.local_path,
        ) by {
            assert(same_path(s.pending[i].0, s.pending[i].1.record.local_path));
        }
    }
    lemma_flush_next_under_paths(s, now);
    lemma_flush_next_under_paths(EngineView { pending: due, stopping: true, ..s }, now);
    match (s.job, reply) {
        (Job::LocalUpsert(LocalUpsert::Inspect { path }, _), _) => {
            lemma_removed_under_paths(s.pending, path);
        },
        (Job::LocalUpsert(LocalUpsert::Forget { old_path, .. }, _), _) => {
            lemma_removed_under_paths(s.pending, old_path);
        },
        (Job::LocalDelete, ReplyView::Records(Ok(records))) => {
            lemma_scheduled_under_paths(
                s.pending,
                records,
                (now + RENAME_WINDOW_NANOS) as u64,
            );
        },
        (Job::FullSync(FullSync::ListRecords), ReplyView::Records(Ok(records))) => {
            lemma_flush_next_under_paths(EngineView { records, ..s }, now);
        },
        (Job::FullSync(FullSync::InspectRecord { next }), ReplyView::Facts(facts)) => {
            let record = s.records[next as int];
            lemma_inserted_under_path(s.pending, record, now);
            let pending = inserted(
                s.pending,
                record.local_path,
                PendingDeleteView { record, expires_at: now },
            );
            lemma_flush_next_under_paths(EngineView { pending, ..s }, now);
        },
        (Job::Flush(Flush::Forget { cutoff }), _) => {
            lemma_flush_next_under_paths(s, cutoff);
        },
        _ => {},
    }
}

/// Whether a turn moves the remote copy of the file at a path to the trash.
pub open spec fn trashes_path(turn: Turn, path: Seq<u8>) -> bool {
    turn.0.job matches Job::Flush(Flush::Trash { local_path, .. }) && same_path(local_path, path)
}

/// A step of a flush.
proof fn lemma_flush_next_spares(s: EngineView, cutoff: u64, path: Seq<u8>)
    requires
        under_their_paths(s.pending),
        no_delete_waits(s.pending, path),
    ensures
        ({
            let turn = flush_next(s, cutoff);
            &&& turn.0.job is Idle || turn.0.job is Flush
            &&& no_delete_waits(turn.0.pending, path)
            &&& !trashes_path(turn, path)
        }),
{
    lemma_find(s.pending, expired(cutoff));
    if let Some(i) = find(s.pending, expired(cutoff)) {
        let after = s.pending.remove(i);
        assert(!same_path(s.pending[i].0, path));
        assert forall|j: int| 0 <= j < after.len() implies !same_path(
            (#[trigger] after[j]).0,
            path,
        ) by {
            let a = if j < i {
                j
            } else {
                j + 1
            };
            assert(after[j] == s.pending[a]);
        }
    }
}

/// A flush spares a path of which no delete waits, with each turn.
proof fn lemma_flush_spares(
    s: EngineView,
    path: Seq<u8>,
    wake: Wake,
    now: u64,
    turns: Seq<Turn>,
    replies: Seq<(ReplyView, u64)>,
    n: int,
)
    requires
        under_their_paths(s.pending),
        no_delete_waits(s.pending, path),
        wake is Tick || is_stop(wake),
        follows(turns, replies),
        turns[0] == woken(s, wake, now),
        0 <= n <= replies.len(),
    ensures
        turns[n].0.job is Idle || turns[n].0.job is Flush,
        under_their_paths(turns[n].0.pending),
        no_delete_waits(turns[n].0.pending, path),
        !trashes_path(turns[n], path),
    decreases n,
{
    if n == 0 {
        let due = all_due(s.pending, now);
        law_deletes_wait_under_their_paths(s, wake, ReplyView::Walked(None), now);
        assert forall|i: int| 0 <= i < due.len() implies same_path(
            (#[trigger] due[i]).0,
            due[i].1.record.local_path,
        ) && !same_path(due[i].0, path) by {
            assert(same_path(s.pending[i].0, s.pending[i].1.record.local_path));
            assert(!same_path(s.pending[i].0, path));
        }
        lemma_flush_next_spares(s, now, path);
        lemma_flush_next_spares(EngineView { pending: due, stopping: true, ..s }, now, path);
    } else {
        let k = n - 1;
        lemma_flush_spares(s, path, wake, now, turns, replies, k);
        assert(follows_at(turns, replies, k));
        law_deletes_wait_under_their_paths(turns[k].0, wake, replies[k].0, replies[k].1);
        if let Job::Flush(Flush::Forget { cutoff }) = turns[k].0.job {
            lemma_flush_next_spares(turns[k].0, cutoff, path);
        }
    }
}

/// The work on a local file that is there keeps no delete of it.
proof fn lemma_event_cancels(
    s: EngineView,
    path: Seq<u8>,
    facts: PathFacts,
    turns: Seq<Turn>,
    replies: Seq<(ReplyView, u64)>,
    n: int,
)
    requires
        one_per_path(s.pending),
        under_their_paths(s.pending),
        is_there(facts),
        follows(turns, replies),
        turns[0] == handle(s, SyncEventView::Local(LocalFileEventKind::Upsert, path)),
        replies.len() > 0,
        replies[0].0 == ReplyView::Facts(facts),
        1 <= n <= replies.len(),
    ensures
        turns[n].0.job matches Job::LocalUpsert(_, After::Finish) || turns[n].0.job is Idle,
        under_their_paths(turns[n].0.pending),
        no_delete_waits(turns[n].0.pending, path),
    decreases n,
{
    let k = n - 1;
    assert(follows_at(turns, replies, k));
    if k == 0 {
        law_removed_is_gone(s.pending, path);
        law_deletes_wait_under_their_paths(turns[0].0, Wake::Tick, replies[0].0, replies[0].1);
    } else {
        lemma_event_cancels(s, path, facts, turns, replies, k);
        law_deletes_wait_under_their_paths(turns[k].0, Wake::Tick, replies[k].0, replies[k].1);
        let before = turns[k].0.pending;
        let after = turns[n].0.pending;
        assert forall|i: int| 0 <= i < after.len() implies !same_path(
            (#[trigger] after[i]).0,
            path,
        ) by {
            match turns[k].0.job {
                Job::LocalUpsert(LocalUpsert::Inspect { path: p }, _) => {
                    if after != before {
                        lemma_removed_keeps(before, p, i);
                    }
                },
                Job::LocalUpsert(LocalUpsert::Forget { old_path, .. }, _) => {
                    if after != before {
                        lemma_removed_keeps(before, old_path, i);
                    }
                },
                _ => {},
            }
        }
    }
}

/// The delete of a file that is there again is cancelled: from the look at the file
/// on, none of its path waits, whatever comes of the work on it; and no flush that
/// follows, nor the one before the engine stops, moves its remote copy to the
/// trash.
pub proof fn law_a_file_that_is_back_is_not_trashed(
    s: EngineView,
    path: Seq<u8>,
    facts: PathFacts,
    turns: Seq<Turn>,
    replies: Seq<(ReplyView, u64)>,
    wake: Wake,
    now: u64,
    flush_turns: Seq<Turn>,
    flush_replies: Seq<(ReplyView, u64)>,
)
    requires
        one_per_path(s.pending),
        under_their_paths(s.pending),
        is_there(facts),
        follows(turns, replies),
        turns[0] == handle(s, SyncEventView::Local(LocalFileEventKind::Upsert, path)),
        replies.len() > 0,
        replies[0].0 == ReplyView::Facts(facts),
        wake is Tick || is_stop(wake),
        follows(flush_turns, flush_replies),
        flush_turns[0] == woken(turns.last().0, wake, now),
    ensures
        forall|i: int|
            1 <= i < turns.len() ==> no_delete_waits((#[trigger] turns[i]).0.pending, path),
        forall|i: int| 0 <= i < flush_turns.len() ==> !trashes_path(#[trigger] flush_turns[i], path),
{
    assert forall|i: int| 1 <= i < turns.len() implies no_delete_waits(
        (#[trigger] turns[i]).0.pending,
        path,
    ) by {
        lemma_event_cancels(s, path, facts, turns, replies, i);
    }
    lemma_event_cancels(s, path, facts, turns, replies, replies.len() as int);
    assert forall|i: int| 0 <= i < flush_turns.len() implies !trashes_path(
        #[trigger] flush_turns[i],
        path,
    ) by {
        lemma_flush_spares(turns.last().0, path, wake, now, flush_turns, flush_replies, i);
    }
}

/// An event for a path at which there is nothing, or a folder, ends well at once: it
/// asks only what there is, and no delete, record or remote file changes.
pub proof fn law_events_for_no_file_change_nothing(
    s: EngineView,
    path: Seq<u8>,
    facts: PathFacts,
    now: u64,
)
    requires
        facts.kind == PathKind::Missing || facts.kind == PathKind::Directory,
    ensures
        ({
            let begun = handle(s, SyncEventView::Local(LocalFileEventKind::Upsert, path));
            &&& asks(begun, Request::Inspect(path))
            &&& step(begun.0, ReplyView::Facts(facts), now) == finish(s)
        }),
{
}

} // verus!
