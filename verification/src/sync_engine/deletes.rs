//! What becomes of deleted local files: how long their remote copies are kept, and
//! which of them are moved to the trash.
use vstd::prelude::*;

use crate::config::PathKind;
use crate::events::{LocalFileEventKind, SyncEventView};
use crate::keyed::{find, lemma_filter_all, lemma_find};
use crate::path::same_path;
use crate::path_map::{
    entry_of, inserted, law_inserted_is_found, law_inserting_keeps_the_others,
    law_inserting_replaces, lemma_inserted_one_per_path, one_per_path, removed,
};
use crate::state_db::FileStateView;
use crate::sync_engine::full_sync::lists_fit;
use crate::sync_engine::laws::{
    asks, carried_out, is_stop, law_due_deletes_reach_the_remote_trash, lemma_removed_keeps,
    not_expired,
};
use crate::sync_engine::model::{
    all_due, expired, flush_next, handle, scheduled, step, sync_record, woken, Action, ActionView, EngineView,
    Flush, FullSync, Job, JobView, LocalUpsert, PendingDeleteView, PendingView, ReplyView, Request,
    RequestView, Turn, Wake, RENAME_WINDOW_NANOS,
};
use crate::sync_engine::runs::{follows, follows_at};

verus! {

/// Whether one of the records is of the path.
pub open spec fn names_path(records: Seq<FileStateView>, path: Seq<u8>) -> bool {
    exists|k: int| 0 <= k < records.len() && same_path((#[trigger] records[k]).local_path, path)
}

/// Whether no later record is of the same path as the one with the given index.
pub open spec fn is_last_of_path(records: Seq<FileStateView>, k: int) -> bool {
    &&& 0 <= k < records.len()
    &&& forall|j: int|
        k < j < records.len() ==> !same_path(
            (#[trigger] records[j]).local_path,
            records[k].local_path,
        )
}

/// Whether a delete of the record waits until the clock reading, and is the only one of
/// its path.
pub open spec fn waits_until(pending: PendingView, record: FileStateView, expires_at: u64) -> bool {
    let delete = PendingDeleteView { record, expires_at };
    &&& exists|i: int|
        0 <= i < pending.len() && same_path((#[trigger] pending[i]).0, record.local_path)
            && pending[i].1 == delete
    &&& forall|i: int|
        0 <= i < pending.len() && same_path((#[trigger] pending[i]).0, record.local_path)
            ==> pending[i].1 == delete
}

/// What is scheduled of records.
proof fn lemma_scheduled(
    pending: PendingView,
    records: Seq<FileStateView>,
    expires_at: u64,
    entry: (Seq<u8>, PendingDeleteView),
)
    requires
        one_per_path(pending),
    ensures
        one_per_path(scheduled(pending, records, expires_at)),
        !names_path(records, entry.0) ==> (scheduled(pending, records, expires_at).contains(entry)
            <==> pending.contains(entry)),
    decreases records.len(),
{
    if records.len() > 0 {
        let head = records.drop_last();
        let record = records.last();
        let before = scheduled(pending, head, expires_at);
        let delete = PendingDeleteView { record, expires_at };
        lemma_scheduled(pending, head, expires_at, entry);
        lemma_inserted_one_per_path(before, record.local_path, delete);
        if !names_path(records, entry.0) {
            assert(records[records.len() - 1] == record);
            if names_path(head, entry.0) {
                let k = choose|k: int|
                    0 <= k < head.len() && same_path((#[trigger] head[k]).local_path, entry.0);
                assert(records[k] == head[k]);
            }
            law_inserting_keeps_the_others(before, record.local_path, delete, entry);
        }
    }
}

/// What is scheduled of one record.
proof fn lemma_scheduled_waits_until(
    pending: PendingView,
    records: Seq<FileStateView>,
    expires_at: u64,
    k: int,
)
    requires
        one_per_path(pending),
        is_last_of_path(records, k),
    ensures
        waits_until(scheduled(pending, records, expires_at), records[k], expires_at),
    decreases records.len(),
{
    let head = records.drop_last();
    let record = records.last();
    let before = scheduled(pending, head, expires_at);
    let after = scheduled(pending, records, expires_at);
    let delete = PendingDeleteView { record, expires_at };
    let path = records[k].local_path;
    lemma_scheduled(pending, head, expires_at, (path, delete));
    if k == records.len() - 1 {
        law_inserted_is_found(before, path, delete);
        assert forall|i: int| 0 <= i < after.len() && same_path(
            (#[trigger] after[i]).0,
            path,
        ) implies after[i].1 == delete by {
            assert(after.contains(after[i]));
            law_inserting_replaces(before, path, delete, after[i]);
        }
    } else {
        assert(records[records.len() - 1] == record);
        assert(head[k] == records[k]);
        assert(is_last_of_path(head, k)) by {
            assert forall|j: int| k < j < head.len() implies !same_path(
                (#[trigger] head[j]).local_path,
                head[k].local_path,
            ) by {
                assert(head[j] == records[j]);
            }
        }
        lemma_scheduled_waits_until(pending, head, expires_at, k);
        let wanted = PendingDeleteView { record: records[k], expires_at };
        let i = choose|i: int|
            0 <= i < before.len() && same_path((#[trigger] before[i]).0, path) && before[i].1
                == wanted;
        lemma_find(before, entry_of(record.local_path));
        assert(after[i] == before[i]);
        assert forall|j: int| 0 <= j < after.len() && same_path(
            (#[trigger] after[j]).0,
            path,
        ) implies after[j].1 == wanted by {
            assert(j < before.len() && after[j] == before[j]);
        }
    }
}

/// A local delete asks for the records at or below the path, and nothing else. The remote
/// copy of each recorded file is then to be moved to the trash, by what its record says,
/// in five seconds; of two records of the same path the later one counts. What waits for
/// other paths is left alone.
pub proof fn law_deleted_files_wait_for_five_seconds(
    s: EngineView,
    path: Seq<u8>,
    records: Seq<FileStateView>,
    now: u64,
    k: int,
    entry: (Seq<u8>, PendingDeleteView),
)
    requires
        one_per_path(s.pending),
        now + RENAME_WINDOW_NANOS <= u64::MAX,
    ensures
        ({
            let begun = handle(s, SyncEventView::Local(LocalFileEventKind::Delete, path));
            let done = step(begun.0, ReplyView::Records(Ok(records)), now);
            &&& asks(begun, Request::ListByLocalPrefix(path))
            &&& done.1 == ActionView::Finish(Ok(()))
            &&& is_last_of_path(records, k) ==> waits_until(
                done.0.pending,
                records[k],
                (now + 5_000_000_000) as u64,
            )
            &&& !names_path(records, entry.0) ==> (done.0.pending.contains(entry)
                <==> s.pending.contains(entry))
        }),
{
    let expires_at = (now + RENAME_WINDOW_NANOS) as u64;
    lemma_scheduled(s.pending, records, expires_at, entry);
    if is_last_of_path(records, k) {
        lemma_scheduled_waits_until(s.pending, records, expires_at, k);
    }
}

/// Whether the work moves the remote copy to the trash and then removes the record.
pub open spec fn trashes_and_forgets(done: Seq<ActionView>, delete: PendingDeleteView) -> bool {
    exists|i: int|
        0 <= i && i + 1 < done.len() && #[trigger] done[i] == ActionView::Perform(
            RequestView::TrashRemote(delete.record.virtual_remote_path),
        ) && done[i + 1] == ActionView::Perform(
            RequestView::RemoveByLocal(delete.record.local_path),
        )
}

/// A look at the deletes that wait carries out every one whose time has come, where each
/// request is carried out: the remote copy is moved to the trash, and then the record is
/// removed. The others still wait, and none of them is touched.
pub proof fn law_a_tick_carries_out_what_is_due(
    s: EngineView,
    now: u64,
    entry: (Seq<u8>, PendingDeleteView),
)
    requires
        s.pending.contains(entry),
    ensures
        ({
            let due = s.pending.filter(expired(now));
            let done = carried_out(woken(s, Wake::Tick, now), 2 * due.len());
            &&& done.1.last() == ActionView::Finish(Ok(()))
            &&& entry.1.expires_at <= now ==> trashes_and_forgets(done.1, entry.1)
            &&& done.0.pending.contains(entry) <==> entry.1.expires_at > now
        }),
{
    let due = s.pending.filter(expired(now));
    let left = s.pending.filter(not_expired(now));
    let done = carried_out(woken(s, Wake::Tick, now), 2 * due.len());
    law_due_deletes_reach_the_remote_trash(s, now);
    let j = choose|j: int| 0 <= j < s.pending.len() && s.pending[j] == entry;
    if entry.1.expires_at <= now {
        s.pending.lemma_filter_contains(expired(now), j);
        let i = choose|i: int| 0 <= i < due.len() && due[i] == entry;
        assert(done.1[2 * i] == ActionView::Perform(
            RequestView::TrashRemote(due[i].1.record.virtual_remote_path),
        ));
        assert(trashes_and_forgets(done.1, entry.1));
        if left.contains(entry) {
            let m = choose|m: int| 0 <= m < left.len() && left[m] == entry;
            s.pending.lemma_filter_pred(not_expired(now), m);
        }
    } else {
        s.pending.lemma_filter_contains(not_expired(now), j);
    }
}

/// Before the engine stops it carries out every delete that waits, due or not, by what
/// its record says, in their order.
pub proof fn law_a_stop_carries_out_what_waits(s: EngineView, wake: Wake, now: u64)
    requires
        is_stop(wake),
    ensures
        ({
            let done = carried_out(woken(s, wake, now), 2 * s.pending.len());
            &&& done.0.pending.len() == 0
            &&& done.1.len() == 2 * s.pending.len() + 1
            &&& done.1.last() == ActionView::Finish(Ok(()))
            &&& forall|i: int|
                0 <= i < s.pending.len() ==> done.1[2 * i] == ActionView::Perform(
                    RequestView::TrashRemote(
                        (#[trigger] s.pending[i]).1.record.virtual_remote_path,
                    ),
                ) && done.1[2 * i + 1] == ActionView::Perform(
                    RequestView::RemoveByLocal(s.pending[i].1.record.local_path),
                )
        }),
{
    let due = all_due(s.pending, now);
    let stopping = EngineView { pending: due, stopping: true, ..s };
    assert forall|i: int| 0 <= i < due.len() implies expired(now)(#[trigger] due[i]) by {}
    lemma_filter_all(due, expired(now));
    law_due_deletes_reach_the_remote_trash(stopping, now);
    let done = carried_out(woken(s, wake, now), 2 * s.pending.len());
    assert(woken(s, wake, now) == flush_next(stopping, now));
    assert(due.filter(not_expired(now)).len() == 0) by {
        let left = due.filter(not_expired(now));
        if left.len() > 0 {
            due.lemma_filter_pred(not_expired(now), 0);
            assert(left.contains(left[0]));
            due.lemma_filter_contains_rev(not_expired(now), left[0]);
            let k = choose|k: int| 0 <= k < due.len() && due[k] == left[0];
            assert(expired(now)(due[k]));
        }
    }
    assert forall|i: int| 0 <= i < s.pending.len() implies done.1[2 * i] == ActionView::Perform(
        RequestView::TrashRemote((#[trigger] s.pending[i]).1.record.virtual_remote_path),
    ) && done.1[2 * i + 1] == ActionView::Perform(
        RequestView::RemoveByLocal(s.pending[i].1.record.local_path),
    ) by {
        assert(due[i].1.record == s.pending[i].1.record);
    }
}

/// Whether turn `k` asks what there is at the path of the record, which was listed among
/// all of them, and there is nothing.
pub open spec fn found_missing(
    turns: Seq<Turn>,
    replies: Seq<(ReplyView, u64)>,
    k: int,
    record: FileStateView,
) -> bool {
    &&& 0 <= k < replies.len()
    &&& asks(turns[k], Request::Inspect(record.local_path))
    &&& replies[k].0 matches ReplyView::Facts(facts)
    &&& facts.kind is Missing
    &&& exists|l: int| 0 <= l < k && #[trigger] listed_at(turns, replies, l, record)
}

/// Whether turn `l` asks for all records, and the record is among them.
pub open spec fn listed_at(
    turns: Seq<Turn>,
    replies: Seq<(ReplyView, u64)>,
    l: int,
    record: FileStateView,
) -> bool {
    &&& asks(turns[l], Request::ListAll)
    &&& replies[l].0 matches ReplyView::Records(Ok(records))
    &&& records.contains(record)
}

/// Whether turn `l` asks for all records, and is told these.
spec fn lists_all(
    turns: Seq<Turn>,
    replies: Seq<(ReplyView, u64)>,
    l: int,
    records: Seq<FileStateView>,
) -> bool {
    asks(turns[l], Request::ListAll) && replies[l].0 == ReplyView::Records(Ok(records))
}

/// Whether the record was found to be of a file that is missing before turn `n`.
pub open spec fn missing_before(
    turns: Seq<Turn>,
    replies: Seq<(ReplyView, u64)>,
    n: int,
    record: FileStateView,
) -> bool {
    exists|k: int| 0 <= k < n && #[trigger] found_missing(turns, replies, k, record)
}

/// Whether a delete is among those that wait.
pub open spec fn waits_among(pending: PendingView, delete: PendingDeleteView) -> bool {
    exists|i: int| 0 <= i < pending.len() && (#[trigger] pending[i]).1 == delete
}

/// Whether every delete that waits did so at first, or is of a file that was found to be
/// missing.
spec fn pending_backed(
    first: PendingView,
    pending: PendingView,
    turns: Seq<Turn>,
    replies: Seq<(ReplyView, u64)>,
    n: int,
) -> bool {
    forall|i: int|
        0 <= i < pending.len() ==> waits_among(first, (#[trigger] pending[i]).1) || missing_before(
            turns,
            replies,
            n,
            pending[i].1.record,
        )
}

/// Whether a clock reading is that of a reply before turn `n`.
pub open spec fn read_before(replies: Seq<(ReplyView, u64)>, n: int, cutoff: u64) -> bool {
    exists|m: int| 0 <= m < n && m < replies.len() && (#[trigger] replies[m]).1 == cutoff
}

/// Whether there is a reason to move the remote file to the trash with turn `n`: a delete
/// of its file waited when the work began, and its time had come at a reply; or its file
/// was found to be missing.
pub open spec fn trash_backed(
    first: PendingView,
    turns: Seq<Turn>,
    replies: Seq<(ReplyView, u64)>,
    n: int,
    virtual_path: Seq<char>,
) -> bool {
    exists|delete: PendingDeleteView|
        #![trigger waits_among(first, delete)]
        delete.record.virtual_remote_path == virtual_path && ((waits_among(first, delete)
            && exists|cutoff: u64|
            #[trigger] read_before(replies, n, cutoff) && delete.expires_at <= cutoff)
            || missing_before(turns, replies, n, delete.record))
}

/// What holds of a full synchronization at every turn.
spec fn sync_stands(
    s: EngineView,
    turns: Seq<Turn>,
    replies: Seq<(ReplyView, u64)>,
    n: int,
) -> bool {
    &&& pending_backed(s.pending, turns[n].0.pending, turns, replies, n)
    &&& match turns[n].0.job {
        Job::Idle => turns[n].1 is Finish,
        Job::LocalUpsert(_, _) => !(turns[n].1 matches Action::Perform(Request::TrashRemote(_))),
        Job::FullSync(stage) => match stage {
            FullSync::ListRecords => asks(turns[n], Request::ListAll),
            FullSync::InspectRecord { next } => {
                &&& next < turns[n].0.records.len() <= usize::MAX
                &&& asks(turns[n], Request::Inspect(turns[n].0.records[next as int].local_path))
                &&& exists|l: int|
                    0 <= l < n && #[trigger] lists_all(turns, replies, l, turns[n].0.records)
            },
            _ => !(turns[n].1 matches Action::Perform(Request::TrashRemote(_))),
        },
        Job::Flush(stage) => {
            &&& read_before(
                replies,
                n,
                match stage {
                    Flush::Trash { cutoff, .. } => cutoff,
                    Flush::Forget { cutoff } => cutoff,
                },
            )
            &&& turns[n].1 matches Action::Perform(Request::TrashRemote(virtual_path))
                ==> trash_backed(s.pending, turns, replies, n, virtual_path)
        },
        _ => false,
    }
}

/// What backs deletes before a turn backs them before a later one.
proof fn lemma_pending_stays_backed(
    first: PendingView,
    before: PendingView,
    after: PendingView,
    turns: Seq<Turn>,
    replies: Seq<(ReplyView, u64)>,
    n: int,
)
    requires
        pending_backed(first, before, turns, replies, n),
        forall|i: int| 0 <= i < after.len() ==> before.contains(#[trigger] after[i]),
    ensures
        pending_backed(first, after, turns, replies, n + 1),
{
    assert forall|i: int| 0 <= i < after.len() implies waits_among(first, (#[trigger] after[i]).1)
        || missing_before(turns, replies, n + 1, after[i].1.record) by {
        let k = choose|k: int| 0 <= k < before.len() && before[k] == after[i];
        if missing_before(turns, replies, n, before[k].1.record) {
            let m = choose|m: int|
                0 <= m < n && #[trigger] found_missing(turns, replies, m, before[k].1.record);
            assert(0 <= m < n + 1 && found_missing(turns, replies, m, after[i].1.record));
        }
    }
}

/// Going on with a flush takes only what was there, and trashes only what is due.
proof fn lemma_flush_backed(
    first: PendingView,
    e: EngineView,
    cutoff: u64,
    turns: Seq<Turn>,
    replies: Seq<(ReplyView, u64)>,
    n: int,
)
    requires
        pending_backed(first, e.pending, turns, replies, n),
        read_before(replies, n, cutoff),
    ensures
        pending_backed(first, flush_next(e, cutoff).0.pending, turns, replies, n),
        flush_next(e, cutoff).1 matches Action::Perform(Request::TrashRemote(virtual_path))
            ==> trash_backed(first, turns, replies, n, virtual_path),
{
    lemma_find(e.pending, expired(cutoff));
    match find(e.pending, expired(cutoff)) {
        Some(i) => {
            let after = e.pending.remove(i);
            let delete = e.pending[i].1;
            assert(expired(cutoff)(e.pending[i]));
            assert(delete.expires_at <= cutoff);
            assert(waits_among(first, delete) || missing_before(
                turns,
                replies,
                n,
                delete.record,
            ));
            assert(trash_backed(first, turns, replies, n, delete.record.virtual_remote_path));
            assert forall|j: int| 0 <= j < after.len() implies waits_among(
                first,
                (#[trigger] after[j]).1,
            ) || missing_before(turns, replies, n, after[j].1.record) by {
                let a = if j < i {
                    j
                } else {
                    j + 1
                };
                assert(after[j] == e.pending[a]);
            }
        },
        None => {},
    }
}

/// The work on a local file takes deletes out only.
proof fn lemma_upsert_takes_out(s: EngineView, reply: ReplyView, now: u64, i: int)
    requires
        s.job is LocalUpsert,
        0 <= i < step(s, reply, now).0.pending.len(),
    ensures
        s.pending.contains(step(s, reply, now).0.pending[i]),
{
    let stage = s.job->LocalUpsert_0;
    let after = step(s, reply, now).0.pending;
    let gone = match stage {
        LocalUpsert::Inspect { path } => path,
        LocalUpsert::Forget { old_path, .. } => old_path,
        _ => Seq::empty(),
    };
    if after == s.pending {
        assert(s.pending[i] == after[i]);
    } else {
        assert(after == removed(s.pending, gone));
        lemma_removed_keeps(s.pending, gone, i);
    }
}

/// One step of a full synchronization, in the work on a local file.
proof fn lemma_sync_stands_in_upsert(
    s: EngineView,
    turns: Seq<Turn>,
    replies: Seq<(ReplyView, u64)>,
    n: int,
)
    requires
        0 <= n < replies.len(),
        follows_at(turns, replies, n),
        sync_stands(s, turns, replies, n),
        turns[n].0.job is LocalUpsert,
    ensures
        sync_stands(s, turns, replies, n + 1),
{
    let pending = turns[n].0.pending;
    let after = turns[n + 1].0.pending;
    assert forall|i: int| 0 <= i < after.len() implies pending.contains(#[trigger] after[i]) by {
        lemma_upsert_takes_out(turns[n].0, replies[n].0, replies[n].1, i);
    }
    lemma_pending_stays_backed(s.pending, pending, after, turns, replies, n);
}

/// What waits stays backed where nothing changes it.
proof fn lemma_pending_unchanged(
    first: PendingView,
    pending: PendingView,
    turns: Seq<Turn>,
    replies: Seq<(ReplyView, u64)>,
    n: int,
)
    requires
        pending_backed(first, pending, turns, replies, n),
    ensures
        pending_backed(first, pending, turns, replies, n + 1),
{
    assert forall|i: int| 0 <= i < pending.len() implies pending.contains(#[trigger] pending[i]) by {}
    lemma_pending_stays_backed(first, pending, pending, turns, replies, n);
}

/// One step of a full synchronization, when the records were listed.
proof fn lemma_sync_stands_when_listed(
    s: EngineView,
    turns: Seq<Turn>,
    replies: Seq<(ReplyView, u64)>,
    n: int,
)
    requires
        0 <= n < replies.len(),
        follows_at(turns, replies, n),
        sync_stands(s, turns, replies, n),
        turns[n].0.job == JobView::FullSync(FullSync::ListRecords),
        replies[n].0 matches ReplyView::Records(Ok(list)) ==> list.len() <= usize::MAX,
    ensures
        sync_stands(s, turns, replies, n + 1),
{
    let before = turns[n].0;
    let now = replies[n].1;
    lemma_pending_unchanged(s.pending, before.pending, turns, replies, n);
    assert(read_before(replies, n + 1, now));
    match replies[n].0 {
        ReplyView::Records(Ok(records)) => {
            let listed = EngineView { records, ..before };
            assert(lists_all(turns, replies, n, records));
            lemma_flush_backed(s.pending, listed, now, turns, replies, n + 1);
        },
        _ => {},
    }
}

/// What waits after the record with the given index was looked at.
spec fn pending_after_record(before: EngineView, next: int, missing: bool, now: u64) -> PendingView {
    let record = before.records[next];
    if missing {
        inserted(
            before.pending,
            record.local_path,
            PendingDeleteView { record, expires_at: now },
        )
    } else {
        before.pending
    }
}

/// What waits then is backed.
proof fn lemma_record_backed(
    s: EngineView,
    turns: Seq<Turn>,
    replies: Seq<(ReplyView, u64)>,
    n: int,
    next: usize,
)
    requires
        0 <= n < replies.len(),
        sync_stands(s, turns, replies, n),
        turns[n].0.job == JobView::FullSync(FullSync::InspectRecord { next }),
        replies[n].0 is Facts,
    ensures
        pending_backed(
            s.pending,
            pending_after_record(
                turns[n].0,
                next as int,
                replies[n].0->Facts_0.kind == PathKind::Missing,
                replies[n].1,
            ),
            turns,
            replies,
            n + 1,
        ),
{
    let before = turns[n].0;
    let pending = before.pending;
    let now = replies[n].1;
    let record = before.records[next as int];
    let delete = PendingDeleteView { record, expires_at: now };
    let more = inserted(pending, record.local_path, delete);
    lemma_pending_unchanged(s.pending, pending, turns, replies, n);
    if replies[n].0->Facts_0.kind == PathKind::Missing {
        let l = choose|l: int|
            0 <= l < n && #[trigger] lists_all(turns, replies, l, before.records);
        assert(before.records.contains(record));
        assert(listed_at(turns, replies, l, record));
        assert(found_missing(turns, replies, n, record));
        assert(missing_before(turns, replies, n + 1, record));
        lemma_find(pending, entry_of(record.local_path));
        assert forall|i: int| 0 <= i < more.len() implies waits_among(
            s.pending,
            (#[trigger] more[i]).1,
        ) || missing_before(turns, replies, n + 1, more[i].1.record) by {
            if i < pending.len() && more[i] == pending[i] {
            } else {
                assert(more[i].1 == delete);
            }
        }
    }
}

/// One step of a full synchronization, when a record was looked at.
proof fn lemma_sync_stands_at_record(
    s: EngineView,
    turns: Seq<Turn>,
    replies: Seq<(ReplyView, u64)>,
    n: int,
    next: usize,
)
    requires
        0 <= n < replies.len(),
        follows_at(turns, replies, n),
        sync_stands(s, turns, replies, n),
        turns[n].0.job == JobView::FullSync(FullSync::InspectRecord { next }),
    ensures
        sync_stands(s, turns, replies, n + 1),
{
    let before = turns[n].0;
    let now = replies[n].1;
    lemma_pending_unchanged(s.pending, before.pending, turns, replies, n);
    assert(read_before(replies, n + 1, now));
    if replies[n].0 is Facts {
        let missing = replies[n].0->Facts_0.kind == PathKind::Missing;
        let more = pending_after_record(before, next as int, missing, now);
        lemma_record_backed(s, turns, replies, n, next);
        let seen = EngineView { pending: more, ..before };
        assert(turns[n + 1] == sync_record(seen, (next + 1) as usize, now));
        lemma_flush_backed(s.pending, seen, now, turns, replies, n + 1);
        if next + 1 < before.records.len() {
            let l = choose|l: int|
                0 <= l < n && #[trigger] lists_all(turns, replies, l, before.records);
            assert(lists_all(turns, replies, l, turns[n + 1].0.records));
        }
    }
}

/// One step of a full synchronization, in its flush.
proof fn lemma_sync_stands_in_flush(
    s: EngineView,
    turns: Seq<Turn>,
    replies: Seq<(ReplyView, u64)>,
    n: int,
)
    requires
        0 <= n < replies.len(),
        follows_at(turns, replies, n),
        sync_stands(s, turns, replies, n),
        turns[n].0.job is Flush,
    ensures
        sync_stands(s, turns, replies, n + 1),
{
    let before = turns[n].0;
    let cutoff = match before.job->Flush_0 {
        Flush::Trash { cutoff, .. } => cutoff,
        Flush::Forget { cutoff } => cutoff,
    };
    let m = choose|m: int| 0 <= m < n && m < replies.len() && (#[trigger] replies[m]).1 == cutoff;
    assert(0 <= m < n + 1 && replies[m].1 == cutoff);
    assert(read_before(replies, n + 1, cutoff));
    lemma_pending_unchanged(s.pending, before.pending, turns, replies, n);
    lemma_flush_backed(s.pending, before, cutoff, turns, replies, n + 1);
}

/// One step of a full synchronization.
proof fn lemma_sync_stands(
    s: EngineView,
    turns: Seq<Turn>,
    replies: Seq<(ReplyView, u64)>,
    n: int,
)
    requires
        0 <= n < replies.len(),
        follows_at(turns, replies, n),
        sync_stands(s, turns, replies, n),
        replies[n].0 matches ReplyView::Records(Ok(list)) ==> list.len() <= usize::MAX,
    ensures
        sync_stands(s, turns, replies, n + 1),
{
    match turns[n].0.job {
        Job::LocalUpsert(_, _) => lemma_sync_stands_in_upsert(s, turns, replies, n),
        Job::FullSync(FullSync::ListRecords) => lemma_sync_stands_when_listed(
            s,
            turns,
            replies,
            n,
        ),
        Job::FullSync(FullSync::InspectRecord { next }) => lemma_sync_stands_at_record(
            s,
            turns,
            replies,
            n,
            next,
        ),
        Job::Flush(_) => lemma_sync_stands_in_flush(s, turns, replies, n),
        _ => {
            lemma_pending_unchanged(s.pending, turns[n].0.pending, turns, replies, n);
        },
    }
}

/// A full synchronization stands at every turn.
proof fn lemma_sync_stands_at(
    s: EngineView,
    turns: Seq<Turn>,
    replies: Seq<(ReplyView, u64)>,
    n: int,
)
    requires
        follows(turns, replies),
        lists_fit(replies),
        turns[0] == handle(s, SyncEventView::SyncNow),
        0 <= n <= replies.len(),
    ensures
        sync_stands(s, turns, replies, n),
    decreases n,
{
    if n > 0 {
        lemma_sync_stands_at(s, turns, replies, n - 1);
        assert(follows_at(turns, replies, n - 1));
        assert(replies[n - 1].0 matches ReplyView::Records(Ok(list)) ==> list.len() <= usize::MAX);
        lemma_sync_stands(s, turns, replies, n - 1);
    } else {
        assert forall|i: int| 0 <= i < s.pending.len() implies waits_among(
            s.pending,
            (#[trigger] s.pending[i]).1,
        ) by {}
    }
}

/// A full synchronization moves a remote file to the trash only where its local file was
/// found to be missing, or where a delete of it waited when the synchronization began and
/// its time has come. The remote copy of a file that is there is never trashed for its
/// record.
pub proof fn law_a_full_sync_trashes_only_what_is_gone(
    s: EngineView,
    turns: Seq<Turn>,
    replies: Seq<(ReplyView, u64)>,
    n: int,
    virtual_path: Seq<char>,
)
    requires
        follows(turns, replies),
        lists_fit(replies),
        turns[0] == handle(s, SyncEventView::SyncNow),
        0 <= n <= replies.len(),
        asks(turns[n], Request::TrashRemote(virtual_path)),
    ensures
        trash_backed(s.pending, turns, replies, n, virtual_path),
{
    lemma_sync_stands_at(s, turns, replies, n);
}

} // verus!
