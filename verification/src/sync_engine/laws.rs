//! What holds of the engine's work, whatever the replies are.
use vstd::prelude::*;

use crate::config::{local_of, remote_of, runtime_path, PathFacts, PathKind};
use crate::events::{
    LocalFileEventKind, RemoteChangeView, RemoteFileMetaView, SyncEvent, SyncEventView,
};
use crate::keyed::{find, lemma_filter_all, lemma_filter_none, lemma_find, lemma_find_none};
use crate::path::{components, parent_of, same_path};
use crate::path_map::{
    entry_of, inserted, law_removed_is_gone, lemma_inserted_one_per_path,
    lemma_remove_one_per_path, one_per_path, removed,
};
use crate::state_db::FileStateView;
use crate::sync_engine::conflict::{conflicted_copy, law_a_copy_stands_beside_the_file};
use crate::sync_engine::model::{
    all_due, expired, finish, flush_next, handle, idle, inspect_upsert, renamed_from, scheduled,
    step, woken, Action, ActionView, After, Candidate, EngineView, Flush, FullSync, Job, JobView,
    LocalUpsert, PendingDeleteView, PendingView, RemoteUpsert, ReplyView, Request,
    RequestView, Turn, Wake, RENAME_WINDOW_NANOS,
};

verus! {

/// The engine after replies, each at its clock reading.
pub open spec fn run(s: EngineView, replies: Seq<(ReplyView, u64)>) -> EngineView
    decreases replies.len(),
{
    if replies.len() == 0 {
        s
    } else {
        step(run(s, replies.drop_last()), replies.last().0, replies.last().1).0
    }
}

/// The engine keeps its configuration, and no reply makes it stop.
pub proof fn law_steps_keep_the_configuration(
    s: EngineView,
    wake: Wake,
    reply: ReplyView,
    now: u64,
)
    ensures
        woken(s, wake, now).0.config == s.config,
        step(s, reply, now).0.config == s.config,
        step(s, reply, now).0.stopping == s.stopping,
{
}

/// The engine is idle exactly when the work is over.
pub proof fn law_idle_when_finished(s: EngineView, wake: Wake, reply: ReplyView, now: u64)
    ensures
        woken(s, wake, now).1 is Finish <==> woken(s, wake, now).0.job is Idle,
        step(s, reply, now).1 is Finish <==> step(s, reply, now).0.job is Idle,
{
}

/// The keys of the deletes that wait stay distinct.
proof fn lemma_scheduled_one_per_path(
    pending: PendingView,
    records: Seq<FileStateView>,
    expires_at: u64,
)
    requires
        one_per_path(pending),
    ensures
        one_per_path(scheduled(pending, records, expires_at)),
    decreases records.len(),
{
    if records.len() > 0 {
        let before = scheduled(pending, records.drop_last(), expires_at);
        let record = records.last();
        lemma_scheduled_one_per_path(pending, records.drop_last(), expires_at);
        lemma_inserted_one_per_path(
            before,
            record.local_path,
            PendingDeleteView { record, expires_at },
        );
    }
}

/// Going on with a flush keeps one delete for each path.
proof fn lemma_flush_next_one_per_path(s: EngineView, cutoff: u64)
    requires
        one_per_path(s.pending),
    ensures
        one_per_path(flush_next(s, cutoff).0.pending),
{
    lemma_find(s.pending, expired(cutoff));
    match find(s.pending, expired(cutoff)) {
        Some(i) => lemma_remove_one_per_path(s.pending, i),
        None => {},
    }
}

/// At most one delete waits for each path, whatever happens.
pub proof fn law_one_pending_delete_per_path(s: EngineView, reply: ReplyView, now: u64)
    requires
        one_per_path(s.pending),
    ensures
        one_per_path(step(s, reply, now).0.pending),
{
    match (s.job, reply) {
        (Job::LocalUpsert(LocalUpsert::Inspect { path }, _), _) => {
            law_removed_is_gone(s.pending, path);
        },
        (Job::LocalUpsert(LocalUpsert::Forget { old_path, .. }, _), _) => {
            law_removed_is_gone(s.pending, old_path);
        },
        (Job::LocalDelete, ReplyView::Records(Ok(records))) => {
            lemma_scheduled_one_per_path(
                s.pending,
                records,
                (now + RENAME_WINDOW_NANOS) as u64,
            );
        },
        (Job::FullSync(FullSync::ListRecords), ReplyView::Records(Ok(records))) => {
            lemma_flush_next_one_per_path(EngineView { records, ..s }, now);
        },
        (Job::FullSync(FullSync::InspectRecord { next }), ReplyView::Facts(facts)) => {
            let record = s.records[next as int];
            let delete = PendingDeleteView { record, expires_at: now };
            lemma_inserted_one_per_path(s.pending, record.local_path, delete);
            lemma_flush_next_one_per_path(
                EngineView { pending: inserted(s.pending, record.local_path, delete), ..s },
                now,
            );
            lemma_flush_next_one_per_path(s, now);
        },
        (Job::Flush(Flush::Forget { cutoff }), _) => {
            lemma_flush_next_one_per_path(s, cutoff);
        },
        _ => {},
    }
}

/// Waking the engine up, too, leaves at most one delete for each path.
pub proof fn law_waking_keeps_one_pending_delete_per_path(s: EngineView, wake: Wake, now: u64)
    requires
        one_per_path(s.pending),
    ensures
        one_per_path(woken(s, wake, now).0.pending),
{
    let due = all_due(s.pending, now);
    assert forall|i: int, j: int| 0 <= i < j < due.len() implies components(
        (#[trigger] due[i]).0,
    ) != components((#[trigger] due[j]).0) by {
        assert(components(s.pending[i].0) != components(s.pending[j].0));
    }
    lemma_flush_next_one_per_path(s, now);
    lemma_flush_next_one_per_path(EngineView { pending: due, stopping: true, ..s }, now);
}

/// Whether a delete of the path waits that is not due at the clock reading.
pub open spec fn waits(pending: PendingView, path: Seq<u8>, now: u64) -> bool {
    exists|i: int|
        0 <= i < pending.len() && same_path((#[trigger] pending[i]).0, path)
            && pending[i].1.expires_at > now
}

/// The clock reading by which a flush tells what is due.
pub open spec fn flush_cutoff(stage: Flush<Seq<u8>>) -> u64 {
    match stage {
        Flush::Trash { cutoff, .. } => cutoff,
        Flush::Forget { cutoff } => cutoff,
    }
}

/// Whether the engine is at a flush with the given cutoff, or done with it.
pub open spec fn flushing(s: EngineView, cutoff: u64) -> bool {
    match s.job {
        Job::Idle => true,
        Job::Flush(stage) => flush_cutoff(stage) == cutoff,
        _ => false,
    }
}

/// Going on with a flush does not touch what is not due.
proof fn lemma_flush_next_keeps_what_waits(s: EngineView, cutoff: u64, path: Seq<u8>)
    requires
        waits(s.pending, path, cutoff),
    ensures
        waits(flush_next(s, cutoff).0.pending, path, cutoff),
        flushing(flush_next(s, cutoff).0, cutoff),
{
    let k = choose|k: int|
        0 <= k < s.pending.len() && same_path((#[trigger] s.pending[k]).0, path)
            && s.pending[k].1.expires_at > cutoff;
    lemma_find(s.pending, expired(cutoff));
    match find(s.pending, expired(cutoff)) {
        Some(i) => {
            let after = s.pending.remove(i);
            let a = if k < i {
                k
            } else {
                k - 1
            };
            assert(after[a] == s.pending[k]);
        },
        None => {},
    }
}

/// A flush carries out only deletes that are due: one that is not is still
/// waiting after any number of replies.
pub proof fn law_flush_keeps_what_waits(
    s: EngineView,
    cutoff: u64,
    path: Seq<u8>,
    replies: Seq<(ReplyView, u64)>,
)
    requires
        flushing(s, cutoff),
        waits(s.pending, path, cutoff),
    ensures
        flushing(run(s, replies), cutoff),
        waits(run(s, replies).pending, path, cutoff),
    decreases replies.len(),
{
    if replies.len() > 0 {
        let before = run(s, replies.drop_last());
        law_flush_keeps_what_waits(s, cutoff, path, replies.drop_last());
        lemma_flush_next_keeps_what_waits(before, cutoff, path);
    }
}

/// What is moved to the remote trash is the remote copy of a file whose delete
/// is due.
pub proof fn law_only_due_deletes_reach_the_remote_trash(s: EngineView, cutoff: u64)
    ensures
        match flush_next(s, cutoff).1 {
            Action::Perform(request) => exists|i: int|
                0 <= i < s.pending.len() && (#[trigger] s.pending[i]).1.expires_at <= cutoff
                    && request == RequestView::TrashRemote(
                    s.pending[i].1.record.virtual_remote_path,
                ),
            Action::Finish(result) => result is Ok && forall|i: int|
                0 <= i < s.pending.len() ==> (#[trigger] s.pending[i]).1.expires_at > cutoff,
        },
{
    lemma_find(s.pending, expired(cutoff));
    match find(s.pending, expired(cutoff)) {
        Some(i) => {
            assert(s.pending[i].1.expires_at <= cutoff);
        },
        None => {
            assert forall|i: int| 0 <= i < s.pending.len() implies (#[trigger] s.pending[
                i
            ]).1.expires_at > cutoff by {
                assert(!expired(cutoff)(s.pending[i]));
            }
        },
    }
}

/// What the work comes to where each of the next `n` requests is carried out:
/// the engine after them, and what was to be done at each step.
pub open spec fn carried_out(turn: Turn, n: nat) -> (EngineView, Seq<ActionView>)
    decreases n,
{
    if n == 0 {
        (turn.0, seq![turn.1])
    } else {
        let rest = carried_out(step(turn.0, ReplyView::Done(Ok(())), 0), (n - 1) as nat);
        (rest.0, seq![turn.1] + rest.1)
    }
}

/// Holds of a pending delete whose time has not come.
pub open spec fn not_expired(cutoff: u64) -> spec_fn((Seq<u8>, PendingDeleteView)) -> bool {
    |entry: (Seq<u8>, PendingDeleteView)| entry.1.expires_at > cutoff
}

/// The first due delete, and the others.
proof fn lemma_first_due(pending: PendingView, cutoff: u64, i: int)
    requires
        find(pending, expired(cutoff)) == Some(i),
    ensures
        0 <= i < pending.len(),
        pending.filter(expired(cutoff)) == seq![pending[i]] + pending.remove(i).filter(
            expired(cutoff),
        ),
        pending.filter(not_expired(cutoff)) == pending.remove(i).filter(not_expired(cutoff)),
{
    lemma_find(pending, expired(cutoff));
    let head = pending.take(i);
    let one = seq![pending[i]];
    let tail = pending.skip(i + 1);
    assert(pending == head + one + tail);
    assert(pending.remove(i) == head + tail);
    Seq::filter_distributes_over_add(head + one, tail, expired(cutoff));
    Seq::filter_distributes_over_add(head, one, expired(cutoff));
    Seq::filter_distributes_over_add(head, tail, expired(cutoff));
    Seq::filter_distributes_over_add(head + one, tail, not_expired(cutoff));
    Seq::filter_distributes_over_add(head, one, not_expired(cutoff));
    Seq::filter_distributes_over_add(head, tail, not_expired(cutoff));
    assert forall|j: int| 0 <= j < head.len() implies !expired(cutoff)(#[trigger] head[j]) by {
        assert(!expired(cutoff)(pending[j]));
    }
    lemma_filter_none(head, expired(cutoff));
    assert(one.drop_last() == Seq::<(Seq<u8>, PendingDeleteView)>::empty());
    assert(one.filter(expired(cutoff)) == one && one.filter(not_expired(cutoff)).len() == 0) by {
        reveal_with_fuel(Seq::filter, 2);
    }
    assert(one.filter(not_expired(cutoff)) == Seq::<(Seq<u8>, PendingDeleteView)>::empty());
    assert(head.filter(expired(cutoff)) == Seq::<(Seq<u8>, PendingDeleteView)>::empty());
    assert(pending.filter(expired(cutoff)) == one + pending.remove(i).filter(expired(cutoff)));
    assert(pending.filter(not_expired(cutoff)) == pending.remove(i).filter(not_expired(cutoff)));
}

/// A flush moves the remote copy of each file whose delete is due to the remote
/// trash and then removes its record, one after the other, and leaves the other
/// deletes waiting.
pub proof fn law_due_deletes_reach_the_remote_trash(s: EngineView, cutoff: u64)
    ensures
        ({
            let due = s.pending.filter(expired(cutoff));
            let done = carried_out(flush_next(s, cutoff), 2 * due.len());
            &&& done.0 == idle(
                EngineView { pending: s.pending.filter(not_expired(cutoff)), ..s },
            )
            &&& done.1.len() == 2 * due.len() + 1
            &&& forall|i: int|
                0 <= i < due.len() ==> done.1[2 * i] == ActionView::Perform(
                    RequestView::TrashRemote((#[trigger] due[i]).1.record.virtual_remote_path),
                ) && done.1[2 * i + 1] == ActionView::Perform(
                    RequestView::RemoveByLocal(due[i].1.record.local_path),
                )
            &&& done.1.last() == finish(s).1
        }),
    decreases s.pending.len(),
{
    let due = s.pending.filter(expired(cutoff));
    lemma_find(s.pending, expired(cutoff));
    match find(s.pending, expired(cutoff)) {
        None => {
            lemma_filter_none(s.pending, expired(cutoff));
            assert forall|i: int| 0 <= i < s.pending.len() implies not_expired(cutoff)(
                #[trigger] s.pending[i],
            ) by {
                assert(!expired(cutoff)(s.pending[i]));
            }
            lemma_filter_all(s.pending, not_expired(cutoff));
        },
        Some(k) => {
            lemma_first_due(s.pending, cutoff, k);
            let rest = s.pending.remove(k);
            let after = EngineView { pending: rest, ..s };
            let others = rest.filter(expired(cutoff));
            assert(due.len() == others.len() + 1);
            law_due_deletes_reach_the_remote_trash(after, cutoff);
            let first = flush_next(s, cutoff);
            let second = step(first.0, ReplyView::Done(Ok(())), 0);
            let third = step(second.0, ReplyView::Done(Ok(())), 0);
            let jobless = EngineView { job: second.0.job, ..after };
            assert(second.0 == jobless);
            assert(third == flush_next(jobless, cutoff));
            assert(third == flush_next(after, cutoff));
            let n = 2 * due.len();
            assert(carried_out(first, n) == (
                carried_out(second, (n - 1) as nat).0,
                seq![first.1] + carried_out(second, (n - 1) as nat).1,
            ));
            assert(carried_out(second, (n - 1) as nat) == (
                carried_out(third, (n - 2) as nat).0,
                seq![second.1] + carried_out(third, (n - 2) as nat).1,
            ));
            let done = carried_out(first, n);
            let tail = carried_out(third, (n - 2) as nat);
            assert(done.1 == seq![first.1, second.1] + tail.1);
            assert forall|i: int| 0 <= i < due.len() implies done.1[2 * i]
                == ActionView::Perform(
                RequestView::TrashRemote((#[trigger] due[i]).1.record.virtual_remote_path),
            ) && done.1[2 * i + 1] == ActionView::Perform(
                RequestView::RemoveByLocal(due[i].1.record.local_path),
            ) by {
                if i > 0 {
                    assert(due[i] == others[i - 1]);
                    assert(done.1[2 * i] == tail.1[2 * (i - 1)]);
                    assert(done.1[2 * i + 1] == tail.1[2 * (i - 1) + 1]);
                } else {
                    assert(due[0] == s.pending[k]);
                    assert(done.1[0] == first.1);
                    assert(done.1[1] == second.1);
                }
            }
        },
    }
}

/// Each record that is scheduled waits until its time.
proof fn lemma_scheduled_waits(
    pending: PendingView,
    records: Seq<FileStateView>,
    expires_at: u64,
    k: int,
    now: u64,
)
    requires
        0 <= k < records.len(),
        now < expires_at,
    ensures
        waits(scheduled(pending, records, expires_at), records[k].local_path, now),
    decreases records.len(),
{
    let path = records[k].local_path;
    let before = scheduled(pending, records.drop_last(), expires_at);
    let record = records.last();
    let delete = PendingDeleteView { record, expires_at };
    let after = inserted(before, record.local_path, delete);
    lemma_find(before, entry_of(record.local_path));
    let place = find(before, entry_of(record.local_path));
    if k == records.len() - 1 {
        let j = match place {
            Some(j) => j,
            None => before.len() as int,
        };
        assert(same_path(after[j].0, path) && after[j].1.expires_at > now);
    } else {
        lemma_scheduled_waits(pending, records.drop_last(), expires_at, k, now);
        let j = choose|j: int|
            0 <= j < before.len() && same_path((#[trigger] before[j]).0, path)
                && before[j].1.expires_at > now;
        assert(same_path(after[j].0, path) && after[j].1.expires_at > now);
    }
}

/// The remote copy of a deleted file is kept for the whole rename window: a
/// flush that begins within it leaves the delete waiting, whatever the replies.
pub proof fn law_deletes_wait_out_the_rename_window(
    s: EngineView,
    records: Seq<FileStateView>,
    k: int,
    deleted_at: u64,
    now: u64,
    replies: Seq<(ReplyView, u64)>,
)
    requires
        s.job is LocalDelete,
        0 <= k < records.len(),
        now < deleted_at + RENAME_WINDOW_NANOS <= u64::MAX,
    ensures
        ({
            let after = step(s, ReplyView::Records(Ok(records)), deleted_at).0;
            let flushed = run(woken(after, Wake::Tick, now).0, replies);
            waits(flushed.pending, records[k].local_path, now)
        }),
{
    let expires_at = (deleted_at + RENAME_WINDOW_NANOS) as u64;
    let after = step(s, ReplyView::Records(Ok(records)), deleted_at).0;
    let path = records[k].local_path;
    lemma_scheduled_waits(s.pending, records, expires_at, k, now);
    assert(after.pending == scheduled(s.pending, records, expires_at));
    lemma_flush_next_keeps_what_waits(after, now, path);
    law_flush_keeps_what_waits(woken(after, Wake::Tick, now).0, now, path, replies);
}

/// Whether every delete that waits is due.
pub open spec fn all_expired(pending: PendingView, cutoff: u64) -> bool {
    forall|i: int| 0 <= i < pending.len() ==> (#[trigger] pending[i]).1.expires_at <= cutoff
}

/// Where every delete is due, a flush is over only when none is left.
proof fn lemma_flush_next_leaves_none(s: EngineView, cutoff: u64)
    requires
        all_expired(s.pending, cutoff),
    ensures
        flushing(flush_next(s, cutoff).0, cutoff),
        all_expired(flush_next(s, cutoff).0.pending, cutoff),
        flush_next(s, cutoff).1 is Finish ==> flush_next(s, cutoff).0.pending.len() == 0,
{
    lemma_find(s.pending, expired(cutoff));
    match find(s.pending, expired(cutoff)) {
        Some(i) => {
            let after = s.pending.remove(i);
            assert forall|j: int| 0 <= j < after.len() implies (#[trigger] after[j]).1.expires_at
                <= cutoff by {
                let a = if j < i {
                    j
                } else {
                    j + 1
                };
                assert(after[j] == s.pending[a]);
            }
        },
        None => {
            if s.pending.len() > 0 {
                assert(!expired(cutoff)(s.pending[0]));
            }
        },
    }
}

/// What a flush of deletes that are all due keeps, after any replies.
proof fn lemma_run_all_expired(s: EngineView, cutoff: u64, replies: Seq<(ReplyView, u64)>)
    requires
        flushing(s, cutoff),
        all_expired(s.pending, cutoff),
    ensures
        flushing(run(s, replies), cutoff),
        all_expired(run(s, replies).pending, cutoff),
    decreases replies.len(),
{
    if replies.len() > 0 {
        lemma_run_all_expired(s, cutoff, replies.drop_last());
        lemma_flush_next_leaves_none(run(s, replies.drop_last()), cutoff);
    }
}

/// Whether the engine is told to stop.
pub open spec fn is_stop(wake: Wake) -> bool {
    wake is Closed || wake == Wake::Event(SyncEvent::Shutdown)
}

/// Before the engine stops, every delete that waits is carried out: work that
/// a stop began ends well only with none left.
pub proof fn law_stopping_carries_out_every_delete(
    s: EngineView,
    wake: Wake,
    now: u64,
    replies: Seq<(ReplyView, u64)>,
    last: ReplyView,
    last_at: u64,
)
    requires
        is_stop(wake),
    ensures
        woken(s, wake, now).0.stopping,
        woken(s, wake, now).1 is Finish ==> s.pending.len() == 0,
        ({
            let turn = step(run(woken(s, wake, now).0, replies), last, last_at);
            turn.1 == ActionView::Finish(Ok(())) ==> turn.0.pending.len() == 0
        }),
{
    let due = EngineView { pending: all_due(s.pending, now), stopping: true, ..s };
    assert(all_expired(due.pending, now));
    lemma_flush_next_leaves_none(due, now);
    assert(woken(s, wake, now) == flush_next(due, now));
    lemma_run_all_expired(flush_next(due, now).0, now, replies);
    let before = run(flush_next(due, now).0, replies);
    lemma_flush_next_leaves_none(before, now);
}

/// Only a stop makes the engine stop.
pub proof fn law_only_a_stop_stops(s: EngineView, wake: Wake, now: u64)
    requires
        !is_stop(wake),
    ensures
        woken(s, wake, now).0.stopping == s.stopping,
{
}

/// A record is removed in a flush only after its remote copy was moved to the
/// trash.
pub proof fn law_trash_comes_before_forgetting(s: EngineView, reply: ReplyView, now: u64)
    requires
        s.job is Flush,
        step(s, reply, now).1 matches Action::Perform(Request::RemoveByLocal(_)),
    ensures
        s.job->Flush_0 is Trash,
        reply matches ReplyView::Done(Ok(_)),
{
    lemma_find(s.pending, expired(flush_cutoff(s.job->Flush_0)));
}

/// A file that is there again is no longer to be deleted.
pub proof fn law_an_upsert_cancels_the_delete(
    s: EngineView,
    path: Seq<u8>,
    facts: PathFacts,
    after: After,
)
    requires
        one_per_path(s.pending),
        is_there(facts),
    ensures
        forall|i: int|
            0 <= i < inspect_upsert(s, path, facts, after).0.pending.len() ==> !same_path(
                (#[trigger] inspect_upsert(s, path, facts, after).0.pending[i]).0,
                path,
            ),
{
    law_removed_is_gone(s.pending, path);
}

/// Whether there is something at a path that is no folder.
pub open spec fn is_there(facts: PathFacts) -> bool {
    facts.kind != PathKind::Missing && facts.kind != PathKind::Directory
}

/// Whether a turn asks for the given request.
pub open spec fn asks(turn: Turn, request: RequestView) -> bool {
    turn.1 == Action::<RequestView, Seq<char>>::Perform(request)
}

/// The turns of the work on a local file up to the question for its baseline:
/// `clock` gives the reading for each reply.
pub open spec fn examined(
    s: EngineView,
    path: Seq<u8>,
    facts: PathFacts,
    md5_hash: Seq<char>,
    local_timestamp: i64,
    clock: spec_fn(int) -> u64,
) -> Seq<Turn> {
    let begun = handle(s, SyncEventView::Local(LocalFileEventKind::Upsert, path));
    let seen = step(begun.0, ReplyView::Facts(facts), clock(0));
    let hashed = step(seen.0, ReplyView::Hash(Ok(md5_hash)), clock(1));
    let dated = step(hashed.0, ReplyView::Modified(Ok(local_timestamp)), clock(2));
    seq![begun, seen, hashed, dated]
}

/// Whether the turns look at a local file, and at nothing else.
pub open spec fn looks_at(turns: Seq<Turn>, path: Seq<u8>) -> bool {
    &&& turns.len() == 4
    &&& asks(turns[0], Request::Inspect(path))
    &&& asks(turns[1], Request::HashFile(path))
    &&& asks(turns[2], Request::ReadModified(path))
    &&& asks(turns[3], Request::FindByLocal(path))
}

/// A local file that no watch entry covers is neither read nor transferred.
pub proof fn law_uncovered_files_are_left_alone(
    s: EngineView,
    path: Seq<u8>,
    facts: PathFacts,
    now: u64,
)
    requires
        remote_of(s.config.watch, runtime_path(path, facts)) is None,
    ensures
        ({
            let begun = handle(s, SyncEventView::Local(LocalFileEventKind::Upsert, path));
            &&& asks(begun, Request::Inspect(path))
            &&& step(begun.0, ReplyView::Facts(facts), now).1 == finish(s).1
        }),
{
}

/// A remote file that no watch entry covers is not fetched.
pub proof fn law_uncovered_remote_files_are_left_alone(s: EngineView, change: RemoteFileMetaView)
    requires
        local_of(s.config.watch, change.virtual_path) is None,
    ensures
        handle(s, SyncEventView::Remote(RemoteChangeView::Upsert(change))) == finish(s),
{
}

/// Whether a local file is only looked at and its timestamp brought up to date:
/// nothing is asked of the remote store, and no record is written.
pub open spec fn only_touched(
    s: EngineView,
    path: Seq<u8>,
    facts: PathFacts,
    md5_hash: Seq<char>,
    local_timestamp: i64,
    record: FileStateView,
    clock: spec_fn(int) -> u64,
) -> bool {
    let turns = examined(s, path, facts, md5_hash, local_timestamp, clock);
    let found = step(turns.last().0, ReplyView::Found(Ok(Some(record))), clock(3));
    let touched = step(found.0, ReplyView::Done(Ok(())), clock(4));
    &&& looks_at(turns, path)
    &&& asks(found, Request::SetLocalTimestamp(path, local_timestamp))
    &&& touched == finish(EngineView { pending: removed(s.pending, path), ..s })
}

/// A local file whose content is that of its baseline is not transferred: only
/// its timestamp is brought up to date.
pub proof fn law_unchanged_content_is_not_transferred(
    s: EngineView,
    path: Seq<u8>,
    facts: PathFacts,
    md5_hash: Seq<char>,
    local_timestamp: i64,
    record: FileStateView,
    clock: spec_fn(int) -> u64,
)
    requires
        is_there(facts),
        remote_of(s.config.watch, runtime_path(path, facts)) is Some,
        record.md5_hash == md5_hash,
    ensures
        only_touched(s, path, facts, md5_hash, local_timestamp, record, clock),
{
}

/// A local file whose content is not that of its baseline, or that has none and
/// is not renamed, is uploaded under the remote path that its watch entry gives
/// it. Its new baseline holds the fingerprint of what was uploaded, so that the
/// remote change that the upload makes is known for an echo.
pub proof fn law_changed_content_is_uploaded_and_recorded(
    s: EngineView,
    path: Seq<u8>,
    facts: PathFacts,
    md5_hash: Seq<char>,
    local_timestamp: i64,
    record: Option<FileStateView>,
    stored: RemoteFileMetaView,
    clock: spec_fn(int) -> u64,
)
    requires
        is_there(facts),
        remote_of(s.config.watch, runtime_path(path, facts)) is Some,
        match record {
            Some(record) => record.md5_hash != md5_hash,
            None => forall|k: int|
                0 <= k < s.pending.len() && !same_path((#[trigger] s.pending[k]).0, path)
                    ==> s.pending[k].1.record.md5_hash != md5_hash,
        },
    ensures
        ({
            let virtual_path = remote_of(s.config.watch, runtime_path(path, facts))->0;
            let turns = examined(s, path, facts, md5_hash, local_timestamp, clock);
            let found = step(turns.last().0, ReplyView::Found(Ok(record)), clock(3));
            let uploaded = step(found.0, ReplyView::Stored(Ok(stored)), clock(4));
            let saved = step(uploaded.0, ReplyView::Done(Ok(())), clock(5));
            &&& looks_at(turns, path)
            &&& asks(found, Request::Upload { virtual_path, local_path: path })
            &&& asks(
                uploaded,
                Request::Save(transferred(path, md5_hash, local_timestamp, stored)),
            )
            &&& saved == finish(EngineView { pending: removed(s.pending, path), ..s })
        }),
{
    let pending = removed(s.pending, path);
    let hit = renamed_from(md5_hash, path);
    lemma_find(s.pending, entry_of(path));
    lemma_find(pending, hit);
    if record is None {
        assert forall|i: int| 0 <= i < pending.len() implies !hit(#[trigger] pending[i]) by {
            lemma_removed_keeps(s.pending, path, i);
        }
        lemma_find_none(pending, hit);
    }
}

/// What is left after the entry of a path was taken out was there before.
pub proof fn lemma_removed_keeps(pending: PendingView, path: Seq<u8>, i: int)
    requires
        0 <= i < removed(pending, path).len(),
    ensures
        exists|k: int| 0 <= k < pending.len() && #[trigger] pending[k] == removed(pending, path)[i],
{
    lemma_find(pending, entry_of(path));
    let k = match find(pending, entry_of(path)) {
        Some(j) if i >= j => i + 1,
        _ => i,
    };
    assert(pending[k] == removed(pending, path)[i]);
}

/// A file without a baseline whose content is that of a file that was just
/// deleted elsewhere is renamed on the remote side, not uploaded: the remote
/// copy of a deleted file with that content takes the new name, its old record
/// goes, and it is no longer to be deleted.
pub proof fn law_renames_are_detected(
    s: EngineView,
    path: Seq<u8>,
    facts: PathFacts,
    md5_hash: Seq<char>,
    local_timestamp: i64,
    k: int,
    stored: RemoteFileMetaView,
    clock: spec_fn(int) -> u64,
)
    requires
        is_there(facts),
        remote_of(s.config.watch, runtime_path(path, facts)) is Some,
        0 <= k < s.pending.len(),
        !same_path(s.pending[k].0, path),
        s.pending[k].1.record.md5_hash == md5_hash,
    ensures
        looks_at(examined(s, path, facts, md5_hash, local_timestamp, clock), path),
        exists|i: int|
            0 <= i < removed(s.pending, path).len() && (#[trigger] removed(s.pending, path)[i])
                .1.record.md5_hash == md5_hash && {
                let virtual_path = remote_of(s.config.watch, runtime_path(path, facts))->0;
                let pending = removed(s.pending, path);
                let turns = examined(s, path, facts, md5_hash, local_timestamp, clock);
                let found = step(turns.last().0, ReplyView::Found(Ok(None)), clock(3));
                let renamed = step(found.0, ReplyView::Stored(Ok(stored)), clock(4));
                let forgotten = step(renamed.0, ReplyView::Done(Ok(())), clock(5));
                let saved = step(forgotten.0, ReplyView::Done(Ok(())), clock(6));
                &&& asks(
                    found,
                    Request::Rename {
                        from: pending[i].1.record.virtual_remote_path,
                        to: virtual_path,
                    },
                )
                &&& asks(renamed, Request::RemoveByLocal(pending[i].0))
                &&& asks(
                    forgotten,
                    Request::Save(
                        FileStateView {
                            local_path: path,
                            drive_id: stored.drive_id,
                            virtual_remote_path: virtual_path,
                            md5_hash,
                            local_timestamp,
                            remote_timestamp: stored.modified_time,
                        },
                    ),
                )
                &&& saved == finish(EngineView { pending: removed(pending, pending[i].0), ..s })
            },
{
    let pending = removed(s.pending, path);
    let hit = renamed_from(md5_hash, path);
    lemma_find(s.pending, entry_of(path));
    lemma_find(pending, hit);
    let at = match find(s.pending, entry_of(path)) {
        Some(j) if k >= j => k - 1,
        _ => k,
    };
    assert(pending[at] == s.pending[k]);
    assert(hit(pending[at]));
    let i = find(pending, hit)->0;
    assert(hit(pending[i]));
    let turns = examined(s, path, facts, md5_hash, local_timestamp, clock);
    let found = step(turns.last().0, ReplyView::Found(Ok(None)), clock(3));
    let renamed = step(found.0, ReplyView::Stored(Ok(stored)), clock(4));
    let forgotten = step(renamed.0, ReplyView::Done(Ok(())), clock(5));
    let saved = step(forgotten.0, ReplyView::Done(Ok(())), clock(6));
    assert(saved == finish(EngineView { pending: removed(pending, pending[i].0), ..s }));
}

/// A remote change whose content is that of the baseline, such as the echo of
/// an upload of ours, makes no transfer and changes nothing.
pub proof fn law_remote_echoes_are_ignored(
    s: EngineView,
    change: RemoteFileMetaView,
    known: RemoteFileMetaView,
    record: FileStateView,
    clock: spec_fn(int) -> u64,
)
    requires
        local_of(s.config.watch, change.virtual_path) is Some,
        record.md5_hash == known.md5_hash,
    ensures
        passed_over(s, change, known, record, clock),
{
}

/// Whether a remote change is passed over: what is known of the file and its
/// record are asked for, and nothing is done.
pub open spec fn passed_over(
    s: EngineView,
    change: RemoteFileMetaView,
    known: RemoteFileMetaView,
    record: FileStateView,
    clock: spec_fn(int) -> u64,
) -> bool {
    let begun = handle(s, SyncEventView::Remote(RemoteChangeView::Upsert(change)));
    let told = step(begun.0, ReplyView::Metadata(Ok(Some(known))), clock(0));
    let found = step(told.0, ReplyView::Found(Ok(Some(record))), clock(1));
    &&& asks(begun, Request::GetMetadata(change.virtual_path))
    &&& asks(told, Request::FindByRemote(change.virtual_path))
    &&& found == finish(s)
}

/// The remote change that an upload makes is ignored: where the state database
/// gives back the baseline that the upload was recorded with, and the remote
/// file has the content that was uploaded, nothing is transferred.
pub proof fn law_own_uploads_come_back_as_echoes(
    s: EngineView,
    candidate: Candidate<Seq<u8>, Seq<char>>,
    after: After,
    stored: RemoteFileMetaView,
    stored_at: u64,
    later: EngineView,
    change: RemoteFileMetaView,
    known: RemoteFileMetaView,
    clock: spec_fn(int) -> u64,
)
    requires
        s.job == JobView::LocalUpsert(LocalUpsert::Upload { candidate }, after),
        local_of(later.config.watch, change.virtual_path) is Some,
        known.md5_hash == candidate.md5_hash,
    ensures
        step(s, ReplyView::Stored(Ok(stored)), stored_at).1 matches Action::Perform(
            Request::Save(record),
        ) && passed_over(later, change, known, record, clock),
{
}

/// So is the remote change that a rename makes, and the one that the upload
/// makes that takes its place where it fails.
pub proof fn law_own_renames_come_back_as_echoes(
    s: EngineView,
    candidate: Candidate<Seq<u8>, Seq<char>>,
    old_path: Seq<u8>,
    after: After,
    stored: RemoteFileMetaView,
    stored_at: u64,
    forgotten_at: u64,
    later: EngineView,
    change: RemoteFileMetaView,
    known: RemoteFileMetaView,
    clock: spec_fn(int) -> u64,
)
    requires
        s.job == JobView::LocalUpsert(LocalUpsert::Rename { candidate, old_path }, after) || s.job
            == JobView::LocalUpsert(LocalUpsert::UploadRenamed { candidate, old_path }, after),
        local_of(later.config.watch, change.virtual_path) is Some,
        known.md5_hash == candidate.md5_hash,
    ensures
        ({
            let renamed = step(s, ReplyView::Stored(Ok(stored)), stored_at);
            let forgotten = step(renamed.0, ReplyView::Done(Ok(())), forgotten_at);
            &&& asks(renamed, Request::RemoveByLocal(old_path))
            &&& forgotten.1 matches Action::Perform(Request::Save(record)) && passed_over(
                later,
                change,
                known,
                record,
                clock,
            )
        }),
{
}

/// So is the remote change that the upload makes that ends a conflict.
pub proof fn law_conflict_uploads_come_back_as_echoes(
    s: EngineView,
    local_path: Seq<u8>,
    md5_hash: Seq<char>,
    uploaded: RemoteFileMetaView,
    uploaded_at: u64,
    local_timestamp: i64,
    dated_at: u64,
    later: EngineView,
    change: RemoteFileMetaView,
    known: RemoteFileMetaView,
    clock: spec_fn(int) -> u64,
)
    requires
        s.job == JobView::RemoteUpsert(RemoteUpsert::UploadLocal { local_path, md5_hash }),
        local_of(later.config.watch, change.virtual_path) is Some,
        known.md5_hash == md5_hash,
    ensures
        ({
            let kept = step(s, ReplyView::Stored(Ok(uploaded)), uploaded_at);
            let dated = step(kept.0, ReplyView::Modified(Ok(local_timestamp)), dated_at);
            &&& asks(kept, Request::ReadModified(local_path))
            &&& dated.1 matches Action::Perform(Request::Save(record)) && passed_over(
                later,
                change,
                known,
                record,
                clock,
            )
        }),
{
}

/// A file that was uploaded is not uploaded again: where the state database gives
/// back the baseline that the upload was recorded with, and the file still has the
/// content that was uploaded, another event for it only touches the baseline.
pub proof fn law_uploaded_files_are_not_uploaded_again(
    s: EngineView,
    candidate: Candidate<Seq<u8>, Seq<char>>,
    after: After,
    stored: RemoteFileMetaView,
    stored_at: u64,
    later: EngineView,
    facts: PathFacts,
    local_timestamp: i64,
    clock: spec_fn(int) -> u64,
)
    requires
        s.job == JobView::LocalUpsert(LocalUpsert::Upload { candidate }, after),
        is_there(facts),
        remote_of(later.config.watch, runtime_path(candidate.path, facts)) is Some,
    ensures
        step(s, ReplyView::Stored(Ok(stored)), stored_at).1 matches Action::Perform(
            Request::Save(record),
        ) && record.local_path == candidate.path && only_touched(
            later,
            candidate.path,
            facts,
            candidate.md5_hash,
            local_timestamp,
            record,
            clock,
        ),
{
}

/// Neither is a file that was renamed, or that was uploaded because the rename
/// failed.
pub proof fn law_renamed_files_are_not_uploaded_again(
    s: EngineView,
    candidate: Candidate<Seq<u8>, Seq<char>>,
    old_path: Seq<u8>,
    after: After,
    stored: RemoteFileMetaView,
    stored_at: u64,
    forgotten_at: u64,
    later: EngineView,
    facts: PathFacts,
    local_timestamp: i64,
    clock: spec_fn(int) -> u64,
)
    requires
        s.job == JobView::LocalUpsert(LocalUpsert::Rename { candidate, old_path }, after) || s.job
            == JobView::LocalUpsert(LocalUpsert::UploadRenamed { candidate, old_path }, after),
        is_there(facts),
        remote_of(later.config.watch, runtime_path(candidate.path, facts)) is Some,
    ensures
        ({
            let renamed = step(s, ReplyView::Stored(Ok(stored)), stored_at);
            let forgotten = step(renamed.0, ReplyView::Done(Ok(())), forgotten_at);
            &&& asks(renamed, Request::RemoveByLocal(old_path))
            &&& forgotten.1 matches Action::Perform(Request::Save(record)) && record.local_path
                == candidate.path && only_touched(
                later,
                candidate.path,
                facts,
                candidate.md5_hash,
                local_timestamp,
                record,
                clock,
            )
        }),
{
}

/// Neither is a file that was fetched, as long as it has the content that was
/// fetched.
pub proof fn law_fetched_files_are_not_uploaded(
    s: EngineView,
    local_path: Seq<u8>,
    fetched: RemoteFileMetaView,
    fetched_at: u64,
    fetched_timestamp: i64,
    dated_at: u64,
    later: EngineView,
    facts: PathFacts,
    local_timestamp: i64,
    clock: spec_fn(int) -> u64,
)
    requires
        s.job == JobView::RemoteUpsert(RemoteUpsert::Download { local_path }),
        is_there(facts),
        remote_of(later.config.watch, runtime_path(local_path, facts)) is Some,
    ensures
        ({
            let kept = step(s, ReplyView::Stored(Ok(fetched)), fetched_at);
            let dated = step(kept.0, ReplyView::Modified(Ok(fetched_timestamp)), dated_at);
            &&& asks(kept, Request::ReadModified(local_path))
            &&& dated.1 matches Action::Perform(Request::Save(record)) && record.local_path
                == local_path && only_touched(
                later,
                local_path,
                facts,
                fetched.md5_hash,
                local_timestamp,
                record,
                clock,
            )
        }),
{
}

/// Neither is the local version of a file that was uploaded to end a conflict.
pub proof fn law_conflict_files_are_not_uploaded_again(
    s: EngineView,
    local_path: Seq<u8>,
    md5_hash: Seq<char>,
    uploaded: RemoteFileMetaView,
    uploaded_at: u64,
    uploaded_timestamp: i64,
    dated_at: u64,
    later: EngineView,
    facts: PathFacts,
    local_timestamp: i64,
    clock: spec_fn(int) -> u64,
)
    requires
        s.job == JobView::RemoteUpsert(RemoteUpsert::UploadLocal { local_path, md5_hash }),
        is_there(facts),
        remote_of(later.config.watch, runtime_path(local_path, facts)) is Some,
    ensures
        ({
            let kept = step(s, ReplyView::Stored(Ok(uploaded)), uploaded_at);
            let dated = step(kept.0, ReplyView::Modified(Ok(uploaded_timestamp)), dated_at);
            &&& asks(kept, Request::ReadModified(local_path))
            &&& dated.1 matches Action::Perform(Request::Save(record)) && record.local_path
                == local_path && only_touched(
                later,
                local_path,
                facts,
                md5_hash,
                local_timestamp,
                record,
                clock,
            )
        }),
{
}

/// The turns of the work on a remote file up to the look at its local path:
/// `clock` gives the reading for each reply.
pub open spec fn compared(
    s: EngineView,
    change: RemoteFileMetaView,
    known: RemoteFileMetaView,
    record: Option<FileStateView>,
    clock: spec_fn(int) -> u64,
) -> Seq<Turn> {
    let begun = handle(s, SyncEventView::Remote(RemoteChangeView::Upsert(change)));
    let told = step(begun.0, ReplyView::Metadata(Ok(Some(known))), clock(0));
    let found = step(told.0, ReplyView::Found(Ok(record)), clock(1));
    seq![begun, told, found]
}

/// Whether the turns ask what is known of a remote file and what there is at
/// its local path, and nothing else.
pub open spec fn compares(turns: Seq<Turn>, virtual_path: Seq<char>, local_path: Seq<u8>) -> bool {
    &&& turns.len() == 3
    &&& asks(turns[0], Request::GetMetadata(virtual_path))
    &&& asks(turns[1], Request::FindByRemote(virtual_path))
    &&& asks(turns[2], Request::Inspect(local_path))
}

/// The record of a file with the given fingerprint that was transferred.
pub open spec fn transferred(
    local_path: Seq<u8>,
    md5_hash: Seq<char>,
    local_timestamp: i64,
    meta: RemoteFileMetaView,
) -> FileStateView {
    FileStateView {
        local_path,
        drive_id: meta.drive_id,
        virtual_remote_path: meta.virtual_path,
        md5_hash,
        local_timestamp,
        remote_timestamp: meta.modified_time,
    }
}

/// Where both the local file and the remote one differ from the baseline, the
/// remote version is stored beside the local file, and the local version is
/// uploaded and becomes the baseline. Nothing is fetched onto the local file.
pub proof fn law_conflicts_keep_both_versions(
    s: EngineView,
    change: RemoteFileMetaView,
    known: RemoteFileMetaView,
    record: FileStateView,
    facts: PathFacts,
    md5_hash: Seq<char>,
    millis: u128,
    copied: RemoteFileMetaView,
    uploaded: RemoteFileMetaView,
    local_timestamp: i64,
    clock: spec_fn(int) -> u64,
)
    requires
        local_of(s.config.watch, change.virtual_path) is Some,
        parent_of(local_of(s.config.watch, change.virtual_path)->0) is Some,
        known.md5_hash != record.md5_hash,
        facts.kind == PathKind::File,
        md5_hash != record.md5_hash,
    ensures
        ({
            let virtual_path = change.virtual_path;
            let local_path = local_of(s.config.watch, virtual_path)->0;
            let copy_path = conflicted_copy(local_path, Some(millis))->Ok_0;
            let turns = compared(s, change, known, Some(record), clock);
            let seen = step(turns.last().0, ReplyView::Facts(facts), clock(2));
            let hashed = step(seen.0, ReplyView::Hash(Ok(md5_hash)), clock(3));
            let timed = step(hashed.0, ReplyView::Clock(Some(millis)), clock(4));
            let stored = step(timed.0, ReplyView::Stored(Ok(copied)), clock(5));
            let kept = step(stored.0, ReplyView::Stored(Ok(uploaded)), clock(6));
            let dated = step(kept.0, ReplyView::Modified(Ok(local_timestamp)), clock(7));
            let saved = step(dated.0, ReplyView::Done(Ok(())), clock(8));
            &&& conflicted_copy(local_path, Some(millis)) is Ok
            &&& !same_path(copy_path, local_path)
            &&& compares(turns, virtual_path, local_path)
            &&& asks(seen, Request::HashFile(local_path))
            &&& asks(hashed, Request::ReadClock)
            &&& asks(timed, Request::Download { virtual_path, local_path: copy_path })
            &&& asks(stored, Request::Upload { virtual_path, local_path })
            &&& asks(kept, Request::ReadModified(local_path))
            &&& asks(
                dated,
                Request::Save(transferred(local_path, md5_hash, local_timestamp, uploaded)),
            )
            &&& saved == finish(s)
        }),
{
    law_a_copy_stands_beside_the_file(local_of(s.config.watch, change.virtual_path)->0, millis);
}

/// A changed remote file is fetched where there is no local file, and recorded
/// with the content that was fetched.
pub proof fn law_remote_changes_are_fetched(
    s: EngineView,
    change: RemoteFileMetaView,
    known: RemoteFileMetaView,
    record: Option<FileStateView>,
    facts: PathFacts,
    fetched: RemoteFileMetaView,
    local_timestamp: i64,
    clock: spec_fn(int) -> u64,
)
    requires
        local_of(s.config.watch, change.virtual_path) is Some,
        record is Some ==> record->0.md5_hash != known.md5_hash,
        facts.kind != PathKind::File,
    ensures
        ({
            let virtual_path = change.virtual_path;
            let local_path = local_of(s.config.watch, virtual_path)->0;
            let turns = compared(s, change, known, record, clock);
            let seen = step(turns.last().0, ReplyView::Facts(facts), clock(2));
            let stored = step(seen.0, ReplyView::Stored(Ok(fetched)), clock(3));
            let dated = step(stored.0, ReplyView::Modified(Ok(local_timestamp)), clock(4));
            let saved = step(dated.0, ReplyView::Done(Ok(())), clock(5));
            &&& compares(turns, virtual_path, local_path)
            &&& asks(seen, Request::Download { virtual_path, local_path })
            &&& asks(stored, Request::ReadModified(local_path))
            &&& asks(
                dated,
                Request::Save(
                    transferred(local_path, fetched.md5_hash, local_timestamp, fetched),
                ),
            )
            &&& saved == finish(s)
        }),
{
}

/// A changed remote file is fetched onto a local file that has no baseline or is
/// still the version of its baseline, too, and recorded with the content that was
/// fetched.
pub proof fn law_remote_changes_replace_unchanged_files(
    s: EngineView,
    change: RemoteFileMetaView,
    known: RemoteFileMetaView,
    record: Option<FileStateView>,
    facts: PathFacts,
    md5_hash: Seq<char>,
    fetched: RemoteFileMetaView,
    local_timestamp: i64,
    clock: spec_fn(int) -> u64,
)
    requires
        local_of(s.config.watch, change.virtual_path) is Some,
        record is Some ==> record->0.md5_hash != known.md5_hash && record->0.md5_hash == md5_hash,
        facts.kind == PathKind::File,
    ensures
        ({
            let virtual_path = change.virtual_path;
            let local_path = local_of(s.config.watch, virtual_path)->0;
            let turns = compared(s, change, known, record, clock);
            let seen = step(turns.last().0, ReplyView::Facts(facts), clock(2));
            let hashed = step(seen.0, ReplyView::Hash(Ok(md5_hash)), clock(3));
            let stored = step(hashed.0, ReplyView::Stored(Ok(fetched)), clock(4));
            let dated = step(stored.0, ReplyView::Modified(Ok(local_timestamp)), clock(5));
            let saved = step(dated.0, ReplyView::Done(Ok(())), clock(6));
            &&& compares(turns, virtual_path, local_path)
            &&& asks(seen, Request::HashFile(local_path))
            &&& asks(hashed, Request::Download { virtual_path, local_path })
            &&& asks(stored, Request::ReadModified(local_path))
            &&& asks(
                dated,
                Request::Save(
                    transferred(local_path, fetched.md5_hash, local_timestamp, fetched),
                ),
            )
            &&& saved == finish(s)
        }),
{
}

/// A changed remote file is fetched onto its local file only where that has no
/// baseline or is still the version of its baseline.
pub proof fn law_only_unchanged_files_are_overwritten(
    s: EngineView,
    virtual_path: Seq<char>,
    local_path: Seq<u8>,
    base_hash: Option<Seq<char>>,
    md5_hash: Seq<char>,
    now: u64,
)
    requires
        s.job == JobView::RemoteUpsert(RemoteUpsert::Hash { virtual_path, local_path, base_hash }),
    ensures
        asks(
            step(s, ReplyView::Hash(Ok(md5_hash)), now),
            Request::Download { virtual_path, local_path },
        ) <==> base_hash is None || base_hash == Some(md5_hash),
{
}

/// A conflicted copy that cannot be stored ends the work before anything is
/// uploaded or recorded.
pub proof fn law_a_lost_copy_stops_the_upload(s: EngineView, why: Seq<char>, now: u64)
    requires
        s.job is RemoteUpsert,
        s.job->RemoteUpsert_0 is StoreCopy,
    ensures
        step(s, ReplyView::Stored(Err(why)), now).1 is Finish,
        step(s, ReplyView::Stored(Err(why)), now).0 == idle(s),
{
}

} // verus!
