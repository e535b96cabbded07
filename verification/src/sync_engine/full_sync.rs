//! What a full synchronization comes to as a whole.
use vstd::prelude::*;

use crate::config::{PathKind, WatchEntryView};
use crate::events::SyncEventView;
use crate::keyed::{find, lemma_find};
use crate::path::same_path;
use crate::path_map::{entry_of, inserted};
use crate::state_db::FileStateView;
use crate::sync_engine::laws::{asks, flush_cutoff, law_idle_when_finished};
use crate::sync_engine::model::{
    after_upsert, expired, flush_next, handle, sync_record, upsert_step, ActionView, After,
    EngineView, Flush, FullSync, Job, JobView, LocalUpsert, PendingDeleteView, PendingView,
    ReplyView, Request, Turn, Wake,
};
use crate::sync_engine::runs::{follows, follows_at};

verus! {

/// Whether the work is over, and went well.
pub open spec fn ended_well(turn: Turn) -> bool {
    turn.1 == ActionView::Finish(Ok(()))
}

/// Whether the lists of records in the replies have the size of a list.
pub open spec fn lists_fit(replies: Seq<(ReplyView, u64)>) -> bool {
    forall|i: int|
        0 <= i < replies.len() ==> ((#[trigger] replies[i]).0 matches ReplyView::Records(Ok(list))
            ==> list.len() <= usize::MAX)
}

/// Whether the clock does not run backwards.
pub open spec fn clock_runs(replies: Seq<(ReplyView, u64)>) -> bool {
    forall|i: int, j: int|
        0 <= i <= j < replies.len() ==> (#[trigger] replies[i]).1 <= (#[trigger] replies[j]).1
}

/// Whether a turn begins the work on a local file.
pub open spec fn takes_up(turn: Turn, path: Seq<u8>) -> bool {
    &&& asks(turn, Request::Inspect(path))
    &&& turn.0.job is LocalUpsert
    &&& turn.0.job->LocalUpsert_0 == LocalUpsert::<Seq<u8>, Seq<char>, FileStateView>::Inspect {
        path,
    }
}

/// Whether a turn looks at a watch entry.
pub open spec fn looks_at_entry(turn: Turn, watch: Seq<WatchEntryView>, e: int) -> bool {
    &&& 0 <= e < watch.len()
    &&& turn.0.job == JobView::FullSync(FullSync::InspectEntry { entry: e as usize })
    &&& asks(turn, Request::Inspect(watch[e].local_path))
}

/// Whether the walk below a watch entry ends with the reply to a turn.
pub open spec fn ends_walk(turns: Seq<Turn>, replies: Seq<(ReplyView, u64)>, e: int, m: int) -> bool {
    &&& turns[m].0.job == JobView::FullSync(FullSync::Walk { entry: e as usize })
    &&& replies[m].0 == ReplyView::Walked(None)
}

/// Whether a watch entry that is looked at with turn `k` is a folder, which is
/// then walked.
pub open spec fn enters_folder(
    turns: Seq<Turn>,
    replies: Seq<(ReplyView, u64)>,
    watch: Seq<WatchEntryView>,
    e: int,
    k: int,
) -> bool {
    &&& looks_at_entry(turns[k], watch, e)
    &&& replies[k].0 matches ReplyView::Facts(facts)
    &&& facts.kind != PathKind::Missing && facts.kind != PathKind::File
    &&& asks(turns[k + 1], Request::Walk(watch[e].local_path))
}

/// Whether a watch entry is dealt with before turn `n`: it is looked at; where
/// it is a file, the work on that file is begun, and where it is a folder, it is
/// walked to the end.
pub open spec fn entry_done(
    turns: Seq<Turn>,
    replies: Seq<(ReplyView, u64)>,
    watch: Seq<WatchEntryView>,
    e: int,
    n: int,
) -> bool {
    exists|k: int|
        0 <= k < n && #[trigger] looks_at_entry(turns[k], watch, e) && (
        replies[k].0 matches ReplyView::Facts(facts) && match facts.kind {
            PathKind::Missing => true,
            PathKind::File => takes_up(turns[k + 1], watch[e].local_path),
            _ => enters_folder(turns, replies, watch, e, k) && exists|m: int|
                k < m < n && #[trigger] ends_walk(turns, replies, e, m),
        })
}

/// Whether the walk below a watch entry was begun before turn `n`.
spec fn walk_begun(
    turns: Seq<Turn>,
    replies: Seq<(ReplyView, u64)>,
    watch: Seq<WatchEntryView>,
    e: int,
    n: int,
) -> bool {
    exists|k: int| 0 <= k < n && #[trigger] enters_folder(turns, replies, watch, e, k)
}

/// Whether the entries before the given one are dealt with.
spec fn entries_done(
    turns: Seq<Turn>,
    replies: Seq<(ReplyView, u64)>,
    watch: Seq<WatchEntryView>,
    count: int,
    n: int,
) -> bool {
    forall|e: int| 0 <= e < count ==> #[trigger] entry_done(turns, replies, watch, e, n)
}

/// How far a full synchronization has come with turn `n`.
spec fn entry_progress(
    turns: Seq<Turn>,
    replies: Seq<(ReplyView, u64)>,
    watch: Seq<WatchEntryView>,
    n: int,
) -> bool {
    let s = turns[n].0;
    let all = watch.len() as int;
    &&& s.config.watch == watch
    &&& match s.job {
        Job::FullSync(FullSync::InspectEntry { entry }) => {
            &&& looks_at_entry(turns[n], watch, entry as int)
            &&& entries_done(turns, replies, watch, entry as int, n)
        },
        Job::FullSync(FullSync::Walk { entry }) => {
            &&& entry < watch.len()
            &&& entries_done(turns, replies, watch, entry as int, n)
            &&& walk_begun(turns, replies, watch, entry as int, n)
        },
        Job::LocalUpsert(_, After::NextEntry { entry }) => {
            &&& entry < watch.len()
            &&& entries_done(turns, replies, watch, entry + 1, n)
        },
        Job::LocalUpsert(_, After::Walk { entry }) => {
            &&& entry < watch.len()
            &&& entries_done(turns, replies, watch, entry as int, n)
            &&& walk_begun(turns, replies, watch, entry as int, n)
        },
        Job::FullSync(FullSync::ListRecords) => {
            &&& asks(turns[n], Request::ListAll)
            &&& entries_done(turns, replies, watch, all, n)
        },
        Job::FullSync(FullSync::InspectRecord { .. }) => entries_done(
            turns,
            replies,
            watch,
            all,
            n,
        ) && listed_before(turns, replies, n),
        Job::Flush(_) => entries_done(turns, replies, watch, all, n) && listed_before(
            turns,
            replies,
            n,
        ),
        Job::Idle => ended_well(turns[n]) ==> entries_done(turns, replies, watch, all, n)
            && listed_before(turns, replies, n),
        _ => false,
    }
}

/// Whether every record is listed with the reply to a turn.
pub open spec fn lists_records(turns: Seq<Turn>, replies: Seq<(ReplyView, u64)>, l: int) -> bool {
    &&& turns[l].0.job == JobView::FullSync(FullSync::ListRecords)
    &&& asks(turns[l], Request::ListAll)
    &&& replies[l].0 matches ReplyView::Records(Ok(_))
}

/// Whether the records were listed before turn `n`.
spec fn listed_before(turns: Seq<Turn>, replies: Seq<(ReplyView, u64)>, n: int) -> bool {
    exists|l: int| 0 <= l < n && #[trigger] lists_records(turns, replies, l)
}

/// What is dealt with stays so.
proof fn lemma_entries_stay_done(
    turns: Seq<Turn>,
    replies: Seq<(ReplyView, u64)>,
    watch: Seq<WatchEntryView>,
    count: int,
    n: int,
)
    requires
        entries_done(turns, replies, watch, count, n),
    ensures
        entries_done(turns, replies, watch, count, n + 1),
{
    assert forall|e: int| 0 <= e < count implies #[trigger] entry_done(
        turns,
        replies,
        watch,
        e,
        n + 1,
    ) by {
        assert(entry_done(turns, replies, watch, e, n));
    }
}

/// The work on a local file goes on, fails, or is over.
proof fn lemma_upsert_goes_on(
    s: EngineView,
    stage: LocalUpsert<Seq<u8>, Seq<char>, FileStateView>,
    after: After,
    reply: ReplyView,
)
    ensures
        ({
            let turn = upsert_step(s, stage, after, reply);
            ||| turn.0.job is LocalUpsert && turn.0.job->LocalUpsert_1 == after && turn.1 is Perform
                && turn.0.config == s.config
            ||| turn.1 matches ActionView::Finish(Err(_)) && turn.0.job is Idle && turn.0.config
                == s.config
            ||| turn == after_upsert(EngineView { pending: turn.0.pending, ..s }, after)
        }),
{
}

/// A full synchronization comes further with each reply.
proof fn lemma_entry_progress(
    s: EngineView,
    turns: Seq<Turn>,
    replies: Seq<(ReplyView, u64)>,
    n: int,
)
    requires
        follows(turns, replies),
        lists_fit(replies),
        s.config.watch.len() <= usize::MAX,
        turns[0] == handle(s, SyncEventView::SyncNow),
        0 <= n <= replies.len(),
    ensures
        entry_progress(turns, replies, s.config.watch, n),
    decreases n,
{
    let watch = s.config.watch;
    let all = watch.len() as int;
    if n > 0 {
        let k = n - 1;
        lemma_entry_progress(s, turns, replies, k);
        assert(follows_at(turns, replies, k));
        let before = turns[k].0;
        let reply = replies[k].0;
        match before.job {
            Job::FullSync(FullSync::InspectEntry { entry }) => {
                lemma_entries_stay_done(turns, replies, watch, entry as int, k);
                assert(looks_at_entry(turns[k], watch, entry as int));
                match reply {
                    ReplyView::Facts(facts) => {
                        let path = watch[entry as int].local_path;
                        if facts.kind == PathKind::Missing || facts.kind == PathKind::File {
                            assert(entry_done(turns, replies, watch, entry as int, n));
                            assert(entries_done(turns, replies, watch, entry + 1, n));
                        } else {
                            assert(enters_folder(turns, replies, watch, entry as int, k));
                        }
                    },
                    _ => {},
                }
            },
            Job::FullSync(FullSync::Walk { entry }) => {
                lemma_entries_stay_done(turns, replies, watch, entry as int, k);
                let b = choose|b: int|
                    0 <= b < k && #[trigger] enters_folder(turns, replies, watch, entry as int, b);
                if reply == ReplyView::Walked(None) {
                    assert(ends_walk(turns, replies, entry as int, k));
                    assert(looks_at_entry(turns[b], watch, entry as int));
                    assert(entry_done(turns, replies, watch, entry as int, n));
                    assert(entries_done(turns, replies, watch, entry + 1, n));
                }
            },
            Job::LocalUpsert(stage, after) => {
                lemma_upsert_goes_on(before, stage, after, reply);
                match after {
                    After::NextEntry { entry } => {
                        lemma_entries_stay_done(turns, replies, watch, entry + 1, k);
                    },
                    After::Walk { entry } => {
                        lemma_entries_stay_done(turns, replies, watch, entry as int, k);
                        let b = choose|b: int|
                            0 <= b < k && #[trigger] enters_folder(
                                turns,
                                replies,
                                watch,
                                entry as int,
                                b,
                            );
                        assert(walk_begun(turns, replies, watch, entry as int, n));
                    },
                    After::Finish => {},
                }
            },
            Job::FullSync(FullSync::ListRecords) => {
                lemma_entries_stay_done(turns, replies, watch, all, k);
                if reply matches ReplyView::Records(Ok(_)) {
                    assert(lists_records(turns, replies, k));
                }
            },
            _ => {
                if before.job is FullSync || before.job is Flush {
                    lemma_entries_stay_done(turns, replies, watch, all, k);
                    let l = choose|l: int| 0 <= l < k && #[trigger] lists_records(turns, replies, l);
                    assert(listed_before(turns, replies, n));
                }
            },
        }
    }
}

/// Whether no two records are of the same path.
pub open spec fn records_differ(records: Seq<FileStateView>) -> bool {
    forall|i: int, j: int|
        0 <= i < j < records.len() ==> !same_path(
            (#[trigger] records[i]).local_path,
            (#[trigger] records[j]).local_path,
        )
}

/// Whether the delete of a record waits, and is due at the clock reading.
pub open spec fn is_due(pending: PendingView, record: FileStateView, by: u64) -> bool {
    exists|i: int|
        0 <= i < pending.len() && same_path((#[trigger] pending[i]).0, record.local_path)
            && pending[i].1.record == record && pending[i].1.expires_at <= by
}

/// Whether a turn moves the remote copy of a record's file to the trash.
pub open spec fn trashes(turn: Turn, record: FileStateView) -> bool {
    &&& asks(turn, Request::TrashRemote(record.virtual_remote_path))
    &&& turn.0.job matches Job::Flush(Flush::Trash { local_path, .. })
    &&& local_path == record.local_path
}

/// Whether a turn looks at the record with the given index.
pub open spec fn looks_at_record(turn: Turn, records: Seq<FileStateView>, j: int) -> bool {
    &&& 0 <= j < records.len()
    &&& turn.0.job == JobView::FullSync(FullSync::InspectRecord { next: j as usize })
    &&& asks(turn, Request::Inspect(records[j].local_path))
}

/// Whether the reply to a turn says that there is nothing at the path.
pub open spec fn is_missing(reply: ReplyView) -> bool {
    reply matches ReplyView::Facts(facts) && facts.kind == PathKind::Missing
}

/// Whether the remote copy of a record's file is moved to the trash after turn
/// `k`, up to turn `n`.
spec fn trashed_between(turns: Seq<Turn>, record: FileStateView, k: int, n: int) -> bool {
    exists|m: int| k < m <= n && trashes(#[trigger] turns[m], record)
}

/// Whether the record with the given index is looked at before turn `n` and, where
/// there is nothing at its path, its delete is due among those that wait, or was
/// carried out.
spec fn record_seen(
    turns: Seq<Turn>,
    replies: Seq<(ReplyView, u64)>,
    records: Seq<FileStateView>,
    j: int,
    l: int,
    n: int,
    pending: PendingView,
    by: u64,
) -> bool {
    exists|k: int|
        l < k < n && #[trigger] looks_at_record(turns[k], records, j) && replies[k].0 is Facts && (
        is_missing(replies[k].0) && records_differ(records) ==> is_due(pending, records[j], by)
            || trashed_between(turns, records[j], k, n))
}

/// Whether the records before the given one are dealt with in this way.
spec fn records_seen(
    turns: Seq<Turn>,
    replies: Seq<(ReplyView, u64)>,
    records: Seq<FileStateView>,
    count: int,
    l: int,
    n: int,
    pending: PendingView,
    by: u64,
) -> bool {
    forall|j: int|
        0 <= j < count ==> #[trigger] record_seen(turns, replies, records, j, l, n, pending, by)
}

/// How far the work on the records has come with turn `n`, after they were
/// listed with the reply to turn `l`.
spec fn record_progress(
    turns: Seq<Turn>,
    replies: Seq<(ReplyView, u64)>,
    records: Seq<FileStateView>,
    l: int,
    n: int,
) -> bool {
    let s = turns[n].0;
    let all = records.len() as int;
    match s.job {
        Job::FullSync(FullSync::InspectRecord { next }) => {
            &&& s.records == records
            &&& looks_at_record(turns[n], records, next as int)
            &&& records_seen(
                turns,
                replies,
                records,
                next as int,
                l,
                n,
                s.pending,
                replies[n - 1].1,
            )
        },
        Job::Flush(stage) => records_seen(
            turns,
            replies,
            records,
            all,
            l,
            n,
            s.pending,
            flush_cutoff(stage),
        ),
        Job::Idle => ended_well(turns[n]) ==> records_seen(
            turns,
            replies,
            records,
            all,
            l,
            n,
            Seq::empty(),
            0,
        ),
        _ => false,
    }
}

/// A record that is dealt with stays so, where its delete stays due.
proof fn lemma_record_stays_seen(
    turns: Seq<Turn>,
    replies: Seq<(ReplyView, u64)>,
    records: Seq<FileStateView>,
    j: int,
    l: int,
    n: int,
    before: PendingView,
    by: u64,
    after: PendingView,
    now: u64,
)
    requires
        record_seen(turns, replies, records, j, l, n, before, by),
        records_differ(records) && is_due(before, records[j], by) ==> is_due(after, records[j], now)
            || trashes(turns[n + 1], records[j]),
    ensures
        record_seen(turns, replies, records, j, l, n + 1, after, now),
{
    let k = choose|k: int|
        l < k < n && #[trigger] looks_at_record(turns[k], records, j) && replies[k].0 is Facts && (
        is_missing(replies[k].0) && records_differ(records) ==> is_due(before, records[j], by)
            || trashed_between(turns, records[j], k, n));
    if trashed_between(turns, records[j], k, n) {
        let m = choose|m: int| k < m <= n && trashes(#[trigger] turns[m], records[j]);
        assert(trashed_between(turns, records[j], k, n + 1));
    }
    if trashes(turns[n + 1], records[j]) {
        assert(trashed_between(turns, records[j], k, n + 1));
    }
    assert(looks_at_record(turns[k], records, j));
}

/// A due delete is carried out in a flush, or still due.
pub proof fn lemma_flush_next_due(s: EngineView, cutoff: u64, record: FileStateView)
    requires
        is_due(s.pending, record, cutoff),
    ensures
        flush_next(s, cutoff).1 is Perform,
        trashes(flush_next(s, cutoff), record) || is_due(
            flush_next(s, cutoff).0.pending,
            record,
            cutoff,
        ),
{
    let k = choose|k: int|
        0 <= k < s.pending.len() && same_path((#[trigger] s.pending[k]).0, record.local_path)
            && s.pending[k].1.record == record && s.pending[k].1.expires_at <= cutoff;
    lemma_find(s.pending, expired(cutoff));
    assert(expired(cutoff)(s.pending[k]));
    let i = find(s.pending, expired(cutoff))->0;
    if i != k {
        let after = s.pending.remove(i);
        let a = if k < i {
            k
        } else {
            k - 1
        };
        assert(after[a] == s.pending[k]);
    }
}

/// The delete of a record stays due when the one of another path is added.
pub proof fn lemma_inserted_due(
    pending: PendingView,
    record: FileStateView,
    other: FileStateView,
    by: u64,
    now: u64,
)
    requires
        is_due(pending, record, by),
        by <= now,
        !same_path(record.local_path, other.local_path),
    ensures
        is_due(
            inserted(
                pending,
                other.local_path,
                PendingDeleteView { record: other, expires_at: now },
            ),
            record,
            now,
        ),
{
    let k = choose|k: int|
        0 <= k < pending.len() && same_path((#[trigger] pending[k]).0, record.local_path)
            && pending[k].1.record == record && pending[k].1.expires_at <= by;
    let delete = PendingDeleteView { record: other, expires_at: now };
    let after = inserted(pending, other.local_path, delete);
    lemma_find(pending, entry_of::<PendingDeleteView>(other.local_path));
    assert(after[k] == pending[k]);
}

/// The delete of a record that is added is due.
pub proof fn lemma_added_due(pending: PendingView, record: FileStateView, now: u64)
    ensures
        is_due(
            inserted(
                pending,
                record.local_path,
                PendingDeleteView { record, expires_at: now },
            ),
            record,
            now,
        ),
{
    let delete = PendingDeleteView { record, expires_at: now };
    let after = inserted(pending, record.local_path, delete);
    lemma_find(pending, entry_of::<PendingDeleteView>(record.local_path));
    let k = match find(pending, entry_of::<PendingDeleteView>(record.local_path)) {
        Some(k) => k,
        None => pending.len() as int,
    };
    assert(same_path(after[k].0, record.local_path) && after[k].1 == delete);
}

/// A record's delete that is due is carried out in a flush, or still due.
proof fn lemma_record_flushed(
    s: EngineView,
    cutoff: u64,
    records: Seq<FileStateView>,
    turns: Seq<Turn>,
    replies: Seq<(ReplyView, u64)>,
    j: int,
    l: int,
    n: int,
)
    requires
        turns[n] == flush_next(s, cutoff),
        record_seen(turns, replies, records, j, l, n, s.pending, cutoff),
    ensures
        turns[n].1 is Perform ==> record_seen(
            turns,
            replies,
            records,
            j,
            l,
            n,
            turns[n].0.pending,
            cutoff,
        ),
        turns[n].1 is Finish ==> record_seen(turns, replies, records, j, l, n, Seq::empty(), 0),
{
    let k = choose|k: int|
        l < k < n && #[trigger] looks_at_record(turns[k], records, j) && replies[k].0 is Facts && (
        is_missing(replies[k].0) && records_differ(records) ==> is_due(
            s.pending,
            records[j],
            cutoff,
        ) || trashed_between(turns, records[j], k, n));
    if is_due(s.pending, records[j], cutoff) {
        lemma_flush_next_due(s, cutoff, records[j]);
        if trashes(turns[n], records[j]) {
            assert(trashed_between(turns, records[j], k, n));
        }
    }
    assert(looks_at_record(turns[k], records, j));
}

/// A flush carries out each due delete, or leaves it due.
proof fn lemma_flush_progress(
    s: EngineView,
    cutoff: u64,
    records: Seq<FileStateView>,
    turns: Seq<Turn>,
    replies: Seq<(ReplyView, u64)>,
    l: int,
    n: int,
)
    requires
        turns[n] == flush_next(s, cutoff),
        records_seen(turns, replies, records, records.len() as int, l, n, s.pending, cutoff),
    ensures
        record_progress(turns, replies, records, l, n),
{
    let after = turns[n].0.pending;
    if turns[n].1 is Perform {
        assert forall|j: int| 0 <= j < records.len() implies #[trigger] record_seen(
            turns,
            replies,
            records,
            j,
            l,
            n,
            after,
            cutoff,
        ) by {
            assert(record_seen(turns, replies, records, j, l, n, s.pending, cutoff));
            lemma_record_flushed(s, cutoff, records, turns, replies, j, l, n);
        }
    } else {
        assert forall|j: int| 0 <= j < records.len() implies #[trigger] record_seen(
            turns,
            replies,
            records,
            j,
            l,
            n,
            Seq::empty(),
            0,
        ) by {
            assert(record_seen(turns, replies, records, j, l, n, s.pending, cutoff));
            lemma_record_flushed(s, cutoff, records, turns, replies, j, l, n);
        }
    }
}

/// The work on the records comes further with each reply.
proof fn lemma_record_progress(
    turns: Seq<Turn>,
    replies: Seq<(ReplyView, u64)>,
    records: Seq<FileStateView>,
    l: int,
    n: int,
)
    requires
        follows(turns, replies),
        clock_runs(replies),
        records.len() <= usize::MAX,
        0 <= l < n <= replies.len(),
        lists_records(turns, replies, l),
        replies[l].0 == ReplyView::Records(Ok(records)),
    ensures
        record_progress(turns, replies, records, l, n),
    decreases n,
{
    let k = n - 1;
    assert(follows_at(turns, replies, k));
    let before = turns[k].0;
    let (reply, now) = replies[k];
    if k == l {
        let listed = EngineView { records, ..before };
        assert(turns[n] == sync_record(listed, 0, now));
        if records.len() == 0 {
            lemma_flush_progress(listed, now, records, turns, replies, l, n);
        }
    } else {
        lemma_record_progress(turns, replies, records, l, k);
        match before.job {
            Job::FullSync(FullSync::InspectRecord { next }) => {
                match reply {
                    ReplyView::Facts(facts) => {
                        lemma_record_looked_at(turns, replies, records, l, k);
                    },
                    _ => {},
                }
            },
            Job::Flush(stage) => {
                let cutoff = flush_cutoff(stage);
                assert forall|j: int| 0 <= j < records.len() implies #[trigger] record_seen(
                    turns,
                    replies,
                    records,
                    j,
                    l,
                    n,
                    before.pending,
                    cutoff,
                ) by {
                    let pending = before.pending;
                    assert(record_seen(turns, replies, records, j, l, k, pending, cutoff));
                    lemma_record_stays_seen(
                        turns,
                        replies,
                        records,
                        j,
                        l,
                        k,
                        pending,
                        cutoff,
                        pending,
                        cutoff,
                    );
                }
                if stage is Forget && reply matches ReplyView::Done(Ok(_)) {
                    lemma_flush_progress(before, cutoff, records, turns, replies, l, n);
                }
            },
            _ => {},
        }
    }
}

/// A record is looked at, and its delete is scheduled where there is nothing at
/// its path.
proof fn lemma_record_looked_at(
    turns: Seq<Turn>,
    replies: Seq<(ReplyView, u64)>,
    records: Seq<FileStateView>,
    l: int,
    k: int,
)
    requires
        clock_runs(replies),
        records.len() <= usize::MAX,
        0 <= l < k < replies.len(),
        follows_at(turns, replies, k),
        record_progress(turns, replies, records, l, k),
        turns[k].0.job matches Job::FullSync(FullSync::InspectRecord { .. }),
        replies[k].0 is Facts,
    ensures
        record_progress(turns, replies, records, l, k + 1),
{
    let before = turns[k].0;
    let now = replies[k].1;
    let by = replies[k - 1].1;
    let next = before.job->FullSync_0->InspectRecord_next;
    let record = records[next as int];
    let delete = PendingDeleteView { record, expires_at: now };
    let pending = if is_missing(replies[k].0) {
        inserted(before.pending, record.local_path, delete)
    } else {
        before.pending
    };
    let after = EngineView { pending, ..before };
    assert(by <= now);
    assert(turns[k + 1] == sync_record(after, (next + 1) as usize, now));
    assert forall|j: int| 0 <= j < next implies #[trigger] record_seen(
        turns,
        replies,
        records,
        j,
        l,
        k + 1,
        pending,
        now,
    ) by {
        assert(record_seen(turns, replies, records, j, l, k, before.pending, by));
        if records_differ(records) && is_due(before.pending, records[j], by) {
            if is_missing(replies[k].0) {
                lemma_inserted_due(before.pending, records[j], record, by, now);
            } else {
                lemma_due_later(before.pending, records[j], by, now);
            }
        }
        lemma_record_stays_seen(
            turns,
            replies,
            records,
            j,
            l,
            k,
            before.pending,
            by,
            pending,
            now,
        );
    }
    assert(record_seen(turns, replies, records, next as int, l, k + 1, pending, now)) by {
        lemma_added_due(before.pending, record, now);
        assert(looks_at_record(turns[k], records, next as int));
    }
    if next + 1 == records.len() {
        lemma_flush_progress(after, now, records, turns, replies, l, k + 1);
    }
}

/// What is due at one time is due later.
pub proof fn lemma_due_later(pending: PendingView, record: FileStateView, by: u64, now: u64)
    requires
        is_due(pending, record, by),
        by <= now,
    ensures
        is_due(pending, record, now),
{
    let k = choose|k: int|
        0 <= k < pending.len() && same_path((#[trigger] pending[k]).0, record.local_path)
            && pending[k].1.record == record && pending[k].1.expires_at <= by;
    assert(pending[k].1.expires_at <= now);
}

/// Whether the record with the given index, of those listed with the reply to
/// turn `l`, is looked at and, where there is nothing at its path, the remote copy
/// of its file is moved to the trash, and then the record is removed.
pub open spec fn record_done(
    turns: Seq<Turn>,
    replies: Seq<(ReplyView, u64)>,
    records: Seq<FileStateView>,
    j: int,
    l: int,
) -> bool {
    exists|k: int|
        l < k < replies.len() && #[trigger] looks_at_record(turns[k], records, j)
            && replies[k].0 is Facts && (is_missing(replies[k].0) && records_differ(records)
            ==> exists|m: int|
            k < m < replies.len() && trashes(#[trigger] turns[m], records[j]) && asks(
                turns[m + 1],
                Request::RemoveByLocal(records[j].local_path),
            ))
}

/// The file that the reply to a turn of a walk tells of, if it does.
pub open spec fn walked_file(turn: Turn, reply: ReplyView) -> Option<Seq<u8>> {
    match (turn.0.job, reply) {
        (
            Job::FullSync(FullSync::Walk { .. }),
            ReplyView::Walked(Some((path, true))),
        ) => Some(path),
        _ => None,
    }
}

/// A full synchronization that ends well has visited everything: it has looked at
/// every watch entry, has begun the work on every entry that is a file and on every
/// file that the walk below an entry came to, and has walked every folder to its
/// end. Then it has looked at every record, and the remote copy of each file that
/// is not there any more was moved to the trash before its record was removed. The
/// last holds where no two records are of the same path: of `/a//b` and `/a/b` the
/// one takes the place of the other.
pub proof fn law_a_full_sync_visits_everything(
    s: EngineView,
    turns: Seq<Turn>,
    replies: Seq<(ReplyView, u64)>,
)
    requires
        follows(turns, replies),
        clock_runs(replies),
        lists_fit(replies),
        s.config.watch.len() <= usize::MAX,
        turns[0] == handle(s, SyncEventView::SyncNow),
        ended_well(turns.last()),
    ensures
        forall|e: int|
            0 <= e < s.config.watch.len() ==> #[trigger] entry_done(
                turns,
                replies,
                s.config.watch,
                e,
                replies.len() as int,
            ),
        forall|k: int|
            0 <= k < replies.len() ==> (walked_file(turns[k], (#[trigger] replies[k]).0) matches Some(
                path,
            ) ==> takes_up(turns[k + 1], path)),
        exists|l: int|
            0 <= l < replies.len() && #[trigger] lists_records(turns, replies, l) && forall|j: int|
                0 <= j < (replies[l].0->Records_0->Ok_0).len() ==> #[trigger] record_done(
                    turns,
                    replies,
                    replies[l].0->Records_0->Ok_0,
                    j,
                    l,
                ),
{
    let n = replies.len() as int;
    lemma_entry_progress(s, turns, replies, n);
    assert(follows_at(turns, replies, n - 1));
    law_idle_when_finished(turns[n - 1].0, Wake::Tick, replies[n - 1].0, replies[n - 1].1);
    assert forall|k: int| 0 <= k < n implies (walked_file(turns[k], (#[trigger] replies[k]).0) matches Some(
        path,
    ) ==> takes_up(turns[k + 1], path)) by {
        assert(follows_at(turns, replies, k));
    }
    let l = choose|l: int| 0 <= l < n && #[trigger] lists_records(turns, replies, l);
    let records = replies[l].0->Records_0->Ok_0;
    assert(replies[l].0 == ReplyView::Records(Ok(records)));
    lemma_record_progress(turns, replies, records, l, n);
    assert forall|j: int| 0 <= j < records.len() implies #[trigger] record_done(
        turns,
        replies,
        records,
        j,
        l,
    ) by {
        assert(record_seen(turns, replies, records, j, l, n, Seq::empty(), 0));
        let k = choose|k: int|
            l < k < n && #[trigger] looks_at_record(turns[k], records, j) && replies[k].0 is Facts
                && (is_missing(replies[k].0) && records_differ(records) ==> is_due(
                Seq::empty(),
                records[j],
                0,
            ) || trashed_between(turns, records[j], k, n));
        if is_missing(replies[k].0) && records_differ(records) {
            let m = choose|m: int| k < m <= n && trashes(#[trigger] turns[m], records[j]);
            assert(follows_at(turns, replies, m));
            if m + 1 < n {
                assert(follows_at(turns, replies, m + 1));
            }
            assert(asks(turns[m + 1], Request::RemoveByLocal(records[j].local_path)));
        }
        assert(looks_at_record(turns[k], records, j));
    }
}

} // verus!
