//! What a full synchronization leaves behind, and what the next one does with
//! it.
use vstd::prelude::*;
use vstd::set_lib::{lemma_len_subset, lemma_map_size_bound};
use vstd::utf8::{
    decode_utf8_encode_utf8, encode_utf8, encode_utf8_decode_utf8, encode_utf8_valid_utf8,
    valid_utf8,
};

use crate::config::{remote_of, runtime_path, PathFacts, PathKind, WatchEntryView};
use crate::events::SyncEventView;
use crate::keyed::{find, lemma_find};
use crate::path::same_path;
use crate::path_map::{entry_of, inserted, removed};
use crate::state_db::{stored_remote, FileStateView};
use crate::sync_engine::full_sync::{
    clock_runs, ended_well, is_due, lemma_added_due, lemma_due_later, lemma_flush_next_due,
    lemma_inserted_due,
};
use crate::sync_engine::laws::{
    asks, flush_cutoff, is_there, law_idle_when_finished, law_steps_keep_the_configuration,
};
use crate::sync_engine::model::{
    after_upsert, expired, flush_next, handle, step, sync_record, ActionView, After, EngineView,
    Flush, FullSync, Job, LocalUpsert, PendingDeleteView, PendingView, ReplyView, Request,
    RequestView, Turn, Wake,
};
use crate::sync_engine::runs::{follows, follows_at};
use crate::text::lossy_text;

verus! {

/// The local files, as long as nobody touches them.
pub struct Disk {
    /// What there is at a path.
    pub facts: spec_fn(Seq<u8>) -> PathFacts,
    /// The fingerprint of a file.
    pub hash: spec_fn(Seq<u8>) -> Seq<char>,
    /// The time that a file was modified at.
    pub modified: spec_fn(Seq<u8>) -> i64,
    /// What the walk of a folder comes to, in order, and whether it is a file.
    pub walk: spec_fn(Seq<u8>) -> Seq<(Seq<u8>, bool)>,
}

/// The rows of the state database, by the texts that the local paths are stored
/// under.
pub type Rows = Map<Seq<char>, FileStateView>;

/// What changes as requests are carried out: the rows, and what is left of the
/// walk that is under way.
pub struct World {
    pub rows: Rows,
    pub left: Seq<(Seq<u8>, bool)>,
}

/// The row of a local path.
pub open spec fn row_of(rows: Rows, path: Seq<u8>) -> Option<FileStateView> {
    if rows.contains_key(lossy_text(path)) {
        Some(rows[lossy_text(path)])
    } else {
        None
    }
}

/// A record as a row gives it back.
pub open spec fn as_stored(record: FileStateView) -> FileStateView {
    FileStateView {
        local_path: encode_utf8(lossy_text(record.local_path)),
        virtual_remote_path: stored_remote(record.virtual_remote_path),
        ..record
    }
}

/// The rows after the local timestamp of a path was set.
pub open spec fn touched(rows: Rows, path: Seq<u8>, local_timestamp: i64) -> Rows {
    match row_of(rows, path) {
        Some(row) => rows.insert(lossy_text(path), FileStateView { local_timestamp, ..row }),
        None => rows,
    }
}

/// Whether a list holds each row, once.
pub open spec fn lists(list: Seq<FileStateView>, rows: Rows) -> bool {
    &&& list.no_duplicates()
    &&& forall|i: int|
        0 <= i < list.len() ==> exists|key: Seq<char>|
            #[trigger] rows.contains_key(key) && rows[key] == #[trigger] list[i]
    &&& forall|key: Seq<char>| #[trigger] rows.contains_key(key) ==> list.contains(rows[key])
}

/// The first of what a walk still comes to.
pub open spec fn first_of(coming: Seq<(Seq<u8>, bool)>) -> Option<(Seq<u8>, bool)> {
    if coming.len() == 0 {
        None
    } else {
        Some(coming[0])
    }
}

/// What a walk comes to after the first.
pub open spec fn rest_of(coming: Seq<(Seq<u8>, bool)>) -> Seq<(Seq<u8>, bool)> {
    if coming.len() == 0 {
        coming
    } else {
        coming.drop_first()
    }
}

/// Whether a reply to a request is true of the files and the rows, and the world
/// after it is the one that the request leaves. A request that reads or writes may
/// always fail; then it changes nothing. Nothing is said of what the remote store
/// replies, nor of requests that are not made for local files.
pub open spec fn answers(
    disk: Disk,
    before: World,
    request: RequestView,
    reply: ReplyView,
    after: World,
) -> bool {
    match request {
        Request::Inspect(path) => reply == ReplyView::Facts((disk.facts)(path)) && after == before,
        Request::HashFile(path) => after == before && match reply {
            ReplyView::Hash(Ok(hash)) => hash == (disk.hash)(path),
            ReplyView::Hash(Err(_)) => true,
            _ => false,
        },
        Request::ReadModified(path) => after == before && match reply {
            ReplyView::Modified(Ok(time)) => time == (disk.modified)(path),
            ReplyView::Modified(Err(_)) => true,
            _ => false,
        },
        Request::FindByLocal(path) => after == before && match reply {
            ReplyView::Found(Ok(found)) => found == row_of(before.rows, path),
            ReplyView::Found(Err(_)) => true,
            _ => false,
        },
        Request::ListAll => after == before && match reply {
            ReplyView::Records(Ok(list)) => lists(list, before.rows) && list.len() <= usize::MAX,
            ReplyView::Records(Err(_)) => true,
            _ => false,
        },
        Request::Save(record) => match reply {
            ReplyView::Done(Ok(_)) => after == (World {
                rows: before.rows.insert(lossy_text(record.local_path), as_stored(record)),
                ..before
            }),
            ReplyView::Done(Err(_)) => after == before,
            _ => false,
        },
        Request::RemoveByLocal(path) => match reply {
            ReplyView::Done(Ok(_)) => after == (World {
                rows: before.rows.remove(lossy_text(path)),
                ..before
            }),
            ReplyView::Done(Err(_)) => after == before,
            _ => false,
        },
        Request::SetLocalTimestamp(path, local_timestamp) => match reply {
            ReplyView::Done(Ok(_)) => after == (World {
                rows: touched(before.rows, path, local_timestamp),
                ..before
            }),
            ReplyView::Done(Err(_)) => after == before,
            _ => false,
        },
        Request::Walk(path) => {
            &&& reply == ReplyView::Walked(first_of((disk.walk)(path)))
            &&& after == (World { left: rest_of((disk.walk)(path)), ..before })
        },
        Request::WalkNext => {
            &&& reply == ReplyView::Walked(first_of(before.left))
            &&& after == (World { left: rest_of(before.left), ..before })
        },
        Request::Upload { .. } => reply is Stored && after == before,
        Request::Rename { .. } => reply is Stored && after == before,
        Request::TrashRemote(_) => reply is Done && after == before,
        _ => true,
    }
}

/// Whether the reply to a turn is true of the world at it.
pub open spec fn true_at(
    disk: Disk,
    turns: Seq<Turn>,
    replies: Seq<(ReplyView, u64)>,
    worlds: Seq<World>,
    i: int,
) -> bool {
    turns[i].1 matches ActionView::Perform(request) && answers(
        disk,
        worlds[i],
        request,
        replies[i].0,
        worlds[i + 1],
    )
}

/// Whether the turns follow each other by replies that are true of the world.
pub open spec fn happens(
    disk: Disk,
    turns: Seq<Turn>,
    replies: Seq<(ReplyView, u64)>,
    worlds: Seq<World>,
) -> bool {
    &&& follows(turns, replies)
    &&& worlds.len() == turns.len()
    &&& forall|i: int| 0 <= i < replies.len() ==> #[trigger] true_at(disk, turns, replies, worlds, i)
}

/// Whether each row is stored under the text of its path.
pub open spec fn keyed_by_path(rows: Rows) -> bool {
    forall|key: Seq<char>| #[trigger] rows.contains_key(key) ==> rows[key].local_path
        == encode_utf8(key)
}

/// Whether there is nothing at a path.
pub open spec fn is_gone(disk: Disk, path: Seq<u8>) -> bool {
    (disk.facts)(path).kind == PathKind::Missing
}

/// Whether a path is that of a file that is synced.
pub open spec fn is_synced(disk: Disk, watch: Seq<WatchEntryView>, path: Seq<u8>) -> bool {
    &&& is_there((disk.facts)(path))
    &&& remote_of(watch, runtime_path(path, (disk.facts)(path))) is Some
}

/// Whether the row of a file that is synced has the file's content.
pub open spec fn is_settled(
    disk: Disk,
    watch: Seq<WatchEntryView>,
    rows: Rows,
    path: Seq<u8>,
) -> bool {
    is_synced(disk, watch, path) ==> rows.contains_key(lossy_text(path))
        && rows[lossy_text(path)].md5_hash == (disk.hash)(path)
}

/// Whether a file belongs to a watch entry: it is the entry, or the walk below
/// the entry comes to it.
pub open spec fn is_file_of(disk: Disk, entry: Seq<u8>, path: Seq<u8>) -> bool {
    match (disk.facts)(entry).kind {
        PathKind::Missing => false,
        PathKind::File => path == entry,
        _ => (disk.walk)(entry).contains((path, true)),
    }
}

/// Whether every file of the watch entries before the given one is settled.
pub open spec fn entries_settled(
    disk: Disk,
    watch: Seq<WatchEntryView>,
    rows: Rows,
    count: int,
) -> bool {
    forall|e: int, path: Seq<u8>|
        0 <= e < count && #[trigger] is_file_of(disk, watch[e].local_path, path) ==> is_settled(
            disk,
            watch,
            rows,
            path,
        )
}

/// Whether the paths of all synced files are valid UTF-8, as the texts that the
/// state database keeps them under are.
pub open spec fn names_are_text(disk: Disk, watch: Seq<WatchEntryView>) -> bool {
    forall|e: int, path: Seq<u8>|
        0 <= e < watch.len() && #[trigger] is_file_of(disk, watch[e].local_path, path)
            && is_synced(disk, watch, path) ==> valid_utf8(path)
}

/// Two paths that are valid UTF-8 are stored under one text only where they are
/// equal.
proof fn lemma_text_is_injective(a: Seq<u8>, b: Seq<u8>)
    requires
        valid_utf8(a),
        valid_utf8(b),
        lossy_text(a) == lossy_text(b),
    ensures
        a == b,
{
    decode_utf8_encode_utf8(a);
    decode_utf8_encode_utf8(b);
}

/// A path that is the encoding of a text is stored under that text.
proof fn lemma_text_of_encoding(key: Seq<char>)
    ensures
        lossy_text(encode_utf8(key)) == key,
        valid_utf8(encode_utf8(key)),
{
    encode_utf8_valid_utf8(key);
    encode_utf8_decode_utf8(key);
}

/// The stage of the work on a file that is waited in.
spec fn upsert_stage(turn: Turn) -> LocalUpsert<Seq<u8>, Seq<char>, FileStateView> {
    turn.0.job->LocalUpsert_0
}

/// Where the work on a local file stands: what is asked, and what is known.
spec fn upsert_stands(
    disk: Disk,
    watch: Seq<WatchEntryView>,
    rows: Rows,
    turn: Turn,
    path: Seq<u8>,
) -> bool {
    let hash = (disk.hash)(path);
    match upsert_stage(turn) {
        LocalUpsert::Inspect { path: p } => p == path && asks(turn, Request::Inspect(path)),
        LocalUpsert::Hash { path: p, .. } => {
            &&& p == path
            &&& asks(turn, Request::HashFile(path))
            &&& is_synced(disk, watch, path)
        },
        LocalUpsert::Modified { path: p, md5_hash, .. } => {
            &&& p == path
            &&& md5_hash == hash
            &&& asks(turn, Request::ReadModified(path))
            &&& is_synced(disk, watch, path)
        },
        LocalUpsert::Find { candidate } => {
            &&& candidate.path == path
            &&& candidate.md5_hash == hash
            &&& asks(turn, Request::FindByLocal(path))
            &&& is_synced(disk, watch, path)
        },
        LocalUpsert::Upload { candidate } => {
            &&& candidate.path == path
            &&& candidate.md5_hash == hash
            &&& turn.1 matches ActionView::Perform(Request::Upload { .. })
            &&& is_synced(disk, watch, path)
        },
        LocalUpsert::Touch => {
            &&& turn.1 matches ActionView::Perform(Request::SetLocalTimestamp(p, _)) && p == path
            &&& rows.contains_key(lossy_text(path))
            &&& rows[lossy_text(path)].md5_hash == hash
            &&& is_synced(disk, watch, path)
        },
        LocalUpsert::Save => {
            &&& turn.1 matches ActionView::Perform(Request::Save(record)) && record.local_path
                == path && record.md5_hash == hash
            &&& is_synced(disk, watch, path)
        },
        _ => false,
    }
}

/// Whether the work on a local file is at a stage before anything is written but
/// a timestamp.
spec fn is_quiet_stage(turn: Turn) -> bool {
    match upsert_stage(turn) {
        LocalUpsert::Upload { .. } => false,
        LocalUpsert::Save => false,
        _ => true,
    }
}

/// Whether rows are the same but for local timestamps.
pub open spec fn same_but_timestamps(a: Rows, b: Rows) -> bool {
    &&& a.dom() == b.dom()
    &&& forall|key: Seq<char>| #[trigger] a.contains_key(key) ==> a[key] == (FileStateView {
        local_timestamp: a[key].local_timestamp,
        ..b[key]
    })
}

/// How the work on a local file goes on, as long as no delete waits: it fails, or
/// stands somewhere else, or is over and the file is settled. Where the file was
/// settled before, nothing is written but timestamps.
proof fn lemma_upsert_settles(
    disk: Disk,
    watch: Seq<WatchEntryView>,
    before: World,
    turn: Turn,
    path: Seq<u8>,
    reply: ReplyView,
    now: u64,
    after: World,
    next: Turn,
)
    requires
        turn.0.config.watch == watch,
        turn.0.job is LocalUpsert,
        turn.0.pending.len() == 0,
        keyed_by_path(before.rows),
        upsert_stands(disk, watch, before.rows, turn, path),
        turn.1 matches ActionView::Perform(request) && answers(
            disk,
            before,
            request,
            reply,
            after,
        ),
        next == step(turn.0, reply, now),
    ensures
        keyed_by_path(after.rows),
        after.left == before.left,
        ({
            let to = turn.0.job->LocalUpsert_1;
            ||| {
                &&& next.1 matches ActionView::Finish(Err(_))
                &&& next.0.job is Idle
                &&& is_error(reply)
            }
            ||| {
                &&& next.0 == (EngineView { job: next.0.job, ..turn.0 })
                &&& next.1 is Perform
                &&& next.0.job is LocalUpsert
                &&& next.0.job->LocalUpsert_1 == to
                &&& upsert_stands(disk, watch, after.rows, next, path)
                &&& is_settled(disk, watch, before.rows, path) && is_quiet_stage(turn)
                    ==> is_quiet_stage(next)
            }
            ||| {
                &&& next == after_upsert(turn.0, to)
                &&& is_settled(disk, watch, after.rows, path)
            }
        }),
        is_quiet_stage(turn) ==> same_but_timestamps(after.rows, before.rows),
        forall|other: Seq<u8>|
            valid_utf8(path) && valid_utf8(other) && is_settled(disk, watch, before.rows, other)
                ==> #[trigger] is_settled(disk, watch, after.rows, other),
        forall|key: Seq<char>| #[trigger]
            after.rows.contains_key(key) && !before.rows.contains_key(key) ==> key == lossy_text(
                path,
            ),
{
    assert(removed(turn.0.pending, path) == turn.0.pending);
    if is_quiet_stage(turn) {
        assert(after.rows.dom() == before.rows.dom());
    }
    assert forall|other: Seq<u8>|
        valid_utf8(path) && valid_utf8(other) && is_settled(
            disk,
            watch,
            before.rows,
            other,
        ) implies #[trigger] is_settled(disk, watch, after.rows, other) by {
        if lossy_text(other) == lossy_text(path) {
            lemma_text_is_injective(other, path);
        }
    }
}

/// Whether a reply tells of a failure.
pub open spec fn is_error(reply: ReplyView) -> bool {
    match reply {
        ReplyView::Hash(r) => r is Err,
        ReplyView::Modified(r) => r is Err,
        ReplyView::Found(r) => r is Err,
        ReplyView::Records(r) => r is Err,
        ReplyView::Stored(r) => r is Err,
        ReplyView::Metadata(r) => r is Err,
        ReplyView::Done(r) => r is Err,
        _ => false,
    }
}

/// Whether what a walk has come to so far is settled.
spec fn walk_settled(
    disk: Disk,
    watch: Seq<WatchEntryView>,
    rows: Rows,
    entry: Seq<u8>,
    count: int,
) -> bool {
    forall|i: int|
        0 <= i < count && (#[trigger] (disk.walk)(entry)[i]).1 ==> is_settled(
            disk,
            watch,
            rows,
            (disk.walk)(entry)[i].0,
        )
}

/// Whether a watch entry is walked.
spec fn is_walked(disk: Disk, entry: Seq<u8>) -> bool {
    (disk.facts)(entry).kind != PathKind::Missing && (disk.facts)(entry).kind != PathKind::File
}

/// Whether a walk has come to the given place.
spec fn walk_stands(
    disk: Disk,
    watch: Seq<WatchEntryView>,
    world: World,
    entry: Seq<u8>,
    place: int,
) -> bool {
    &&& 0 <= place <= (disk.walk)(entry).len()
    &&& world.left == (disk.walk)(entry).skip(place)
    &&& walk_settled(disk, watch, world.rows, entry, place)
}

/// Whether the work on the file at the given place of a walk is under way.
spec fn walk_works(
    disk: Disk,
    watch: Seq<WatchEntryView>,
    world: World,
    turn: Turn,
    entry: Seq<u8>,
    place: int,
) -> bool {
    &&& 0 <= place < (disk.walk)(entry).len()
    &&& (disk.walk)(entry)[place].1
    &&& world.left == (disk.walk)(entry).skip(place + 1)
    &&& walk_settled(disk, watch, world.rows, entry, place)
    &&& upsert_stands(disk, watch, world.rows, turn, (disk.walk)(entry)[place].0)
}

/// Where a full synchronization stands before it comes to the records: no delete
/// waits, and every file it has been through is settled.
spec fn entry_stands(disk: Disk, watch: Seq<WatchEntryView>, world: World, turn: Turn) -> bool {
    let rows = world.rows;
    &&& turn.0.config.watch == watch
    &&& turn.0.pending.len() == 0
    &&& keyed_by_path(rows)
    &&& match turn.0.job {
        Job::FullSync(FullSync::InspectEntry { entry }) => {
            &&& entry < watch.len()
            &&& asks(turn, Request::Inspect(watch[entry as int].local_path))
            &&& entries_settled(disk, watch, rows, entry as int)
        },
        Job::FullSync(FullSync::Walk { entry }) => {
            let path = watch[entry as int].local_path;
            &&& entry < watch.len()
            &&& is_walked(disk, path)
            &&& entries_settled(disk, watch, rows, entry as int)
            &&& asks(turn, Request::Walk(path)) || asks(turn, Request::WalkNext) && exists|c: int|
                #[trigger] walk_stands(disk, watch, world, path, c)
        },
        Job::LocalUpsert(_, After::NextEntry { entry }) => {
            let path = watch[entry as int].local_path;
            &&& entry < watch.len()
            &&& (disk.facts)(path).kind == PathKind::File
            &&& entries_settled(disk, watch, rows, entry as int)
            &&& upsert_stands(disk, watch, rows, turn, path)
        },
        Job::LocalUpsert(_, After::Walk { entry }) => {
            let path = watch[entry as int].local_path;
            &&& entry < watch.len()
            &&& is_walked(disk, path)
            &&& entries_settled(disk, watch, rows, entry as int)
            &&& exists|c: int| #[trigger] walk_works(disk, watch, world, turn, path, c)
        },
        Job::FullSync(FullSync::ListRecords) => {
            &&& asks(turn, Request::ListAll)
            &&& entries_settled(disk, watch, rows, watch.len() as int)
        },
        _ => false,
    }
}

/// Whether a turn writes nothing but timestamps.
spec fn is_quiet(turn: Turn) -> bool {
    turn.0.job is LocalUpsert ==> is_quiet_stage(turn)
}

/// What came of a step before the records: a failure, or the next place. New rows
/// are those of files that are there, and where every file was settled, nothing is
/// written but timestamps.
spec fn entry_goes_on(
    disk: Disk,
    watch: Seq<WatchEntryView>,
    before: World,
    turn: Turn,
    reply: ReplyView,
    after: World,
    next: Turn,
) -> bool {
    &&& {
        ||| {
            &&& next.1 matches ActionView::Finish(Err(_))
            &&& next.0.job is Idle
            &&& is_error(reply)
        }
        ||| next.1 is Perform && entry_stands(disk, watch, after, next)
    }
    &&& forall|key: Seq<char>| #[trigger]
        after.rows.contains_key(key) && !before.rows.contains_key(key) ==> !is_gone(
            disk,
            encode_utf8(key),
        )
    &&& entries_settled(disk, watch, before.rows, watch.len() as int) && is_quiet(turn) ==> {
        &&& is_quiet(next)
        &&& same_but_timestamps(after.rows, before.rows)
    }
}

/// A step from a watch entry.
proof fn lemma_entry_inspected(
    disk: Disk,
    watch: Seq<WatchEntryView>,
    before: World,
    turn: Turn,
    reply: ReplyView,
    now: u64,
    after: World,
    next: Turn,
)
    requires
        watch.len() <= usize::MAX,
        entry_stands(disk, watch, before, turn),
        turn.0.job matches Job::FullSync(FullSync::InspectEntry { .. }),
        turn.1 matches ActionView::Perform(request) && answers(
            disk,
            before,
            request,
            reply,
            after,
        ),
        next == step(turn.0, reply, now),
    ensures
        entry_goes_on(disk, watch, before, turn, reply, after, next),
{
    let entry = turn.0.job->FullSync_0->InspectEntry_entry;
    let path = watch[entry as int].local_path;
    if (disk.facts)(path).kind == PathKind::Missing {
        assert(entries_settled(disk, watch, after.rows, entry + 1));
    }
}

/// A step from a walk.
proof fn lemma_entry_walked(
    disk: Disk,
    watch: Seq<WatchEntryView>,
    before: World,
    turn: Turn,
    reply: ReplyView,
    now: u64,
    after: World,
    next: Turn,
)
    requires
        watch.len() <= usize::MAX,
        entry_stands(disk, watch, before, turn),
        turn.0.job matches Job::FullSync(FullSync::Walk { .. }),
        turn.1 matches ActionView::Perform(request) && answers(
            disk,
            before,
            request,
            reply,
            after,
        ),
        next == step(turn.0, reply, now),
    ensures
        entry_goes_on(disk, watch, before, turn, reply, after, next),
{
    let entry = turn.0.job->FullSync_0->Walk_entry;
    let path = watch[entry as int].local_path;
    let walk = (disk.walk)(path);
    let c = if asks(turn, Request::Walk(path)) {
        0
    } else {
        choose|c: int| #[trigger] walk_stands(disk, watch, before, path, c)
    };
    let coming = walk.skip(c);
    assert(walk.skip(0) == walk);
    assert(reply == ReplyView::Walked(first_of(coming)));
    assert(after.left == rest_of(coming));
    assert(walk_settled(disk, watch, after.rows, path, c));
    if c == walk.len() {
        assert forall|e: int, p: Seq<u8>|
            0 <= e < entry + 1 && #[trigger] is_file_of(
                disk,
                watch[e].local_path,
                p,
            ) implies is_settled(disk, watch, after.rows, p) by {
            if e == entry {
                let i = choose|i: int| 0 <= i < walk.len() && walk[i] == (p, true);
                assert(walk[i].1);
            }
        }
        assert(entries_settled(disk, watch, after.rows, entry + 1));
    } else {
        assert(coming[0] == walk[c]);
        assert(after.left == walk.skip(c + 1));
        if walk[c].1 {
            assert(walk_works(disk, watch, after, next, path, c));
        } else {
            assert(walk_stands(disk, watch, after, path, c + 1));
        }
    }
}

/// A step of the work on a file of a watch entry keeps what is settled.
proof fn lemma_settled_kept(
    disk: Disk,
    watch: Seq<WatchEntryView>,
    before: World,
    turn: Turn,
    e: int,
    path: Seq<u8>,
    reply: ReplyView,
    now: u64,
    after: World,
    next: Turn,
)
    requires
        names_are_text(disk, watch),
        turn.0.config.watch == watch,
        turn.0.job is LocalUpsert,
        turn.0.pending.len() == 0,
        keyed_by_path(before.rows),
        0 <= e < watch.len(),
        is_file_of(disk, watch[e].local_path, path),
        upsert_stands(disk, watch, before.rows, turn, path),
        turn.1 matches ActionView::Perform(request) && answers(
            disk,
            before,
            request,
            reply,
            after,
        ),
        next == step(turn.0, reply, now),
    ensures
        forall|f: int, other: Seq<u8>|
            0 <= f < watch.len() && #[trigger] is_file_of(disk, watch[f].local_path, other)
                && is_settled(disk, watch, before.rows, other) ==> is_settled(
                disk,
                watch,
                after.rows,
                other,
            ),
        forall|key: Seq<char>| #[trigger]
            after.rows.contains_key(key) && !before.rows.contains_key(key) ==> !is_gone(
                disk,
                encode_utf8(key),
            ),
{
    lemma_upsert_settles(disk, watch, before, turn, path, reply, now, after, next);
    if is_synced(disk, watch, path) {
        assert(valid_utf8(path));
        decode_utf8_encode_utf8(path);
        assert forall|f: int, other: Seq<u8>|
            0 <= f < watch.len() && #[trigger] is_file_of(disk, watch[f].local_path, other)
                && is_settled(disk, watch, before.rows, other) implies is_settled(
            disk,
            watch,
            after.rows,
            other,
        ) by {
            if is_synced(disk, watch, other) {
                assert(valid_utf8(other));
            }
        }
    }
}

/// A step of the work on a file.
proof fn lemma_entry_upserted(
    disk: Disk,
    watch: Seq<WatchEntryView>,
    before: World,
    turn: Turn,
    reply: ReplyView,
    now: u64,
    after: World,
    next: Turn,
)
    requires
        watch.len() <= usize::MAX,
        names_are_text(disk, watch),
        entry_stands(disk, watch, before, turn),
        turn.0.job is LocalUpsert,
        turn.1 matches ActionView::Perform(request) && answers(
            disk,
            before,
            request,
            reply,
            after,
        ),
        next == step(turn.0, reply, now),
    ensures
        entry_goes_on(disk, watch, before, turn, reply, after, next),
{
    match turn.0.job->LocalUpsert_1 {
        After::NextEntry { entry } => {
            let e = entry as int;
            let path = watch[e].local_path;
            assert(is_file_of(disk, watch[e].local_path, path));
            lemma_upsert_settles(disk, watch, before, turn, path, reply, now, after, next);
            lemma_settled_kept(disk, watch, before, turn, e, path, reply, now, after, next);
            assert(entries_settled(disk, watch, after.rows, e));
            if is_settled(disk, watch, after.rows, path) {
                assert(entries_settled(disk, watch, after.rows, e + 1));
            }
        },
        After::Walk { entry } => {
            let e = entry as int;
            let base = watch[e].local_path;
            let walk = (disk.walk)(base);
            let c = choose|c: int| #[trigger] walk_works(disk, watch, before, turn, base, c);
            let path = walk[c].0;
            assert(walk[c] == (path, true));
            assert(is_file_of(disk, watch[e].local_path, path));
            lemma_upsert_settles(disk, watch, before, turn, path, reply, now, after, next);
            lemma_settled_kept(disk, watch, before, turn, e, path, reply, now, after, next);
            assert(entries_settled(disk, watch, after.rows, e));
            assert(walk_settled(disk, watch, after.rows, base, c)) by {
                assert forall|i: int| 0 <= i < c && (#[trigger] walk[i]).1 implies is_settled(
                    disk,
                    watch,
                    after.rows,
                    walk[i].0,
                ) by {
                    assert(walk[i] == (walk[i].0, true));
                    assert(is_file_of(disk, watch[e].local_path, walk[i].0));
                }
            }
            if next.0.job is LocalUpsert {
                assert(walk_works(disk, watch, after, next, base, c));
            } else if next.1 is Perform {
                assert(walk_stands(disk, watch, after, base, c + 1));
            }
        },
        After::Finish => {},
    }
}

/// A step before the records.
proof fn lemma_entry_step(
    disk: Disk,
    watch: Seq<WatchEntryView>,
    before: World,
    turn: Turn,
    reply: ReplyView,
    now: u64,
    after: World,
    next: Turn,
)
    requires
        watch.len() <= usize::MAX,
        names_are_text(disk, watch),
        entry_stands(disk, watch, before, turn),
        !(turn.0.job matches Job::FullSync(FullSync::ListRecords)),
        turn.1 matches ActionView::Perform(request) && answers(
            disk,
            before,
            request,
            reply,
            after,
        ),
        next == step(turn.0, reply, now),
    ensures
        entry_goes_on(disk, watch, before, turn, reply, after, next),
{
    match turn.0.job {
        Job::LocalUpsert(_, _) => {
            lemma_entry_upserted(disk, watch, before, turn, reply, now, after, next);
        },
        Job::FullSync(FullSync::InspectEntry { .. }) => {
            lemma_entry_inspected(disk, watch, before, turn, reply, now, after, next);
        },
        _ => {
            lemma_entry_walked(disk, watch, before, turn, reply, now, after, next);
        },
    }
}

/// Whether there is nothing at a path that is valid UTF-8.
spec fn is_text_gone(disk: Disk, path: Seq<u8>) -> bool {
    is_gone(disk, path) && valid_utf8(path)
}

/// Whether the rows of files that are gone were there before.
spec fn gone_rows_are_old(disk: Disk, rows: Rows, old_rows: Rows) -> bool {
    forall|key: Seq<char>| #[trigger]
        rows.contains_key(key) && is_gone(disk, encode_utf8(key)) ==> old_rows.contains_key(key)
}

/// Whether no two rows of files that are gone are of the same path.
pub open spec fn gone_rows_differ(disk: Disk, rows: Rows) -> bool {
    forall|a: Seq<char>, b: Seq<char>| #[trigger]
        rows.contains_key(a) && #[trigger] rows.contains_key(b) && a != b && is_gone(
            disk,
            encode_utf8(a),
        ) && is_gone(disk, encode_utf8(b)) ==> !same_path(encode_utf8(a), encode_utf8(b))
}

/// Whether no row is of a file that is gone.
pub open spec fn no_row_is_gone(disk: Disk, rows: Rows) -> bool {
    forall|key: Seq<char>| #[trigger] rows.contains_key(key) ==> !is_gone(
        disk,
        rows[key].local_path,
    )
}

/// Whether the deletes that wait are of files that are gone, and due at the clock
/// reading.
spec fn pending_is_due(disk: Disk, pending: PendingView, by: u64) -> bool {
    forall|i: int|
        0 <= i < pending.len() ==> is_text_gone(
            disk,
            (#[trigger] pending[i]).1.record.local_path,
        ) && pending[i].1.expires_at <= by
}

/// The path whose delete a turn of a flush is at.
spec fn path_at_work(turn: Turn) -> Option<Seq<u8>> {
    match (turn.0.job, turn.1) {
        (Job::Flush(Flush::Trash { local_path, .. }), _) => Some(local_path),
        (Job::Flush(Flush::Forget { .. }), ActionView::Perform(Request::RemoveByLocal(path))) =>
            Some(path),
        _ => None,
    }
}

/// Where a full synchronization stands from the records on: every file is
/// settled, and the delete of each row whose file is gone is due, or at work.
spec fn record_stands(
    disk: Disk,
    watch: Seq<WatchEntryView>,
    old_rows: Rows,
    world: World,
    turn: Turn,
    by: u64,
) -> bool {
    let rows = world.rows;
    let s = turn.0;
    &&& s.config.watch == watch
    &&& keyed_by_path(rows)
    &&& gone_rows_are_old(disk, rows, old_rows)
    &&& entries_settled(disk, watch, rows, watch.len() as int)
    &&& match s.job {
        Job::FullSync(FullSync::InspectRecord { next }) => {
            &&& next < s.records.len() <= usize::MAX
            &&& asks(turn, Request::Inspect(s.records[next as int].local_path))
            &&& lists(s.records, rows)
            &&& pending_is_due(disk, s.pending, by)
            &&& forall|j: int|
                0 <= j < next && is_gone(disk, (#[trigger] s.records[j]).local_path) ==> is_due(
                    s.pending,
                    s.records[j],
                    by,
                )
        },
        Job::Flush(stage) => {
            &&& pending_is_due(disk, s.pending, flush_cutoff(stage))
            &&& match stage {
                Flush::Trash { .. } => turn.1 matches ActionView::Perform(Request::TrashRemote(_)),
                Flush::Forget { .. } => turn.1 matches ActionView::Perform(
                    Request::RemoveByLocal(_),
                ),
            }
            &&& is_text_gone(disk, path_at_work(turn)->0)
            &&& forall|key: Seq<char>| #[trigger]
                rows.contains_key(key) && is_gone(disk, rows[key].local_path) ==> is_due(
                    s.pending,
                    rows[key],
                    flush_cutoff(stage),
                ) || path_at_work(turn) == Some(rows[key].local_path)
        },
        Job::Idle => {
            &&& ended_well(turn)
            &&& s.pending.len() == 0
            &&& no_row_is_gone(disk, rows)
        },
        _ => false,
    }
}

/// Whether the work has failed.
spec fn has_failed(turn: Turn, reply: ReplyView) -> bool {
    &&& turn.1 matches ActionView::Finish(Err(_))
    &&& turn.0.job is Idle
    &&& is_error(reply)
}

/// A flush goes on.
proof fn lemma_flush_stands(
    disk: Disk,
    watch: Seq<WatchEntryView>,
    old_rows: Rows,
    world: World,
    s: EngineView,
    cutoff: u64,
    by: u64,
)
    requires
        s.config.watch == watch,
        keyed_by_path(world.rows),
        gone_rows_are_old(disk, world.rows, old_rows),
        entries_settled(disk, watch, world.rows, watch.len() as int),
        pending_is_due(disk, s.pending, cutoff),
        forall|key: Seq<char>| #[trigger]
            world.rows.contains_key(key) && is_gone(disk, world.rows[key].local_path) ==> is_due(
                s.pending,
                world.rows[key],
                cutoff,
            ),
    ensures
        record_stands(disk, watch, old_rows, world, flush_next(s, cutoff), by),
{
    let rows = world.rows;
    let turn = flush_next(s, cutoff);
    lemma_find(s.pending, expired(cutoff));
    assert forall|key: Seq<char>| #[trigger]
        rows.contains_key(key) && is_gone(disk, rows[key].local_path) implies turn.1 is Perform && (
    is_due(turn.0.pending, rows[key], cutoff) || path_at_work(turn) == Some(
        rows[key].local_path,
    )) by {
        lemma_flush_next_due(s, cutoff, rows[key]);
    }
    match find(s.pending, expired(cutoff)) {
        Some(i) => {
            let after = s.pending.remove(i);
            assert forall|j: int| 0 <= j < after.len() implies is_text_gone(
                disk,
                (#[trigger] after[j]).1.record.local_path,
            ) && after[j].1.expires_at <= cutoff by {
                let a = if j < i {
                    j
                } else {
                    j + 1
                };
                assert(after[j] == s.pending[a]);
            }
            assert(is_text_gone(disk, s.pending[i].1.record.local_path));
        },
        None => {
            if s.pending.len() > 0 {
                assert(!expired(cutoff)(s.pending[0]));
            }
        },
    }
}

/// The step after the records were listed.
proof fn lemma_records_listed(
    disk: Disk,
    watch: Seq<WatchEntryView>,
    old_rows: Rows,
    before: World,
    turn: Turn,
    reply: ReplyView,
    now: u64,
    after: World,
    next: Turn,
)
    requires
        entry_stands(disk, watch, before, turn),
        gone_rows_are_old(disk, before.rows, old_rows),
        turn.0.job matches Job::FullSync(FullSync::ListRecords),
        turn.1 matches ActionView::Perform(request) && answers(
            disk,
            before,
            request,
            reply,
            after,
        ),
        next == step(turn.0, reply, now),
    ensures
        has_failed(next, reply) || record_stands(disk, watch, old_rows, after, next, now),
{
    match reply {
        ReplyView::Records(Ok(list)) => {
            let listed = EngineView { records: list, ..turn.0 };
            assert(next == sync_record(listed, 0, now));
            if list.len() == 0 {
                lemma_flush_stands(disk, watch, old_rows, after, listed, now, now);
            }
        },
        _ => {},
    }
}

/// Two records of a list are of different rows.
proof fn lemma_listed_differ(
    disk: Disk,
    list: Seq<FileStateView>,
    rows: Rows,
    old_rows: Rows,
    i: int,
    j: int,
)
    requires
        keyed_by_path(rows),
        lists(list, rows),
        gone_rows_are_old(disk, rows, old_rows),
        gone_rows_differ(disk, old_rows),
        0 <= i < j < list.len(),
        is_gone(disk, list[i].local_path),
        is_gone(disk, list[j].local_path),
    ensures
        !same_path(list[i].local_path, list[j].local_path),
{
    let a = choose|a: Seq<char>| #[trigger] rows.contains_key(a) && rows[a] == list[i];
    let b = choose|b: Seq<char>| #[trigger] rows.contains_key(b) && rows[b] == list[j];
    assert(rows.contains_key(a) && rows.contains_key(b));
    if a == b {
        assert(list[i] == list[j]);
    }
    assert(old_rows.contains_key(a) && old_rows.contains_key(b));
}

/// The step after a record was looked at.
proof fn lemma_record_inspected(
    disk: Disk,
    watch: Seq<WatchEntryView>,
    old_rows: Rows,
    before: World,
    turn: Turn,
    by: u64,
    reply: ReplyView,
    now: u64,
    after: World,
    next: Turn,
)
    requires
        gone_rows_differ(disk, old_rows),
        by <= now,
        record_stands(disk, watch, old_rows, before, turn, by),
        turn.0.job matches Job::FullSync(FullSync::InspectRecord { .. }),
        turn.1 matches ActionView::Perform(request) && answers(
            disk,
            before,
            request,
            reply,
            after,
        ),
        next == step(turn.0, reply, now),
    ensures
        record_stands(disk, watch, old_rows, after, next, now),
{
    let s = turn.0;
    let rows = before.rows;
    let records = s.records;
    let at = s.job->FullSync_0->InspectRecord_next;
    let record = records[at as int];
    let gone = is_gone(disk, record.local_path);
    let delete = PendingDeleteView { record, expires_at: now };
    let pending = if gone {
        inserted(s.pending, record.local_path, delete)
    } else {
        s.pending
    };
    let then = EngineView { pending, ..s };
    assert(next == sync_record(then, (at + 1) as usize, now));
    assert(pending_is_due(disk, pending, now)) by {
        let k = choose|k: Seq<char>| #[trigger] rows.contains_key(k) && rows[k] == record;
        assert(records[at as int] == record);
        assert(rows.contains_key(k));
        lemma_text_of_encoding(k);
        lemma_find(s.pending, entry_of::<PendingDeleteView>(record.local_path));
        assert forall|i: int| 0 <= i < pending.len() implies is_text_gone(
            disk,
            (#[trigger] pending[i]).1.record.local_path,
        ) && pending[i].1.expires_at <= now by {
            if i < s.pending.len() {
                assert(pending[i] == s.pending[i] || pending[i].1 == delete);
                assert(is_text_gone(disk, s.pending[i].1.record.local_path));
            }
        }
    }
    assert forall|j: int| 0 <= j < at + 1 && is_gone(
        disk,
        (#[trigger] records[j]).local_path,
    ) implies is_due(pending, records[j], now) by {
        if j == at {
            lemma_added_due(s.pending, record, now);
        } else if gone {
            lemma_listed_differ(disk, records, rows, old_rows, j, at as int);
            lemma_inserted_due(s.pending, records[j], record, by, now);
        } else {
            lemma_due_later(s.pending, records[j], by, now);
        }
    }
    if at + 1 == records.len() {
        assert forall|key: Seq<char>| #[trigger]
            rows.contains_key(key) && is_gone(disk, rows[key].local_path) implies is_due(
            pending,
            rows[key],
            now,
        ) by {
            assert(records.contains(rows[key]));
            let j = choose|j: int| 0 <= j < records.len() && records[j] == rows[key];
            assert(is_gone(disk, records[j].local_path));
        }
        lemma_flush_stands(disk, watch, old_rows, after, then, now, now);
    }
}

/// A step of a flush.
proof fn lemma_flush_stepped(
    disk: Disk,
    watch: Seq<WatchEntryView>,
    old_rows: Rows,
    before: World,
    turn: Turn,
    by: u64,
    reply: ReplyView,
    now: u64,
    after: World,
    next: Turn,
)
    requires
        names_are_text(disk, watch),
        record_stands(disk, watch, old_rows, before, turn, by),
        turn.0.job is Flush,
        turn.1 matches ActionView::Perform(request) && answers(
            disk,
            before,
            request,
            reply,
            after,
        ),
        next == step(turn.0, reply, now),
    ensures
        has_failed(next, reply) || record_stands(disk, watch, old_rows, after, next, now),
{
    let stage = turn.0.job->Flush_0;
    let cutoff = flush_cutoff(stage);
    if stage is Forget && reply matches ReplyView::Done(Ok(_)) {
        let path = path_at_work(turn)->0;
        let rows = before.rows;
        let left = after.rows;
        assert(left == rows.remove(lossy_text(path)));
        assert forall|e: int, p: Seq<u8>|
            0 <= e < watch.len() && #[trigger] is_file_of(
                disk,
                watch[e].local_path,
                p,
            ) implies is_settled(disk, watch, left, p) by {
            assert(is_settled(disk, watch, rows, p));
            if is_synced(disk, watch, p) && lossy_text(p) == lossy_text(path) {
                lemma_text_is_injective(p, path);
            }
        }
        assert forall|key: Seq<char>| #[trigger]
            left.contains_key(key) && is_gone(disk, left[key].local_path) implies is_due(
            turn.0.pending,
            left[key],
            cutoff,
        ) by {
            assert(rows.contains_key(key));
            lemma_text_of_encoding(key);
        }
        lemma_flush_stands(disk, watch, old_rows, after, turn.0, cutoff, now);
    }
}

/// Where a full synchronization stands with turn `n`.
spec fn sync_stands(
    disk: Disk,
    watch: Seq<WatchEntryView>,
    turns: Seq<Turn>,
    replies: Seq<(ReplyView, u64)>,
    worlds: Seq<World>,
    n: int,
) -> bool {
    ||| {
        &&& entry_stands(disk, watch, worlds[n], turns[n])
        &&& turns[n].1 is Perform
        &&& gone_rows_are_old(disk, worlds[n].rows, worlds[0].rows)
    }
    ||| n > 0 && record_stands(
        disk,
        watch,
        worlds[0].rows,
        worlds[n],
        turns[n],
        replies[n - 1].1,
    )
    ||| n > 0 && has_failed(turns[n], replies[n - 1].0)
}

/// A full synchronization goes on.
proof fn lemma_sync_stands(
    disk: Disk,
    s: EngineView,
    turns: Seq<Turn>,
    replies: Seq<(ReplyView, u64)>,
    worlds: Seq<World>,
    n: int,
)
    requires
        happens(disk, turns, replies, worlds),
        clock_runs(replies),
        s.config.watch.len() <= usize::MAX,
        s.pending.len() == 0,
        turns[0] == handle(s, SyncEventView::SyncNow),
        keyed_by_path(worlds[0].rows),
        gone_rows_differ(disk, worlds[0].rows),
        names_are_text(disk, s.config.watch),
        0 <= n <= replies.len(),
    ensures
        sync_stands(disk, s.config.watch, turns, replies, worlds, n),
    decreases n,
{
    let watch = s.config.watch;
    let old_rows = worlds[0].rows;
    if n > 0 {
        let k = n - 1;
        lemma_sync_stands(disk, s, turns, replies, worlds, k);
        assert(follows_at(turns, replies, k));
        assert(true_at(disk, turns, replies, worlds, k));
        let (reply, now) = replies[k];
        if entry_stands(disk, watch, worlds[k], turns[k]) && gone_rows_are_old(
            disk,
            worlds[k].rows,
            old_rows,
        ) {
            if turns[k].0.job matches Job::FullSync(FullSync::ListRecords) {
                lemma_records_listed(
                    disk,
                    watch,
                    old_rows,
                    worlds[k],
                    turns[k],
                    reply,
                    now,
                    worlds[n],
                    turns[n],
                );
            } else {
                lemma_entry_step(
                    disk,
                    watch,
                    worlds[k],
                    turns[k],
                    reply,
                    now,
                    worlds[n],
                    turns[n],
                );
                assert forall|key: Seq<char>| #[trigger]
                    worlds[n].rows.contains_key(key) && is_gone(
                        disk,
                        encode_utf8(key),
                    ) implies old_rows.contains_key(key) by {
                    assert(worlds[k].rows.contains_key(key));
                }
            }
        } else {
            let by = replies[k - 1].1;
            assert(by <= now);
            if turns[k].0.job is Flush {
                lemma_flush_stepped(
                    disk,
                    watch,
                    old_rows,
                    worlds[k],
                    turns[k],
                    by,
                    reply,
                    now,
                    worlds[n],
                    turns[n],
                );
            } else {
                lemma_record_inspected(
                    disk,
                    watch,
                    old_rows,
                    worlds[k],
                    turns[k],
                    by,
                    reply,
                    now,
                    worlds[n],
                    turns[n],
                );
            }
        }
    }
}

/// After a full synchronization that ends well, as long as nobody touches the
/// files, the row of every synced file has the file's content, no row is of a file
/// that is gone, and no delete waits. The paths of synced files must be valid
/// UTF-8, since the state database keeps them as text; and no two rows of files
/// that are gone may be of the same path, such as `/a//b` and `/a/b`.
pub proof fn law_a_full_sync_settles_everything(
    disk: Disk,
    s: EngineView,
    turns: Seq<Turn>,
    replies: Seq<(ReplyView, u64)>,
    worlds: Seq<World>,
)
    requires
        happens(disk, turns, replies, worlds),
        clock_runs(replies),
        s.config.watch.len() <= usize::MAX,
        s.pending.len() == 0,
        turns[0] == handle(s, SyncEventView::SyncNow),
        keyed_by_path(worlds[0].rows),
        gone_rows_differ(disk, worlds[0].rows),
        names_are_text(disk, s.config.watch),
        ended_well(turns.last()),
    ensures
        turns.last().0.config == s.config,
        turns.last().0.pending.len() == 0,
        keyed_by_path(worlds.last().rows),
        entries_settled(
            disk,
            s.config.watch,
            worlds.last().rows,
            s.config.watch.len() as int,
        ),
        no_row_is_gone(disk, worlds.last().rows),
{
    let n = replies.len() as int;
    lemma_sync_stands(disk, s, turns, replies, worlds, n);
    lemma_config_kept(s, turns, replies, n);
    assert(follows_at(turns, replies, n - 1));
    law_idle_when_finished(turns[n - 1].0, Wake::Tick, replies[n - 1].0, replies[n - 1].1);
}

/// The configuration is kept.
proof fn lemma_config_kept(
    s: EngineView,
    turns: Seq<Turn>,
    replies: Seq<(ReplyView, u64)>,
    n: int,
)
    requires
        follows(turns, replies),
        turns[0].0.config == s.config,
        0 <= n <= replies.len(),
    ensures
        turns[n].0.config == s.config,
    decreases n,
{
    if n > 0 {
        lemma_config_kept(s, turns, replies, n - 1);
        assert(follows_at(turns, replies, n - 1));
        law_steps_keep_the_configuration(
            turns[n - 1].0,
            Wake::Tick,
            replies[n - 1].0,
            replies[n - 1].1,
        );
    }
}

/// Whether a request goes to the remote store.
pub open spec fn is_remote(request: RequestView) -> bool {
    match request {
        Request::Upload { .. } => true,
        Request::Download { .. } => true,
        Request::Rename { .. } => true,
        Request::GetMetadata(_) => true,
        Request::TrashRemote(_) => true,
        _ => false,
    }
}

/// Whether a turn asks the remote store for nothing.
pub open spec fn leaves_the_remote_alone(turn: Turn) -> bool {
    turn.1 matches ActionView::Perform(request) ==> !is_remote(request)
}

/// Where a full synchronization stands that finds everything settled.
spec fn quiet_stands(
    disk: Disk,
    watch: Seq<WatchEntryView>,
    old_rows: Rows,
    world: World,
    turn: Turn,
) -> bool {
    let rows = world.rows;
    let s = turn.0;
    &&& s.config.watch == watch
    &&& s.pending.len() == 0
    &&& keyed_by_path(rows)
    &&& entries_settled(disk, watch, rows, watch.len() as int)
    &&& no_row_is_gone(disk, rows)
    &&& same_but_timestamps(rows, old_rows)
    &&& {
        ||| {
            &&& entry_stands(disk, watch, world, turn)
            &&& turn.1 is Perform
            &&& is_quiet(turn)
        }
        ||| {
            &&& s.job matches Job::FullSync(FullSync::InspectRecord { next })
            &&& next < s.records.len() <= usize::MAX
            &&& asks(turn, Request::Inspect(s.records[next as int].local_path))
            &&& lists(s.records, rows)
        }
        ||| s.job is Idle && ended_well(turn)
    }
}

/// Rows that are the same but for local timestamps are settled alike.
proof fn lemma_same_settled(disk: Disk, watch: Seq<WatchEntryView>, a: Rows, b: Rows)
    requires
        same_but_timestamps(a, b),
        entries_settled(disk, watch, b, watch.len() as int),
        no_row_is_gone(disk, b),
    ensures
        entries_settled(disk, watch, a, watch.len() as int),
        no_row_is_gone(disk, a),
{
    assert forall|key: Seq<char>| #[trigger] a.contains_key(key) implies b.contains_key(key) by {
        assert(a.dom().contains(key));
    }
    assert forall|e: int, p: Seq<u8>|
        0 <= e < watch.len() && #[trigger] is_file_of(
            disk,
            watch[e].local_path,
            p,
        ) implies is_settled(disk, watch, a, p) by {
        assert(is_settled(disk, watch, b, p));
        if is_synced(disk, watch, p) {
            assert(b.dom().contains(lossy_text(p)));
            assert(a.contains_key(lossy_text(p)));
        }
    }
}

/// A step of a full synchronization that finds everything settled.
proof fn lemma_quiet_step(
    disk: Disk,
    watch: Seq<WatchEntryView>,
    old_rows: Rows,
    before: World,
    turn: Turn,
    reply: ReplyView,
    now: u64,
    after: World,
    next: Turn,
)
    requires
        watch.len() <= usize::MAX,
        names_are_text(disk, watch),
        quiet_stands(disk, watch, old_rows, before, turn),
        turn.1 matches ActionView::Perform(request) && answers(
            disk,
            before,
            request,
            reply,
            after,
        ),
        next == step(turn.0, reply, now),
    ensures
        same_but_timestamps(after.rows, old_rows),
        has_failed(next, reply) || quiet_stands(disk, watch, old_rows, after, next),
{
    let s = turn.0;
    let rows = before.rows;
    lemma_find(s.pending, expired(now));
    match s.job {
        Job::FullSync(FullSync::InspectRecord { next: at }) => {
            let record = s.records[at as int];
            let key = choose|key: Seq<char>| #[trigger]
                rows.contains_key(key) && rows[key] == record;
            assert(rows.contains_key(key));
            assert(next == sync_record(s, (at + 1) as usize, now));
        },
        Job::FullSync(FullSync::ListRecords) => {
            if let ReplyView::Records(Ok(list)) = reply {
                assert(next == sync_record(EngineView { records: list, ..s }, 0, now));
            }
        },
        _ => {
            lemma_entry_step(disk, watch, before, turn, reply, now, after, next);
            lemma_same_settled(disk, watch, after.rows, rows);
            assert(same_but_timestamps(after.rows, old_rows)) by {
                assert(after.rows.dom() == old_rows.dom());
                assert forall|key: Seq<char>| #[trigger]
                    after.rows.contains_key(key) implies after.rows[key] == (FileStateView {
                    local_timestamp: after.rows[key].local_timestamp,
                    ..old_rows[key]
                }) by {
                    assert(rows.dom().contains(key));
                    assert(rows.contains_key(key));
                }
            }
        },
    }
}

/// A full synchronization that finds everything settled goes on.
proof fn lemma_quiet_stands(
    disk: Disk,
    s: EngineView,
    turns: Seq<Turn>,
    replies: Seq<(ReplyView, u64)>,
    worlds: Seq<World>,
    n: int,
)
    requires
        happens(disk, turns, replies, worlds),
        s.config.watch.len() <= usize::MAX,
        s.pending.len() == 0,
        turns[0] == handle(s, SyncEventView::SyncNow),
        names_are_text(disk, s.config.watch),
        keyed_by_path(worlds[0].rows),
        entries_settled(disk, s.config.watch, worlds[0].rows, s.config.watch.len() as int),
        no_row_is_gone(disk, worlds[0].rows),
        0 <= n <= replies.len(),
    ensures
        same_but_timestamps(worlds[n].rows, worlds[0].rows),
        (n > 0 && has_failed(turns[n], replies[n - 1].0)) || quiet_stands(
            disk,
            s.config.watch,
            worlds[0].rows,
            worlds[n],
            turns[n],
        ),
    decreases n,
{
    if n > 0 {
        let k = n - 1;
        lemma_quiet_stands(disk, s, turns, replies, worlds, k);
        assert(follows_at(turns, replies, k));
        assert(true_at(disk, turns, replies, worlds, k));
        lemma_quiet_step(
            disk,
            s.config.watch,
            worlds[0].rows,
            worlds[k],
            turns[k],
            replies[k].0,
            replies[k].1,
            worlds[n],
            turns[n],
        );
    }
}

/// A full synchronization that finds everything settled asks the remote store for
/// nothing and writes nothing but local timestamps. It ends well unless a reply
/// tells of a failure.
pub proof fn law_a_settled_sync_leaves_the_remote_alone(
    disk: Disk,
    s: EngineView,
    turns: Seq<Turn>,
    replies: Seq<(ReplyView, u64)>,
    worlds: Seq<World>,
)
    requires
        happens(disk, turns, replies, worlds),
        s.config.watch.len() <= usize::MAX,
        s.pending.len() == 0,
        turns[0] == handle(s, SyncEventView::SyncNow),
        names_are_text(disk, s.config.watch),
        keyed_by_path(worlds[0].rows),
        entries_settled(disk, s.config.watch, worlds[0].rows, s.config.watch.len() as int),
        no_row_is_gone(disk, worlds[0].rows),
    ensures
        forall|i: int| 0 <= i < turns.len() ==> leaves_the_remote_alone(#[trigger] turns[i]),
        forall|i: int|
            0 <= i < worlds.len() ==> same_but_timestamps(
                (#[trigger] worlds[i]).rows,
                worlds[0].rows,
            ),
        turns.last().1 is Finish && (forall|i: int|
            0 <= i < replies.len() ==> !is_error((#[trigger] replies[i]).0)) ==> ended_well(
            turns.last(),
        ),
{
    assert forall|i: int| 0 <= i < turns.len() implies leaves_the_remote_alone(
        #[trigger] turns[i],
    ) by {
        lemma_quiet_stands(disk, s, turns, replies, worlds, i);
    }
    assert forall|i: int| 0 <= i < worlds.len() implies same_but_timestamps(
        (#[trigger] worlds[i]).rows,
        worlds[0].rows,
    ) by {
        lemma_quiet_stands(disk, s, turns, replies, worlds, i);
    }
    lemma_quiet_stands(disk, s, turns, replies, worlds, replies.len() as int);
}

/// How many requests a watch entry takes where everything is settled: a file
/// takes five, and a walk one more than it comes to things.
pub open spec fn requests_of_entry(disk: Disk, entry: Seq<u8>) -> nat {
    match (disk.facts)(entry).kind {
        PathKind::Missing => 1,
        PathKind::File => 6,
        _ => 2 + 6 * (disk.walk)(entry).len(),
    }
}

/// How many requests the watch entries from the given one on take.
pub open spec fn requests_from(disk: Disk, watch: Seq<WatchEntryView>, e: int) -> nat
    decreases watch.len() - e,
{
    if e >= watch.len() {
        0
    } else {
        requests_of_entry(disk, watch[e].local_path) + requests_from(disk, watch, e + 1)
    }
}

/// How many requests the work on a settled file still takes.
spec fn upsert_left(turn: Turn) -> nat {
    match upsert_stage(turn) {
        LocalUpsert::Inspect { .. } => 5,
        LocalUpsert::Hash { .. } => 4,
        LocalUpsert::Modified { .. } => 3,
        LocalUpsert::Find { .. } => 2,
        _ => 1,
    }
}

/// How many requests a full synchronization that finds everything settled still
/// takes.
spec fn requests_left(disk: Disk, watch: Seq<WatchEntryView>, world: World, turn: Turn) -> nat {
    let records = 1 + world.rows.len();
    match turn.0.job {
        Job::FullSync(FullSync::InspectEntry { entry }) => requests_from(
            disk,
            watch,
            entry as int,
        ) + records,
        Job::FullSync(FullSync::Walk { entry }) => {
            let path = watch[entry as int].local_path;
            let coming = if asks(turn, Request::Walk(path)) {
                (disk.walk)(path).len()
            } else {
                world.left.len()
            };
            1 + 6 * coming + requests_from(disk, watch, entry + 1) + records
        },
        Job::LocalUpsert(_, After::NextEntry { entry }) => upsert_left(turn) + requests_from(
            disk,
            watch,
            entry + 1,
        ) + records,
        Job::LocalUpsert(_, After::Walk { entry }) => upsert_left(turn) + 1 + 6 * world.left.len()
            + requests_from(disk, watch, entry + 1) + records,
        Job::FullSync(FullSync::ListRecords) => records,
        Job::FullSync(FullSync::InspectRecord { next }) => (turn.0.records.len()
            - next) as nat,
        _ => 0,
    }
}

/// A list of the rows is no longer than the rows are many.
proof fn lemma_list_len(list: Seq<FileStateView>, rows: Rows)
    requires
        lists(list, rows),
        rows.dom().finite(),
    ensures
        list.len() <= rows.len(),
{
    let value = |key: Seq<char>| rows[key];
    let values = rows.dom().map(value);
    lemma_map_size_bound(rows.dom(), values, value);
    list.unique_seq_to_set();
    assert forall|row: FileStateView| #[trigger] list.to_set().contains(row) implies values.contains(
        row,
    ) by {
        let i = choose|i: int| 0 <= i < list.len() && list[i] == row;
        let key = choose|key: Seq<char>| #[trigger] rows.contains_key(key) && rows[key] == list[i];
        assert(rows.dom().contains(key) && value(key) == row);
    }
    lemma_len_subset(list.to_set(), values);
}

/// The work on a settled file comes closer to its end with each step.
proof fn lemma_quiet_upsert_left(
    disk: Disk,
    watch: Seq<WatchEntryView>,
    before: World,
    turn: Turn,
    path: Seq<u8>,
    reply: ReplyView,
    now: u64,
    after: World,
    next: Turn,
)
    requires
        turn.0.config.watch == watch,
        turn.0.job is LocalUpsert,
        turn.0.pending.len() == 0,
        upsert_stands(disk, watch, before.rows, turn, path),
        is_settled(disk, watch, before.rows, path),
        is_quiet_stage(turn),
        turn.1 matches ActionView::Perform(request) && answers(
            disk,
            before,
            request,
            reply,
            after,
        ),
        next == step(turn.0, reply, now),
    ensures
        after.left == before.left,
        ({
            let to = turn.0.job->LocalUpsert_1;
            ||| next.1 is Finish && next.0.job is Idle
            ||| next.0.job is LocalUpsert && next.0.job->LocalUpsert_1 == to && upsert_left(next)
                + 1 <= upsert_left(turn)
            ||| next == after_upsert(turn.0, to)
        }),
{
    assert(removed(turn.0.pending, path) == turn.0.pending);
}

/// The work on a file leaves fewer requests, whether it goes on or is over.
proof fn lemma_left_by_upsert(
    disk: Disk,
    watch: Seq<WatchEntryView>,
    before: World,
    turn: Turn,
    after: World,
    next: Turn,
)
    requires
        watch.len() <= usize::MAX,
        turn.0.config.watch == watch,
        turn.0.job is LocalUpsert,
        match turn.0.job->LocalUpsert_1 {
            After::NextEntry { entry } => entry < watch.len(),
            After::Walk { entry } => entry < watch.len(),
            After::Finish => false,
        },
        after.left == before.left,
        after.rows.len() == before.rows.len(),
        ({
            let to = turn.0.job->LocalUpsert_1;
            ||| next.1 is Finish && next.0.job is Idle
            ||| next.0.job is LocalUpsert && next.0.job->LocalUpsert_1 == to && upsert_left(next)
                + 1 <= upsert_left(turn)
            ||| next == after_upsert(turn.0, to)
        }),
    ensures
        requests_left(disk, watch, after, next) + 1 <= requests_left(disk, watch, before, turn),
{
}

/// A step of the work on a file of a full synchronization that finds everything
/// settled.
proof fn lemma_quiet_upsert_requests_left(
    disk: Disk,
    watch: Seq<WatchEntryView>,
    old_rows: Rows,
    before: World,
    turn: Turn,
    reply: ReplyView,
    now: u64,
    after: World,
    next: Turn,
)
    requires
        turn.0.job is LocalUpsert,
        old_rows.dom().finite(),
        watch.len() <= usize::MAX,
        names_are_text(disk, watch),
        quiet_stands(disk, watch, old_rows, before, turn),
        turn.1 matches ActionView::Perform(request) && answers(
            disk,
            before,
            request,
            reply,
            after,
        ),
        next == step(turn.0, reply, now),
    ensures
        requests_left(disk, watch, after, next) + 1 <= requests_left(disk, watch, before, turn),
{
    lemma_quiet_step(disk, watch, old_rows, before, turn, reply, now, after, next);
    assert(after.rows.dom() == before.rows.dom());
    match turn.0.job->LocalUpsert_1 {
        After::NextEntry { entry } => {
            let path = watch[entry as int].local_path;
            assert(is_file_of(disk, watch[entry as int].local_path, path));
            lemma_quiet_upsert_left(disk, watch, before, turn, path, reply, now, after, next);
        },
        After::Walk { entry } => {
            let base = watch[entry as int].local_path;
            let c = choose|c: int| #[trigger] walk_works(disk, watch, before, turn, base, c);
            let path = (disk.walk)(base)[c].0;
            assert((disk.walk)(base)[c] == (path, true));
            assert(is_file_of(disk, watch[entry as int].local_path, path));
            lemma_quiet_upsert_left(disk, watch, before, turn, path, reply, now, after, next);
        },
        After::Finish => {},
    }
    lemma_left_by_upsert(disk, watch, before, turn, after, next);
}

/// A full synchronization that finds everything settled comes closer to its end
/// with each step.
proof fn lemma_quiet_requests_left(
    disk: Disk,
    watch: Seq<WatchEntryView>,
    old_rows: Rows,
    before: World,
    turn: Turn,
    reply: ReplyView,
    now: u64,
    after: World,
    next: Turn,
)
    requires
        old_rows.dom().finite(),
        watch.len() <= usize::MAX,
        names_are_text(disk, watch),
        quiet_stands(disk, watch, old_rows, before, turn),
        turn.1 matches ActionView::Perform(request) && answers(
            disk,
            before,
            request,
            reply,
            after,
        ),
        next == step(turn.0, reply, now),
    ensures
        requests_left(disk, watch, after, next) + 1 <= requests_left(disk, watch, before, turn),
{
    if turn.0.job is LocalUpsert {
        lemma_quiet_upsert_requests_left(
            disk,
            watch,
            old_rows,
            before,
            turn,
            reply,
            now,
            after,
            next,
        );
    } else {
        lemma_find(turn.0.pending, expired(now));
        if let ReplyView::Records(Ok(list)) = reply {
            if turn.0.job matches Job::FullSync(FullSync::ListRecords) {
                lemma_list_len(list, before.rows);
            }
        }
    }
}

/// The requests that were made and those that are left are no more than those at
/// the beginning.
proof fn lemma_quiet_runs_out(
    disk: Disk,
    s: EngineView,
    turns: Seq<Turn>,
    replies: Seq<(ReplyView, u64)>,
    worlds: Seq<World>,
    n: int,
)
    requires
        happens(disk, turns, replies, worlds),
        s.config.watch.len() <= usize::MAX,
        s.pending.len() == 0,
        turns[0] == handle(s, SyncEventView::SyncNow),
        names_are_text(disk, s.config.watch),
        keyed_by_path(worlds[0].rows),
        entries_settled(disk, s.config.watch, worlds[0].rows, s.config.watch.len() as int),
        no_row_is_gone(disk, worlds[0].rows),
        worlds[0].rows.dom().finite(),
        0 <= n <= replies.len(),
    ensures
        n + requests_left(disk, s.config.watch, worlds[n], turns[n]) <= requests_left(
            disk,
            s.config.watch,
            worlds[0],
            turns[0],
        ),
    decreases n,
{
    if n > 0 {
        let k = n - 1;
        lemma_quiet_runs_out(disk, s, turns, replies, worlds, k);
        lemma_quiet_stands(disk, s, turns, replies, worlds, k);
        assert(follows_at(turns, replies, k));
        assert(true_at(disk, turns, replies, worlds, k));
        lemma_quiet_requests_left(
            disk,
            s.config.watch,
            worlds[0].rows,
            worlds[k],
            turns[k],
            replies[k].0,
            replies[k].1,
            worlds[n],
            turns[n],
        );
    }
}

/// A full synchronization that finds everything settled comes to an end: it makes
/// no more requests than the files and the rows take.
pub proof fn law_a_settled_sync_ends(
    disk: Disk,
    s: EngineView,
    turns: Seq<Turn>,
    replies: Seq<(ReplyView, u64)>,
    worlds: Seq<World>,
)
    requires
        happens(disk, turns, replies, worlds),
        s.config.watch.len() <= usize::MAX,
        s.pending.len() == 0,
        turns[0] == handle(s, SyncEventView::SyncNow),
        names_are_text(disk, s.config.watch),
        keyed_by_path(worlds[0].rows),
        entries_settled(disk, s.config.watch, worlds[0].rows, s.config.watch.len() as int),
        no_row_is_gone(disk, worlds[0].rows),
        worlds[0].rows.dom().finite(),
    ensures
        replies.len() <= requests_from(disk, s.config.watch, 0) + 1 + worlds[0].rows.len(),
{
    lemma_quiet_runs_out(disk, s, turns, replies, worlds, replies.len() as int);
}

/// Whether two looks at the local files find the same: the walks may come to the
/// files in another order.
pub open spec fn same_files(a: Disk, b: Disk) -> bool {
    &&& forall|path: Seq<u8>| #[trigger] (a.facts)(path) == (b.facts)(path)
    &&& forall|path: Seq<u8>| #[trigger] (a.hash)(path) == (b.hash)(path)
    &&& forall|path: Seq<u8>, found: (Seq<u8>, bool)| #[trigger]
        (a.walk)(path).contains(found) <==> (b.walk)(path).contains(found)
}

/// Where a full synchronization ends well and neither the files nor the rows change
/// afterwards, the next one asks the remote store for nothing and leaves every row
/// as it is but for its local timestamp. It comes to an end, and ends well unless a
/// reply tells of a failure. The paths of synced files must be valid UTF-8, and no two rows of files
/// that were gone before the first may be of the same path.
pub proof fn law_a_second_full_sync_leaves_the_remote_alone(
    disk: Disk,
    s: EngineView,
    turns: Seq<Turn>,
    replies: Seq<(ReplyView, u64)>,
    worlds: Seq<World>,
    next_disk: Disk,
    next_turns: Seq<Turn>,
    next_replies: Seq<(ReplyView, u64)>,
    next_worlds: Seq<World>,
)
    requires
        happens(disk, turns, replies, worlds),
        clock_runs(replies),
        s.config.watch.len() <= usize::MAX,
        s.pending.len() == 0,
        turns[0] == handle(s, SyncEventView::SyncNow),
        keyed_by_path(worlds[0].rows),
        gone_rows_differ(disk, worlds[0].rows),
        names_are_text(disk, s.config.watch),
        ended_well(turns.last()),
        happens(next_disk, next_turns, next_replies, next_worlds),
        same_files(next_disk, disk),
        next_worlds[0].rows == worlds.last().rows,
        next_turns[0] == handle(turns.last().0, SyncEventView::SyncNow),
    ensures
        forall|i: int|
            0 <= i < next_turns.len() ==> leaves_the_remote_alone(#[trigger] next_turns[i]),
        forall|i: int|
            0 <= i < next_worlds.len() ==> same_but_timestamps(
                (#[trigger] next_worlds[i]).rows,
                worlds.last().rows,
            ),
        next_turns.last().1 is Finish && (forall|i: int|
            0 <= i < next_replies.len() ==> !is_error((#[trigger] next_replies[i]).0))
            ==> ended_well(next_turns.last()),
        worlds.last().rows.dom().finite() ==> next_replies.len() <= requests_from(
            next_disk,
            s.config.watch,
            0,
        ) + 1 + worlds.last().rows.len(),
{
    let watch = s.config.watch;
    let rows = worlds.last().rows;
    law_a_full_sync_settles_everything(disk, s, turns, replies, worlds);
    assert forall|e: int, path: Seq<u8>|
        0 <= e < watch.len() && #[trigger] is_file_of(
            next_disk,
            watch[e].local_path,
            path,
        ) implies is_settled(next_disk, watch, rows, path) && (is_synced(next_disk, watch, path)
        ==> valid_utf8(path)) by {
        let entry = watch[e].local_path;
        assert((next_disk.facts)(entry) == (disk.facts)(entry));
        assert((next_disk.facts)(path) == (disk.facts)(path));
        assert((next_disk.hash)(path) == (disk.hash)(path));
        assert((next_disk.walk)(entry).contains((path, true)) == (disk.walk)(entry).contains(
            (path, true),
        ));
        assert(is_file_of(disk, watch[e].local_path, path));
        assert(is_settled(disk, watch, rows, path));
    }
    law_a_settled_sync_leaves_the_remote_alone(
        next_disk,
        turns.last().0,
        next_turns,
        next_replies,
        next_worlds,
    );
    if rows.dom().finite() {
        law_a_settled_sync_ends(
            next_disk,
            turns.last().0,
            next_turns,
            next_replies,
            next_worlds,
        );
    }
}

} // verus!
