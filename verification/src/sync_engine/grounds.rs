//! What the engine's requests go back to: what was asked and told before them in
//! the same work.
use vstd::prelude::*;

use crate::config::{local_of, PathFacts};
use crate::events::{
    LocalFileEventKind, RemoteChangeView, RemoteFileMetaView, SyncEvent, SyncEventView,
};
use crate::keyed::{find, lemma_find};
use crate::path::{parent_of, same_path};
use crate::state_db::FileStateView;
use crate::sync_engine::conflict::conflicted_copy;
use crate::sync_engine::files::mapped;
use crate::sync_engine::laws::{asks, compared, compares, is_there};
use crate::sync_engine::model::{
    copy_failed_text, handle, renamed_from, step, woken, Action, ActionView, Candidate, EngineView, Job,
    LocalUpsert, PendingView, RemoteUpsert, ReplyView, Request, RequestView, Turn,
    Wake, UNEXPECTED_REPLY,
};
use crate::sync_engine::runs::{follows, follows_at};

verus! {

/// Whether turn `k` asks for the request, and the reply is what came of it.
pub open spec fn told(
    turns: Seq<Turn>,
    replies: Seq<(ReplyView, u64)>,
    k: int,
    request: RequestView,
    reply: ReplyView,
) -> bool {
    0 <= k < replies.len() && asks(turns[k], request) && replies[k].0 == reply
}

/// Whether turn `k` asks what there is at the path, and there is a file that the
/// watch entries map to the remote path.
pub open spec fn seen_at(
    turns: Seq<Turn>,
    replies: Seq<(ReplyView, u64)>,
    k: int,
    path: Seq<u8>,
    virtual_path: Seq<char>,
) -> bool {
    &&& 0 <= k < replies.len()
    &&& asks(turns[k], Request::Inspect(path))
    &&& replies[k].0 matches ReplyView::Facts(facts)
    &&& is_there(facts)
    &&& mapped(turns[k].0, path, facts) == Some(virtual_path)
}

/// Whether the file was fingerprinted before turn `n`, with that outcome.
pub open spec fn hashed_before(
    turns: Seq<Turn>,
    replies: Seq<(ReplyView, u64)>,
    n: int,
    path: Seq<u8>,
    md5_hash: Seq<char>,
) -> bool {
    exists|k: int|
        0 <= k < n && #[trigger] told(
            turns,
            replies,
            k,
            Request::HashFile(path),
            ReplyView::Hash(Ok(md5_hash)),
        )
}

/// Whether the file was there and mapped to the remote path before turn `n`.
pub open spec fn mapped_before(
    turns: Seq<Turn>,
    replies: Seq<(ReplyView, u64)>,
    n: int,
    path: Seq<u8>,
    virtual_path: Seq<char>,
) -> bool {
    exists|k: int| 0 <= k < n && #[trigger] seen_at(turns, replies, k, path, virtual_path)
}

/// Whether turn `k` transferred the file of the record and was answered with
/// success: an upload of the file with the fingerprint that the record holds; a
/// rename of a remote file to the remote path of the file, with that fingerprint; or
/// a download onto the file of what the record holds the fingerprint of.
pub open spec fn transferred_at(
    turns: Seq<Turn>,
    replies: Seq<(ReplyView, u64)>,
    k: int,
    record: FileStateView,
) -> bool {
    &&& 0 <= k < replies.len()
    &&& replies[k].0 matches ReplyView::Stored(Ok(stored))
    &&& stored.drive_id == record.drive_id
    &&& stored.modified_time == record.remote_timestamp
    &&& match turns[k].1 {
        Action::Perform(Request::Upload { virtual_path, local_path }) => {
            &&& local_path == record.local_path
            &&& record.virtual_remote_path == stored.virtual_path || record.virtual_remote_path
                == virtual_path
            &&& hashed_before(turns, replies, k, local_path, record.md5_hash)
        },
        Action::Perform(Request::Rename { to, .. }) => {
            &&& record.virtual_remote_path == to
            &&& mapped_before(turns, replies, k, record.local_path, to)
            &&& hashed_before(turns, replies, k, record.local_path, record.md5_hash)
        },
        Action::Perform(Request::Download { local_path, .. }) => {
            &&& local_path == record.local_path
            &&& record.virtual_remote_path == stored.virtual_path
            &&& record.md5_hash == stored.md5_hash
        },
        _ => false,
    }
}

/// Whether what the record says was found out before turn `n`: its file was
/// transferred, and its timestamp was read.
pub open spec fn record_backed(
    turns: Seq<Turn>,
    replies: Seq<(ReplyView, u64)>,
    n: int,
    record: FileStateView,
) -> bool {
    &&& exists|k: int| 0 <= k < n && #[trigger] transferred_at(turns, replies, k, record)
    &&& exists|k: int|
        0 <= k < n && #[trigger] told(
            turns,
            replies,
            k,
            Request::ReadModified(record.local_path),
            ReplyView::Modified(Ok(record.local_timestamp)),
        )
}

/// Whether the three turns before turn `n` found out what is known of the file.
pub open spec fn examined_before(
    turns: Seq<Turn>,
    replies: Seq<(ReplyView, u64)>,
    n: int,
    candidate: Candidate<Seq<u8>, Seq<char>>,
) -> bool {
    &&& n >= 3
    &&& seen_at(turns, replies, n - 3, candidate.path, candidate.virtual_path)
    &&& told(
        turns,
        replies,
        n - 2,
        Request::HashFile(candidate.path),
        ReplyView::Hash(Ok(candidate.md5_hash)),
    )
    &&& told(
        turns,
        replies,
        n - 1,
        Request::ReadModified(candidate.path),
        ReplyView::Modified(Ok(candidate.local_timestamp)),
    )
}

/// Whether, besides, the turn before turn `n` asked for the file's record, with the
/// given reply.
pub open spec fn looked_up_before(
    turns: Seq<Turn>,
    replies: Seq<(ReplyView, u64)>,
    n: int,
    candidate: Candidate<Seq<u8>, Seq<char>>,
    record: Option<FileStateView>,
) -> bool {
    &&& n >= 4
    &&& examined_before(turns, replies, n - 1, candidate)
    &&& told(
        turns,
        replies,
        n - 1,
        Request::FindByLocal(candidate.path),
        ReplyView::Found(Ok(record)),
    )
}

/// Whether turn `n` asks that the timestamp of a file be recorded whose content was
/// found to be what its record says.
spec fn touch_backed(turns: Seq<Turn>, replies: Seq<(ReplyView, u64)>, n: int) -> bool {
    exists|candidate: Candidate<Seq<u8>, Seq<char>>, record: FileStateView|
        #[trigger] looked_up_before(turns, replies, n, candidate, Some(record)) && record.md5_hash
            == candidate.md5_hash && asks(
            turns[n],
            Request::SetLocalTimestamp(candidate.path, candidate.local_timestamp),
        )
}

/// Whether the file's record was found to say another content, or none was found.
spec fn found_changed(
    turns: Seq<Turn>,
    replies: Seq<(ReplyView, u64)>,
    n: int,
    candidate: Candidate<Seq<u8>, Seq<char>>,
) -> bool {
    exists|record: Option<FileStateView>|
        #[trigger] looked_up_before(turns, replies, n, candidate, record) && (record is Some
            ==> record->0.md5_hash != candidate.md5_hash)
}

/// Whether a delete of another file with that content, whose remote path is `from`,
/// waits.
spec fn source_waits(
    pending: PendingView,
    candidate: Candidate<Seq<u8>, Seq<char>>,
    old_path: Seq<u8>,
    from: Seq<char>,
) -> bool {
    exists|i: int|
        0 <= i < pending.len() && (#[trigger] pending[i]).0 == old_path && !same_path(
            old_path,
            candidate.path,
        ) && pending[i].1.record.md5_hash == candidate.md5_hash
            && pending[i].1.record.virtual_remote_path == from
}

/// Whether turn `n` asks for a rename that is one.
spec fn rename_backed(
    turns: Seq<Turn>,
    replies: Seq<(ReplyView, u64)>,
    n: int,
    candidate: Candidate<Seq<u8>, Seq<char>>,
    old_path: Seq<u8>,
) -> bool {
    &&& looked_up_before(turns, replies, n, candidate, None)
    &&& turns[n].1 matches Action::Perform(Request::Rename { from, to })
    &&& to == candidate.virtual_path
    &&& source_waits(turns[n].0.pending, candidate, old_path, from)
}

/// Whether the stage of the work on a local file at turn `n` goes back to what was
/// asked and told before.
spec fn upsert_backed(
    turns: Seq<Turn>,
    replies: Seq<(ReplyView, u64)>,
    n: int,
    stage: LocalUpsert<Seq<u8>, Seq<char>, FileStateView>,
) -> bool {
    match stage {
        LocalUpsert::Inspect { path } => asks(turns[n], Request::Inspect(path)),
        LocalUpsert::Hash { path, virtual_path } => {
            &&& n >= 1
            &&& asks(turns[n], Request::HashFile(path))
            &&& seen_at(turns, replies, n - 1, path, virtual_path)
        },
        LocalUpsert::Modified { path, virtual_path, md5_hash } => {
            &&& n >= 2
            &&& asks(turns[n], Request::ReadModified(path))
            &&& seen_at(turns, replies, n - 2, path, virtual_path)
            &&& told(
                turns,
                replies,
                n - 1,
                Request::HashFile(path),
                ReplyView::Hash(Ok(md5_hash)),
            )
        },
        LocalUpsert::Find { candidate } => {
            &&& asks(turns[n], Request::FindByLocal(candidate.path))
            &&& examined_before(turns, replies, n, candidate)
        },
        LocalUpsert::Rename { candidate, old_path } => rename_backed(
            turns,
            replies,
            n,
            candidate,
            old_path,
        ),
        LocalUpsert::UploadRenamed { candidate, old_path } => {
            &&& n >= 1
            &&& rename_backed(turns, replies, n - 1, candidate, old_path)
            &&& replies[n - 1].0 matches ReplyView::Stored(Err(_))
            &&& asks(
                turns[n],
                Request::Upload {
                    virtual_path: candidate.virtual_path,
                    local_path: candidate.path,
                },
            )
        },
        LocalUpsert::Forget { record, old_path } => {
            &&& asks(turns[n], Request::RemoveByLocal(old_path))
            &&& record_backed(turns, replies, n, record)
        },
        LocalUpsert::Touch => touch_backed(turns, replies, n),
        LocalUpsert::Upload { candidate } => {
            &&& found_changed(turns, replies, n, candidate)
            &&& asks(
                turns[n],
                Request::Upload {
                    virtual_path: candidate.virtual_path,
                    local_path: candidate.path,
                },
            )
        },
        LocalUpsert::Save => turns[n].1 matches Action::Perform(Request::Save(record))
            && record_backed(turns, replies, n, record),
    }
}

/// Whether the stage of the work on a remote file at turn `n` goes back to what was
/// asked and told before.
spec fn remote_backed(
    turns: Seq<Turn>,
    replies: Seq<(ReplyView, u64)>,
    n: int,
    stage: RemoteUpsert<Seq<u8>, Seq<char>, RemoteFileMetaView>,
    wanted: Seq<char>,
    place: Seq<u8>,
) -> bool {
    match stage {
        RemoteUpsert::Metadata { virtual_path, local_path } => {
            &&& virtual_path == wanted && local_path == place
            &&& asks(turns[n], Request::GetMetadata(wanted))
        },
        RemoteUpsert::Find { virtual_path, local_path, remote_hash } => {
            &&& virtual_path == wanted && local_path == place
            &&& asks(turns[n], Request::FindByRemote(wanted))
        },
        RemoteUpsert::Inspect { virtual_path, local_path, base_hash } => {
            &&& virtual_path == wanted && local_path == place
            &&& asks(turns[n], Request::Inspect(place))
        },
        RemoteUpsert::Hash { virtual_path, local_path, base_hash } => {
            &&& virtual_path == wanted && local_path == place
            &&& asks(turns[n], Request::HashFile(place))
        },
        RemoteUpsert::Clock { virtual_path, local_path, md5_hash } => {
            &&& virtual_path == wanted && local_path == place
            &&& asks(turns[n], Request::ReadClock)
            &&& hashed_before(turns, replies, n, place, md5_hash)
        },
        RemoteUpsert::StoreCopy { virtual_path, local_path, md5_hash, copy_path } => {
            &&& virtual_path == wanted && local_path == place
            &&& asks(turns[n], Request::Download { virtual_path: wanted, local_path: copy_path })
            &&& is_copy_path(place, copy_path)
            &&& hashed_before(turns, replies, n, place, md5_hash)
        },
        RemoteUpsert::UploadLocal { local_path, md5_hash } => {
            &&& local_path == place
            &&& asks(turns[n], Request::Upload { virtual_path: wanted, local_path: place })
            &&& hashed_before(turns, replies, n, place, md5_hash)
        },
        RemoteUpsert::Download { local_path } => {
            &&& local_path == place
            &&& asks(turns[n], Request::Download { virtual_path: wanted, local_path: place })
        },
        RemoteUpsert::Modified { local_path, md5_hash, stored } => {
            &&& n >= 1
            &&& local_path == place
            &&& asks(turns[n], Request::ReadModified(place))
            &&& replies[n - 1].0 == ReplyView::Stored(Ok(stored))
            &&& (asks(turns[n - 1], Request::Upload { virtual_path: wanted, local_path: place })
                && hashed_before(turns, replies, n - 1, place, md5_hash)) || (asks(
                turns[n - 1],
                Request::Download { virtual_path: wanted, local_path: place },
            ) && md5_hash == stored.md5_hash)
        },
        RemoteUpsert::Save => turns[n].1 matches Action::Perform(Request::Save(record))
            && record.local_path == place && record_backed(turns, replies, n, record),
    }
}

/// Whether the path is that of a conflicted copy of the file, at some time.
pub open spec fn is_copy_path(local_path: Seq<u8>, copy_path: Seq<u8>) -> bool {
    exists|millis: Option<u128>|
        #[trigger] conflicted_copy(local_path, millis) == Ok::<Seq<u8>, Seq<char>>(copy_path)
}

/// Whether the work at turn `n` goes back to what was asked and told before.
spec fn backed(
    s: EngineView,
    event: SyncEventView,
    turns: Seq<Turn>,
    replies: Seq<(ReplyView, u64)>,
    n: int,
) -> bool {
    &&& turns[n].0.config == s.config
    &&& match turns[n].0.job {
        Job::Idle => turns[n].1 is Finish,
        Job::LocalUpsert(stage, after) => {
            &&& is_local_work(event)
            &&& event is Local ==> after is Finish
            &&& upsert_backed(turns, replies, n, stage)
        },
        Job::LocalDelete => {
            &&& event matches SyncEventView::Local(LocalFileEventKind::Delete, path)
            &&& asks(turns[n], Request::ListByLocalPrefix(path))
        },
        Job::RemoteUpsert(stage) => {
            &&& event matches SyncEventView::Remote(RemoteChangeView::Upsert(change))
            &&& local_of(s.config.watch, change.virtual_path) matches Some(place)
            &&& remote_backed(turns, replies, n, stage, change.virtual_path, place)
        },
        Job::RemoteDelete(stage) => {
            &&& event matches SyncEventView::Remote(RemoteChangeView::Delete(_))
            &&& turns[n].1 matches Action::Perform(request)
            &&& is_delete_request(request)
            &&& request is TrashLocal <==> stage is TrashMapped || stage is TrashRecord
        },
        Job::FullSync(_) => {
            &&& event is SyncNow
            &&& turns[n].1 matches Action::Perform(request)
            &&& is_visit_request(request)
        },
        Job::Flush(_) => {
            &&& event is SyncNow
            &&& turns[n].1 matches Action::Perform(request)
            &&& request is TrashRemote || request is RemoveByLocal
        },
    }
}

/// Whether an event is worked on file by local file.
pub open spec fn is_local_work(event: SyncEventView) -> bool {
    event is SyncNow || event matches SyncEventView::Local(LocalFileEventKind::Upsert, _)
}

/// Whether a request belongs to the work on a deleted remote file.
pub open spec fn is_delete_request(request: RequestView) -> bool {
    ||| request is ListByRemotePrefix
    ||| request is Inspect
    ||| request is TrashLocal
    ||| request is RemoveByLocal
    ||| request is RemoveByRemote
}

/// Whether a request is one of those by which a full synchronization comes to the
/// files it works on.
pub open spec fn is_visit_request(request: RequestView) -> bool {
    ||| request is Inspect
    ||| request is Walk
    ||| request is WalkNext
    ||| request is ListAll
}

/// Whether a request belongs to the work on a local file.
pub open spec fn is_upsert_request(request: RequestView) -> bool {
    ||| request is Inspect
    ||| request is HashFile
    ||| request is ReadModified
    ||| request is FindByLocal
    ||| request is Rename
    ||| request is Upload
    ||| request is RemoveByLocal
    ||| request is SetLocalTimestamp
    ||| request is Save
}

/// Whether a request belongs to the work on a changed remote file.
pub open spec fn is_fetch_request(request: RequestView) -> bool {
    ||| request is GetMetadata
    ||| request is FindByRemote
    ||| request is Inspect
    ||| request is HashFile
    ||| request is ReadClock
    ||| request is Download
    ||| request is Upload
    ||| request is ReadModified
    ||| request is Save
}

/// What was found out before a turn was found out before a later one.
proof fn lemma_record_stays_backed(
    turns: Seq<Turn>,
    replies: Seq<(ReplyView, u64)>,
    n: int,
    record: FileStateView,
)
    requires
        record_backed(turns, replies, n, record),
    ensures
        record_backed(turns, replies, n + 1, record),
{
    let k = choose|k: int| 0 <= k < n && #[trigger] transferred_at(turns, replies, k, record);
    assert(0 <= k < n + 1 && transferred_at(turns, replies, k, record));
}

/// So it is with a fingerprint.
proof fn lemma_stays_hashed(
    turns: Seq<Turn>,
    replies: Seq<(ReplyView, u64)>,
    n: int,
    path: Seq<u8>,
    md5_hash: Seq<char>,
)
    requires
        hashed_before(turns, replies, n, path, md5_hash),
    ensures
        hashed_before(turns, replies, n + 1, path, md5_hash),
{
}

/// A file that was examined and then transferred has its record backed.
proof fn lemma_transfer_backs(
    turns: Seq<Turn>,
    replies: Seq<(ReplyView, u64)>,
    e: int,
    k: int,
    n: int,
    candidate: Candidate<Seq<u8>, Seq<char>>,
    record: FileStateView,
)
    requires
        examined_before(turns, replies, e, candidate),
        e <= k < n,
        0 <= k < replies.len(),
        replies[k].0 matches ReplyView::Stored(Ok(stored)) && stored.drive_id == record.drive_id
            && stored.modified_time == record.remote_timestamp && match turns[k].1 {
            Action::Perform(Request::Upload { virtual_path, local_path }) => local_path
                == candidate.path && (record.virtual_remote_path == stored.virtual_path
                || record.virtual_remote_path == virtual_path),
            Action::Perform(Request::Rename { to, .. }) => to == candidate.virtual_path
                && record.virtual_remote_path == to,
            _ => false,
        },
        record.local_path == candidate.path,
        record.md5_hash == candidate.md5_hash,
        record.local_timestamp == candidate.local_timestamp,
    ensures
        record_backed(turns, replies, n, record),
{
    assert(0 <= e - 2 < k && told(
        turns,
        replies,
        e - 2,
        Request::HashFile(candidate.path),
        ReplyView::Hash(Ok(candidate.md5_hash)),
    ));
    assert(hashed_before(turns, replies, k, candidate.path, candidate.md5_hash));
    assert(0 <= e - 3 < k && seen_at(
        turns,
        replies,
        e - 3,
        candidate.path,
        candidate.virtual_path,
    ));
    assert(mapped_before(turns, replies, k, candidate.path, candidate.virtual_path));
    assert(transferred_at(turns, replies, k, record));
    assert(0 <= e - 1 < n && told(
        turns,
        replies,
        e - 1,
        Request::ReadModified(record.local_path),
        ReplyView::Modified(Ok(record.local_timestamp)),
    ));
}

/// The work on a local file stays backed, from one turn to the next.
proof fn lemma_upsert_stays_backed(turns: Seq<Turn>, replies: Seq<(ReplyView, u64)>, n: int)
    requires
        0 <= n < replies.len(),
        follows_at(turns, replies, n),
        turns[n].0.job is LocalUpsert,
        upsert_backed(turns, replies, n, turns[n].0.job->LocalUpsert_0),
    ensures
        turns[n + 1].0.config == turns[n].0.config,
        match turns[n + 1].0.job {
            Job::Idle => turns[n + 1].1 is Finish,
            Job::LocalUpsert(stage, after) => upsert_backed(turns, replies, n + 1, stage) && after
                == turns[n].0.job->LocalUpsert_1,
            Job::FullSync(_) => turns[n + 1].1 is Perform && is_visit_request(
                turns[n + 1].1->Perform_0,
            ) && !(turns[n].0.job->LocalUpsert_1 is Finish),
            _ => false,
        },
{
    let stage = turns[n].0.job->LocalUpsert_0;
    let reply = replies[n].0;
    match (stage, reply) {
        (LocalUpsert::Find { candidate }, ReplyView::Found(Ok(record))) => {
            assert(looked_up_before(turns, replies, n + 1, candidate, record));
            let pending = turns[n].0.pending;
            let hit = renamed_from(candidate.md5_hash, candidate.path);
            lemma_find(pending, hit);
            match find(pending, hit) {
                Some(i) => {
                    assert(hit(pending[i]));
                    assert(source_waits(
                        pending,
                        candidate,
                        pending[i].0,
                        pending[i].1.record.virtual_remote_path,
                    ));
                },
                None => {},
            }
            if record is Some && record->0.md5_hash == candidate.md5_hash {
                assert(looked_up_before(turns, replies, n + 1, candidate, Some(record->0)));
                assert(touch_backed(turns, replies, n + 1));
            }
        },
        (LocalUpsert::Rename { candidate, old_path }, ReplyView::Stored(Ok(stored))) => {
            let record = turns[n + 1].0.job->LocalUpsert_0->Forget_record;
            lemma_transfer_backs(turns, replies, n - 1, n, n + 1, candidate, record);
        },
        (LocalUpsert::UploadRenamed { candidate, old_path }, ReplyView::Stored(Ok(stored))) => {
            let record = turns[n + 1].0.job->LocalUpsert_0->Forget_record;
            lemma_transfer_backs(turns, replies, n - 2, n, n + 1, candidate, record);
        },
        (LocalUpsert::Upload { candidate }, ReplyView::Stored(Ok(stored))) => {
            let looked = choose|record: Option<FileStateView>|
                #[trigger] looked_up_before(turns, replies, n, candidate, record) && (record is Some
                    ==> record->0.md5_hash != candidate.md5_hash);
            assert(looked_up_before(turns, replies, n, candidate, looked));
            let record = turns[n + 1].1->Perform_0->Save_0;
            lemma_transfer_backs(turns, replies, n - 1, n, n + 1, candidate, record);
        },
        (LocalUpsert::Forget { record, old_path }, _) => {
            lemma_record_stays_backed(turns, replies, n, record);
        },
        _ => {},
    }
}

/// The work on a remote file stays backed, from one turn to the next.
proof fn lemma_remote_stays_backed(
    turns: Seq<Turn>,
    replies: Seq<(ReplyView, u64)>,
    n: int,
    wanted: Seq<char>,
    place: Seq<u8>,
)
    requires
        0 <= n < replies.len(),
        follows_at(turns, replies, n),
        turns[n].0.job is RemoteUpsert,
        remote_backed(turns, replies, n, turns[n].0.job->RemoteUpsert_0, wanted, place),
    ensures
        turns[n + 1].0.config == turns[n].0.config,
        match turns[n + 1].0.job {
            Job::Idle => turns[n + 1].1 is Finish,
            Job::RemoteUpsert(stage) => remote_backed(
                turns,
                replies,
                n + 1,
                stage,
                wanted,
                place,
            ),
            _ => false,
        },
{
    let stage = turns[n].0.job->RemoteUpsert_0;
    match (stage, replies[n].0) {
        (RemoteUpsert::Hash { .. }, ReplyView::Hash(Ok(md5_hash))) => {
            assert(told(
                turns,
                replies,
                n,
                Request::HashFile(place),
                ReplyView::Hash(Ok(md5_hash)),
            ));
        },
        (RemoteUpsert::Clock { md5_hash, .. }, ReplyView::Clock(millis)) => {
            lemma_stays_hashed(turns, replies, n, place, md5_hash);
            match conflicted_copy(place, millis) {
                Ok(copy_path) => {
                    assert(is_copy_path(place, copy_path));
                },
                Err(_) => {},
            }
        },
        (RemoteUpsert::StoreCopy { md5_hash, .. }, _) => {
            lemma_stays_hashed(turns, replies, n, place, md5_hash);
        },
        (
            RemoteUpsert::Modified { md5_hash, stored, .. },
            ReplyView::Modified(Ok(local_timestamp)),
        ) => {
            let record = turns[n + 1].1->Perform_0->Save_0;
            assert(transferred_at(turns, replies, n - 1, record));
            assert(told(
                turns,
                replies,
                n,
                Request::ReadModified(record.local_path),
                ReplyView::Modified(Ok(record.local_timestamp)),
            ));
        },
        _ => {},
    }
}

/// The work on any event is backed at every turn.
proof fn lemma_backed(
    s: EngineView,
    event: SyncEventView,
    turns: Seq<Turn>,
    replies: Seq<(ReplyView, u64)>,
    n: int,
)
    requires
        follows(turns, replies),
        turns[0] == handle(s, event),
        0 <= n <= replies.len(),
    ensures
        backed(s, event, turns, replies, n),
    decreases n,
{
    if n > 0 {
        lemma_backed(s, event, turns, replies, n - 1);
        assert(follows_at(turns, replies, n - 1));
        match turns[n - 1].0.job {
            Job::LocalUpsert(_, _) => lemma_upsert_stays_backed(turns, replies, n - 1),
            Job::RemoteUpsert(_) => {
                let wanted = event->Remote_0->Upsert_0.virtual_path;
                lemma_remote_stays_backed(
                    turns,
                    replies,
                    n - 1,
                    wanted,
                    local_of(s.config.watch, wanted)->0,
                );
            },
            _ => {},
        }
    }
}

/// Whatever the event, a record is written only after its file was transferred in
/// the same work with success, and says what was found out: the fingerprint of what
/// was sent or fetched, the timestamp of the local file and what the remote store
/// told of the remote one.
pub proof fn law_records_follow_transfers(
    s: EngineView,
    event: SyncEventView,
    turns: Seq<Turn>,
    replies: Seq<(ReplyView, u64)>,
    n: int,
    record: FileStateView,
)
    requires
        follows(turns, replies),
        turns[0] == handle(s, event),
        0 <= n <= replies.len(),
        asks(turns[n], Request::Save(record)),
    ensures
        record_backed(turns, replies, n, record),
{
    lemma_backed(s, event, turns, replies, n);
}

/// Whether the reply to turn `k` tells that the file at the path, with the
/// fingerprint that was told two turns before, has no record with that fingerprint.
pub open spec fn found_other(
    turns: Seq<Turn>,
    replies: Seq<(ReplyView, u64)>,
    k: int,
    path: Seq<u8>,
) -> bool {
    &&& 2 <= k < replies.len()
    &&& asks(turns[k - 2], Request::HashFile(path))
    &&& replies[k - 2].0 matches ReplyView::Hash(Ok(md5_hash))
    &&& asks(turns[k], Request::FindByLocal(path))
    &&& replies[k].0 matches ReplyView::Found(Ok(record))
    &&& record is Some ==> record->0.md5_hash != md5_hash
}

/// In the work on local files, a file is uploaded only to the remote path that it is
/// mapped to, and only where it was found to have no record with its fingerprint.
pub proof fn law_uploads_follow_changes(
    s: EngineView,
    event: SyncEventView,
    turns: Seq<Turn>,
    replies: Seq<(ReplyView, u64)>,
    n: int,
    virtual_path: Seq<char>,
    local_path: Seq<u8>,
)
    requires
        follows(turns, replies),
        turns[0] == handle(s, event),
        is_local_work(event),
        0 <= n <= replies.len(),
        asks(turns[n], Request::Upload { virtual_path, local_path }),
    ensures
        mapped_before(turns, replies, n, local_path, virtual_path),
        exists|k: int| 0 <= k < n && #[trigger] found_other(turns, replies, k, local_path),
{
    lemma_backed(s, event, turns, replies, n);
    match turns[n].0.job {
        Job::LocalUpsert(LocalUpsert::Upload { candidate }, _) => {
            let record = choose|record: Option<FileStateView>|
                #[trigger] looked_up_before(turns, replies, n, candidate, record) && (record is Some
                    ==> record->0.md5_hash != candidate.md5_hash);
            assert(looked_up_before(turns, replies, n, candidate, record));
            assert(seen_at(turns, replies, n - 4, local_path, virtual_path));
            assert(found_other(turns, replies, n - 1, local_path));
        },
        Job::LocalUpsert(LocalUpsert::UploadRenamed { candidate, .. }, _) => {
            assert(seen_at(turns, replies, n - 5, local_path, virtual_path));
            assert(found_other(turns, replies, n - 2, local_path));
        },
        _ => {},
    }
}

/// Whether turn `k` asks for the record of a file that was mapped to the remote path
/// and fingerprinted before, and it has none.
pub open spec fn found_new(
    turns: Seq<Turn>,
    replies: Seq<(ReplyView, u64)>,
    k: int,
    path: Seq<u8>,
    virtual_path: Seq<char>,
    md5_hash: Seq<char>,
) -> bool {
    &&& told(turns, replies, k, Request::FindByLocal(path), ReplyView::Found(Ok(None)))
    &&& mapped_before(turns, replies, k, path, virtual_path)
    &&& hashed_before(turns, replies, k, path, md5_hash)
}

/// A remote file is given another path only where a file without a record, mapped to
/// that path, has the content of another file whose delete waits, and it is that
/// file's remote copy.
pub proof fn law_renames_follow_deletes(
    s: EngineView,
    event: SyncEventView,
    turns: Seq<Turn>,
    replies: Seq<(ReplyView, u64)>,
    n: int,
    from: Seq<char>,
    to: Seq<char>,
)
    requires
        follows(turns, replies),
        turns[0] == handle(s, event),
        0 <= n <= replies.len(),
        asks(turns[n], Request::Rename { from, to }),
    ensures
        is_local_work(event),
        exists|path: Seq<u8>, i: int|
            0 <= i < turns[n].0.pending.len() && #[trigger] found_new(
                turns,
                replies,
                n - 1,
                path,
                to,
                (#[trigger] turns[n].0.pending[i]).1.record.md5_hash,
            ) && turns[n].0.pending[i].1.record.virtual_remote_path == from && !same_path(
                turns[n].0.pending[i].0,
                path,
            ),
{
    lemma_backed(s, event, turns, replies, n);
    match turns[n].0.job {
        Job::LocalUpsert(LocalUpsert::Rename { candidate, old_path }, _) => {
            let pending = turns[n].0.pending;
            let i = choose|i: int|
                0 <= i < pending.len() && (#[trigger] pending[i]).0 == old_path && !same_path(
                    old_path,
                    candidate.path,
                ) && pending[i].1.record.md5_hash == candidate.md5_hash
                    && pending[i].1.record.virtual_remote_path == from;
            assert(seen_at(turns, replies, n - 4, candidate.path, to));
            assert(told(
                turns,
                replies,
                n - 3,
                Request::HashFile(candidate.path),
                ReplyView::Hash(Ok(candidate.md5_hash)),
            ));
            assert(found_new(
                turns,
                replies,
                n - 1,
                candidate.path,
                to,
                pending[i].1.record.md5_hash,
            ));
        },
        _ => {},
    }
}

/// The timestamp in a record is set anew only where the file was found to have the
/// content that its record says, and to the timestamp that was read of it.
pub proof fn law_touches_follow_a_match(
    s: EngineView,
    event: SyncEventView,
    turns: Seq<Turn>,
    replies: Seq<(ReplyView, u64)>,
    n: int,
    path: Seq<u8>,
    local_timestamp: i64,
)
    requires
        follows(turns, replies),
        turns[0] == handle(s, event),
        0 <= n <= replies.len(),
        asks(turns[n], Request::SetLocalTimestamp(path, local_timestamp)),
    ensures
        n >= 3,
        asks(turns[n - 3], Request::HashFile(path)),
        told(
            turns,
            replies,
            n - 2,
            Request::ReadModified(path),
            ReplyView::Modified(Ok(local_timestamp)),
        ),
        asks(turns[n - 1], Request::FindByLocal(path)),
        exists|record: FileStateView|
            #![trigger record.md5_hash]
            replies[n - 1].0 == ReplyView::Found(Ok(Some(record))) && replies[n - 3].0
                == ReplyView::Hash(Ok(record.md5_hash)),
{
    lemma_backed(s, event, turns, replies, n);
    let (candidate, record) = choose|
        candidate: Candidate<Seq<u8>, Seq<char>>,
        record: FileStateView,
    | #[trigger]
        looked_up_before(turns, replies, n, candidate, Some(record)) && record.md5_hash
            == candidate.md5_hash && asks(
            turns[n],
            Request::SetLocalTimestamp(candidate.path, candidate.local_timestamp),
        );
    assert(looked_up_before(turns, replies, n, candidate, Some(record)));
}

/// What the work on an event asks for: that on local files never fetches anything and
/// touches no local file; a local delete only reads records; a remote change is
/// fetched and answered, and deletes nothing on either side; a remote delete
/// transfers nothing and deletes nothing on the remote side.
pub proof fn law_events_ask_only_for_their_requests(
    s: EngineView,
    event: SyncEventView,
    turns: Seq<Turn>,
    replies: Seq<(ReplyView, u64)>,
    n: int,
    request: RequestView,
)
    requires
        follows(turns, replies),
        turns[0] == handle(s, event),
        0 <= n <= replies.len(),
        asks(turns[n], request),
    ensures
        match event {
            SyncEventView::Local(LocalFileEventKind::Upsert, _) => is_upsert_request(request),
            SyncEventView::Local(LocalFileEventKind::Delete, path) => request
                == RequestView::ListByLocalPrefix(path),
            SyncEventView::Remote(RemoteChangeView::Upsert(_)) => is_fetch_request(request),
            SyncEventView::Remote(RemoteChangeView::Delete(_)) => is_delete_request(request),
            SyncEventView::SyncNow => is_upsert_request(request) || is_visit_request(request)
                || request is TrashRemote,
            SyncEventView::Shutdown => false,
        },
{
    lemma_backed(s, event, turns, replies, n);
}

/// What a remote change fetches is the remote file that it tells of, and it is
/// fetched onto the local file that the watch entries map it to or beside it, as a
/// conflicted copy. What it sends is that local file, to that remote path.
pub proof fn law_remote_changes_move_one_file(
    s: EngineView,
    change: RemoteFileMetaView,
    turns: Seq<Turn>,
    replies: Seq<(ReplyView, u64)>,
    n: int,
    virtual_path: Seq<char>,
    local_path: Seq<u8>,
)
    requires
        follows(turns, replies),
        turns[0] == handle(s, SyncEventView::Remote(RemoteChangeView::Upsert(change))),
        0 <= n <= replies.len(),
    ensures
        asks(turns[n], Request::Download { virtual_path, local_path }) ==> {
            &&& virtual_path == change.virtual_path
            &&& local_of(s.config.watch, virtual_path) matches Some(place)
            &&& local_path == place || is_copy_path(place, local_path)
        },
        asks(turns[n], Request::Upload { virtual_path, local_path }) ==> virtual_path
            == change.virtual_path && local_of(s.config.watch, virtual_path) == Some(local_path),
{
    lemma_backed(s, SyncEventView::Remote(RemoteChangeView::Upsert(change)), turns, replies, n);
}

/// The failure that a reply tells of, if it does.
pub open spec fn failure_of(reply: ReplyView) -> Option<Seq<char>> {
    match reply {
        ReplyView::Hash(Err(why)) => Some(why),
        ReplyView::Modified(Err(why)) => Some(why),
        ReplyView::Found(Err(why)) => Some(why),
        ReplyView::Records(Err(why)) => Some(why),
        ReplyView::Stored(Err(why)) => Some(why),
        ReplyView::Metadata(Err(why)) => Some(why),
        ReplyView::Done(Err(why)) => Some(why),
        _ => None,
    }
}

/// Whether a failure is the given one, or the given one with words before it, or
/// that the reply was not to what was asked.
pub open spec fn fails_with(turn: Turn, why: Seq<char>) -> bool {
    &&& turn.1 matches Action::Finish(Err(said))
    &&& said == why || said == UNEXPECTED_REPLY@ || exists|words: Seq<char>|
        said == #[trigger] (words + ": "@ + why)
}

/// A request that fails ends the work with that failure. There are two exceptions: a
/// remote rename that fails is made up for by an upload, and that a local file could
/// not be moved to the desktop trash keeps nothing from going on.
pub proof fn law_failures_end_the_work(
    s: EngineView,
    event: SyncEventView,
    turns: Seq<Turn>,
    replies: Seq<(ReplyView, u64)>,
    n: int,
    request: RequestView,
)
    requires
        follows(turns, replies),
        turns[0] == handle(s, event),
        0 <= n < replies.len(),
        failure_of(replies[n].0) is Some,
        asks(turns[n], request),
        !(request is Rename),
        !(request is TrashLocal),
    ensures
        fails_with(turns[n + 1], failure_of(replies[n].0)->0),
        turns[n + 1].0.pending == turns[n].0.pending,
{
    lemma_backed(s, event, turns, replies, n);
    assert(follows_at(turns, replies, n));
    match turns[n].0.job {
        Job::RemoteUpsert(RemoteUpsert::StoreCopy { virtual_path, copy_path, .. }) => {
            let words = copy_failed_text(virtual_path, copy_path);
            let why = failure_of(replies[n].0)->0;
            assert(turns[n + 1].1 is Finish);
            if replies[n].0 is Stored {
                assert(turns[n + 1].1 == ActionView::Finish(Err(words + ": "@ + why)));
            }
        },
        _ => {},
    }
}

/// A change of a remote file that is not there any more changes nothing.
pub proof fn law_vanished_remote_files_are_left_alone(
    s: EngineView,
    change: RemoteFileMetaView,
    now: u64,
)
    ensures
        ({
            let begun = handle(s, SyncEventView::Remote(RemoteChangeView::Upsert(change)));
            begun.1 is Perform ==> {
                let told = step(begun.0, ReplyView::Metadata(Ok(None)), now);
                &&& asks(begun, Request::GetMetadata(change.virtual_path))
                &&& told.1 == ActionView::Finish(Ok(()))
                &&& told.0.pending == s.pending
            }
        }),
{
}

/// Where the remote version cannot be given a name beside the local file, because the file
/// lies in no folder or the time is not known, a conflict ends with a failure: nothing is
/// fetched, sent or recorded.
pub proof fn law_conflicts_without_a_copy_change_nothing(
    s: EngineView,
    change: RemoteFileMetaView,
    known: RemoteFileMetaView,
    record: FileStateView,
    facts: PathFacts,
    md5_hash: Seq<char>,
    clock: spec_fn(int) -> u64,
)
    requires
        local_of(s.config.watch, change.virtual_path) is Some,
        known.md5_hash != record.md5_hash,
        facts.kind is File,
        md5_hash != record.md5_hash,
    ensures
        ({
            let local_path = local_of(s.config.watch, change.virtual_path)->0;
            let turns = compared(s, change, known, Some(record), clock);
            let seen = step(turns.last().0, ReplyView::Facts(facts), clock(2));
            let hashed = step(seen.0, ReplyView::Hash(Ok(md5_hash)), clock(3));
            &&& compares(turns, change.virtual_path, local_path)
            &&& asks(seen, Request::HashFile(local_path))
            &&& parent_of(local_path) is None ==> hashed.1 is Finish && hashed.1->Finish_0 is Err
            &&& parent_of(local_path) is Some ==> {
                let timed = step(hashed.0, ReplyView::Clock(None), clock(4));
                &&& asks(hashed, Request::ReadClock)
                &&& timed.1 is Finish && timed.1->Finish_0 is Err
            }
        }),
{
}

/// An event wakes the engine to the work on it, whatever the time, but for a stop.
pub proof fn law_events_are_worked_on(s: EngineView, event: SyncEvent, now: u64)
    requires
        event != SyncEvent::Shutdown,
    ensures
        woken(s, Wake::Event(event), now) == handle(s, event@),
{
}

/// A remote copy that cannot be moved to the trash, or a record that cannot be removed,
/// ends the work on the deletes that wait with that failure; those that are left still
/// wait.
pub proof fn law_a_failed_flush_ends_the_work(s: EngineView, why: Seq<char>, now: u64)
    requires
        s.job is Flush,
    ensures
        step(s, ReplyView::Done(Err(why)), now).1 == ActionView::Finish(Err(why)),
        step(s, ReplyView::Done(Err(why)), now).0.pending == s.pending,
{
}

} // verus!
