//! The engine's work from its first turn to its last, and what remote deletes
//! come to as a whole.
use vstd::prelude::*;

use crate::config::{local_of, PathFacts, PathKind};
use crate::events::{RemoteChangeView, SyncEventView};
use crate::state_db::FileStateView;
use crate::sync_engine::laws::asks;
use crate::sync_engine::model::{
    delete_record, finish, handle, step, EngineView, ReplyView, Request, RequestView, Turn,
};

verus! {

/// Whether the turn after the one with the given index follows from it, by the
/// reply to what it asks.
pub open spec fn follows_at(turns: Seq<Turn>, replies: Seq<(ReplyView, u64)>, i: int) -> bool {
    &&& turns[i].1 is Perform
    &&& turns[i + 1] == step(turns[i].0, replies[i].0, replies[i].1)
}

/// Whether the turns follow each other, each by the reply to what was asked
/// before, at its clock reading.
pub open spec fn follows(turns: Seq<Turn>, replies: Seq<(ReplyView, u64)>) -> bool {
    &&& turns.len() == replies.len() + 1
    &&& forall|i: int| 0 <= i < replies.len() ==> #[trigger] follows_at(turns, replies, i)
}

/// Whether the replies are the given ones, whenever they come.
pub open spec fn tell(replies: Seq<(ReplyView, u64)>, told: Seq<ReplyView>) -> bool {
    &&& replies.len() == told.len()
    &&& forall|i: int| 0 <= i < replies.len() ==> (#[trigger] replies[i]).0 == told[i]
}

/// The turns from the one with the given index on follow each other, too.
pub proof fn lemma_follows_skip(turns: Seq<Turn>, replies: Seq<(ReplyView, u64)>, n: int)
    requires
        follows(turns, replies),
        0 <= n <= replies.len(),
    ensures
        follows(turns.skip(n), replies.skip(n)),
        turns.skip(n)[0] == turns[n],
        turns.skip(n).last() == turns.last(),
{
    let after = turns.skip(n);
    let left = replies.skip(n);
    assert forall|i: int| 0 <= i < left.len() implies #[trigger] follows_at(after, left, i) by {
        assert(follows_at(turns, replies, i + n));
    }
}

/// What is asked for a local path whose remote file is gone: what there is at
/// it and, where there is something, its move to the desktop trash.
pub open spec fn clearing_requests(path: Seq<u8>, kind: PathKind) -> Seq<RequestView> {
    if kind == PathKind::Missing {
        seq![Request::Inspect(path)]
    } else {
        seq![Request::Inspect(path), Request::TrashLocal(path)]
    }
}

/// The replies to these requests. That the move failed does not count.
pub open spec fn clearing_replies(facts: PathFacts, trashed: Result<(), Seq<char>>) -> Seq<
    ReplyView,
> {
    if facts.kind == PathKind::Missing {
        seq![ReplyView::Facts(facts)]
    } else {
        seq![ReplyView::Facts(facts), ReplyView::Done(trashed)]
    }
}

/// What is asked for the records from the given one on: each one's path is
/// cleared, then the record is removed.
pub open spec fn delete_requests(
    records: Seq<FileStateView>,
    next: int,
    facts: spec_fn(int) -> PathFacts,
) -> Seq<RequestView>
    decreases records.len() - next,
{
    if next >= records.len() {
        Seq::empty()
    } else {
        let path = records[next].local_path;
        clearing_requests(path, facts(next).kind) + seq![Request::RemoveByLocal(path)]
            + delete_requests(records, next + 1, facts)
    }
}

/// The replies to these requests, where each record can be removed.
pub open spec fn delete_replies(
    count: nat,
    next: int,
    facts: spec_fn(int) -> PathFacts,
    trashed: spec_fn(int) -> Result<(), Seq<char>>,
) -> Seq<ReplyView>
    decreases count - next,
{
    if next >= count {
        Seq::empty()
    } else {
        clearing_replies(facts(next), trashed(next)) + seq![ReplyView::Done(Ok(()))]
            + delete_replies(count, next + 1, facts, trashed)
    }
}

/// The records from the given one on are worked through.
proof fn lemma_deletes_from(
    s: EngineView,
    next: usize,
    facts: spec_fn(int) -> PathFacts,
    trashed: spec_fn(int) -> Result<(), Seq<char>>,
    turns: Seq<Turn>,
    replies: Seq<(ReplyView, u64)>,
)
    requires
        next <= s.records.len() <= usize::MAX,
        follows(turns, replies),
        turns[0] == delete_record(s, next),
        tell(replies, delete_replies(s.records.len(), next as int, facts, trashed)),
    ensures
        turns.len() == delete_requests(s.records, next as int, facts).len() + 1,
        forall|i: int|
            0 <= i < replies.len() ==> asks(
                #[trigger] turns[i],
                delete_requests(s.records, next as int, facts)[i],
            ),
        turns.last() == finish(s),
    decreases s.records.len() - next,
{
    let count = s.records.len();
    if next < count {
        let told = delete_replies(count, next as int, facts, trashed);
        let wanted = delete_requests(s.records, next as int, facts);
        let path = s.records[next as int].local_path;
        let first = clearing_requests(path, facts(next as int).kind);
        let n = first.len() + 1;
        assert(replies[0].0 == told[0]);
        assert(follows_at(turns, replies, 0));
        assert(replies[1].0 == told[1]);
        assert(follows_at(turns, replies, 1));
        if facts(next as int).kind != PathKind::Missing {
            assert(replies[2].0 == told[2]);
            assert(follows_at(turns, replies, 2));
        }
        let after = turns[n - 1].0;
        assert(turns[n as int] == delete_record(after, (next + 1) as usize));
        lemma_follows_skip(turns, replies, n as int);
        let later = delete_replies(count, next + 1, facts, trashed);
        assert(tell(replies.skip(n as int), later)) by {
            assert forall|i: int| 0 <= i < replies.skip(n as int).len() implies (
            #[trigger] replies.skip(n as int)[i]).0 == later[i] by {
                assert(replies[i + n].0 == told[i + n]);
            }
        }
        lemma_deletes_from(
            after,
            (next + 1) as usize,
            facts,
            trashed,
            turns.skip(n as int),
            replies.skip(n as int),
        );
        assert forall|i: int| 0 <= i < replies.len() implies asks(#[trigger] turns[i], wanted[i]) by {
            if i >= n {
                assert(turns[i] == turns.skip(n as int)[i - n]);
                assert(wanted[i] == delete_requests(s.records, next + 1, facts)[i - n]);
            }
        }
    }
}

/// A remote delete works through all the records at or below the path, in
/// order: the local file of each that is there is moved to the desktop trash,
/// whatever comes of that, and then its record is removed. The record of a file
/// that is not there is removed at once. Nothing is deleted for good, and no
/// remote request is made.
pub proof fn law_remote_deletes_use_the_desktop_trash(
    s: EngineView,
    virtual_path: Seq<char>,
    records: Seq<FileStateView>,
    facts: spec_fn(int) -> PathFacts,
    trashed: spec_fn(int) -> Result<(), Seq<char>>,
    turns: Seq<Turn>,
    replies: Seq<(ReplyView, u64)>,
)
    requires
        0 < records.len() <= usize::MAX,
        follows(turns, replies),
        turns[0] == handle(s, SyncEventView::Remote(RemoteChangeView::Delete(virtual_path))),
        tell(
            replies,
            seq![ReplyView::Records(Ok(records))] + delete_replies(
                records.len(),
                0,
                facts,
                trashed,
            ),
        ),
    ensures
        asks(turns[0], Request::ListByRemotePrefix(virtual_path)),
        turns.len() == delete_requests(records, 0, facts).len() + 2,
        forall|i: int|
            0 < i < replies.len() ==> asks(
                #[trigger] turns[i],
                delete_requests(records, 0, facts)[i - 1],
            ),
        turns.last() == finish(s),
{
    let told = seq![ReplyView::Records(Ok(records))] + delete_replies(
        records.len(),
        0,
        facts,
        trashed,
    );
    assert(replies[0].0 == told[0]);
    assert(follows_at(turns, replies, 0));
    let listed = EngineView { records, ..turns[0].0 };
    assert(turns[1] == delete_record(listed, 0));
    lemma_follows_skip(turns, replies, 1);
    assert(tell(replies.skip(1), delete_replies(records.len(), 0, facts, trashed))) by {
        assert forall|i: int| 0 <= i < replies.skip(1).len() implies (#[trigger] replies.skip(
            1,
        )[i]).0 == delete_replies(records.len(), 0, facts, trashed)[i] by {
            assert(replies[i + 1].0 == told[i + 1]);
        }
    }
    lemma_deletes_from(listed, 0, facts, trashed, turns.skip(1), replies.skip(1));
    assert forall|i: int| 0 < i < replies.len() implies asks(
        #[trigger] turns[i],
        delete_requests(records, 0, facts)[i - 1],
    ) by {
        assert(turns[i] == turns.skip(1)[i - 1]);
    }
}

/// A remote delete of which nothing is recorded moves the local file that the
/// watch entries map the path to, if it is there, to the desktop trash, whatever
/// comes of that; then what is recorded under the remote path is removed.
pub proof fn law_untracked_remote_deletes_use_the_desktop_trash(
    s: EngineView,
    virtual_path: Seq<char>,
    facts: PathFacts,
    trashed: Result<(), Seq<char>>,
    turns: Seq<Turn>,
    replies: Seq<(ReplyView, u64)>,
)
    requires
        follows(turns, replies),
        turns[0] == handle(s, SyncEventView::Remote(RemoteChangeView::Delete(virtual_path))),
        tell(
            replies,
            seq![ReplyView::Records(Ok(Seq::empty()))] + match local_of(
                s.config.watch,
                virtual_path,
            ) {
                Some(_) => clearing_replies(facts, trashed),
                None => Seq::empty(),
            } + seq![ReplyView::Done(Ok(()))],
        ),
    ensures
        ({
            let wanted = seq![RequestView::ListByRemotePrefix(virtual_path)] + match local_of(
                s.config.watch,
                virtual_path,
            ) {
                Some(path) => clearing_requests(path, facts.kind),
                None => Seq::empty(),
            } + seq![RequestView::RemoveByRemote(virtual_path)];
            &&& turns.len() == wanted.len() + 1
            &&& forall|i: int|
                0 <= i < wanted.len() ==> asks(#[trigger] turns[i], wanted[i])
        }),
        turns.last() == finish(s),
{
    let told = seq![ReplyView::Records(Ok(Seq::empty()))] + match local_of(
        s.config.watch,
        virtual_path,
    ) {
        Some(_) => clearing_replies(facts, trashed),
        None => Seq::empty(),
    } + seq![ReplyView::Done(Ok(()))];
    assert(replies[0].0 == told[0]);
    assert(follows_at(turns, replies, 0));
    assert(replies[1].0 == told[1]);
    assert(follows_at(turns, replies, 1));
    if local_of(s.config.watch, virtual_path) is Some {
        assert(replies[2].0 == told[2]);
        assert(follows_at(turns, replies, 2));
        if facts.kind != PathKind::Missing {
            assert(replies[3].0 == told[3]);
            assert(follows_at(turns, replies, 3));
        }
    }
}

} // verus!
