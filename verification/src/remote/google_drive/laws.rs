//! What holds of the Drive store's work.
use vstd::prelude::*;

use crate::events::RemoteChangeView;
use crate::keyed::{find, lemma_find, lemma_find_is, lemma_find_none};
use crate::remote::google_drive::changes::{
    begin_poll, begin_translate, climb, list_page, poll_from, poll_step, translate_step, PathStage,
    PollStage, PollTurnView, TranslateStage,
};
use crate::remote::google_drive::folders::{
    begin_sandbox, chain_from, folder_at, known_folder, learned, running_path, sandbox_step,
    DriveStoreView, SandboxStage,
};
use crate::remote::google_drive::protocol::{
    ChangePageView, DriveReplyView, DriveRequest, StoreRequestView, Turn,
};
use crate::remote::google_drive::transfers::{rename_step, RenameStage};
use crate::remote::google_drive::{
    dot_dot, path_segments, DriveChangeView, DriveFileView, Timestamp,
};
use crate::text::joined;
use crate::virtual_path::{law_segments_are_proper, name_segments, proper};

verus! {

/// A remote path that is accepted goes down only: each of its names names
/// something, none is `..`, and none holds a slash or a backslash.
pub proof fn law_accepted_paths_go_down(raw: Seq<char>)
    requires
        path_segments(raw) is Ok,
    ensures
        path_segments(raw)->Ok_0.len() > 0,
        forall|i: int|
            0 <= i < path_segments(raw)->Ok_0.len() ==> {
                let name = #[trigger] path_segments(raw)->Ok_0[i];
                proper(name) && name != dot_dot() && !name.contains('/') && !name.contains('\\')
            },
{
    law_segments_are_proper(raw);
    let parts = name_segments(raw);
    assert forall|i: int| 0 <= i < parts.len() implies #[trigger] parts[i] != dot_dot() by {
        if parts[i] == dot_dot() {
            assert(parts.contains(dot_dot()));
        }
    }
}

/// The path of a folder is its names with one slash between each two.
pub proof fn law_running_path_joins_the_names(names: Seq<Seq<char>>)
    requires
        forall|i: int| 0 <= i < names.len() ==> (#[trigger] names[i]).len() > 0,
    ensures
        running_path(names) == joined(names, '/'),
        names.len() > 0 ==> running_path(names).len() > 0,
    decreases names.len(),
{
    if names.len() > 0 {
        let head = names.drop_last();
        assert forall|i: int| 0 <= i < head.len() implies (#[trigger] head[i]).len() > 0 by {
            assert(head[i] == names[i]);
        }
        law_running_path_joins_the_names(head);
        assert(names.last().len() > 0);
    }
}

/// Once the sandbox folder is found, it is not looked for again.
pub proof fn law_the_sandbox_is_found_once(
    s: DriveStoreView,
    stage: SandboxStage,
    reply: DriveReplyView,
)
    requires
        sandbox_step(s, stage, reply).1 matches Turn::Done(Ok(_)),
    ensures
        begin_sandbox(sandbox_step(s, stage, reply).0) == sandbox_step(s, stage, reply).1,
{
}

/// What is learned of a folder is known, and nothing else is forgotten.
pub proof fn law_learned_folders_are_known(
    s: DriveStoreView,
    path: Seq<char>,
    id: Seq<char>,
    other: Seq<char>,
)
    ensures
        known_folder(learned(s, path, id).folder_cache, path) == Some(id),
        other != path ==> known_folder(learned(s, path, id).folder_cache, other) == known_folder(
            s.folder_cache,
            other,
        ),
{
    let cache = s.folder_cache;
    let after = learned(s, path, id).folder_cache;
    lemma_find(cache, folder_at(path));
    match find(cache, folder_at(path)) {
        Some(i) => {
            assert forall|j: int| 0 <= j < i implies !folder_at(path)(#[trigger] after[j]) by {
                assert(!folder_at(path)(cache[j]));
            }
            lemma_find_is(after, folder_at(path), i);
        },
        None => {
            assert forall|j: int| 0 <= j < cache.len() implies !folder_at(path)(
                #[trigger] after[j],
            ) by {
                assert(!folder_at(path)(cache[j]));
            }
            lemma_find_is(after, folder_at(path), cache.len() as int);
        },
    }
    if other != path {
        lemma_find(cache, folder_at(other));
        match find(cache, folder_at(other)) {
            Some(k) => {
                assert forall|j: int| 0 <= j < k implies !folder_at(other)(#[trigger] after[j]) by {
                    assert(!folder_at(other)(cache[j]));
                }
                lemma_find_is(after, folder_at(other), k);
            },
            None => {
                assert forall|j: int| 0 <= j < after.len() implies !folder_at(other)(
                    #[trigger] after[j],
                ) by {
                    if j < cache.len() {
                        assert(!folder_at(other)(cache[j]));
                    }
                }
                lemma_find_none(after, folder_at(other));
            },
        }
    }
}

/// A chain whose folders are all known is walked without a question.
pub proof fn law_known_chains_need_no_question(
    s: DriveStoreView,
    folders: Seq<Seq<char>>,
    next: int,
    parent_id: Seq<char>,
)
    requires
        0 <= next < folders.len(),
        forall|i: int|
            next <= i < folders.len() ==> known_folder(
                s.folder_cache,
                #[trigger] running_path(folders.take(i + 1)),
            ) is Some,
    ensures
        chain_from(s, folders, next, parent_id) matches Turn::Done(Ok(id)) && known_folder(
            s.folder_cache,
            running_path(folders),
        ) == Some(id),
    decreases folders.len() - next,
{
    let path = running_path(folders.take(next + 1));
    assert(known_folder(s.folder_cache, path) is Some);
    let id = known_folder(s.folder_cache, path)->0;
    if next + 1 == folders.len() {
        assert(folders.take(next + 1) == folders);
        reveal_with_fuel(chain_from, 2);
    } else {
        law_known_chains_need_no_question(s, folders, next + 1, id);
    }
}

/// The way up to the sandbox comes to no folder twice.
pub proof fn law_the_way_up_has_no_loops(
    sandbox_id: Seq<char>,
    names: Seq<Seq<char>>,
    visited: Seq<Seq<char>>,
    parent: Option<Seq<char>>,
)
    requires
        visited.no_duplicates(),
    ensures
        climb(sandbox_id, names, visited, parent) matches Turn::Ask(
            PathStage::Parent { visited: after, .. },
            _,
        ) ==> after.no_duplicates() && after.len() == visited.len() + 1,
{
    if parent is Some && !visited.contains(parent->0) {
        let after = visited.push(parent->0);
        assert forall|i: int, j: int| 0 <= i < after.len() && 0 <= j < after.len() && i != j implies
            after[i] != after[j] by {
            if i == visited.len() {
                assert(visited.contains(visited[j]));
            } else if j == visited.len() {
                assert(visited.contains(visited[i]));
            }
        }
    }
}

/// A rename never moves the file that it renames to the trash.
pub proof fn law_a_rename_does_not_trash_its_source(
    stage: RenameStage<Seq<char>>,
    reply: DriveReplyView,
    now: Timestamp,
)
    ensures
        rename_step(stage, reply, now) matches Turn::Ask(
            RenameStage::TrashTarget { plan, .. },
            DriveRequest::TrashFile(id),
        ) ==> id != plan.source_id,
{
}

/// Only a file that is there is reported as changed: neither a folder, nor one
/// that the change or Drive itself calls removed or in the trash.
pub proof fn law_gone_files_are_not_upserted(
    change: DriveChangeView,
    stage: TranslateStage<Seq<char>, DriveFileView>,
    reply: DriveReplyView,
    now: Timestamp,
)
    ensures
        !(begin_translate(change) matches Turn::Done(Ok(Some(_)))),
        begin_translate(change) matches Turn::Ask(TranslateStage::Mapped { file, gone, .. }, _)
            ==> !file.is_folder() && gone == (change.removed == Some(true) || file.is_trashed()),
        translate_step(stage, reply, now) matches Turn::Ask(
            TranslateStage::FetchedPath { file, .. },
            _,
        ) ==> !file.is_folder() && !file.is_trashed(),
        translate_step(stage, reply, now) matches Turn::Done(
            Ok(Some(RemoteChangeView::Upsert(_))),
        ) ==> match stage {
            TranslateStage::Mapped { gone, .. } => !gone,
            TranslateStage::FetchedPath { .. } => true,
            _ => false,
        },
{
}

/// The page token moves only after the last change of the last page was looked
/// at, or where there is none to go on from: a poll that fails is made again
/// from where it began.
pub proof fn law_the_page_token_moves_last(
    stage: PollStage<Seq<char>, Seq<RemoteChangeView>, ChangePageView, int>,
    reply: DriveReplyView,
)
    ensures
        poll_step(stage, reply) matches Turn::Ask(_, DriveRequest::SaveToken(_)) ==> match stage {
            PollStage::Start => true,
            PollStage::List { .. } => reply matches DriveReplyView::Changes(Ok(page))
                && page.changes.len() == 0 && page.next_page_token is None,
            PollStage::Translate { page, next, .. } => next + 1 == page.changes.len()
                && page.next_page_token is None,
            _ => false,
        },
{
}

/// Whether the turns of a poll follow each other, each by the reply to what was
/// asked before.
pub open spec fn poll_follows(turns: Seq<PollTurnView>, replies: Seq<DriveReplyView>) -> bool {
    &&& turns.len() == replies.len() + 1
    &&& forall|i: int|
        0 <= i < replies.len() ==> {
            &&& turns[i] is Ask
            &&& turns[i + 1] == poll_step(turns[i]->Ask_0, #[trigger] replies[i])
        }
}

/// The events that changes mean, in order, without those that mean nothing.
pub open spec fn meant(meanings: Seq<Option<RemoteChangeView>>) -> Seq<RemoteChangeView>
    decreases meanings.len(),
{
    if meanings.len() == 0 {
        Seq::empty()
    } else {
        match meanings[0] {
            Some(event) => seq![event] + meant(meanings.drop_first()),
            None => meant(meanings.drop_first()),
        }
    }
}

/// A page of changes with what each of them means.
pub struct ReadPage {
    pub page: ChangePageView,
    pub meanings: Seq<Option<RemoteChangeView>>,
}

/// Whether each change of a page has its meaning.
pub open spec fn page_is_read(read: ReadPage) -> bool {
    read.page.changes.len() == read.meanings.len()
}

/// The replies that tell what each of the changes means.
pub open spec fn meaning_replies(meanings: Seq<Option<RemoteChangeView>>) -> Seq<DriveReplyView> {
    meanings.map_values(|meaning: Option<RemoteChangeView>| DriveReplyView::Change(Ok(meaning)))
}

/// The replies that tell of pages: each page, then what its changes mean.
pub open spec fn page_replies(pages: Seq<ReadPage>) -> Seq<DriveReplyView>
    decreases pages.len(),
{
    if pages.len() == 0 {
        Seq::empty()
    } else {
        seq![DriveReplyView::Changes(Ok(pages[0].page))] + meaning_replies(pages[0].meanings)
            + page_replies(pages.drop_first())
    }
}

/// The events that the changes of pages mean, in order.
pub open spec fn events_of(pages: Seq<ReadPage>) -> Seq<RemoteChangeView>
    decreases pages.len(),
{
    if pages.len() == 0 {
        Seq::empty()
    } else {
        meant(pages[0].meanings) + events_of(pages.drop_first())
    }
}

/// The token that the page with the given index is asked for by: the kept one,
/// then the one that the page before it names.
pub open spec fn token_at(token: Seq<char>, pages: Seq<ReadPage>, i: int) -> Seq<char> {
    if i <= 0 {
        token
    } else {
        pages[i - 1].page.next_page_token->0
    }
}

/// The token that is kept after the pages.
pub open spec fn token_after(token: Seq<char>, pages: Seq<ReadPage>) -> Seq<char> {
    match pages.last().page.new_start_page_token {
        Some(fresh) => fresh,
        None => token_at(token, pages, pages.len() - 1),
    }
}

/// Whether each page but the last names the one that follows it.
pub open spec fn pages_are_chained(pages: Seq<ReadPage>) -> bool {
    &&& pages.len() > 0
    &&& forall|i: int|
        0 <= i < pages.len() ==> page_is_read(#[trigger] pages[i]) && (
        pages[i].page.next_page_token is None <==> i == pages.len() - 1)
}

/// The turns from the one with the given index on follow each other, too.
proof fn lemma_poll_skip(turns: Seq<PollTurnView>, replies: Seq<DriveReplyView>, n: int)
    requires
        poll_follows(turns, replies),
        0 <= n <= replies.len(),
    ensures
        poll_follows(turns.skip(n), replies.skip(n)),
        turns.skip(n)[0] == turns[n],
        turns.skip(n).last() == turns.last(),
{
    let after = turns.skip(n);
    let left = replies.skip(n);
    assert forall|i: int| 0 <= i < left.len() implies after[i] is Ask && after[i + 1] == poll_step(
        after[i]->Ask_0,
        #[trigger] left[i],
    ) by {
        assert(left[i] == replies[i + n]);
    }
}

/// The changes of a page are looked at one after the other, and what they mean
/// is added to the events, in their order, without those that mean nothing.
pub proof fn law_events_keep_the_order_of_changes(
    token: Seq<char>,
    events: Seq<RemoteChangeView>,
    read: ReadPage,
    next: int,
    turns: Seq<PollTurnView>,
    replies: Seq<DriveReplyView>,
)
    requires
        page_is_read(read),
        0 <= next <= read.meanings.len(),
        poll_follows(turns, replies),
        turns[0] == poll_from(token, events, read.page, next),
        replies == meaning_replies(read.meanings.skip(next)),
    ensures
        forall|j: int|
            0 <= j < replies.len() ==> (#[trigger] turns[j])->Ask_1 == StoreRequestView::Translate(
                read.page.changes[next + j],
            ),
        turns.last() == poll_from(
            token,
            events + meant(read.meanings.skip(next)),
            read.page,
            read.page.changes.len() as int,
        ),
    decreases read.meanings.len() - next,
{
    let left = read.meanings.skip(next);
    if next == read.meanings.len() {
        assert(events + meant(left) == events);
    } else {
        let meaning = left[0];
        let after = match meaning {
            Some(event) => events.push(event),
            None => events,
        };
        assert(replies[0] == DriveReplyView::Change(Ok(meaning)));
        assert(turns[1] == poll_step(turns[0]->Ask_0, replies[0]));
        assert(turns[1] == poll_from(token, after, read.page, next + 1));
        assert(left.drop_first() == read.meanings.skip(next + 1));
        lemma_poll_skip(turns, replies, 1);
        assert(replies.skip(1) == meaning_replies(read.meanings.skip(next + 1)));
        law_events_keep_the_order_of_changes(
            token,
            after,
            read,
            next + 1,
            turns.skip(1),
            replies.skip(1),
        );
        assert(after + meant(left.drop_first()) == events + meant(left));
        assert forall|j: int| 0 <= j < replies.len() implies (#[trigger] turns[j])->Ask_1
            == StoreRequestView::Translate(read.page.changes[next + j]) by {
            if j > 0 {
                assert(turns[j] == turns.skip(1)[j - 1]);
            }
        }
    }
}

/// The pages are asked for by their tokens, and their changes looked at, one
/// after the other; then the token for the next poll is kept.
proof fn lemma_pages(
    token: Seq<char>,
    events: Seq<RemoteChangeView>,
    pages: Seq<ReadPage>,
    turns: Seq<PollTurnView>,
    replies: Seq<DriveReplyView>,
)
    requires
        pages_are_chained(pages),
        poll_follows(turns, replies),
        turns[0] == list_page(token, events),
        replies == page_replies(pages),
    ensures
        forall|i: int|
            0 <= i < pages.len() ==> asks_for_page(turns, #[trigger] token_at(token, pages, i)),
        turns.last() == PollTurnView::Ask(
            PollStage::Save { events: events + events_of(pages) },
            DriveRequest::SaveToken(token_after(token, pages)),
        ),
    decreases pages.len(),
{
    let read = pages[0];
    let rest = pages.drop_first();
    let told = meaning_replies(read.meanings);
    let n = read.meanings.len() as int;
    assert(page_is_read(read));
    assert(replies[0] == DriveReplyView::Changes(Ok(read.page)));
    assert(turns[1] == poll_step(turns[0]->Ask_0, replies[0]));
    lemma_poll_skip(turns, replies, 1);
    let inner = turns.skip(1).take(n + 1);
    let inner_replies = replies.skip(1).take(n);
    assert(inner_replies == told);
    assert(read.meanings.skip(0) == read.meanings);
    assert(poll_follows(inner, inner_replies)) by {
        assert forall|i: int| 0 <= i < inner_replies.len() implies inner[i] is Ask && inner[i + 1]
            == poll_step(inner[i]->Ask_0, #[trigger] inner_replies[i]) by {
            assert(inner_replies[i] == replies.skip(1)[i]);
        }
    }
    law_events_keep_the_order_of_changes(token, events, read, 0, inner, inner_replies);
    let after = events + meant(read.meanings);
    assert(turns[n + 1] == inner.last());
    lemma_poll_skip(turns, replies, n + 1);
    assert(replies.skip(n + 1) == page_replies(rest));
    assert(asks_for_page(turns, token_at(token, pages, 0))) by {
        assert(turns[0]->Ask_1 == StoreRequestView::ListChanges(token));
    }
    if rest.len() == 0 {
        assert(pages.len() == 1);
        assert(page_replies(rest).len() == 0);
        assert(after + events_of(rest) == after);
        assert(events + events_of(pages) == after);
    } else {
        let following = read.page.next_page_token->0;
        assert(read.page.next_page_token is Some);
        assert forall|i: int| 0 <= i < rest.len() implies page_is_read(#[trigger] rest[i]) && (
        rest[i].page.next_page_token is None <==> i == rest.len() - 1) by {
            assert(rest[i] == pages[i + 1]);
        }
        let later = turns.skip(n + 1);
        lemma_pages(following, after, rest, later, replies.skip(n + 1));
        assert(after + events_of(rest) == events + events_of(pages));
        assert(rest.last() == pages.last());
        assert(token_at(following, rest, rest.len() - 1) == token_at(
            token,
            pages,
            pages.len() - 1,
        ));
        assert forall|i: int| 0 <= i < pages.len() implies asks_for_page(
            turns,
            #[trigger] token_at(token, pages, i),
        ) by {
            if i > 0 {
                assert(token_at(following, rest, i - 1) == token_at(token, pages, i));
                let k = choose|k: int|
                    0 <= k < later.len() && (#[trigger] later[k]) is Ask && later[k]->Ask_1
                        == StoreRequestView::ListChanges(token_at(token, pages, i));
                assert(later[k] == turns[k + n + 1]);
            }
        }
    }
}

/// Whether one of the turns asks for the page at a token.
pub open spec fn asks_for_page(turns: Seq<PollTurnView>, token: Seq<char>) -> bool {
    exists|k: int|
        0 <= k < turns.len() && (#[trigger] turns[k]) is Ask && turns[k]->Ask_1
            == StoreRequestView::ListChanges(token)
}

/// A poll that goes on from a kept token asks for every page from there on, and
/// comes to the events that the changes of all of them mean, in their order,
/// without those that mean nothing. Then the token for the next poll is kept.
pub proof fn law_a_poll_reports_what_all_pages_mean(
    token: Seq<char>,
    pages: Seq<ReadPage>,
    turns: Seq<PollTurnView>,
    replies: Seq<DriveReplyView>,
)
    requires
        pages_are_chained(pages),
        poll_follows(turns, replies),
        turns[0] == begin_poll(),
        replies == seq![DriveReplyView::MaybeText(Ok(Some(token)))] + page_replies(pages) + seq![
            DriveReplyView::Done(Ok(())),
        ],
    ensures
        forall|i: int|
            0 <= i < pages.len() ==> asks_for_page(turns, #[trigger] token_at(token, pages, i)),
        turns[turns.len() - 2] is Ask,
        turns[turns.len() - 2]->Ask_1 == StoreRequestView::SaveToken(token_after(token, pages)),
        turns.last() == PollTurnView::Done(Ok(events_of(pages))),
{
    let n = page_replies(pages).len() as int;
    assert(replies[0] == DriveReplyView::MaybeText(Ok(Some(token))));
    assert(turns[1] == poll_step(turns[0]->Ask_0, replies[0]));
    lemma_poll_skip(turns, replies, 1);
    let inner = turns.skip(1).take(n + 1);
    let inner_replies = replies.skip(1).take(n);
    assert(inner_replies == page_replies(pages));
    assert(poll_follows(inner, inner_replies)) by {
        assert forall|i: int| 0 <= i < inner_replies.len() implies inner[i] is Ask && inner[i + 1]
            == poll_step(inner[i]->Ask_0, #[trigger] inner_replies[i]) by {
            assert(inner_replies[i] == replies.skip(1)[i]);
        }
    }
    lemma_pages(token, Seq::empty(), pages, inner, inner_replies);
    assert(Seq::<RemoteChangeView>::empty() + events_of(pages) == events_of(pages));
    assert(turns[n + 1] == inner.last());
    assert(replies[n + 1] == DriveReplyView::Done(Ok(())));
    assert forall|i: int| 0 <= i < pages.len() implies asks_for_page(
        turns,
        #[trigger] token_at(token, pages, i),
    ) by {
        let k = choose|k: int|
            0 <= k < inner.len() && (#[trigger] inner[k]) is Ask && inner[k]->Ask_1
                == StoreRequestView::ListChanges(token_at(token, pages, i));
        assert(inner[k] == turns[k + 1]);
    }
}

} // verus!
