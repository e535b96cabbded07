//! Which folders the store looks for and makes on its way down a remote path.
use vstd::prelude::*;

use crate::remote::google_drive::folders::{
    begin_chain, begin_resolve, chain_from, chain_step, known_folder, learned, resolve_step,
    running_path, ChainStage, ChainTurnView, DriveStoreView, ResolveStage, ResolveTurnView,
};
use crate::remote::google_drive::laws::{
    law_learned_folders_are_known, law_running_path_joins_the_names,
};
use crate::remote::google_drive::machines::{fails, requests};
use crate::remote::google_drive::protocol::{DriveReplyView, DriveRequest, StoreRequestView, Turn};
use crate::remote::google_drive::{path_segments, ChildKind, DriveFileView};

verus! {

/// What a machine that learns of folders comes to: the store after its step, and its turn.
pub type FolderTurn<S, A> = (DriveStoreView, Turn<S, StoreRequestView, Result<A, Seq<char>>>);

/// Whether a reply tells of a folder with the identifier.
pub open spec fn tells_of(reply: DriveReplyView, id: Seq<char>) -> bool {
    match reply {
        DriveReplyView::MaybeFile(Ok(Some(folder))) => folder.id == Some(id),
        DriveReplyView::File(Ok(folder)) => folder.id == Some(id),
        _ => false,
    }
}

/// Whether turn `j` looks for a folder of the name in the folder, or makes one, and is told
/// of the one with the identifier.
pub open spec fn told_child<S, A>(
    turns: Seq<FolderTurn<S, A>>,
    replies: Seq<DriveReplyView>,
    j: int,
    parent_id: Seq<char>,
    name: Seq<char>,
    id: Seq<char>,
) -> bool {
    &&& 0 <= j < replies.len()
    &&& requests(
        turns[j].1,
        DriveRequest::FindChild { parent_id, name, kind: ChildKind::Folder },
    ) || requests(turns[j].1, DriveRequest::CreateFolder { parent_id, name })
    &&& tells_of(replies[j], id)
}

/// Whether the identifier is that of the folder that the first `k` names lead to, as far as
/// was known at first or told before turn `n`: for no name that of the sandbox; else one
/// that was known for these names, or that was told for the last of them in the folder that
/// the others lead to.
pub open spec fn leads_down<S, A>(
    s: DriveStoreView,
    turns: Seq<FolderTurn<S, A>>,
    replies: Seq<DriveReplyView>,
    n: int,
    names: Seq<Seq<char>>,
    k: int,
    id: Seq<char>,
) -> bool
    decreases k,
{
    if k <= 0 {
        n > 0 && replies.len() > 0 && replies[0] == DriveReplyView::Text(Ok(id))
    } else {
        ||| known_folder(s.folder_cache, running_path(names.take(k))) == Some(id)
        ||| exists|j: int, parent_id: Seq<char>|
            #![trigger told_child(turns, replies, j, parent_id, names[k - 1], id)]
            0 < j < n && told_child(turns, replies, j, parent_id, names[k - 1], id)
                && leads_down(s, turns, replies, n, names, k - 1, parent_id)
    }
}

/// What leads down before a turn does so before a later one.
proof fn lemma_leads_later<S, A>(
    s: DriveStoreView,
    turns: Seq<FolderTurn<S, A>>,
    replies: Seq<DriveReplyView>,
    n: int,
    names: Seq<Seq<char>>,
    k: int,
    id: Seq<char>,
)
    requires
        leads_down(s, turns, replies, n, names, k, id),
    ensures
        leads_down(s, turns, replies, n + 1, names, k, id),
    decreases k,
{
    if k > 0 && known_folder(s.folder_cache, running_path(names.take(k))) != Some(id) {
        let (j, parent_id) = choose|j: int, parent_id: Seq<char>|
            #![trigger told_child(turns, replies, j, parent_id, names[k - 1], id)]
            0 < j < n && told_child(turns, replies, j, parent_id, names[k - 1], id)
                && leads_down(s, turns, replies, n, names, k - 1, parent_id);
        lemma_leads_later(s, turns, replies, n, names, k - 1, parent_id);
        assert(0 < j < n + 1 && told_child(turns, replies, j, parent_id, names[k - 1], id));
    }
}

/// Whether everything that the store knows of the folders on the way leads down.
spec fn cache_leads_down<S, A>(
    s: DriveStoreView,
    turns: Seq<FolderTurn<S, A>>,
    replies: Seq<DriveReplyView>,
    n: int,
    names: Seq<Seq<char>>,
    now: DriveStoreView,
) -> bool {
    forall|k: int|
        0 < k <= names.len() && (#[trigger] known_folder(
            now.folder_cache,
            running_path(names.take(k)),
        )) is Some ==> leads_down(
            s,
            turns,
            replies,
            n,
            names,
            k,
            known_folder(now.folder_cache, running_path(names.take(k)))->0,
        )
}

/// Whether each name names something.
pub open spec fn name_something(names: Seq<Seq<char>>) -> bool {
    forall|i: int| 0 <= i < names.len() ==> (#[trigger] names[i]).len() > 0
}

/// More names make a longer path.
proof fn lemma_paths_grow(names: Seq<Seq<char>>, a: int, b: int)
    requires
        name_something(names),
        0 < a < b <= names.len(),
    ensures
        running_path(names.take(a)).len() < running_path(names.take(b)).len(),
    decreases b,
{
    let before = names.take(b - 1);
    let all = names.take(b);
    assert(all.drop_last() == before);
    assert(all.last() == names[b - 1]);
    assert forall|i: int| 0 <= i < before.len() implies (#[trigger] before[i]).len() > 0 by {
        assert(before[i] == names[i]);
    }
    law_running_path_joins_the_names(before);
    if a < b - 1 {
        lemma_paths_grow(names, a, b - 1);
    }
}

/// What is learned of the folder that names lead to leads down, too.
proof fn lemma_learning_leads_down<S, A>(
    s: DriveStoreView,
    turns: Seq<FolderTurn<S, A>>,
    replies: Seq<DriveReplyView>,
    n: int,
    names: Seq<Seq<char>>,
    now: DriveStoreView,
    k: int,
    id: Seq<char>,
)
    requires
        name_something(names),
        0 < k <= names.len(),
        cache_leads_down(s, turns, replies, n, names, now),
        leads_down(s, turns, replies, n, names, k, id),
    ensures
        cache_leads_down(
            s,
            turns,
            replies,
            n,
            names,
            learned(now, running_path(names.take(k)), id),
        ),
{
    let path = running_path(names.take(k));
    let after = learned(now, path, id);
    assert forall|i: int|
        0 < i <= names.len() && (#[trigger] known_folder(
            after.folder_cache,
            running_path(names.take(i)),
        )) is Some implies leads_down(
        s,
        turns,
        replies,
        n,
        names,
        i,
        known_folder(after.folder_cache, running_path(names.take(i)))->0,
    ) by {
        let there = running_path(names.take(i));
        law_learned_folders_are_known(now, path, id, there);
        if i < k {
            lemma_paths_grow(names, i, k);
        } else if k < i {
            lemma_paths_grow(names, k, i);
        }
        if there != path {
            assert(known_folder(now.folder_cache, there) is Some);
        }
    }
}

/// What the store knows before a turn leads down before a later one.
proof fn lemma_cache_later<S, A>(
    s: DriveStoreView,
    turns: Seq<FolderTurn<S, A>>,
    replies: Seq<DriveReplyView>,
    n: int,
    names: Seq<Seq<char>>,
    now: DriveStoreView,
)
    requires
        cache_leads_down(s, turns, replies, n, names, now),
    ensures
        cache_leads_down(s, turns, replies, n + 1, names, now),
{
    assert forall|k: int|
        0 < k <= names.len() && (#[trigger] known_folder(
            now.folder_cache,
            running_path(names.take(k)),
        )) is Some implies leads_down(
        s,
        turns,
        replies,
        n + 1,
        names,
        k,
        known_folder(now.folder_cache, running_path(names.take(k)))->0,
    ) by {
        let id = known_folder(now.folder_cache, running_path(names.take(k)))->0;
        lemma_leads_later(s, turns, replies, n, names, k, id);
    }
}

/// Whether the turns of the walk along a chain of folders follow each other, each by the
/// reply to what was asked before.
pub open spec fn chain_goes_at(
    turns: Seq<FolderTurn<ChainStage<Seq<char>, Seq<Seq<char>>>, Seq<char>>>,
    replies: Seq<DriveReplyView>,
    i: int,
) -> bool {
    &&& turns[i].1 is Ask
    &&& turns[i + 1] == chain_step(turns[i].0, turns[i].1->Ask_0, replies[i])
}

/// Whether the turns are those of the walk along the names, in a store that knows what `s`
/// does.
pub open spec fn chain_goes(
    s: DriveStoreView,
    names: Seq<Seq<char>>,
    turns: Seq<FolderTurn<ChainStage<Seq<char>, Seq<Seq<char>>>, Seq<char>>>,
    replies: Seq<DriveReplyView>,
) -> bool {
    &&& turns.len() == replies.len() + 1
    &&& turns[0] == (s, begin_chain(names))
    &&& forall|i: int| 0 <= i < replies.len() ==> #[trigger] chain_goes_at(turns, replies, i)
}

/// Whether a turn of the walk goes back to what was known or told before it.
spec fn chain_backed(
    s: DriveStoreView,
    names: Seq<Seq<char>>,
    turns: Seq<FolderTurn<ChainStage<Seq<char>, Seq<Seq<char>>>, Seq<char>>>,
    replies: Seq<DriveReplyView>,
    n: int,
    turn: ChainTurnView,
) -> bool {
    match turn {
        Turn::Done(Ok(id)) => leads_down(s, turns, replies, n, names, names.len() as int, id),
        Turn::Done(Err(_)) => true,
        Turn::Ask(ChainStage::Sandbox { folders }, request) => {
            &&& n == 0
            &&& folders == names
            &&& request == StoreRequestView::SandboxId
        },
        Turn::Ask(ChainStage::Find { folders, next, parent_id }, request) => {
            &&& folders == names
            &&& next < names.len()
            &&& request == (StoreRequestView::FindChild {
                parent_id,
                name: names[next as int],
                kind: ChildKind::Folder,
            })
            &&& leads_down(s, turns, replies, n, names, next as int, parent_id)
        },
        Turn::Ask(ChainStage::Create { folders, next }, request) => {
            &&& folders == names
            &&& next < names.len()
            &&& request matches DriveRequest::CreateFolder { parent_id, name }
            &&& name == names[next as int]
            &&& leads_down(s, turns, replies, n, names, next as int, parent_id)
            &&& n > 0
            &&& requests(
                turns[n - 1].1,
                DriveRequest::FindChild { parent_id, name, kind: ChildKind::Folder },
            )
            &&& replies[n - 1] == DriveReplyView::MaybeFile(Ok(None))
        },
    }
}

/// The walk from a folder on that the names so far lead to.
proof fn lemma_chain_from_backed(
    s: DriveStoreView,
    names: Seq<Seq<char>>,
    turns: Seq<FolderTurn<ChainStage<Seq<char>, Seq<Seq<char>>>, Seq<char>>>,
    replies: Seq<DriveReplyView>,
    n: int,
    now: DriveStoreView,
    next: int,
    parent_id: Seq<char>,
)
    requires
        0 <= next <= names.len() <= usize::MAX,
        cache_leads_down(s, turns, replies, n, names, now),
        leads_down(s, turns, replies, n, names, next, parent_id),
    ensures
        chain_backed(s, names, turns, replies, n, chain_from(now, names, next, parent_id)),
        !fails(chain_from(now, names, next, parent_id)),
    decreases names.len() - next,
{
    if next < names.len() {
        match known_folder(now.folder_cache, running_path(names.take(next + 1))) {
            Some(id) => {
                assert(leads_down(s, turns, replies, n, names, next + 1, id));
                lemma_chain_from_backed(s, names, turns, replies, n, now, next + 1, id);
            },
            None => {},
        }
    }
}

/// Where the walk along a chain stands at every turn.
proof fn lemma_chain_backed(
    s: DriveStoreView,
    names: Seq<Seq<char>>,
    turns: Seq<FolderTurn<ChainStage<Seq<char>, Seq<Seq<char>>>, Seq<char>>>,
    replies: Seq<DriveReplyView>,
    n: int,
)
    requires
        name_something(names),
        names.len() <= usize::MAX,
        chain_goes(s, names, turns, replies),
        0 <= n <= replies.len(),
    ensures
        cache_leads_down(s, turns, replies, n, names, turns[n].0),
        chain_backed(s, names, turns, replies, n, turns[n].1),
    decreases n,
{
    if n == 0 {
        assert forall|k: int|
            0 < k <= names.len() && (#[trigger] known_folder(
                s.folder_cache,
                running_path(names.take(k)),
            )) is Some implies leads_down(
            s,
            turns,
            replies,
            n,
            names,
            k,
            known_folder(s.folder_cache, running_path(names.take(k)))->0,
        ) by {}
    } else {
        let m = n - 1;
        lemma_chain_backed(s, names, turns, replies, m);
        assert(chain_goes_at(turns, replies, m));
        lemma_cache_later(s, turns, replies, m, names, turns[m].0);
        match (turns[m].1->Ask_0, replies[m]) {
            (ChainStage::Sandbox { .. }, DriveReplyView::Text(Ok(id))) => {
                assert(leads_down(s, turns, replies, n, names, 0, id));
                lemma_chain_from_backed(s, names, turns, replies, n, turns[m].0, 0, id);
            },
            (
                ChainStage::Find { next, parent_id, .. },
                DriveReplyView::MaybeFile(Ok(found)),
            ) => {
                lemma_leads_later(s, turns, replies, m, names, next as int, parent_id);
                match found {
                    Some(folder) => {
                        lemma_chain_found_backed(
                            s,
                            names,
                            turns,
                            replies,
                            n,
                            next as int,
                            parent_id,
                            folder,
                        );
                    },
                    None => {},
                }
            },
            (ChainStage::Create { next, .. }, DriveReplyView::File(Ok(folder))) => {
                let parent_id = turns[m].1->Ask_1->CreateFolder_parent_id;
                lemma_leads_later(s, turns, replies, m, names, next as int, parent_id);
                lemma_chain_found_backed(
                    s,
                    names,
                    turns,
                    replies,
                    n,
                    next as int,
                    parent_id,
                    folder,
                );
            },
            _ => {},
        }
    }
}

/// The walk goes on from a folder that was told of.
proof fn lemma_chain_found_backed(
    s: DriveStoreView,
    names: Seq<Seq<char>>,
    turns: Seq<FolderTurn<ChainStage<Seq<char>, Seq<Seq<char>>>, Seq<char>>>,
    replies: Seq<DriveReplyView>,
    n: int,
    next: int,
    parent_id: Seq<char>,
    folder: DriveFileView,
)
    requires
        name_something(names),
        0 < n <= replies.len(),
        n > 1,
        0 <= next < names.len() <= usize::MAX,
        cache_leads_down(s, turns, replies, n, names, turns[n - 1].0),
        leads_down(s, turns, replies, n, names, next, parent_id),
        requests(
            turns[n - 1].1,
            DriveRequest::FindChild { parent_id, name: names[next], kind: ChildKind::Folder },
        ) || requests(
            turns[n - 1].1,
            DriveRequest::CreateFolder { parent_id, name: names[next] },
        ),
        folder.id is Some ==> tells_of(replies[n - 1], folder.id->0),
        folder.id is Some ==> turns[n] == {
            let after = learned(
                turns[n - 1].0,
                running_path(names.take(next + 1)),
                folder.id->0,
            );
            (after, chain_from(after, names, next + 1, folder.id->0))
        },
        folder.id is None ==> turns[n].0 == turns[n - 1].0 && fails(turns[n].1),
    ensures
        cache_leads_down(s, turns, replies, n, names, turns[n].0),
        chain_backed(s, names, turns, replies, n, turns[n].1),
{
    if folder.id is Some {
        let id = folder.id->0;
        assert(names.take(next + 1)[next] == names[next]);
        assert(0 < n - 1 < n && told_child(
            turns,
            replies,
            n - 1,
            parent_id,
            names[next + 1 - 1],
            id,
        ));
        assert(leads_down(s, turns, replies, n, names, next + 1, id));
        lemma_learning_leads_down(
            s,
            turns,
            replies,
            n,
            names,
            turns[n - 1].0,
            next + 1,
            id,
        );
        lemma_chain_from_backed(s, names, turns, replies, n, turns[n].0, next + 1, id);
    }
}

/// The walk along a chain of folders looks for each folder by its name in the folder that
/// the names before it lead to, makes one only there, only of that name and only where none
/// was found, and ends with the folder that all of the names lead to.
pub proof fn law_chains_go_down_name_by_name(
    s: DriveStoreView,
    names: Seq<Seq<char>>,
    turns: Seq<FolderTurn<ChainStage<Seq<char>, Seq<Seq<char>>>, Seq<char>>>,
    replies: Seq<DriveReplyView>,
    n: int,
)
    requires
        name_something(names),
        names.len() <= usize::MAX,
        chain_goes(s, names, turns, replies),
        0 <= n <= replies.len(),
    ensures
        match turns[n].1 {
            Turn::Done(Ok(id)) => leads_down(
                s,
                turns,
                replies,
                n,
                names,
                names.len() as int,
                id,
            ),
            Turn::Done(Err(_)) => true,
            Turn::Ask(_, DriveRequest::SandboxId) => n == 0,
            Turn::Ask(_, DriveRequest::FindChild { parent_id, name, kind }) => {
                &&& kind == ChildKind::Folder
                &&& exists|k: int|
                    0 <= k < names.len() && #[trigger] names[k] == name && leads_down(
                        s,
                        turns,
                        replies,
                        n,
                        names,
                        k,
                        parent_id,
                    )
            },
            Turn::Ask(_, DriveRequest::CreateFolder { parent_id, name }) => {
                &&& n > 0
                &&& requests(
                    turns[n - 1].1,
                    DriveRequest::FindChild { parent_id, name, kind: ChildKind::Folder },
                )
                &&& replies[n - 1] == DriveReplyView::MaybeFile(Ok(None))
            },
            _ => false,
        },
{
    lemma_chain_backed(s, names, turns, replies, n);
    match turns[n].1 {
        Turn::Ask(ChainStage::Find { next, .. }, _) => {
            assert(names[next as int] == names[next as int]);
        },
        _ => {},
    }
}

/// Whether the turn after the one with the given index of the way down follows from it.
pub open spec fn resolve_goes_at(
    turns: Seq<FolderTurn<ResolveStage<Seq<Seq<char>>>, Option<DriveFileView>>>,
    replies: Seq<DriveReplyView>,
    i: int,
) -> bool {
    &&& turns[i].1 is Ask
    &&& turns[i + 1] == resolve_step(turns[i].0, turns[i].1->Ask_0, replies[i])
}

/// Whether the turns are those of the way down to the file at a remote path, in a store that
/// knows what `s` does.
pub open spec fn resolve_goes(
    s: DriveStoreView,
    path: Seq<char>,
    turns: Seq<FolderTurn<ResolveStage<Seq<Seq<char>>>, Option<DriveFileView>>>,
    replies: Seq<DriveReplyView>,
) -> bool {
    &&& turns.len() == replies.len() + 1
    &&& turns[0] == (s, begin_resolve(path))
    &&& forall|i: int| 0 <= i < replies.len() ==> #[trigger] resolve_goes_at(turns, replies, i)
}

/// Whether a reply tells the identifier of the folder to go on in: of the sandbox, or of a
/// folder.
pub open spec fn tells_folder(reply: DriveReplyView, id: Seq<char>) -> bool {
    reply == DriveReplyView::Text(Ok(id)) || tells_of(reply, id)
}

/// Where the way down stands.
spec fn resolve_stands(
    s: DriveStoreView,
    names: Seq<Seq<char>>,
    turns: Seq<FolderTurn<ResolveStage<Seq<Seq<char>>>, Option<DriveFileView>>>,
    replies: Seq<DriveReplyView>,
    n: int,
) -> bool {
    match turns[n].1 {
        Turn::Ask(ResolveStage::Sandbox { segments }, request) => {
            &&& n == 0
            &&& segments == names
            &&& request == StoreRequestView::SandboxId
        },
        Turn::Ask(ResolveStage::Find { segments, next }, request) => {
            &&& segments == names
            &&& next == n - 1
            &&& 1 <= n <= names.len()
            &&& request matches DriveRequest::FindChild { parent_id, name, kind }
            &&& name == names[n - 1]
            &&& tells_folder(replies[n - 1], parent_id)
            &&& kind == if n == names.len() {
                ChildKind::File
            } else {
                ChildKind::Folder
            }
        },
        Turn::Done(Ok(Some(file))) => {
            &&& n == names.len() + 1
            &&& file.id is Some
            &&& replies[n - 1] == DriveReplyView::MaybeFile(Ok(Some(file)))
        },
        Turn::Done(Ok(None)) => n > 1 && replies[n - 1] == DriveReplyView::MaybeFile(Ok(None)),
        Turn::Done(Err(_)) => n > 0 && (replies[n - 1] matches DriveReplyView::MaybeFile(
            Ok(Some(file)),
        ) ==> file.id is None || n == 1),
    }
}

/// The way down stands at every turn, and what is learned on it is what was told.
proof fn lemma_resolve_stands(
    s: DriveStoreView,
    path: Seq<char>,
    names: Seq<Seq<char>>,
    turns: Seq<FolderTurn<ResolveStage<Seq<Seq<char>>>, Option<DriveFileView>>>,
    replies: Seq<DriveReplyView>,
    n: int,
    k: int,
    other: Seq<char>,
)
    requires
        path_segments(path) == Ok::<Seq<Seq<char>>, Seq<char>>(names),
        name_something(names),
        names.len() <= usize::MAX,
        resolve_goes(s, path, turns, replies),
        0 <= n <= replies.len(),
    ensures
        resolve_stands(s, names, turns, replies, n),
        turns[n].1 is Ask && 0 < k < n ==> known_folder(
            turns[n].0.folder_cache,
            running_path(names.take(k)),
        ) is Some && tells_of(
            replies[k],
            known_folder(turns[n].0.folder_cache, running_path(names.take(k)))->0,
        ),
        (forall|i: int| 0 < i <= names.len() ==> other != #[trigger] running_path(names.take(i)))
            ==> known_folder(turns[n].0.folder_cache, other) == known_folder(
            s.folder_cache,
            other,
        ),
    decreases n,
{
    if n == 0 {
    } else {
        let m = n - 1;
        lemma_resolve_stands(s, path, names, turns, replies, m, k, other);
        assert(resolve_goes_at(turns, replies, m));
        match (turns[m].1->Ask_0, replies[m]) {
            (ResolveStage::Find { next, .. }, DriveReplyView::MaybeFile(Ok(Some(file)))) => {
                if file.id is Some && next + 1 < names.len() {
                    let id = file.id->0;
                    let there = running_path(names.take(next + 1));
                    law_learned_folders_are_known(turns[m].0, there, id, other);
                    assert(turns[n].0 == learned(turns[m].0, there, id));
                    if 0 < k < n {
                        law_learned_folders_are_known(
                            turns[m].0,
                            there,
                            id,
                            running_path(names.take(k)),
                        );
                        if k < next + 1 {
                            lemma_paths_grow(names, k, next + 1);
                        }
                    }
                }
            },
            _ => {},
        }
    }
}

/// The way down to the file at a remote path looks for each of the path's names in the folder
/// that was told for the one before it, beginning in the sandbox: for folders and, by the last
/// name, for a file. It ends with the file that is told for the last name, or with none where
/// a name leads to nothing. What it learns of the folders on the way is what it was told, and
/// it learns of no others.
pub proof fn law_files_are_found_name_by_name(
    s: DriveStoreView,
    path: Seq<char>,
    names: Seq<Seq<char>>,
    turns: Seq<FolderTurn<ResolveStage<Seq<Seq<char>>>, Option<DriveFileView>>>,
    replies: Seq<DriveReplyView>,
    n: int,
    k: int,
    other: Seq<char>,
)
    requires
        path_segments(path) == Ok::<Seq<Seq<char>>, Seq<char>>(names),
        name_something(names),
        names.len() <= usize::MAX,
        resolve_goes(s, path, turns, replies),
        0 <= n <= replies.len(),
    ensures
        match turns[n].1 {
            Turn::Ask(_, request) => if n == 0 {
                request == StoreRequestView::SandboxId
            } else {
                &&& n <= names.len()
                &&& request matches DriveRequest::FindChild { parent_id, name, kind }
                &&& name == names[n - 1]
                &&& tells_folder(replies[n - 1], parent_id)
                &&& (kind == ChildKind::File <==> n == names.len())
            },
            Turn::Done(Ok(Some(file))) => n == names.len() + 1 && replies[n - 1]
                == DriveReplyView::MaybeFile(Ok(Some(file))),
            Turn::Done(Ok(None)) => n > 1 && replies[n - 1] == DriveReplyView::MaybeFile(Ok(None)),
            Turn::Done(Err(_)) => n > 0,
        },
        turns[n].1 is Ask && 0 < k < n ==> known_folder(
            turns[n].0.folder_cache,
            running_path(names.take(k)),
        ) is Some && tells_of(
            replies[k],
            known_folder(turns[n].0.folder_cache, running_path(names.take(k)))->0,
        ),
        (forall|i: int| 0 < i <= names.len() ==> other != #[trigger] running_path(names.take(i)))
            ==> known_folder(turns[n].0.folder_cache, other) == known_folder(
            s.folder_cache,
            other,
        ),
{
    lemma_resolve_stands(s, path, names, turns, replies, n, k, other);
}

/// The way down does not fail on its own: as long as it is told of an item with an identifier,
/// it goes on.
pub proof fn law_the_way_down_goes_on(
    s: DriveStoreView,
    path: Seq<char>,
    names: Seq<Seq<char>>,
    turns: Seq<FolderTurn<ResolveStage<Seq<Seq<char>>>, Option<DriveFileView>>>,
    replies: Seq<DriveReplyView>,
    n: int,
    file: DriveFileView,
)
    requires
        path_segments(path) == Ok::<Seq<Seq<char>>, Seq<char>>(names),
        name_something(names),
        names.len() <= usize::MAX,
        resolve_goes(s, path, turns, replies),
        0 < n < replies.len(),
        replies[n] == DriveReplyView::MaybeFile(Ok(Some(file))),
        file.id is Some,
    ensures
        n < names.len() ==> turns[n + 1].1 is Ask,
        n == names.len() ==> turns[n + 1].1 == ResolveTurnView::Done(Ok(Some(file))),
{
    lemma_resolve_stands(s, path, names, turns, replies, n, 0, Seq::empty());
    lemma_resolve_stands(s, path, names, turns, replies, n + 1, 0, Seq::empty());
    assert(resolve_goes_at(turns, replies, n));
}

/// Neither does the walk along a chain: as long as it is told of a folder with an identifier,
/// it goes on or ends well, and where it is told that there is none, it makes one.
pub proof fn law_the_walk_goes_on(
    s: DriveStoreView,
    names: Seq<Seq<char>>,
    turns: Seq<FolderTurn<ChainStage<Seq<char>, Seq<Seq<char>>>, Seq<char>>>,
    replies: Seq<DriveReplyView>,
    n: int,
    parent_id: Seq<char>,
    name: Seq<char>,
)
    requires
        name_something(names),
        names.len() <= usize::MAX,
        chain_goes(s, names, turns, replies),
        0 <= n < replies.len(),
    ensures
        requests(turns[n].1, DriveRequest::FindChild { parent_id, name, kind: ChildKind::Folder })
            ==> match replies[n] {
            DriveReplyView::MaybeFile(Ok(Some(folder))) => fails(turns[n + 1].1) <==> folder.id
                is None,
            DriveReplyView::MaybeFile(Ok(None)) => requests(
                turns[n + 1].1,
                DriveRequest::CreateFolder { parent_id, name },
            ),
            _ => fails(turns[n + 1].1),
        },
        requests(turns[n].1, DriveRequest::CreateFolder { parent_id, name })
            ==> match replies[n] {
            DriveReplyView::File(Ok(folder)) => fails(turns[n + 1].1) <==> folder.id is None,
            _ => fails(turns[n + 1].1),
        },
{
    lemma_chain_backed(s, names, turns, replies, n);
    assert(chain_goes_at(turns, replies, n));
    match (turns[n].1->Ask_0, replies[n]) {
        (ChainStage::Find { next, .. }, DriveReplyView::MaybeFile(Ok(Some(folder)))) => {
            if folder.id is Some {
                lemma_chain_from_goes_on(turns[n + 1].0, names, next + 1, folder.id->0);
            }
        },
        (ChainStage::Create { next, .. }, DriveReplyView::File(Ok(folder))) => {
            if folder.id is Some {
                lemma_chain_from_goes_on(turns[n + 1].0, names, next + 1, folder.id->0);
            }
        },
        _ => {},
    }
}

/// The walk from a folder on does not fail on its own.
proof fn lemma_chain_from_goes_on(
    s: DriveStoreView,
    names: Seq<Seq<char>>,
    next: int,
    parent_id: Seq<char>,
)
    ensures
        !fails(chain_from(s, names, next, parent_id)),
    decreases names.len() - next,
{
    if next < names.len() {
        match known_folder(s.folder_cache, running_path(names.take(next + 1))) {
            Some(id) => lemma_chain_from_goes_on(s, names, next + 1, id),
            None => {},
        }
    }
}

} // verus!
