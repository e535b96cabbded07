//! Folders of Drive: the sandbox, the chains of folders below it, and the way
//! down to a file.
use vstd::prelude::*;

use crate::failure::Failure;
use crate::keyed::{find, lemma_find_is, lemma_find_none, put};
use crate::remote::google_drive::protocol::{
    DriveReply, DriveReplyView, DriveRequest, StoreRequest, StoreRequestView, Turn,
    UNEXPECTED_DRIVE_REPLY,
};
use crate::remote::google_drive::{
    file_view, normalize_sandbox_name, path_segments, sandbox_folder, split_virtual_path, ChildKind,
    DriveFile, DriveFileView, ROOT_ID,
};
use crate::text::{clone_text, text_view, texts};

verus! {

/// A store in a folder of Google Drive, as far as it remembers anything.
#[derive(Debug)]
pub struct GoogleDriveRemoteStore {
    sandbox_name: String,
    sandbox_id: Option<String>,
    folder_cache: Vec<(String, String)>,
}

/// The view of a [`GoogleDriveRemoteStore`].
pub struct DriveStoreView {
    /// The name of the sandbox folder.
    pub sandbox_name: Seq<char>,
    /// Its identifier, once it is known.
    pub sandbox_id: Option<Seq<char>>,
    /// The identifiers of folders, by their paths below the sandbox.
    pub folder_cache: Seq<(Seq<char>, Seq<char>)>,
}

impl View for GoogleDriveRemoteStore {
    type V = DriveStoreView;

    closed spec fn view(&self) -> DriveStoreView {
        DriveStoreView {
            sandbox_name: self.sandbox_name@,
            sandbox_id: text_view(self.sandbox_id),
            folder_cache: cache_view(self.folder_cache@),
        }
    }
}

/// The view of a folder cache.
pub open spec fn cache_view(cache: Seq<(String, String)>) -> Seq<(Seq<char>, Seq<char>)> {
    cache.map_values(|entry: (String, String)| (entry.0@, entry.1@))
}

/// Holds of the entry of a folder path.
pub open spec fn folder_at(path: Seq<char>) -> spec_fn((Seq<char>, Seq<char>)) -> bool {
    |entry: (Seq<char>, Seq<char>)| entry.0 == path
}

/// The identifier that is known for a folder path.
pub open spec fn known_folder(cache: Seq<(Seq<char>, Seq<char>)>, path: Seq<char>) -> Option<
    Seq<char>,
> {
    match find(cache, folder_at(path)) {
        Some(i) => Some(cache[i].1),
        None => None,
    }
}

/// The store after it has learned the identifier of a folder.
pub open spec fn learned(s: DriveStoreView, path: Seq<char>, id: Seq<char>) -> DriveStoreView {
    DriveStoreView { folder_cache: put(s.folder_cache, folder_at(path), (path, id)), ..s }
}

/// The path of the folder that the names lead to.
pub open spec fn running_path(names: Seq<Seq<char>>) -> Seq<char>
    decreases names.len(),
{
    if names.len() == 0 {
        Seq::empty()
    } else {
        let before = running_path(names.drop_last());
        if before.len() == 0 {
            names.last()
        } else {
            before.push('/') + names.last()
        }
    }
}

/// What the search for the sandbox folder waits for.
#[derive(Debug, Clone, Copy, PartialEq, Eq, Structural)]
pub enum SandboxStage {
    /// The look for it.
    Find,
    /// Its making.
    Create,
}

/// What the walk along a chain of folders waits for.
#[derive(Debug, PartialEq, Eq)]
pub enum ChainStage<T, L> {
    /// The identifier of the sandbox folder.
    Sandbox { folders: L },
    /// The look for the folder with the given index.
    Find { folders: L, next: usize, parent_id: T },
    /// Its making.
    Create { folders: L, next: usize },
}

impl View for ChainStage<String, Vec<String>> {
    type V = ChainStage<Seq<char>, Seq<Seq<char>>>;

    open spec fn view(&self) -> ChainStage<Seq<char>, Seq<Seq<char>>> {
        match self {
            ChainStage::Sandbox { folders } => ChainStage::Sandbox { folders: texts(folders@) },
            ChainStage::Find { folders, next, parent_id } => ChainStage::Find {
                folders: texts(folders@),
                next: *next,
                parent_id: parent_id@,
            },
            ChainStage::Create { folders, next } => ChainStage::Create {
                folders: texts(folders@),
                next: *next,
            },
        }
    }
}

/// What the way down to a file waits for.
#[derive(Debug, PartialEq, Eq)]
pub enum ResolveStage<L> {
    /// The identifier of the sandbox folder.
    Sandbox { segments: L },
    /// The look for the item with the given index.
    Find { segments: L, next: usize },
}

impl View for ResolveStage<Vec<String>> {
    type V = ResolveStage<Seq<Seq<char>>>;

    open spec fn view(&self) -> ResolveStage<Seq<Seq<char>>> {
        match self {
            ResolveStage::Sandbox { segments } => ResolveStage::Sandbox {
                segments: texts(segments@),
            },
            ResolveStage::Find { segments, next } => ResolveStage::Find {
                segments: texts(segments@),
                next: *next,
            },
        }
    }
}

/// What the search for the sandbox folder comes to.
pub type SandboxTurn = Turn<SandboxStage, StoreRequest, Result<String, Failure>>;

/// The view of a [`SandboxTurn`].
pub type SandboxTurnView = Turn<SandboxStage, StoreRequestView, Result<Seq<char>, Seq<char>>>;

/// What the walk along a chain of folders comes to.
pub type ChainTurn = Turn<ChainStage<String, Vec<String>>, StoreRequest, Result<String, Failure>>;

/// The view of a [`ChainTurn`].
pub type ChainTurnView = Turn<
    ChainStage<Seq<char>, Seq<Seq<char>>>,
    StoreRequestView,
    Result<Seq<char>, Seq<char>>,
>;

/// What the way down to a file comes to.
pub type ResolveTurn = Turn<
    ResolveStage<Vec<String>>,
    StoreRequest,
    Result<Option<DriveFile>, Failure>,
>;

/// The view of a [`ResolveTurn`].
pub type ResolveTurnView = Turn<
    ResolveStage<Seq<Seq<char>>>,
    StoreRequestView,
    Result<Option<DriveFileView>, Seq<char>>,
>;

/// The view of a text or of why there is none.
pub open spec fn text_result(r: Result<String, Failure>) -> Result<Seq<char>, Seq<char>> {
    match r {
        Ok(text) => Ok(text@),
        Err(why) => Err(why@),
    }
}

impl View for SandboxTurn {
    type V = SandboxTurnView;

    open spec fn view(&self) -> SandboxTurnView {
        match self {
            Turn::Ask(stage, request) => Turn::Ask(*stage, request@),
            Turn::Done(r) => Turn::Done(text_result(*r)),
        }
    }
}

impl View for ChainTurn {
    type V = ChainTurnView;

    open spec fn view(&self) -> ChainTurnView {
        match self {
            Turn::Ask(stage, request) => Turn::Ask(stage@, request@),
            Turn::Done(r) => Turn::Done(text_result(*r)),
        }
    }
}

impl View for ResolveTurn {
    type V = ResolveTurnView;

    open spec fn view(&self) -> ResolveTurnView {
        match self {
            Turn::Ask(stage, request) => Turn::Ask(stage@, request@),
            Turn::Done(Ok(file)) => Turn::Done(Ok(file_view(*file))),
            Turn::Done(Err(why)) => Turn::Done(Err(why@)),
        }
    }
}

/// How the search for the sandbox folder begins: what is known is not looked
/// for again.
pub open spec fn begin_sandbox(s: DriveStoreView) -> SandboxTurnView {
    match s.sandbox_id {
        Some(id) => Turn::Done(Ok(id)),
        None => Turn::Ask(
            SandboxStage::Find,
            DriveRequest::FindChild {
                parent_id: ROOT_ID@,
                name: s.sandbox_name,
                kind: ChildKind::Folder,
            },
        ),
    }
}

/// The sandbox folder is there.
pub open spec fn sandbox_found(s: DriveStoreView, folder: DriveFileView) -> (
    DriveStoreView,
    SandboxTurnView,
) {
    match folder.id {
        Some(id) => (DriveStoreView { sandbox_id: Some(id), ..s }, Turn::Done(Ok(id))),
        None => (s, Turn::Done(Err("Drive returned sandbox folder without id"@))),
    }
}

/// How the search for the sandbox folder goes on.
pub open spec fn sandbox_step(s: DriveStoreView, stage: SandboxStage, reply: DriveReplyView) -> (
    DriveStoreView,
    SandboxTurnView,
) {
    match (stage, reply) {
        (SandboxStage::Find, DriveReplyView::MaybeFile(Ok(Some(folder)))) => sandbox_found(
            s,
            folder,
        ),
        (SandboxStage::Find, DriveReplyView::MaybeFile(Ok(None))) => (
            s,
            Turn::Ask(
                SandboxStage::Create,
                DriveRequest::CreateFolder { parent_id: ROOT_ID@, name: s.sandbox_name },
            ),
        ),
        (SandboxStage::Create, DriveReplyView::File(Ok(folder))) => sandbox_found(s, folder),
        (SandboxStage::Find, DriveReplyView::MaybeFile(Err(why))) => (s, Turn::Done(Err(why))),
        (SandboxStage::Create, DriveReplyView::File(Err(why))) => (s, Turn::Done(Err(why))),
        _ => (s, Turn::Done(Err(UNEXPECTED_DRIVE_REPLY@))),
    }
}

/// How the walk along a chain of folders begins.
pub open spec fn begin_chain(folders: Seq<Seq<char>>) -> ChainTurnView {
    Turn::Ask(ChainStage::Sandbox { folders }, DriveRequest::SandboxId)
}

/// The walk along a chain of folders goes on from the folder with the given
/// index; folders that are known are not looked for again.
pub open spec fn chain_from(
    s: DriveStoreView,
    folders: Seq<Seq<char>>,
    next: int,
    parent_id: Seq<char>,
) -> ChainTurnView
    decreases folders.len() - next,
{
    if next >= folders.len() {
        Turn::Done(Ok(parent_id))
    } else {
        match known_folder(s.folder_cache, running_path(folders.take(next + 1))) {
            Some(id) => chain_from(s, folders, next + 1, id),
            None => Turn::Ask(
                ChainStage::Find { folders, next: next as usize, parent_id },
                DriveRequest::FindChild {
                    parent_id,
                    name: folders[next],
                    kind: ChildKind::Folder,
                },
            ),
        }
    }
}

/// The folder with the given index is there.
pub open spec fn chain_found(
    s: DriveStoreView,
    folders: Seq<Seq<char>>,
    next: int,
    folder: DriveFileView,
) -> (DriveStoreView, ChainTurnView) {
    match folder.id {
        None => (s, Turn::Done(Err("Drive folder lookup returned object without id"@))),
        Some(id) => {
            let after = learned(s, running_path(folders.take(next + 1)), id);
            (after, chain_from(after, folders, next + 1, id))
        },
    }
}

/// How the walk along a chain of folders goes on.
pub open spec fn chain_step(
    s: DriveStoreView,
    stage: ChainStage<Seq<char>, Seq<Seq<char>>>,
    reply: DriveReplyView,
) -> (DriveStoreView, ChainTurnView) {
    match (stage, reply) {
        (ChainStage::Sandbox { folders }, DriveReplyView::Text(Ok(id))) => (
            s,
            chain_from(s, folders, 0, id),
        ),
        (
            ChainStage::Find { folders, next, parent_id },
            DriveReplyView::MaybeFile(Ok(found)),
        ) => if next >= folders.len() {
            (s, Turn::Done(Err(UNEXPECTED_DRIVE_REPLY@)))
        } else {
            match found {
                Some(folder) => chain_found(s, folders, next as int, folder),
                None => (
                    s,
                    Turn::Ask(
                        ChainStage::Create { folders, next },
                        DriveRequest::CreateFolder { parent_id, name: folders[next as int] },
                    ),
                ),
            }
        },
        (ChainStage::Create { folders, next }, DriveReplyView::File(Ok(folder))) => if next
            >= folders.len() {
            (s, Turn::Done(Err(UNEXPECTED_DRIVE_REPLY@)))
        } else {
            chain_found(s, folders, next as int, folder)
        },
        (ChainStage::Sandbox { .. }, DriveReplyView::Text(Err(why))) => (s, Turn::Done(Err(why))),
        (ChainStage::Find { .. }, DriveReplyView::MaybeFile(Err(why))) => (s, Turn::Done(Err(why))),
        (ChainStage::Create { .. }, DriveReplyView::File(Err(why))) => (s, Turn::Done(Err(why))),
        _ => (s, Turn::Done(Err(UNEXPECTED_DRIVE_REPLY@))),
    }
}

/// How the way down to a file begins.
pub open spec fn begin_resolve(virtual_path: Seq<char>) -> ResolveTurnView {
    match path_segments(virtual_path) {
        Err(why) => Turn::Done(Err(why)),
        Ok(segments) => Turn::Ask(ResolveStage::Sandbox { segments }, DriveRequest::SandboxId),
    }
}

/// The way down goes on with the item with the given index: a folder, or the
/// file at the end.
pub open spec fn resolve_from(
    segments: Seq<Seq<char>>,
    next: int,
    parent_id: Seq<char>,
) -> ResolveTurnView {
    if next >= segments.len() {
        Turn::Done(Ok(None))
    } else {
        Turn::Ask(
            ResolveStage::Find { segments, next: next as usize },
            DriveRequest::FindChild {
                parent_id,
                name: segments[next],
                kind: if next + 1 == segments.len() {
                    ChildKind::File
                } else {
                    ChildKind::Folder
                },
            },
        )
    }
}

/// How the way down to a file goes on.
pub open spec fn resolve_step(
    s: DriveStoreView,
    stage: ResolveStage<Seq<Seq<char>>>,
    reply: DriveReplyView,
) -> (DriveStoreView, ResolveTurnView) {
    match (stage, reply) {
        (ResolveStage::Sandbox { segments }, DriveReplyView::Text(Ok(id))) => (
            s,
            resolve_from(segments, 0, id),
        ),
        (ResolveStage::Find { segments, next }, DriveReplyView::MaybeFile(Ok(found))) => match found {
            None => (s, Turn::Done(Ok(None))),
            Some(file) => match file.id {
                None => (s, Turn::Done(Err("Drive path resolver found item without id"@))),
                Some(id) => if next + 1 >= segments.len() {
                    (s, Turn::Done(Ok(Some(file))))
                } else {
                    (
                        learned(s, running_path(segments.take(next + 1)), id),
                        resolve_from(segments, next + 1, id),
                    )
                },
            },
        },
        (ResolveStage::Sandbox { .. }, DriveReplyView::Text(Err(why))) => (s, Turn::Done(Err(why))),
        (ResolveStage::Find { .. }, DriveReplyView::MaybeFile(Err(why))) => (
            s,
            Turn::Done(Err(why)),
        ),
        _ => (s, Turn::Done(Err(UNEXPECTED_DRIVE_REPLY@))),
    }
}

/// The path of the folder that the first `n` names lead to.
fn path_of_first(names: &Vec<String>, n: usize) -> (s: String)
    requires
        n <= names@.len(),
    ensures
        s@ == running_path(texts(names@).take(n as int)),
{
    let mut s = String::new();
    let mut i: usize = 0;
    assert(texts(names@).take(0) == Seq::<Seq<char>>::empty());
    while i < n
        invariant
            i <= n <= names@.len(),
            s@ == running_path(texts(names@).take(i as int)),
        decreases n - i,
    {
        let ghost done = texts(names@).take(i + 1);
        assert(done.drop_last() == texts(names@).take(i as int));
        assert(done.last() == names@[i as int]@);
        if s.as_str().is_empty() {
            assert(s@ + names@[i as int]@ == names@[i as int]@);
        } else {
            s.push('/');
        }
        s.append(names[i].as_str());
        i += 1;
    }
    s
}

impl GoogleDriveRemoteStore {
    /// A store in the sandbox folder with the given name, which knows of no
    /// folder yet.
    pub fn new(sandbox_name: &str) -> (r: Self)
        ensures
            r@ == (DriveStoreView {
                sandbox_name: sandbox_folder(sandbox_name@),
                sandbox_id: None,
                folder_cache: Seq::empty(),
            }),
    {
        let r = GoogleDriveRemoteStore {
            sandbox_name: normalize_sandbox_name(sandbox_name),
            sandbox_id: None,
            folder_cache: Vec::new(),
        };
        assert(r@.folder_cache == Seq::<(Seq<char>, Seq<char>)>::empty());
        r
    }

    /// The index of the entry of a folder path in the cache.
    fn position(&self, path: &String) -> (r: Option<usize>)
        ensures
            match r {
                Some(i) => i < self@.folder_cache.len() && find(
                    self@.folder_cache,
                    folder_at(path@),
                ) == Some(i as int),
                None => find(self@.folder_cache, folder_at(path@)) is None,
            },
    {
        let ghost cache = self@.folder_cache;
        let ghost hit = folder_at(path@);
        let mut i: usize = 0;
        while i < self.folder_cache.len()
            invariant
                i <= cache.len(),
                cache == self@.folder_cache,
                hit == folder_at(path@),
                forall|j: int| 0 <= j < i ==> !hit(#[trigger] cache[j]),
            decreases cache.len() - i,
        {
            assert(cache[i as int].0 == self.folder_cache@[i as int].0@);
            if self.folder_cache[i].0 == *path {
                proof {
                    assert(hit(cache[i as int]));
                    lemma_find_is(cache, hit, i as int);
                }
                return Some(i);
            }
            assert(!hit(cache[i as int]));
            i += 1;
        }
        proof {
            lemma_find_none(cache, hit);
        }
        None
    }

    /// Remembers the identifier of a folder.
    fn learn(&mut self, path: String, id: String)
        ensures
            final(self)@ == learned(old(self)@, path@, id@),
    {
        let ghost before = self@.folder_cache;
        match self.position(&path) {
            Some(i) => {
                self.folder_cache.set(i, (path, id));
                assert(self@.folder_cache == before.update(i as int, (path@, id@)));
            },
            None => {
                self.folder_cache.push((path, id));
                assert(self@.folder_cache == before.push((path@, id@)));
            },
        }
    }

    /// Begins to look for the sandbox folder.
    pub fn ensure_sandbox_id(&self) -> (r: SandboxTurn)
        ensures
            r@ == begin_sandbox(self@),
    {
        match &self.sandbox_id {
            Some(id) => Turn::Done(Ok(id.clone())),
            None => Turn::Ask(
                SandboxStage::Find,
                DriveRequest::FindChild {
                    parent_id: ROOT_ID.to_owned(),
                    name: self.sandbox_name.clone(),
                    kind: ChildKind::Folder,
                },
            ),
        }
    }

    /// Takes the sandbox folder for the one to use.
    fn use_sandbox(&mut self, folder: DriveFile) -> (r: SandboxTurn)
        ensures
            (final(self)@, r@) == sandbox_found(old(self)@, folder@),
    {
        match folder.id {
            Some(id) => {
                self.sandbox_id = Some(id.clone());
                Turn::Done(Ok(id))
            },
            None => Turn::Done(Err(Failure::new("Drive returned sandbox folder without id"))),
        }
    }

    /// Goes on with the search for the sandbox folder.
    pub fn sandbox_step(&mut self, stage: SandboxStage, reply: DriveReply) -> (r: SandboxTurn)
        ensures
            (final(self)@, r@) == sandbox_step(old(self)@, stage, reply@),
    {
        match (stage, reply) {
            (SandboxStage::Find, DriveReply::MaybeFile(Ok(Some(folder)))) => self.use_sandbox(
                folder,
            ),
            (SandboxStage::Find, DriveReply::MaybeFile(Ok(None))) => Turn::Ask(
                SandboxStage::Create,
                DriveRequest::CreateFolder {
                    parent_id: ROOT_ID.to_owned(),
                    name: self.sandbox_name.clone(),
                },
            ),
            (SandboxStage::Create, DriveReply::File(Ok(folder))) => self.use_sandbox(folder),
            (SandboxStage::Find, DriveReply::MaybeFile(Err(why))) => Turn::Done(Err(why)),
            (SandboxStage::Create, DriveReply::File(Err(why))) => Turn::Done(Err(why)),
            _ => Turn::Done(Err(Failure::new(UNEXPECTED_DRIVE_REPLY))),
        }
    }

    /// Begins to walk along a chain of folders below the sandbox.
    pub fn ensure_folder_chain(&self, folders: Vec<String>) -> (r: ChainTurn)
        ensures
            r@ == begin_chain(texts(folders@)),
    {
        Turn::Ask(ChainStage::Sandbox { folders }, DriveRequest::SandboxId)
    }

    /// Walks along a chain of folders as far as they are known.
    fn chain_from(&self, folders: Vec<String>, next: usize, parent_id: String) -> (r: ChainTurn)
        ensures
            r@ == chain_from(self@, texts(folders@), next as int, parent_id@),
    {
        let mut k: usize = next;
        let mut parent = parent_id;
        let ghost all = texts(folders@);
        while k < folders.len()
            invariant
                next <= k,
                next <= folders@.len() ==> k <= folders@.len(),
                all == texts(folders@),
                chain_from(self@, all, next as int, parent_id@) == chain_from(
                    self@,
                    all,
                    k as int,
                    parent@,
                ),
            decreases folders.len() - k,
        {
            let path = path_of_first(&folders, k + 1);
            assert(all[k as int] == folders@[k as int]@);
            match self.position(&path) {
                Some(i) => {
                    assert(self@.folder_cache[i as int].1 == self.folder_cache@[i as int].1@);
                    parent = self.folder_cache[i].1.clone();
                    k += 1;
                },
                None => {
                    let name = folders[k].clone();
                    let asked = parent.clone();
                    return Turn::Ask(
                        ChainStage::Find { folders, next: k, parent_id: parent },
                        DriveRequest::FindChild {
                            parent_id: asked,
                            name,
                            kind: ChildKind::Folder,
                        },
                    );
                },
            }
        }
        Turn::Done(Ok(parent))
    }

    /// Takes a folder of a chain for the one to use.
    fn chain_found(&mut self, folders: Vec<String>, next: usize, folder: DriveFile) -> (r:
        ChainTurn)
        requires
            next < folders@.len(),
        ensures
            (final(self)@, r@) == chain_found(
                old(self)@,
                texts(folders@),
                next as int,
                folder@,
            ),
    {
        match folder.id {
            None => Turn::Done(
                Err(Failure::new("Drive folder lookup returned object without id")),
            ),
            Some(id) => {
                let count: usize = folders.len();
                assert(next < count);
                let path = path_of_first(&folders, next + 1);
                self.learn(path, id.clone());
                self.chain_from(folders, next + 1, id)
            },
        }
    }

    /// Goes on with the walk along a chain of folders.
    pub fn chain_step(
        &mut self,
        stage: ChainStage<String, Vec<String>>,
        reply: DriveReply,
    ) -> (r: ChainTurn)
        ensures
            (final(self)@, r@) == chain_step(old(self)@, stage@, reply@),
    {
        match (stage, reply) {
            (ChainStage::Sandbox { folders }, DriveReply::Text(Ok(id))) => self.chain_from(
                folders,
                0,
                id,
            ),
            (ChainStage::Find { folders, next, parent_id }, DriveReply::MaybeFile(Ok(found))) => {
                if next >= folders.len() {
                    return Turn::Done(Err(Failure::new(UNEXPECTED_DRIVE_REPLY)));
                }
                match found {
                    Some(folder) => self.chain_found(folders, next, folder),
                    None => {
                        let name = folders[next].clone();
                        assert(name@ == texts(folders@)[next as int]);
                        Turn::Ask(
                            ChainStage::Create { folders, next },
                            DriveRequest::CreateFolder { parent_id, name },
                        )
                    },
                }
            },
            (ChainStage::Create { folders, next }, DriveReply::File(Ok(folder))) => {
                if next >= folders.len() {
                    return Turn::Done(Err(Failure::new(UNEXPECTED_DRIVE_REPLY)));
                }
                self.chain_found(folders, next, folder)
            },
            (ChainStage::Sandbox { .. }, DriveReply::Text(Err(why))) => Turn::Done(Err(why)),
            (ChainStage::Find { .. }, DriveReply::MaybeFile(Err(why))) => Turn::Done(Err(why)),
            (ChainStage::Create { .. }, DriveReply::File(Err(why))) => Turn::Done(Err(why)),
            _ => Turn::Done(Err(Failure::new(UNEXPECTED_DRIVE_REPLY))),
        }
    }

    /// Begins the way down to the file at a remote path.
    pub fn resolve_file_by_virtual_path(&self, virtual_path: &str) -> (r: ResolveTurn)
        ensures
            r@ == begin_resolve(virtual_path@),
    {
        match split_virtual_path(virtual_path) {
            Err(why) => Turn::Done(Err(why)),
            Ok(segments) => Turn::Ask(
                ResolveStage::Sandbox { segments },
                DriveRequest::SandboxId,
            ),
        }
    }

    /// Goes on with the way down to a file.
    pub fn resolve_step(&mut self, stage: ResolveStage<Vec<String>>, reply: DriveReply) -> (r:
        ResolveTurn)
        ensures
            (final(self)@, r@) == resolve_step(old(self)@, stage@, reply@),
    {
        match (stage, reply) {
            (ResolveStage::Sandbox { segments }, DriveReply::Text(Ok(id))) => resolve_next(
                segments,
                0,
                id,
            ),
            (ResolveStage::Find { segments, next }, DriveReply::MaybeFile(Ok(found))) => {
                match found {
                    None => Turn::Done(Ok(None)),
                    Some(file) => match clone_text(&file.id) {
                        None => Turn::Done(
                            Err(Failure::new("Drive path resolver found item without id")),
                        ),
                        Some(id) => {
                            let count: usize = segments.len();
                            if next >= count || next + 1 >= count {
                                Turn::Done(Ok(Some(file)))
                            } else {
                                let path = path_of_first(&segments, next + 1);
                                self.learn(path, id.clone());
                                resolve_next(segments, next + 1, id)
                            }
                        },
                    },
                }
            },
            (ResolveStage::Sandbox { .. }, DriveReply::Text(Err(why))) => Turn::Done(Err(why)),
            (ResolveStage::Find { .. }, DriveReply::MaybeFile(Err(why))) => Turn::Done(Err(why)),
            _ => Turn::Done(Err(Failure::new(UNEXPECTED_DRIVE_REPLY))),
        }
    }
}

/// Goes on with the item with the given index.
fn resolve_next(segments: Vec<String>, next: usize, parent_id: String) -> (r: ResolveTurn)
    ensures
        r@ == resolve_from(texts(segments@), next as int, parent_id@),
{
    let count: usize = segments.len();
    if next >= count {
        return Turn::Done(Ok(None));
    }
    let name = segments[next].clone();
    assert(name@ == texts(segments@)[next as int]);
    let kind = if next + 1 == count {
        ChildKind::File
    } else {
        ChildKind::Folder
    };
    Turn::Ask(
        ResolveStage::Find { segments, next },
        DriveRequest::FindChild { parent_id, name, kind },
    )
}

} // verus!
