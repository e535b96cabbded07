//! Maps from local paths, in the order in which the paths came.
use vstd::prelude::*;

use crate::keyed::{
    distinct, find, lemma_find, lemma_find_is, lemma_find_none, lemma_put_distinct,
    lemma_without_distinct, without,
};
use crate::path::{components, same_path, LocalPath};

verus! {

/// Holds of the entry of a path.
pub open spec fn entry_of<X>(path: Seq<u8>) -> spec_fn((Seq<u8>, X)) -> bool {
    |entry: (Seq<u8>, X)| same_path(entry.0, path)
}

/// The map with a value put in for a path. An entry that is there keeps its
/// place and the path it is kept under.
pub open spec fn inserted<X>(list: Seq<(Seq<u8>, X)>, path: Seq<u8>, value: X) -> Seq<
    (Seq<u8>, X),
> {
    match find(list, entry_of(path)) {
        Some(i) => list.update(i, (list[i].0, value)),
        None => list.push((path, value)),
    }
}

/// The map without the entry of a path.
pub open spec fn removed<X>(list: Seq<(Seq<u8>, X)>, path: Seq<u8>) -> Seq<(Seq<u8>, X)> {
    without(list, entry_of(path))
}

/// Whether no two entries are of the same path.
pub open spec fn one_per_path<X>(list: Seq<(Seq<u8>, X)>) -> bool {
    distinct(list, |entry: (Seq<u8>, X)| components(entry.0))
}

/// A map from local paths. Paths with the same components are the same key.
#[derive(Debug)]
pub struct PathMap<T> {
    entries: Vec<(LocalPath, T)>,
}

impl<T: View> View for PathMap<T> {
    type V = Seq<(Seq<u8>, T::V)>;

    closed spec fn view(&self) -> Seq<(Seq<u8>, T::V)> {
        self.entries@.map_values(|entry: (LocalPath, T)| (entry.0@, entry.1@))
    }
}

impl<T: View> PathMap<T> {
    /// No path has two entries.
    pub open spec fn wf(&self) -> bool {
        one_per_path(self@)
    }

    /// The empty map.
    pub fn new() -> (r: Self)
        ensures
            r@ == Seq::<(Seq<u8>, T::V)>::empty(),
            r.wf(),
    {
        PathMap { entries: Vec::new() }
    }

    /// How many entries there are.
    pub fn len(&self) -> (n: usize)
        ensures
            n == self@.len(),
    {
        self.entries.len()
    }

    /// The path of the entry with the given index.
    pub fn path(&self, i: usize) -> (r: &LocalPath)
        requires
            i < self@.len(),
        ensures
            r@ == self@[i as int].0,
    {
        &self.entries[i].0
    }

    /// The value of the entry with the given index.
    pub fn value(&self, i: usize) -> (r: &T)
        requires
            i < self@.len(),
        ensures
            r@ == self@[i as int].1,
    {
        &self.entries[i].1
    }

    /// The index of the entry of a path.
    fn position(&self, path: &LocalPath) -> (r: Option<usize>)
        ensures
            match r {
                Some(i) => find(self@, entry_of(path@)) == Some(i as int) && i < self@.len(),
                None => find(self@, entry_of(path@)) is None,
            },
    {
        let ghost hit = entry_of::<T::V>(path@);
        let mut i: usize = 0;
        while i < self.entries.len()
            invariant
                i <= self.entries.len(),
                hit == entry_of::<T::V>(path@),
                forall|j: int| 0 <= j < i ==> !hit(#[trigger] self@[j]),
            decreases self.entries.len() - i,
        {
            assert(self@[i as int].0 == self.entries@[i as int].0@);
            if self.entries[i].0.same_as(path) {
                proof {
                    lemma_find_is(self@, hit, i as int);
                }
                return Some(i);
            }
            i += 1;
        }
        proof {
            lemma_find_none(self@, hit);
        }
        None
    }

    /// Puts a value in for a path.
    pub fn insert(&mut self, path: LocalPath, value: T)
        requires
            old(self).wf(),
        ensures
            final(self)@ == inserted(old(self)@, path@, value@),
            final(self).wf(),
    {
        let ghost before = self@;
        proof {
            lemma_inserted_one_per_path(before, path@, value@);
        }
        match self.position(&path) {
            Some(i) => {
                let key = self.entries[i].0.clone();
                self.entries.set(i, (key, value));
                assert(self@ == before.update(i as int, (before[i as int].0, value@)));
            },
            None => {
                self.entries.push((path, value));
                assert(self@ == before.push((path@, value@)));
            },
        }
    }

    /// Gives the entry with the given index another value.
    pub fn set_at(&mut self, i: usize, value: T)
        requires
            old(self).wf(),
            i < old(self)@.len(),
        ensures
            final(self)@ == old(self)@.update(i as int, (old(self)@[i as int].0, value@)),
            final(self).wf(),
    {
        let ghost before = self@;
        let key = self.entries[i].0.clone();
        self.entries.set(i, (key, value));
        assert(self@ == before.update(i as int, (before[i as int].0, value@)));
        assert forall|a: int, b: int| 0 <= a < b < self@.len() implies components(
            (#[trigger] self@[a]).0,
        ) != components((#[trigger] self@[b]).0) by {
            assert(components(before[a].0) != components(before[b].0));
        }
    }

    /// Takes the entry with the given index out.
    pub fn remove_at(&mut self, i: usize) -> (r: (LocalPath, T))
        requires
            old(self).wf(),
            i < old(self)@.len(),
        ensures
            (r.0@, r.1@) == old(self)@[i as int],
            final(self)@ == old(self)@.remove(i as int),
            final(self).wf(),
    {
        let ghost before = self@;
        let r = self.entries.remove(i);
        assert(self@ == before.remove(i as int));
        proof {
            lemma_remove_one_per_path(before, i as int);
        }
        r
    }

    /// Takes the entry of a path out, if there is one.
    pub fn remove(&mut self, path: &LocalPath) -> (r: Option<T>)
        requires
            old(self).wf(),
        ensures
            final(self)@ == removed(old(self)@, path@),
            match find(old(self)@, entry_of(path@)) {
                Some(i) => r is Some && r->0@ == old(self)@[i].1,
                None => r is None,
            },
            final(self).wf(),
    {
        match self.position(path) {
            Some(i) => {
                let (_, value) = self.remove_at(i);
                Some(value)
            },
            None => None,
        }
    }
}

/// Putting a value in keeps one entry for each path.
pub proof fn lemma_inserted_one_per_path<X>(list: Seq<(Seq<u8>, X)>, path: Seq<u8>, value: X)
    requires
        one_per_path(list),
    ensures
        one_per_path(inserted(list, path, value)),
{
    let key = |entry: (Seq<u8>, X)| components(entry.0);
    lemma_find(list, entry_of(path));
    let entry = match find(list, entry_of(path)) {
        Some(i) => (list[i].0, value),
        None => (path, value),
    };
    lemma_put_distinct(list, key, entry_of(path), entry);
}

/// Taking an entry out keeps one entry for each path.
pub proof fn lemma_remove_one_per_path<X>(list: Seq<(Seq<u8>, X)>, k: int)
    requires
        one_per_path(list),
        0 <= k < list.len(),
    ensures
        one_per_path(list.remove(k)),
{
    let after = list.remove(k);
    assert forall|i: int, j: int| 0 <= i < j < after.len() implies components(
        (#[trigger] after[i]).0,
    ) != components((#[trigger] after[j]).0) by {
        let a = if i < k {
            i
        } else {
            i + 1
        };
        let b = if j < k {
            j
        } else {
            j + 1
        };
        assert(components(list[a].0) != components(list[b].0));
    }
}

/// Keeping only some of the entries keeps one entry for each path.
pub proof fn lemma_filter_one_per_path<X>(
    list: Seq<(Seq<u8>, X)>,
    pred: spec_fn((Seq<u8>, X)) -> bool,
)
    requires
        one_per_path(list),
    ensures
        one_per_path(list.filter(pred)),
    decreases list.len(),
{
    reveal(Seq::filter);
    if list.len() > 0 {
        let head = list.drop_last();
        assert forall|i: int, j: int| 0 <= i < j < head.len() implies components(
            (#[trigger] head[i]).0,
        ) != components((#[trigger] head[j]).0) by {
            assert(components(list[i].0) != components(list[j].0));
        }
        lemma_filter_one_per_path(head, pred);
        let kept = head.filter(pred);
        let after = list.filter(pred);
        if pred(list.last()) {
            assert forall|i: int, j: int| 0 <= i < j < after.len() implies components(
                (#[trigger] after[i]).0,
            ) != components((#[trigger] after[j]).0) by {
                if j == kept.len() {
                    assert(kept.contains(kept[i]));
                    head.lemma_filter_contains_rev(pred, kept[i]);
                    let k = choose|k: int| 0 <= k < head.len() && head[k] == kept[i];
                    assert(components(list[k].0) != components(list[list.len() - 1].0));
                } else {
                    assert(components(kept[i].0) != components(kept[j].0));
                }
            }
        }
    }
}

/// A value that was put in for a path is the one that is there for it.
pub proof fn law_inserted_is_found<X>(list: Seq<(Seq<u8>, X)>, path: Seq<u8>, value: X)
    requires
        one_per_path(list),
    ensures
        one_per_path(inserted(list, path, value)),
        exists|i: int|
            0 <= i < inserted(list, path, value).len() && same_path(
                (#[trigger] inserted(list, path, value)[i]).0,
                path,
            ) && inserted(list, path, value)[i].1 == value,
{
    lemma_inserted_one_per_path(list, path, value);
    lemma_find(list, entry_of(path));
    let after = inserted(list, path, value);
    let k = match find(list, entry_of(path)) {
        Some(i) => i,
        None => list.len() as int,
    };
    assert(same_path(after[k].0, path) && after[k].1 == value);
}

/// After the entry of a path is taken out, there is none for it.
pub proof fn law_removed_is_gone<X>(list: Seq<(Seq<u8>, X)>, path: Seq<u8>)
    requires
        one_per_path(list),
    ensures
        one_per_path(removed(list, path)),
        forall|i: int|
            0 <= i < removed(list, path).len() ==> !same_path(
                (#[trigger] removed(list, path)[i]).0,
                path,
            ),
{
    let key = |entry: (Seq<u8>, X)| components(entry.0);
    let hit = entry_of::<X>(path);
    lemma_find(list, hit);
    lemma_without_distinct(list, key, hit);
    let after = removed(list, path);
    assert forall|i: int| 0 <= i < after.len() implies !same_path((#[trigger] after[i]).0, path) by {
        match find(list, hit) {
            Some(k) => {
                let a = if i < k {
                    i
                } else {
                    i + 1
                };
                assert(after[i] == list[a]);
                if a < k {
                    assert(!hit(list[a]));
                } else {
                    assert(components(list[k].0) != components(list[a].0));
                }
            },
            None => {
                assert(!hit(list[i]));
            },
        }
    }
}

/// Putting a value in for a path leaves the entries of other paths alone.
pub proof fn law_inserting_keeps_the_others<X>(
    list: Seq<(Seq<u8>, X)>,
    path: Seq<u8>,
    value: X,
    entry: (Seq<u8>, X),
)
    requires
        !same_path(entry.0, path),
    ensures
        inserted(list, path, value).contains(entry) <==> list.contains(entry),
{
    let after = inserted(list, path, value);
    lemma_find(list, entry_of(path));
    if list.contains(entry) {
        let i = choose|i: int| 0 <= i < list.len() && list[i] == entry;
        assert(after[i] == entry);
    }
    if after.contains(entry) {
        let i = choose|i: int| 0 <= i < after.len() && after[i] == entry;
        assert(list[i] == entry);
    }
}

/// Taking the entry of a path out leaves the entries of other paths alone.
pub proof fn law_removing_keeps_the_others<X>(
    list: Seq<(Seq<u8>, X)>,
    path: Seq<u8>,
    entry: (Seq<u8>, X),
)
    requires
        !same_path(entry.0, path),
    ensures
        removed(list, path).contains(entry) <==> list.contains(entry),
{
    let after = removed(list, path);
    lemma_find(list, entry_of(path));
    let at = find(list, entry_of(path));
    if list.contains(entry) {
        let i = choose|i: int| 0 <= i < list.len() && list[i] == entry;
        let k = if at is Some && i > at->0 {
            i - 1
        } else {
            i
        };
        assert(after[k] == entry);
    }
    if after.contains(entry) {
        let i = choose|i: int| 0 <= i < after.len() && after[i] == entry;
        let k = if at is Some && i >= at->0 {
            i + 1
        } else {
            i
        };
        assert(list[k] == entry);
    }
}

/// Putting a value in for a path leaves no other entry of that path.
pub proof fn law_inserting_replaces<X>(
    list: Seq<(Seq<u8>, X)>,
    path: Seq<u8>,
    value: X,
    entry: (Seq<u8>, X),
)
    requires
        one_per_path(list),
        same_path(entry.0, path),
        inserted(list, path, value).contains(entry),
    ensures
        entry.1 == value,
{
    let after = inserted(list, path, value);
    law_inserted_is_found(list, path, value);
    let k = choose|k: int|
        0 <= k < after.len() && same_path((#[trigger] after[k]).0, path) && after[k].1 == value;
    let i = choose|i: int| 0 <= i < after.len() && after[i] == entry;
    if i < k {
        assert(components(after[i].0) != components(after[k].0));
    } else if k < i {
        assert(components(after[k].0) != components(after[i].0));
    }
}

} // verus!
