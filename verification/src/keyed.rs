//! Lists that hold at most one entry for each key, in the order in which the
//! keys came.
use vstd::prelude::*;

verus! {

/// The index of the first entry that `hit` holds of.
pub open spec fn find<E>(list: Seq<E>, hit: spec_fn(E) -> bool) -> Option<int>
    decreases list.len(),
{
    if list.len() == 0 {
        None
    } else {
        match find(list.drop_last(), hit) {
            Some(i) => Some(i),
            None => if hit(list.last()) {
                Some(list.len() - 1)
            } else {
                None
            },
        }
    }
}

/// The list with `entry` in the place of the first one that `hit` holds of, or
/// at the end.
pub open spec fn put<E>(list: Seq<E>, hit: spec_fn(E) -> bool, entry: E) -> Seq<E> {
    match find(list, hit) {
        Some(i) => list.update(i, entry),
        None => list.push(entry),
    }
}

/// The list without the first entry that `hit` holds of.
pub open spec fn without<E>(list: Seq<E>, hit: spec_fn(E) -> bool) -> Seq<E> {
    match find(list, hit) {
        Some(i) => list.remove(i),
        None => list,
    }
}

/// Whether no two entries have the same key.
pub open spec fn distinct<E, K>(list: Seq<E>, key: spec_fn(E) -> K) -> bool {
    forall|i: int, j: int|
        0 <= i < j < list.len() ==> key(#[trigger] list[i]) != key(#[trigger] list[j])
}

/// What [`find`] finds: an entry that is hit, with none before it; nothing only
/// where no entry is hit.
pub proof fn lemma_find<E>(list: Seq<E>, hit: spec_fn(E) -> bool)
    ensures
        match find(list, hit) {
            Some(i) => {
                &&& 0 <= i < list.len()
                &&& hit(list[i])
                &&& forall|j: int| 0 <= j < i ==> !hit(#[trigger] list[j])
            },
            None => forall|j: int| 0 <= j < list.len() ==> !hit(#[trigger] list[j]),
        },
    decreases list.len(),
{
    if list.len() > 0 {
        let before = list.drop_last();
        lemma_find(before, hit);
        assert(forall|j: int| 0 <= j < before.len() ==> before[j] == #[trigger] list[j]);
    }
}

/// The first entry that is hit, with none before it, is the one found.
pub proof fn lemma_find_is<E>(list: Seq<E>, hit: spec_fn(E) -> bool, i: int)
    requires
        0 <= i < list.len(),
        hit(list[i]),
        forall|j: int| 0 <= j < i ==> !hit(#[trigger] list[j]),
    ensures
        find(list, hit) == Some(i),
{
    lemma_find(list, hit);
    let k = find(list, hit);
    if k is Some && k->0 < i {
        assert(!hit(list[k->0]));
    }
    if k is Some && k->0 > i {
        assert(!hit(list[i]));
    }
}

/// Where no entry is hit, none is found.
pub proof fn lemma_find_none<E>(list: Seq<E>, hit: spec_fn(E) -> bool)
    requires
        forall|j: int| 0 <= j < list.len() ==> !hit(#[trigger] list[j]),
    ensures
        find(list, hit) is None,
{
    lemma_find(list, hit);
}

/// Putting an entry in the place of the one with its key keeps the keys
/// distinct.
pub proof fn lemma_put_distinct<E, K>(
    list: Seq<E>,
    key: spec_fn(E) -> K,
    hit: spec_fn(E) -> bool,
    entry: E,
)
    requires
        distinct(list, key),
        forall|i: int| 0 <= i < list.len() ==> (hit(#[trigger] list[i]) <==> key(list[i]) == key(entry)),
    ensures
        distinct(put(list, hit, entry), key),
{
    lemma_find(list, hit);
    let after = put(list, hit, entry);
    assert forall|i: int, j: int| 0 <= i < j < after.len() implies key(#[trigger] after[i]) != key(
        #[trigger] after[j],
    ) by {
        match find(list, hit) {
            Some(k) => {
                if i == k {
                    assert(key(list[i]) != key(list[j]));
                } else if j == k {
                    assert(key(list[i]) != key(list[j]));
                } else {
                    assert(key(list[i]) != key(list[j]));
                }
            },
            None => {
                if j == list.len() {
                    assert(!hit(list[i]));
                } else {
                    assert(key(list[i]) != key(list[j]));
                }
            },
        }
    }
}

/// Taking an entry out keeps the keys distinct.
pub proof fn lemma_without_distinct<E, K>(
    list: Seq<E>,
    key: spec_fn(E) -> K,
    hit: spec_fn(E) -> bool,
)
    requires
        distinct(list, key),
    ensures
        distinct(without(list, hit), key),
{
    lemma_find(list, hit);
    let after = without(list, hit);
    assert forall|i: int, j: int| 0 <= i < j < after.len() implies key(#[trigger] after[i]) != key(
        #[trigger] after[j],
    ) by {
        match find(list, hit) {
            Some(k) => {
                let a = if i < k {
                    i
                } else {
                    i + 1
                };
                let b = if j < k {
                    j
                } else {
                    j + 1
                };
                assert(after[i] == list[a]);
                assert(after[j] == list[b]);
                assert(key(list[a]) != key(list[b]));
            },
            None => {
                assert(key(list[i]) != key(list[j]));
            },
        }
    }
}

/// Filtering keeps a list whose elements all pass.
pub proof fn lemma_filter_all<A>(s: Seq<A>, pred: spec_fn(A) -> bool)
    requires
        forall|i: int| 0 <= i < s.len() ==> pred(#[trigger] s[i]),
    ensures
        s.filter(pred) == s,
    decreases s.len(),
{
    reveal(Seq::filter);
    if s.len() > 0 {
        assert forall|i: int| 0 <= i < s.drop_last().len() implies pred(
            #[trigger] s.drop_last()[i],
        ) by {
            assert(s.drop_last()[i] == s[i]);
        }
        lemma_filter_all(s.drop_last(), pred);
        assert(s.drop_last().push(s.last()) == s);
    }
}

/// Filtering leaves nothing of a list of which nothing passes.
pub proof fn lemma_filter_none<A>(s: Seq<A>, pred: spec_fn(A) -> bool)
    requires
        forall|i: int| 0 <= i < s.len() ==> !pred(#[trigger] s[i]),
    ensures
        s.filter(pred).len() == 0,
    decreases s.len(),
{
    reveal(Seq::filter);
    if s.len() > 0 {
        assert forall|i: int| 0 <= i < s.drop_last().len() implies !pred(
            #[trigger] s.drop_last()[i],
        ) by {
            assert(s.drop_last()[i] == s[i]);
        }
        lemma_filter_none(s.drop_last(), pred);
    }
}

} // verus!
