//! What holds of the mapping between local and remote paths.
use vstd::prelude::*;
use vstd::utf8::{
    decode_utf8, decode_utf8_encode_utf8, encode_utf8, encode_utf8_decode_utf8,
    encode_utf8_valid_utf8, valid_utf8,
};

use crate::config::{
    entry_to_local, entry_to_remote, last_largest, law_last_largest, local_of, local_scores,
    remote_of, remote_scores, remote_within, slash_path, slash_text, WatchEntryView,
};
use crate::encoding::{
    lemma_encode_concat, lemma_encode_contains, lemma_encode_is_name, lemma_encode_nonempty,
};
use crate::keyed::lemma_filter_all;
use crate::path::{
    components, is_name, lemma_components_of_pushed, lemma_normal_components_are_names, named,
    names, pushed, same_path, within, Component, SLASH,
};
use crate::remote::fs_laws::lemma_encode_joined;
use crate::text::{
    joined, lemma_split_concat, lemma_split_joined, lemma_split_parts, lossy_text, split_on,
    trimmed, CharClass,
};
use crate::virtual_path::{
    law_normalized_splits_into_segments, law_segments_are_proper,
    lemma_normalized_names, name_segments, normalized, proper,
};

verus! {

/// The byte `\\`.
pub const BACKSLASH: u8 = 92;

/// Whether a component is a name that can stand in a remote path: valid UTF-8
/// without a backslash.
pub open spec fn portable(component: Component<Seq<u8>>) -> bool {
    component is Normal && valid_utf8(component->Normal_0) && !component->Normal_0.contains(
        BACKSLASH,
    )
}

/// The encodings of a list of texts.
pub open spec fn encoded(parts: Seq<Seq<char>>) -> Seq<Seq<u8>> {
    parts.map_values(|part: Seq<char>| encode_utf8(part))
}

/// Joining two lists is joining what they join to.
proof fn lemma_joined_concat<T>(a: Seq<Seq<T>>, b: Seq<Seq<T>>, sep: T)
    requires
        a.len() > 0,
        b.len() > 0,
    ensures
        joined(a + b, sep) == joined(a, sep).push(sep) + joined(b, sep),
    decreases b.len(),
{
    let whole = a + b;
    assert(whole.drop_last() == a + b.drop_last());
    assert(whole.last() == b.last());
    if b.len() == 1 {
        assert(a + b.drop_last() == a);
    } else {
        lemma_joined_concat(a, b.drop_last(), sep);
        assert(joined(a, sep).push(sep) + joined(b.drop_last(), sep).push(sep) + b.last()
            == joined(a, sep).push(sep) + joined(b, sep));
    }
}

/// Joining the parts of a split gives the text back.
proof fn lemma_joined_split<T>(s: Seq<T>, sep: T)
    ensures
        joined(split_on(s, sep), sep) == s,
    decreases s.len(),
{
    if s.len() > 0 {
        let before = split_on(s.drop_last(), sep);
        lemma_joined_split(s.drop_last(), sep);
        lemma_split_parts(s.drop_last(), sep);
        if s.last() == sep {
            let parts = before.push(Seq::<T>::empty());
            assert(parts.drop_last() == before);
            assert(joined(parts, sep) == s);
        } else {
            let parts = before.drop_last().push(before.last().push(s.last()));
            assert(parts.drop_last() == before.drop_last());
            assert(joined(parts, sep) == joined(before, sep).push(s.last()));
            assert(joined(parts, sep) == s);
        }
    } else {
        assert(s == Seq::<T>::empty());
    }
}

/// The names of named components.
pub proof fn lemma_names_of_named(parts: Seq<Seq<u8>>)
    ensures
        names(named(parts)) == parts,
    decreases parts.len(),
{
    if parts.len() > 0 {
        lemma_names_of_named(parts.drop_last());
        assert(named(parts).drop_last() == named(parts.drop_last()));
        assert(parts.drop_last().push(parts.last()) == parts);
    }
}

/// Names below a path: what they are as text, and what the text is as a path.
proof fn lemma_names_below(base: Seq<u8>, parts: Seq<Seq<char>>)
    requires
        parts.len() > 0,
        forall|i: int| 0 <= i < parts.len() ==> is_name(encode_utf8(#[trigger] parts[i])),
    ensures
        slash_text(named(encoded(parts))) == joined(parts, '/'),
        components(pushed(base, slash_path(joined(parts, '/')))) == components(base) + named(
            encoded(parts),
        ),
{
    let bytes = encoded(parts);
    let keep = |part: Seq<char>| part.len() > 0;
    assert forall|i: int| 0 <= i < parts.len() implies !(#[trigger] parts[i]).contains('/')
        && parts[i].len() > 0 by {
        lemma_encode_is_name(parts[i]);
    }
    lemma_split_joined(parts, '/');
    lemma_filter_all(parts, keep);
    assert(parts.map_values(|part: Seq<char>| encode_utf8(part)) == bytes);
    assert(slash_path(joined(parts, '/')) == joined(bytes, SLASH));
    assert forall|i: int| 0 <= i < bytes.len() implies is_name(#[trigger] bytes[i]) by {
        assert(bytes[i] == encode_utf8(parts[i]));
    }
    lemma_components_of_pushed(base, bytes);
    lemma_names_of_named(bytes);
    let back = bytes.map_values(|name: Seq<u8>| lossy_text(name));
    assert forall|i: int| 0 <= i < parts.len() implies #[trigger] back[i] == parts[i] by {
        encode_utf8_valid_utf8(parts[i]);
        encode_utf8_decode_utf8(parts[i]);
    }
    assert(back == parts);
}

/// A local path that a watch entry covers comes back from its remote path,
/// where the names below the entry are valid UTF-8 without backslashes and the
/// remote path has no white space at its ends and is covered best by the same
/// entry.
pub proof fn law_local_paths_come_back(watch: Seq<WatchEntryView>, i: int, local_path: Seq<u8>)
    requires
        last_largest(local_scores(watch, local_path)) == Some(i),
        forall|j: int|
            components(watch[i].local_path).len() <= j < components(local_path).len() ==> portable(
                #[trigger] components(local_path)[j],
            ),
        watch[i].remote_name.len() > 0,
        normalized(watch[i].remote_name) == watch[i].remote_name,
        trimmed(entry_to_remote(watch[i], local_path), CharClass::WhiteSpace) == entry_to_remote(
            watch[i],
            local_path,
        ),
        last_largest(remote_scores(watch, entry_to_remote(watch[i], local_path))) == Some(i),
    ensures
        remote_of(watch, local_path) == Some(entry_to_remote(watch[i], local_path)),
        local_of(watch, entry_to_remote(watch[i], local_path)) is Some,
        same_path(local_of(watch, entry_to_remote(watch[i], local_path))->0, local_path),
{
    let entry = watch[i];
    let base = components(entry.local_path);
    let whole = components(local_path);
    let tail = whole.skip(base.len() as int);
    let remote = entry_to_remote(entry, local_path);
    law_last_largest(local_scores(watch, local_path));
    assert(within(local_path, entry.local_path));
    assert(whole == base + tail);
    let parts = tail.map_values(|component: Component<Seq<u8>>| decode_utf8(component->Normal_0));
    lemma_normal_components_are_names(local_path);
    assert forall|j: int| 0 <= j < parts.len() implies is_name(encode_utf8(#[trigger] parts[j]))
        && !parts[j].contains('\\') && tail[j] == Component::Normal(encode_utf8(parts[j])) by {
        let k = base.len() + j;
        assert(tail[j] == whole[k]);
        assert(portable(whole[k]));
        decode_utf8_encode_utf8(whole[k]->Normal_0);
        lemma_encode_contains(parts[j], '\\');
    }
    assert(tail == named(encoded(parts)));
    if parts.len() == 0 {
        assert(tail.len() == 0);
        assert(names(tail).len() == 0);
        assert(remote == entry.remote_name);
        assert(whole == base);
    } else {
        lemma_names_below(entry.local_path, parts);
        let rel = joined(parts, '/');
        law_segments_are_proper(entry.remote_name);
        law_normalized_splits_into_segments(entry.remote_name);
        let head = name_segments(entry.remote_name);
        assert(head.len() > 0);
        assert forall|j: int| 0 <= j < (head + parts).len() implies proper(
            #[trigger] (head + parts)[j],
        ) && !(head + parts)[j].contains('/') && !(head + parts)[j].contains('\\') by {
            if j < head.len() {
                assert((head + parts)[j] == head[j]);
            } else {
                assert((head + parts)[j] == parts[j - head.len()]);
                lemma_encode_is_name(parts[j - head.len()]);
            }
        }
        lemma_joined_concat(head, parts, '/');
        lemma_encode_is_name(parts[0]);
        lemma_joined_nonempty(parts, '/');
        assert(rel.len() > 0);
        assert(remote == joined(head + parts, '/'));
        lemma_normalized_names(head + parts);
        assert(remote.skip(entry.remote_name.len() as int + 1) == rel);
    }
}

/// A text joined from parts of which the first is not empty is not empty.
proof fn lemma_joined_nonempty<T>(parts: Seq<Seq<T>>, sep: T)
    requires
        parts.len() > 0,
        parts[0].len() > 0,
    ensures
        joined(parts, sep).len() > 0,
{
}

/// A remote path that a watch entry covers comes back, in the form it is kept
/// in, from its local path, where none of its names is `..` and the local path
/// is covered best by the same entry.
pub proof fn law_remote_paths_come_back(watch: Seq<WatchEntryView>, i: int, raw: Seq<char>)
    requires
        last_largest(remote_scores(watch, normalized(raw))) == Some(i),
        watch[i].remote_name.len() > 0,
        forall|j: int|
            0 <= j < name_segments(raw).len() ==> #[trigger] name_segments(raw)[j] != seq![
                '.',
                '.',
            ],
        last_largest(local_scores(watch, entry_to_local(watch[i], normalized(raw)))) == Some(i),
    ensures
        local_of(watch, raw) == Some(entry_to_local(watch[i], normalized(raw))),
        remote_of(watch, entry_to_local(watch[i], normalized(raw))) == Some(normalized(raw)),
{
    let entry = watch[i];
    let remote = normalized(raw);
    let local_path = entry_to_local(entry, remote);
    let base = components(entry.local_path);
    law_last_largest(remote_scores(watch, remote));
    assert(remote_within(remote, entry.remote_name));
    if remote == entry.remote_name {
        assert(components(local_path).skip(base.len() as int) == Seq::<
            Component<Seq<u8>>,
        >::empty());
        assert(names(Seq::<Component<Seq<u8>>>::empty()).len() == 0);
        assert(slash_text(Seq::<Component<Seq<u8>>>::empty()).len() == 0);
    } else {
        let rel = remote.skip(entry.remote_name.len() as int + 1);
        let parts = split_on(rel, '/');
        let before = split_on(entry.remote_name, '/');
        law_segments_are_proper(raw);
        law_normalized_splits_into_segments(raw);
        assert(entry.remote_name.push('/') + rel == remote);
        lemma_split_concat(entry.remote_name, '/', rel);
        lemma_split_parts(rel, '/');
        lemma_joined_split(rel, '/');
        assert forall|j: int| 0 <= j < parts.len() implies is_name(
            encode_utf8(#[trigger] parts[j]),
        ) by {
            assert(name_segments(raw)[j + before.len()] == parts[j]);
            lemma_encode_is_name(parts[j]);
        }
        lemma_names_below(entry.local_path, parts);
        assert(components(local_path).skip(base.len() as int) == named(encoded(parts)));
        lemma_encode_is_name(parts[0]);
        lemma_joined_nonempty(parts, '/');
    }
}

/// A score that none is larger than, and none after it as large as, is the one that is
/// picked.
proof fn lemma_last_largest_is(scores: Seq<Option<nat>>, k: int)
    requires
        0 <= k < scores.len(),
        scores[k] is Some,
        forall|j: int|
            0 <= j < scores.len() && #[trigger] scores[j] is Some ==> scores[j]->0 <= scores[k]->0
                && (j > k ==> scores[j]->0 < scores[k]->0),
    ensures
        last_largest(scores) == Some(k),
{
    law_last_largest(scores);
    let i = last_largest(scores);
    assert(i is Some) by {
        if i is None {
            assert(scores[k] is None);
        }
    }
    assert(scores[i->0] is Some);
}

/// Whether an entry has no say in which score is picked: it has none, or another one has
/// a larger one.
spec fn is_outscored(scores: Seq<Option<nat>>, i: int) -> bool {
    scores[i] is None || exists|j: int|
        0 <= j < scores.len() && #[trigger] scores[j] is Some && scores[j]->0 > scores[i]->0
}

/// Without such an entry the same one is picked.
proof fn lemma_outscored_is_not_missed(scores: Seq<Option<nat>>, i: int)
    requires
        0 <= i < scores.len(),
        is_outscored(scores, i),
    ensures
        match last_largest(scores) {
            None => last_largest(scores.remove(i)) is None,
            Some(k) => k != i && last_largest(scores.remove(i)) == Some(
                if k < i {
                    k
                } else {
                    k - 1
                },
            ),
        },
{
    let left = scores.remove(i);
    law_last_largest(scores);
    law_last_largest(left);
    match last_largest(scores) {
        None => {
            match last_largest(left) {
                Some(j) => {
                    let a = if j < i {
                        j
                    } else {
                        j + 1
                    };
                    assert(left[j] == scores[a]);
                },
                None => {},
            }
        },
        Some(k) => {
            let at = if k < i {
                k
            } else {
                k - 1
            };
            if k == i && scores[i] is Some {
                let j = choose|j: int|
                    0 <= j < scores.len() && #[trigger] scores[j] is Some && scores[j]->0
                        > scores[i]->0;
                assert(scores[j]->0 <= scores[k]->0);
            }
            assert(left[at] == scores[k]);
            assert forall|j: int| 0 <= j < left.len() && #[trigger] left[j] is Some implies left[j]->0
                <= left[at]->0 && (j > at ==> left[j]->0 < left[at]->0) by {
                let a = if j < i {
                    j
                } else {
                    j + 1
                };
                assert(left[j] == scores[a]);
            }
            lemma_last_largest_is(left, at);
        },
    }
}

/// The watch entry that gives a local path its remote path covers it, and no entry that
/// covers it has a longer local path, nor has a later one as long a path. A path has no
/// remote path only where no entry covers it.
pub proof fn law_the_longest_local_path_counts(watch: Seq<WatchEntryView>, local_path: Seq<u8>)
    ensures
        match remote_of(watch, local_path) {
            None => forall|j: int|
                0 <= j < watch.len() ==> !within(local_path, (#[trigger] watch[j]).local_path),
            Some(remote) => exists|i: int|
                #![trigger watch[i]]
                0 <= i < watch.len() && within(local_path, watch[i].local_path) && remote
                    == entry_to_remote(watch[i], local_path) && forall|j: int|
                    0 <= j < watch.len() && within(local_path, (#[trigger] watch[j]).local_path)
                        ==> watch[j].local_path.len() <= watch[i].local_path.len() && (j > i
                        ==> watch[j].local_path.len() < watch[i].local_path.len()),
        },
{
    let scores = local_scores(watch, local_path);
    law_last_largest(scores);
    match last_largest(scores) {
        None => {
            assert forall|j: int| 0 <= j < watch.len() implies !within(
                local_path,
                (#[trigger] watch[j]).local_path,
            ) by {
                assert(scores[j] is None);
            }
        },
        Some(i) => {
            assert(scores[i] is Some);
            assert(within(local_path, watch[i].local_path));
            assert forall|j: int|
                0 <= j < watch.len() && within(
                    local_path,
                    (#[trigger] watch[j]).local_path,
                ) implies watch[j].local_path.len() <= watch[i].local_path.len() && (j > i
                ==> watch[j].local_path.len() < watch[i].local_path.len()) by {
                assert(scores[j] == Some(watch[j].local_path.len()));
            }
            assert(remote_of(watch, local_path) == Some(entry_to_remote(watch[i], local_path)));
        },
    }
}

/// Whether a path is written with one slash before each of its names, and nothing else.
pub open spec fn is_tidy(path: Seq<u8>) -> bool {
    exists|parts: Seq<Seq<u8>>| #[trigger] spells(path, parts)
}

/// Whether a path is written with one slash before each of the names.
pub open spec fn spells(path: Seq<u8>, parts: Seq<Seq<u8>>) -> bool {
    &&& path == seq![SLASH] + joined(parts, SLASH)
    &&& forall|i: int| 0 <= i < parts.len() ==> is_name(#[trigger] parts[i])
}

/// The components of a tidy path.
proof fn lemma_tidy_components(path: Seq<u8>, parts: Seq<Seq<u8>>)
    requires
        spells(path, parts),
    ensures
        components(path) == components(seq![SLASH]) + named(parts),
{
    if parts.len() == 0 {
        assert(path == seq![SLASH]);
        assert(named(parts) == Seq::<Component<Seq<u8>>>::empty());
        assert(components(path) + named(parts) == components(path));
    } else {
        lemma_components_of_pushed(seq![SLASH], parts);
        assert(pushed(seq![SLASH], joined(parts, SLASH)) == path);
    }
}

/// A tidy path is shorter than one that lies below it.
proof fn lemma_tidy_grows(outer: Seq<u8>, inner: Seq<u8>)
    requires
        is_tidy(outer),
        is_tidy(inner),
        components(outer).is_prefix_of(components(inner)),
        components(outer) != components(inner),
    ensures
        outer.len() < inner.len(),
{
    let a = choose|parts: Seq<Seq<u8>>| #[trigger] spells(outer, parts);
    let b = choose|parts: Seq<Seq<u8>>| #[trigger] spells(inner, parts);
    let root = components(seq![SLASH]);
    lemma_tidy_components(outer, a);
    lemma_tidy_components(inner, b);
    assert forall|i: int| 0 <= i < a.len() implies #[trigger] a[i] == b[i] by {
        assert(components(outer)[root.len() + i] == components(inner)[root.len() + i]);
        assert(components(outer)[root.len() + i] == named(a)[i]);
        assert(components(inner)[root.len() + i] == named(b)[i]);
    }
    if a.len() == b.len() {
        assert(a == b);
    }
    assert(a.len() < b.len());
    let rest = b.skip(a.len() as int);
    assert(a + rest == b);
    if a.len() == 0 {
        assert(b == rest);
        lemma_joined_not_shorter(b, SLASH);
        assert(is_name(b[0]));
    } else {
        lemma_joined_concat(a, rest, SLASH);
    }
}

/// A text joined from parts is at least as long as the first of them.
proof fn lemma_joined_not_shorter<T>(parts: Seq<Seq<T>>, sep: T)
    requires
        parts.len() > 0,
    ensures
        joined(parts, sep).len() >= parts[0].len(),
    decreases parts.len(),
{
    if parts.len() > 1 {
        lemma_joined_not_shorter(parts.drop_last(), sep);
    }
}

/// A watch entry that does not cover a local path has no say in what the path is mapped
/// to, and neither has one inside of which another one covers it: without it the path is
/// mapped just the same. That an entry is inside of another one is told by their
/// components, where both are written with nothing redundant; `/a///` is longer than
/// `/a/b`.
pub proof fn law_the_innermost_entry_maps_local_paths(
    watch: Seq<WatchEntryView>,
    local_path: Seq<u8>,
    i: int,
    j: int,
)
    requires
        0 <= i < watch.len(),
        0 <= j < watch.len(),
        !within(local_path, watch[i].local_path) || {
            &&& within(local_path, watch[j].local_path)
            &&& components(watch[i].local_path).is_prefix_of(components(watch[j].local_path))
            &&& components(watch[i].local_path) != components(watch[j].local_path)
            &&& is_tidy(watch[i].local_path)
            &&& is_tidy(watch[j].local_path)
        },
    ensures
        remote_of(watch, local_path) == remote_of(watch.remove(i), local_path),
{
    let scores = local_scores(watch, local_path);
    let left = watch.remove(i);
    assert(scores.remove(i) == local_scores(left, local_path));
    if within(local_path, watch[i].local_path) {
        lemma_tidy_grows(watch[i].local_path, watch[j].local_path);
        assert(scores[j] == Some(watch[j].local_path.len()));
        assert(scores[i] == Some(watch[i].local_path.len()));
    } else {
        assert(scores[i] is None);
    }
    assert(is_outscored(scores, i));
    lemma_outscored_is_not_missed(scores, i);
    law_last_largest(scores);
    match last_largest(scores) {
        Some(k) => {
            let at = if k < i {
                k
            } else {
                k - 1
            };
            assert(left[at] == watch[k]);
        },
        None => {},
    }
}

/// The remote path that a watch entry gives to a local path below it has the names of the
/// entry's remote name and then those of the local path below the entry, all of them and
/// in their order.
pub proof fn law_remote_paths_hold_the_names_below(entry: WatchEntryView, local_path: Seq<u8>)
    requires
        within(local_path, entry.local_path),
        forall|j: int|
            components(entry.local_path).len() <= j < components(local_path).len() ==> portable(
                #[trigger] components(local_path)[j],
            ),
    ensures
        ({
            let tail = components(local_path).skip(components(entry.local_path).len() as int);
            split_on(entry_to_remote(entry, local_path), '/') == split_on(entry.remote_name, '/')
                + tail.map_values(
                |component: Component<Seq<u8>>| decode_utf8(component->Normal_0),
            )
        }),
{
    let base = components(entry.local_path);
    let whole = components(local_path);
    let tail = whole.skip(base.len() as int);
    let parts = tail.map_values(|component: Component<Seq<u8>>| decode_utf8(component->Normal_0));
    lemma_normal_components_are_names(local_path);
    assert forall|j: int| 0 <= j < parts.len() implies is_name(encode_utf8(#[trigger] parts[j]))
        && tail[j] == Component::Normal(encode_utf8(parts[j])) by {
        let k = base.len() + j;
        assert(tail[j] == whole[k]);
        assert(portable(whole[k]));
        decode_utf8_encode_utf8(whole[k]->Normal_0);
    }
    assert(tail == named(encoded(parts)));
    if parts.len() == 0 {
        assert(names(tail).len() == 0);
        assert(slash_text(tail).len() == 0);
        assert(split_on(entry.remote_name, '/') + parts == split_on(entry.remote_name, '/'));
    } else {
        lemma_names_below(entry.local_path, parts);
        lemma_encode_is_name(parts[0]);
        lemma_joined_nonempty(parts, '/');
        assert forall|j: int| 0 <= j < parts.len() implies !(#[trigger] parts[j]).contains('/') by {
            lemma_encode_is_name(parts[j]);
        }
        lemma_split_concat(entry.remote_name, '/', joined(parts, '/'));
        lemma_split_joined(parts, '/');
    }
}

/// A watch entry covers a remote path where the names of its remote name are the first
/// ones of the path.
pub proof fn law_remote_coverage_goes_by_names(remote_path: Seq<char>, remote_name: Seq<char>)
    ensures
        remote_within(remote_path, remote_name) <==> split_on(remote_name, '/').is_prefix_of(
            split_on(remote_path, '/'),
        ),
{
    let head = split_on(remote_name, '/');
    let all = split_on(remote_path, '/');
    lemma_split_parts(remote_name, '/');
    lemma_split_parts(remote_path, '/');
    lemma_joined_split(remote_name, '/');
    lemma_joined_split(remote_path, '/');
    if remote_within(remote_path, remote_name) && remote_path != remote_name {
        let rest = remote_path.skip(remote_name.len() as int + 1);
        assert(remote_name.push('/') + rest == remote_path);
        lemma_split_concat(remote_name, '/', rest);
    }
    if head.is_prefix_of(all) {
        let rest = all.skip(head.len() as int);
        assert(head + rest == all);
        if rest.len() == 0 {
            assert(head == all);
        } else {
            lemma_joined_concat(head, rest, '/');
            assert(remote_path == remote_name.push('/') + joined(rest, '/'));
        }
    }
}

/// The watch entry that gives a remote path its local path covers it, and no entry that
/// covers it has a longer remote name, nor has a later one as long a name. A path has no
/// local path only where no entry covers it.
pub proof fn law_the_longest_remote_name_counts(watch: Seq<WatchEntryView>, raw: Seq<char>)
    ensures
        ({
            let path = normalized(raw);
            match local_of(watch, raw) {
                None => forall|j: int|
                    0 <= j < watch.len() ==> !remote_within(
                        path,
                        (#[trigger] watch[j]).remote_name,
                    ),
                Some(local) => exists|i: int|
                    #![trigger watch[i]]
                    0 <= i < watch.len() && remote_within(path, watch[i].remote_name) && local
                        == entry_to_local(watch[i], path) && forall|j: int|
                        0 <= j < watch.len() && remote_within(
                            path,
                            (#[trigger] watch[j]).remote_name,
                        ) ==> watch[j].remote_name.len() <= watch[i].remote_name.len() && (j > i
                            ==> watch[j].remote_name.len() < watch[i].remote_name.len()),
            }
        }),
{
    let path = normalized(raw);
    let scores = remote_scores(watch, path);
    law_last_largest(scores);
    match last_largest(scores) {
        None => {
            assert forall|j: int| 0 <= j < watch.len() implies !remote_within(
                path,
                (#[trigger] watch[j]).remote_name,
            ) by {
                assert(scores[j] is None);
            }
        },
        Some(i) => {
            assert(scores[i] is Some);
            assert(remote_within(path, watch[i].remote_name));
            assert forall|j: int|
                0 <= j < watch.len() && remote_within(
                    path,
                    (#[trigger] watch[j]).remote_name,
                ) implies watch[j].remote_name.len() <= watch[i].remote_name.len() && (j > i
                ==> watch[j].remote_name.len() < watch[i].remote_name.len()) by {
                assert(scores[j] == Some(encode_utf8(watch[j].remote_name).len()));
                assert(scores[i] == Some(encode_utf8(watch[i].remote_name).len()));
                lemma_longer_names(path, watch[i].remote_name, watch[j].remote_name);
                lemma_longer_names(path, watch[j].remote_name, watch[i].remote_name);
            }
            assert(local_of(watch, raw) == Some(entry_to_local(watch[i], path)));
        },
    }
}

/// Of two remote names that cover a path, the one with more characters has more bytes.
proof fn lemma_longer_names(path: Seq<char>, a: Seq<char>, b: Seq<char>)
    requires
        remote_within(path, a),
        remote_within(path, b),
    ensures
        a.len() < b.len() ==> encode_utf8(a).len() < encode_utf8(b).len(),
        a.len() == b.len() ==> encode_utf8(a).len() == encode_utf8(b).len(),
{
    lemma_covering_is_prefix(path, a);
    lemma_covering_is_prefix(path, b);
    if a.len() < b.len() {
        let rest = b.skip(a.len() as int);
        assert(a + rest == b);
        lemma_encode_concat(a, rest);
        lemma_encode_nonempty(rest);
    } else if a.len() == b.len() {
        assert(a == b);
    }
}

/// A remote name that covers a path is what the path begins with.
proof fn lemma_covering_is_prefix(path: Seq<char>, name: Seq<char>)
    requires
        remote_within(path, name),
    ensures
        name.len() <= path.len(),
        name == path.take(name.len() as int),
{
    if path != name {
        let head = name.push('/');
        assert(head == path.take(head.len() as int));
        assert(name == head.drop_last());
        assert(name == path.take(name.len() as int));
    } else {
        assert(path.take(path.len() as int) == path);
    }
}

/// A watch entry that does not cover a remote path has no say in what the path is mapped
/// to, and neither has one whose remote name is only the beginning of the remote name of
/// another one that covers it: without it the path is mapped just the same.
pub proof fn law_the_innermost_entry_maps_remote_paths(
    watch: Seq<WatchEntryView>,
    raw: Seq<char>,
    i: int,
    j: int,
)
    requires
        0 <= i < watch.len(),
        0 <= j < watch.len(),
        !remote_within(normalized(raw), watch[i].remote_name) || {
            &&& remote_within(normalized(raw), watch[j].remote_name)
            &&& watch[i].remote_name.len() < watch[j].remote_name.len()
        },
    ensures
        local_of(watch, raw) == local_of(watch.remove(i), raw),
{
    let path = normalized(raw);
    let scores = remote_scores(watch, path);
    let left = watch.remove(i);
    assert(scores.remove(i) == remote_scores(left, path));
    if remote_within(path, watch[i].remote_name) {
        lemma_longer_names(path, watch[i].remote_name, watch[j].remote_name);
        assert(scores[j] == Some(encode_utf8(watch[j].remote_name).len()));
        assert(scores[i] == Some(encode_utf8(watch[i].remote_name).len()));
    } else {
        assert(scores[i] is None);
    }
    assert(is_outscored(scores, i));
    lemma_outscored_is_not_missed(scores, i);
    law_last_largest(scores);
    match last_largest(scores) {
        Some(k) => {
            let at = if k < i {
                k
            } else {
                k - 1
            };
            assert(left[at] == watch[k]);
        },
        None => {},
    }
}

/// The local path that a watch entry gives to a remote path below its remote name has the
/// components of the entry's local path and then the names of the remote path below the
/// remote name, all of them and in their order, where none of them is empty, `.` or `..`.
pub proof fn law_local_paths_hold_the_names_below(
    entry: WatchEntryView,
    remote_path: Seq<char>,
    parts: Seq<Seq<char>>,
)
    requires
        split_on(remote_path, '/') == split_on(entry.remote_name, '/') + parts,
        forall|i: int| 0 <= i < parts.len() ==> is_name(encode_utf8(#[trigger] parts[i])),
    ensures
        components(entry_to_local(entry, remote_path)) == components(entry.local_path) + named(
            encoded(parts),
        ),
{
    lemma_joined_split(remote_path, '/');
    lemma_joined_split(entry.remote_name, '/');
    lemma_split_parts(entry.remote_name, '/');
    if parts.len() == 0 {
        assert(split_on(entry.remote_name, '/') + parts == split_on(entry.remote_name, '/'));
        assert(named(encoded(parts)) == Seq::<Component<Seq<u8>>>::empty());
        assert(components(entry.local_path) + named(encoded(parts)) == components(
            entry.local_path,
        ));
    } else {
        lemma_joined_concat(split_on(entry.remote_name, '/'), parts, '/');
        let rest = joined(parts, '/');
        assert(remote_path == entry.remote_name.push('/') + rest);
        assert(remote_path.skip(entry.remote_name.len() as int + 1) == rest);
        lemma_names_below(entry.local_path, parts);
    }
}

/// Holds of a component that is a name.
pub open spec fn is_named() -> spec_fn(Component<Seq<u8>>) -> bool {
    |component: Component<Seq<u8>>| component is Normal
}

/// The names among components are the components that are names, in their order.
proof fn lemma_names_are_filtered(list: Seq<Component<Seq<u8>>>)
    ensures
        names(list) == list.filter(is_named()).map_values(
            |component: Component<Seq<u8>>| component->Normal_0,
        ),
    decreases list.len(),
{
    let name_of = |component: Component<Seq<u8>>| component->Normal_0;
    reveal(Seq::filter);
    if list.len() > 0 {
        let head = list.drop_last();
        lemma_names_are_filtered(head);
        let kept = head.filter(is_named());
        if list.last() is Normal {
            assert(kept.push(list.last()).map_values(name_of) == kept.map_values(name_of).push(
                list.last()->Normal_0,
            ));
        }
    } else {
        assert(list.filter(is_named()).map_values(name_of) == Seq::<Seq<u8>>::empty());
    }
}

/// The remote path that a watch entry gives to a local path below it is its remote name,
/// followed by the text of every name below the entry, with a slash before each. Components
/// that are no names, such as `..`, do not show.
pub proof fn law_every_name_below_shows_in_the_remote_path(
    entry: WatchEntryView,
    local_path: Seq<u8>,
)
    requires
        within(local_path, entry.local_path),
    ensures
        ({
            let tail = components(local_path).skip(components(entry.local_path).len() as int);
            let texts = tail.filter(is_named()).map_values(
                |component: Component<Seq<u8>>| lossy_text(component->Normal_0),
            );
            entry_to_remote(entry, local_path) == if joined(texts, '/').len() == 0 {
                entry.remote_name
            } else {
                entry.remote_name + seq!['/'] + joined(texts, '/')
            }
        }),
{
    let tail = components(local_path).skip(components(entry.local_path).len() as int);
    let kept = tail.filter(is_named());
    let texts = kept.map_values(
        |component: Component<Seq<u8>>| lossy_text(component->Normal_0),
    );
    lemma_names_are_filtered(tail);
    assert(names(tail).map_values(|name: Seq<u8>| lossy_text(name)) == texts);
    assert(entry.remote_name.push('/') + joined(texts, '/') == entry.remote_name + seq!['/']
        + joined(texts, '/'));
}

/// The local path that a watch entry gives to a remote path below its remote name is what
/// stands below the entry's local path at the names that follow, whatever they are: a `..`
/// among them is not dropped.
pub proof fn law_every_name_below_shows_in_the_local_path(
    entry: WatchEntryView,
    remote_path: Seq<char>,
    parts: Seq<Seq<char>>,
)
    requires
        parts.len() > 0,
        split_on(remote_path, '/') == split_on(entry.remote_name, '/') + parts,
        forall|i: int| 0 <= i < parts.len() ==> (#[trigger] parts[i]).len() > 0,
    ensures
        entry_to_local(entry, remote_path) == pushed(
            entry.local_path,
            encode_utf8(joined(parts, '/')),
        ),
{
    let whole = split_on(remote_path, '/');
    let head = split_on(entry.remote_name, '/');
    let keep = |part: Seq<char>| part.len() > 0;
    lemma_joined_split(remote_path, '/');
    lemma_joined_split(entry.remote_name, '/');
    lemma_split_parts(entry.remote_name, '/');
    lemma_split_parts(remote_path, '/');
    lemma_joined_concat(head, parts, '/');
    let rest = joined(parts, '/');
    assert(remote_path == entry.remote_name.push('/') + rest);
    assert(remote_path.skip(entry.remote_name.len() as int + 1) == rest);
    assert forall|i: int| 0 <= i < parts.len() implies !(#[trigger] parts[i]).contains('/') by {
        assert(whole[head.len() + i] == parts[i]);
    }
    lemma_split_joined(parts, '/');
    lemma_filter_all(parts, keep);
    assert(parts.map_values(|part: Seq<char>| encode_utf8(part)) == encoded(parts));
    lemma_encode_joined(parts);
}

} // verus!
