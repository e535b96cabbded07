//! What holds of the folder store over several requests: a file that was stored under a
//! remote path is found under it.
use vstd::prelude::*;
use vstd::utf8::{encode_utf8, encode_utf8_decode_utf8, encode_utf8_valid_utf8};

use crate::encoding::{
    lemma_encode_concat, lemma_encode_contains, lemma_encode_dots, lemma_encode_injective,
    lemma_encode_is_name, lemma_encode_slash,
};
use crate::events::{RemoteChangeView, RemoteFileMetaView};
use crate::keyed::{find, lemma_find};
use crate::mapping_laws::{encoded, lemma_names_of_named};
use crate::path::{
    components, is_name, lemma_components_of_pushed, named, names, part_components, pushed,
    same_path, DOT, SLASH,
};
use crate::remote::fs_remote::{
    at_path, deletes, described, escapes, is_changed, is_gone,
    law_poll_reports_every_change, law_scan_has_one_file_per_path, placed, polled, sanitized,
    scanned, scanned_meta, scanned_path, seen_at, seen_hash, snapshot_of, trash_name, underscored,
    upserts, uuid_v5_url_text, FsRemoteErrorView, FsRemoteStoreView, ScannedFile,
};
use crate::text::{decimal, joined, lemma_split_joined, split_on, trimmed, CharClass};
use crate::text_laws::law_decimals_read_back;
use crate::virtual_path::{
    law_normalize_is_idempotent, law_segments_are_proper, name_segments, normalized, proper,
};

verus! {

/// Whether a remote path names something, and goes down only.
pub open spec fn goes_down(raw: Seq<char>) -> bool {
    &&& name_segments(raw).len() > 0
    &&& forall|i: int|
        0 <= i < name_segments(raw).len() ==> #[trigger] name_segments(raw)[i] != seq!['.', '.']
}

/// Names with a slash between each two are encoded one by one.
pub proof fn lemma_encode_joined(parts: Seq<Seq<char>>)
    ensures
        encode_utf8(joined(parts, '/')) == joined(encoded(parts), SLASH),
    decreases parts.len(),
{
    if parts.len() == 0 {
        assert(encoded(parts).len() == 0);
        assert(encode_utf8(Seq::<char>::empty()).len() == 0);
    } else {
        let head = parts.drop_last();
        assert(encoded(parts).drop_last() == encoded(head));
        if parts.len() > 1 {
            lemma_encode_joined(head);
            lemma_encode_slash();
            let before = joined(head, '/');
            assert(before.push('/') == before + seq!['/']);
            lemma_encode_concat(before, seq!['/']);
            lemma_encode_concat(before.push('/'), parts.last());
            assert(encode_utf8(before.push('/')) == encode_utf8(before).push(SLASH));
        }
    }
}

/// The names of a path that goes down can stand between separators.
proof fn lemma_encoded_names(raw: Seq<char>)
    requires
        goes_down(raw),
    ensures
        forall|i: int|
            0 <= i < encoded(name_segments(raw)).len() ==> is_name(
                #[trigger] encoded(name_segments(raw))[i],
            ),
{
    let parts = name_segments(raw);
    law_segments_are_proper(raw);
    assert forall|i: int| 0 <= i < encoded(parts).len() implies is_name(
        #[trigger] encoded(parts)[i],
    ) by {
        assert(proper(parts[i]));
        lemma_encode_is_name(parts[i]);
    }
}

/// Where a path that goes down lies, in components.
proof fn lemma_placed_components(raw: Seq<char>)
    requires
        goes_down(raw),
    ensures
        sanitized(normalized(raw)) == Ok::<Seq<u8>, FsRemoteErrorView>(encode_utf8(normalized(raw))),
        components(encode_utf8(normalized(raw))) == named(encoded(name_segments(raw))),
{
    let bytes = encoded(name_segments(raw));
    let empty = Seq::<u8>::empty();
    let tail = encode_utf8(normalized(raw));
    lemma_encoded_names(raw);
    lemma_encode_joined(name_segments(raw));
    lemma_components_of_pushed(empty, bytes);
    assert(pushed(empty, tail) == tail);
    assert(components(empty).len() == 0) by {
        assert(split_on(empty, SLASH) == seq![empty]);
        assert(seq![empty].drop_last() == Seq::<Seq<u8>>::empty());
        reveal_with_fuel(part_components, 2);
    }
    assert(components(empty) + named(bytes) == named(bytes));
    lemma_names_of_named(bytes);
    assert(!escapes(named(bytes)));
}

/// A remote path that names something and goes down only is never refused, and its
/// file lies at the path itself below the sandbox.
pub proof fn law_paths_that_go_down_are_placed(sandbox_root: Seq<u8>, virtual_path: Seq<char>)
    requires
        goes_down(virtual_path),
    ensures
        placed(sandbox_root, normalized(virtual_path)) == Ok::<Seq<u8>, FsRemoteErrorView>(
            pushed(sandbox_root, encode_utf8(normalized(virtual_path))),
        ),
        components(pushed(sandbox_root, encode_utf8(normalized(virtual_path)))) == components(
            sandbox_root,
        ) + components(encode_utf8(normalized(virtual_path))),
{
    lemma_placed_components(virtual_path);
    lemma_encoded_names(virtual_path);
    lemma_encode_joined(name_segments(virtual_path));
    lemma_components_of_pushed(sandbox_root, encoded(name_segments(virtual_path)));
}

/// A file that was stored under a remote path is found under it: what a look at the
/// sandbox says of it is what the store said of it after the upload. A path that
/// normalizes to one with white space at an end, such as `/ a`, is found without it.
pub proof fn law_stored_files_are_found_under_their_path(
    virtual_path: Seq<char>,
    file: ScannedFile,
)
    requires
        goes_down(virtual_path),
        trimmed(normalized(virtual_path), CharClass::WhiteSpace) == normalized(virtual_path),
        file.relative@ == encode_utf8(normalized(virtual_path)),
    ensures
        scanned_path(file.relative@) == normalized(virtual_path),
        scanned_meta(file) == described(
            normalized(virtual_path),
            file.md5_hash@,
            file.modified_time@,
        ),
{
    let path = normalized(virtual_path);
    encode_utf8_valid_utf8(path);
    encode_utf8_decode_utf8(path);
    law_normalize_is_idempotent(virtual_path);
}

/// Files of different remote paths lie at different places.
pub proof fn law_different_paths_lie_apart(sandbox_root: Seq<u8>, a: Seq<char>, b: Seq<char>)
    requires
        goes_down(a),
        goes_down(b),
        normalized(a) != normalized(b),
    ensures
        !same_path(
            placed(sandbox_root, normalized(a))->Ok_0,
            placed(sandbox_root, normalized(b))->Ok_0,
        ),
{
    law_paths_that_go_down_are_placed(sandbox_root, a);
    law_paths_that_go_down_are_placed(sandbox_root, b);
    lemma_placed_components(a);
    lemma_placed_components(b);
    let root = components(sandbox_root);
    let at = components(placed(sandbox_root, normalized(a))->Ok_0);
    let bt = components(placed(sandbox_root, normalized(b))->Ok_0);
    if at == bt {
        let x = named(encoded(name_segments(a)));
        let y = named(encoded(name_segments(b)));
        assert(at.skip(root.len() as int) == x);
        assert(bt.skip(root.len() as int) == y);
        lemma_names_of_named(encoded(name_segments(a)));
        lemma_names_of_named(encoded(name_segments(b)));
        lemma_encode_joined(name_segments(a));
        lemma_encode_joined(name_segments(b));
        lemma_encode_injective(normalized(a), normalized(b));
    }
}

/// Whether no later one of the files found is at the same remote path as the one with
/// the given index.
pub open spec fn is_last_at_path(files: Seq<ScannedFile>, i: int) -> bool {
    &&& 0 <= i < files.len()
    &&& forall|j: int|
        i < j < files.len() ==> scanned_path((#[trigger] files[j]).relative@) != scanned_path(
            files[i].relative@,
        )
}

/// Whether the files found hold one with the given remote path and fingerprint.
pub open spec fn holds_content(
    files: Seq<ScannedFile>,
    virtual_path: Seq<char>,
    md5_hash: Seq<char>,
) -> bool {
    exists|i: int|
        #[trigger] is_last_at_path(files, i) && scanned_path(files[i].relative@) == virtual_path
            && files[i].md5_hash@ == md5_hash
}

/// Whether one of the files found is at the remote path.
pub open spec fn holds_path(files: Seq<ScannedFile>, virtual_path: Seq<char>) -> bool {
    exists|i: int|
        0 <= i < files.len() && scanned_path((#[trigger] files[i]).relative@) == virtual_path
}

/// What a poll tells of a file that is new or changed.
pub open spec fn upsert_of(file: ScannedFile) -> RemoteChangeView {
    RemoteChangeView::Upsert(
        RemoteFileMetaView {
            drive_id: uuid_v5_url_text(encode_utf8(scanned_path(file.relative@))),
            virtual_path: scanned_path(file.relative@),
            md5_hash: file.md5_hash@,
            modified_time: file.modified_time@,
        },
    )
}

/// The last of the files at a path.
proof fn lemma_last_at_path(files: Seq<ScannedFile>, virtual_path: Seq<char>) -> (i: int)
    requires
        holds_path(files, virtual_path),
    ensures
        is_last_at_path(files, i),
        scanned_path(files[i].relative@) == virtual_path,
    decreases files.len(),
{
    let last = files.len() - 1;
    if scanned_path(files[last].relative@) == virtual_path {
        last
    } else {
        let head = files.drop_last();
        let k = choose|k: int|
            0 <= k < files.len() && scanned_path((#[trigger] files[k]).relative@) == virtual_path;
        assert(head[k] == files[k]);
        let i = lemma_last_at_path(head, virtual_path);
        assert(files[i] == head[i]);
        assert forall|j: int| i < j < files.len() implies scanned_path(
            (#[trigger] files[j]).relative@,
        ) != scanned_path(files[i].relative@) by {
            if j < last {
                assert(head[j] == files[j]);
            }
        }
        i
    }
}

/// What is known of the files found: each one that is the last at its path, and nothing
/// else.
proof fn lemma_scanned_holds(files: Seq<ScannedFile>, meta: RemoteFileMetaView)
    ensures
        scanned(files).contains(meta) <==> exists|i: int|
            #[trigger] is_last_at_path(files, i) && scanned_meta(files[i]) == meta,
    decreases files.len(),
{
    if files.len() > 0 {
        let head = files.drop_last();
        let last = files.len() - 1;
        let before = scanned(head);
        let added = scanned_meta(files.last());
        let hit = at_path(added.virtual_path);
        let after = scanned(files);
        lemma_scanned_holds(head, meta);
        law_scan_has_one_file_per_path(head);
        lemma_find(before, hit);
        let at = find(before, hit);
        if after.contains(meta) {
            let k = choose|k: int| 0 <= k < after.len() && after[k] == meta;
            if (at is Some && k == at->0) || (at is None && k == before.len()) {
                assert(is_last_at_path(files, last) && scanned_meta(files[last]) == meta);
            } else {
                assert(before[k] == meta);
                assert(before.contains(meta));
                let i = choose|i: int|
                    #[trigger] is_last_at_path(head, i) && scanned_meta(head[i]) == meta;
                if meta.virtual_path == added.virtual_path {
                    assert(hit(before[k]));
                    if at is Some {
                        let m = at->0;
                        if m < k {
                            assert(before[m].virtual_path != before[k].virtual_path);
                        } else {
                            assert(before[k].virtual_path != before[m].virtual_path);
                        }
                    }
                }
                assert(files[i] == head[i]);
                assert(is_last_at_path(files, i)) by {
                    assert forall|j: int| i < j < files.len() implies scanned_path(
                        (#[trigger] files[j]).relative@,
                    ) != scanned_path(files[i].relative@) by {
                        if j < last {
                            assert(head[j] == files[j]);
                        }
                    }
                }
            }
        }
        if exists|i: int| #[trigger] is_last_at_path(files, i) && scanned_meta(files[i]) == meta {
            let i = choose|i: int|
                #[trigger] is_last_at_path(files, i) && scanned_meta(files[i]) == meta;
            if i == last {
                let k = if at is Some {
                    at->0
                } else {
                    before.len() as int
                };
                assert(after[k] == meta);
            } else {
                assert(head[i] == files[i]);
                assert(is_last_at_path(head, i)) by {
                    assert forall|j: int| i < j < head.len() implies scanned_path(
                        (#[trigger] head[j]).relative@,
                    ) != scanned_path(head[i].relative@) by {
                        assert(head[j] == files[j]);
                    }
                }
                assert(before.contains(meta));
                let k = choose|k: int| 0 <= k < before.len() && before[k] == meta;
                assert(scanned_path(files[last].relative@) != scanned_path(files[i].relative@));
                assert(!hit(before[k]));
                assert(after[k] == before[k]);
            }
        }
    }
}

/// The fingerprint that a look at the files has seen at a path.
proof fn lemma_seen_hash(files: Seq<ScannedFile>, virtual_path: Seq<char>, md5_hash: Seq<char>)
    ensures
        seen_hash(snapshot_of(scanned(files)), virtual_path) == Some(md5_hash) <==> holds_content(
            files,
            virtual_path,
            md5_hash,
        ),
{
    let current = scanned(files);
    let snapshot = snapshot_of(current);
    let hit = seen_at(virtual_path);
    law_scan_has_one_file_per_path(files);
    lemma_find(snapshot, hit);
    let at = find(snapshot, hit);
    if at is Some {
        let meta = current[at->0];
        assert(hit(snapshot[at->0]));
        assert(current.contains(meta));
        lemma_scanned_holds(files, meta);
        let i = choose|i: int|
            #[trigger] is_last_at_path(files, i) && scanned_meta(files[i]) == meta;
        assert(is_last_at_path(files, i));
    }
    if holds_content(files, virtual_path, md5_hash) {
        let i = choose|i: int|
            #[trigger] is_last_at_path(files, i) && scanned_path(files[i].relative@)
                == virtual_path && files[i].md5_hash@ == md5_hash;
        let meta = scanned_meta(files[i]);
        lemma_scanned_holds(files, meta);
        assert(current.contains(meta));
        let k = choose|k: int| 0 <= k < current.len() && current[k] == meta;
        assert(snapshot[k] == (virtual_path, md5_hash));
        assert(hit(snapshot[k]));
        let m = at->0;
        if m < k {
            assert(current[m].virtual_path != current[k].virtual_path);
        } else if k < m {
            assert(!hit(snapshot[k]));
        }
    }
}

/// Whether the store has seen a remote path.
proof fn lemma_seen_path(files: Seq<ScannedFile>, virtual_path: Seq<char>)
    ensures
        find(scanned(files), at_path(virtual_path)) is Some <==> holds_path(files, virtual_path),
{
    let current = scanned(files);
    let hit = at_path(virtual_path);
    lemma_find(current, hit);
    if find(current, hit) is Some {
        let meta = current[find(current, hit)->0];
        assert(current.contains(meta));
        lemma_scanned_holds(files, meta);
        let i = choose|i: int|
            #[trigger] is_last_at_path(files, i) && scanned_meta(files[i]) == meta;
        assert(scanned_path(files[i].relative@) == virtual_path);
    }
    if holds_path(files, virtual_path) {
        let i = lemma_last_at_path(files, virtual_path);
        let meta = scanned_meta(files[i]);
        lemma_scanned_holds(files, meta);
        assert(is_last_at_path(files, i));
        assert(current.contains(meta));
        let k = choose|k: int| 0 <= k < current.len() && current[k] == meta;
        assert(hit(current[k]));
    }
}

/// A poll tells the difference between what it finds and what the poll before it found,
/// all of it and nothing else: every file whose path was not there, or not with its
/// fingerprint, as changed, with what is known of it now; and every path that was there
/// and is not any more as deleted. Of files at the same path the last one counts.
pub proof fn law_a_poll_tells_the_difference(
    s: FsRemoteStoreView,
    before: Seq<ScannedFile>,
    after: Seq<ScannedFile>,
    i: int,
    change: RemoteChangeView,
)
    ensures
        ({
            let first = polled(s, Ok(before)).0;
            let told = polled(first, Ok(after)).1;
            &&& told is Ok
            &&& is_last_at_path(after, i) ==> (told->Ok_0.contains(upsert_of(after[i]))
                <==> !holds_content(
                before,
                scanned_path(after[i].relative@),
                after[i].md5_hash@,
            ))
            &&& change is Delete ==> (told->Ok_0.contains(change) <==> holds_path(
                before,
                change->Delete_0,
            ) && !holds_path(after, change->Delete_0))
            &&& change is Upsert && told->Ok_0.contains(change) ==> exists|k: int|
                #[trigger] is_last_at_path(after, k) && change == upsert_of(after[k])
        }),
{
    let snapshot = snapshot_of(scanned(before));
    let current = scanned(after);
    let changed = upserts(current, snapshot);
    let gone = deletes(current, snapshot);
    let told = changed + gone;
    assert(told == polled(polled(s, Ok(before)).0, Ok(after)).1->Ok_0);
    law_poll_reports_every_change(after, snapshot);
    if is_last_at_path(after, i) {
        let meta = scanned_meta(after[i]);
        lemma_scanned_holds(after, meta);
        assert(current.contains(meta));
        lemma_seen_hash(before, meta.virtual_path, meta.md5_hash);
        assert(upsert_of(after[i]) == RemoteChangeView::Upsert(meta));
        lemma_contains_either(changed, gone, upsert_of(after[i]));
        lemma_deletes_only(current, snapshot, upsert_of(after[i]));
    }
    lemma_contains_either(changed, gone, change);
    if change is Delete {
        let path = change->Delete_0;
        lemma_upserts_only(current, snapshot, change);
        lemma_seen_path(before, path);
        lemma_seen_path(after, path);
        let here = scanned(before);
        lemma_find(here, at_path(path));
        if holds_path(before, path) {
            let k = find(here, at_path(path))->0;
            assert(at_path(path)(here[k]));
            let seen = (path, here[k].md5_hash);
            assert(snapshot[k] == seen);
            assert(snapshot.contains(seen));
            assert(change == RemoteChangeView::Delete(seen.0));
        }
        if gone.contains(change) {
            lemma_deletes_only(current, snapshot, change);
            let seen = choose|seen: (Seq<char>, Seq<char>)|
                #[trigger] snapshot.contains(seen) && seen.0 == path;
            let k = choose|k: int| 0 <= k < snapshot.len() && snapshot[k] == seen;
            assert(here[k].virtual_path == path);
            assert(at_path(path)(here[k]));
        }
    } else if told.contains(change) {
        lemma_deletes_only(current, snapshot, change);
        lemma_upserts_only(current, snapshot, change);
        let meta = change->Upsert_0;
        assert(current.contains(meta));
        lemma_scanned_holds(after, meta);
        let k = choose|k: int|
            #[trigger] is_last_at_path(after, k) && scanned_meta(after[k]) == meta;
        assert(is_last_at_path(after, k) && change == upsert_of(after[k]));
    }
}

/// What two lists hold together.
proof fn lemma_contains_either<T>(a: Seq<T>, b: Seq<T>, x: T)
    ensures
        (a + b).contains(x) <==> a.contains(x) || b.contains(x),
{
    let whole = a + b;
    if whole.contains(x) {
        let k = choose|k: int| 0 <= k < whole.len() && whole[k] == x;
        if k < a.len() {
            assert(a[k] == x);
        } else {
            assert(b[k - a.len()] == x);
        }
    }
    if a.contains(x) {
        let k = choose|k: int| 0 <= k < a.len() && a[k] == x;
        assert(whole[k] == x);
    }
    if b.contains(x) {
        let k = choose|k: int| 0 <= k < b.len() && b[k] == x;
        assert(whole[k + a.len()] == x);
    }
}

/// What is reported as deleted was seen.
proof fn lemma_deletes_only(
    current: Seq<RemoteFileMetaView>,
    snapshot: Seq<(Seq<char>, Seq<char>)>,
    change: RemoteChangeView,
)
    ensures
        deletes(current, snapshot).contains(change) ==> change is Delete && exists|
            seen: (Seq<char>, Seq<char>),
        | #[trigger]
            snapshot.contains(seen) && seen.0 == change->Delete_0,
{
    let gone = deletes(current, snapshot);
    let left = snapshot.filter(is_gone(current));
    if gone.contains(change) {
        let k = choose|k: int| 0 <= k < gone.len() && gone[k] == change;
        assert(left.contains(left[k]));
        snapshot.lemma_filter_contains_rev(is_gone(current), left[k]);
    }
}

/// What is reported as changed is there.
proof fn lemma_upserts_only(
    current: Seq<RemoteFileMetaView>,
    snapshot: Seq<(Seq<char>, Seq<char>)>,
    change: RemoteChangeView,
)
    ensures
        upserts(current, snapshot).contains(change) ==> change is Upsert && current.contains(
            change->Upsert_0,
        ),
{
    let changed = upserts(current, snapshot);
    let kept = current.filter(is_changed(snapshot));
    if changed.contains(change) {
        let k = choose|k: int| 0 <= k < changed.len() && changed[k] == change;
        assert(kept.contains(kept[k]));
        current.lemma_filter_contains_rev(is_changed(snapshot), kept[k]);
    }
}

/// A text with underscores for its slashes holds no slash.
proof fn lemma_underscored_has_no_slash(s: Seq<char>)
    ensures
        !underscored(s).contains('/'),
        underscored(s).len() >= s.len(),
    decreases s.len(),
{
    if s.len() > 0 {
        lemma_underscored_has_no_slash(s.drop_last());
        let head = underscored(s.drop_last());
        let whole = underscored(s);
        if whole.contains('/') {
            let k = choose|k: int| 0 <= k < whole.len() && whole[k] == '/';
            if k < head.len() {
                assert(head[k] == '/');
            }
        }
    }
}

/// A name without slashes stays as it is.
proof fn lemma_underscored_none(s: Seq<char>)
    requires
        !s.contains('/'),
    ensures
        underscored(s) == s,
    decreases s.len(),
{
    if s.len() > 0 {
        let head = s.drop_last();
        assert(s.contains(s.last()));
        assert(!head.contains('/')) by {
            if head.contains('/') {
                let k = choose|k: int| 0 <= k < head.len() && head[k] == '/';
                assert(s[k] == '/');
            }
        }
        lemma_underscored_none(head);
        assert(head.push(s.last()) == s);
    }
}

/// Slashes are replaced one by one.
proof fn lemma_underscored_parts(a: Seq<char>, b: Seq<char>)
    requires
        !b.contains('/'),
    ensures
        underscored(a.push('/') + b) == underscored(a) + seq!['_', '_'] + b,
    decreases b.len(),
{
    let whole = a.push('/') + b;
    if b.len() == 0 {
        assert(whole == a.push('/'));
        assert(whole.drop_last() == a);
        assert(underscored(whole) == underscored(a) + seq!['_', '_'] + b);
    } else {
        let head = b.drop_last();
        assert(b.contains(b.last()));
        assert(!head.contains('/')) by {
            if head.contains('/') {
                let k = choose|k: int| 0 <= k < head.len() && head[k] == '/';
                assert(b[k] == '/');
            }
        }
        lemma_underscored_parts(a, head);
        assert(whole.drop_last() == a.push('/') + head);
        assert(whole.last() == b.last());
        assert(underscored(whole) == underscored(a) + seq!['_', '_'] + b);
    }
}

/// The name of a file in the trash is the millisecond, an underscore and the names of its
/// remote path with two underscores between each two: a path `a/b/c` is kept as `a__b__c`.
pub proof fn law_the_trash_keeps_the_whole_path(millis: nat, names: Seq<Seq<char>>)
    requires
        names.len() > 0,
        forall|i: int| 0 <= i < names.len() ==> !(#[trigger] names[i]).contains('/'),
    ensures
        trash_name(millis, joined(names, '/')) == decimal(millis).push('_') + underscored_names(
            names,
        ),
        !trash_name(millis, joined(names, '/')).contains('/'),
{
    let path = joined(names, '/');
    lemma_underscored_joined(names);
    lemma_underscored_has_no_slash(path);
    law_decimals_read_back(millis);
    let head = decimal(millis).push('_');
    let whole = trash_name(millis, path);
    if whole.contains('/') {
        let k = choose|k: int| 0 <= k < whole.len() && whole[k] == '/';
        if k < decimal(millis).len() {
            assert(decimal(millis)[k] == '/');
        } else if k >= head.len() {
            assert(underscored(path)[k - head.len()] == '/');
        }
    }
}

/// The names with two underscores between each two.
pub open spec fn underscored_names(names: Seq<Seq<char>>) -> Seq<char>
    decreases names.len(),
{
    if names.len() <= 1 {
        names[0]
    } else {
        underscored_names(names.drop_last()) + seq!['_', '_'] + names.last()
    }
}

/// A path is written with underscores name by name.
proof fn lemma_underscored_joined(names: Seq<Seq<char>>)
    requires
        names.len() > 0,
        forall|i: int| 0 <= i < names.len() ==> !(#[trigger] names[i]).contains('/'),
    ensures
        underscored(joined(names, '/')) == underscored_names(names),
    decreases names.len(),
{
    let head = names.drop_last();
    if names.len() == 1 {
        assert(joined(names, '/') == names[0]);
        lemma_underscored_none(names[0]);
    } else {
        assert forall|i: int| 0 <= i < head.len() implies !(#[trigger] head[i]).contains('/') by {
            assert(head[i] == names[i]);
        }
        lemma_underscored_joined(head);
        assert(!names[names.len() - 1].contains('/'));
        lemma_underscored_parts(joined(head, '/'), names.last());
    }
}

/// A part `..` shows in the components.
proof fn lemma_parent_part_shows(parts: Seq<Seq<u8>>, k: int)
    requires
        0 <= k < parts.len(),
        parts[k] == seq![DOT, DOT],
    ensures
        escapes(part_components(parts)),
    decreases parts.len(),
{
    let head = parts.drop_last();
    let list = part_components(parts);
    if k == parts.len() - 1 {
        assert(list.last() is ParentDir);
        assert(list[list.len() - 1] is ParentDir);
    } else {
        assert(head[k] == parts[k]);
        lemma_parent_part_shows(head, k);
        let before = part_components(head);
        let i = choose|i: int|
            0 <= i < before.len() && (#[trigger] before[i] is RootDir || before[i] is ParentDir);
        assert(list[i] == before[i]);
    }
}

/// A remote path is given a place exactly where it names something and goes down only: one
/// that names nothing, or that holds a `..`, is refused, so that no request leaves the
/// sandbox.
pub proof fn law_only_paths_that_go_down_are_placed(sandbox_root: Seq<u8>, virtual_path: Seq<char>)
    ensures
        placed(sandbox_root, normalized(virtual_path)) is Ok <==> goes_down(virtual_path),
{
    let parts = name_segments(virtual_path);
    let path = normalized(virtual_path);
    let bytes = encoded(parts);
    if goes_down(virtual_path) {
        law_paths_that_go_down_are_placed(sandbox_root, virtual_path);
    } else if parts.len() == 0 {
        let empty = Seq::<u8>::empty();
        assert(path.len() == 0);
        assert(encode_utf8(path) == empty);
        assert(components(empty).len() == 0) by {
            assert(split_on(empty, SLASH) == seq![empty]);
            assert(seq![empty].drop_last() == Seq::<Seq<u8>>::empty());
            reveal_with_fuel(part_components, 2);
        }
        assert(names(components(empty)).len() == 0);
    } else {
        let k = choose|k: int| 0 <= k < parts.len() && #[trigger] parts[k] == seq!['.', '.'];
        law_segments_are_proper(virtual_path);
        lemma_encode_joined(parts);
        lemma_encode_dots();
        assert(bytes[k] == encode_utf8(parts[k]));
        assert forall|i: int| 0 <= i < bytes.len() implies !(#[trigger] bytes[i]).contains(SLASH) by {
            assert(!parts[i].contains('/'));
            lemma_encode_contains(parts[i], '/');
        }
        lemma_split_joined(bytes, SLASH);
        lemma_parent_part_shows(bytes, k);
        let list = part_components(bytes);
        let i = choose|i: int|
            0 <= i < list.len() && (#[trigger] list[i] is RootDir || list[i] is ParentDir);
        let all = components(encode_utf8(path));
        let at = all.len() - list.len() + i;
        assert(all[at] == list[i]);
        assert(escapes(all));
    }
}

} // verus!
