//! What holds of the configuration and of the paths that the program uses.
use vstd::prelude::*;
use vstd::utf8::{encode_utf8, encode_utf8_decode_utf8, encode_utf8_valid_utf8, valid_utf8};

use crate::app_paths::{below, root_dir, sandbox_dir};
use crate::config::{
    first_refused, normalized_entry, runtime_path, seen_from, target_folder, tilde_expanded,
    watch_path, without_tilde, ConfigErrorView, PathEnv, PathFacts, WatchEntryView,
};
use crate::encoding::{lemma_encode_concat, lemma_encode_is_name, lemma_encode_slash};
use crate::mapping_laws::encoded;
use crate::path::{
    absolute, components, is_name, lemma_components_of_pushed, named, pushed, within, Component,
    LocalPath, SLASH,
};
use crate::remote::fs_laws::lemma_encode_joined;
use crate::text::{joined, lossy_text, split_on, trimmed, CharClass};
use crate::virtual_path::{
    law_normalize_is_idempotent, law_normalized_splits_into_segments, name_segments, normalized,
};

verus! {

/// Whether each of the texts can stand between two slashes of a path.
pub open spec fn are_names(parts: Seq<Seq<char>>) -> bool {
    forall|i: int| 0 <= i < parts.len() ==> is_name(encode_utf8(#[trigger] parts[i]))
}

/// What the bytes of a text read as.
proof fn lemma_reads_as(text: Seq<char>)
    ensures
        valid_utf8(encode_utf8(text)),
        lossy_text(encode_utf8(text)) == text,
{
    encode_utf8_valid_utf8(text);
    encode_utf8_decode_utf8(text);
}

/// Names below a folder.
proof fn lemma_below_folder(dir: Seq<u8>, parts: Seq<Seq<char>>)
    requires
        parts.len() > 0,
        are_names(parts),
    ensures
        components(pushed(dir, encode_utf8(joined(parts, '/')))) == components(dir) + named(
            encoded(parts),
        ),
        !absolute(encode_utf8(joined(parts, '/'))),
{
    let bytes = encoded(parts);
    assert forall|i: int| 0 <= i < bytes.len() implies is_name(#[trigger] bytes[i]) by {
        assert(is_name(encode_utf8(parts[i])));
    }
    lemma_encode_joined(parts);
    lemma_components_of_pushed(dir, bytes);
}

/// A path that begins with `~/` is read from the home directory: it goes through the
/// components of the home directory and then through the names that follow. Without a
/// home directory it is refused. Of `~/~/a` the second `~` is dropped, too.
pub proof fn law_a_tilde_stands_for_home(home: Option<Seq<u8>>, parts: Seq<Seq<char>>)
    requires
        parts.len() > 0,
        are_names(parts),
        !(parts.len() > 1 && parts[0] == seq!['~']),
    ensures
        ({
            let path = encode_utf8(seq!['~', '/'] + joined(parts, '/'));
            match home {
                Some(dir) => tilde_expanded(path, home) is Ok && components(
                    tilde_expanded(path, home)->Ok_0,
                ) == components(dir) + named(encoded(parts)),
                None => tilde_expanded(path, home) == Err::<Seq<u8>, ConfigErrorView>(
                    ConfigErrorView::NoHomeDirectory,
                ),
            }
        }),
{
    let rest = joined(parts, '/');
    let text = seq!['~', '/'] + rest;
    lemma_reads_as(text);
    assert(text[0] == '~' && text[1] == '/');
    assert(text.skip(2) == rest);
    assert(without_tilde(text) == without_tilde(rest));
    lemma_first_part(parts);
    assert(without_tilde(rest) == rest);
    if home is Some {
        lemma_below_folder(home->0, parts);
    }
}

/// Names that are joined begin with `~/` only where the first one is `~` and another one
/// follows.
proof fn lemma_first_part(parts: Seq<Seq<char>>)
    requires
        parts.len() > 0,
        are_names(parts),
    ensures
        ({
            let text = joined(parts, '/');
            text.len() >= 2 && text[0] == '~' && text[1] == '/' ==> parts.len() > 1 && parts[0]
                == seq!['~']
        }),
{
    let text = joined(parts, '/');
    let first = parts[0];
    lemma_begins_with_first(parts);
    assert(is_name(encode_utf8(first)));
    lemma_encode_is_name(first);
    if text.len() >= 2 && text[0] == '~' && text[1] == '/' {
        assert(first[0] == text[0]);
        if first.len() > 1 {
            assert(first[1] == text[1]);
            assert(first.contains('/'));
        }
        assert(first =~= seq!['~']);
        if parts.len() == 1 {
            assert(parts.drop_last().len() == 0);
            assert(text == first);
        }
    }
}

/// A joined text begins with its first part.
proof fn lemma_begins_with_first(parts: Seq<Seq<char>>)
    requires
        parts.len() > 0,
    ensures
        parts[0].len() <= joined(parts, '/').len(),
        parts[0] == joined(parts, '/').take(parts[0].len() as int),
    decreases parts.len(),
{
    if parts.len() == 1 {
        assert(joined(parts, '/') == parts[0]);
    } else {
        let head = parts.drop_last();
        lemma_begins_with_first(head);
        assert(head[0] == parts[0]);
        assert(joined(parts, '/') == joined(head, '/').push('/') + parts.last());
        assert(joined(parts, '/').take(parts[0].len() as int) == joined(head, '/').take(
            parts[0].len() as int,
        ));
    }
}

/// A bare `~` is the home directory, and a path that begins with anything else than `~/`
/// is left as it is, whether the home directory is known or not.
pub proof fn law_only_a_leading_tilde_stands_for_home(text: Seq<char>, home: Option<Seq<u8>>)
    ensures
        text == seq!['~'] ==> tilde_expanded(encode_utf8(text), home) == match home {
            Some(dir) => Ok::<Seq<u8>, ConfigErrorView>(dir),
            None => Err(ConfigErrorView::NoHomeDirectory),
        },
        text != seq!['~'] && !(text.len() >= 2 && text[0] == '~' && text[1] == '/')
            ==> tilde_expanded(encode_utf8(text), home) == Ok::<Seq<u8>, ConfigErrorView>(
            encode_utf8(text),
        ),
{
    lemma_reads_as(text);
}

/// A relative path is read from the current directory, and an absolute one is left as it
/// is, whatever the current directory.
pub proof fn law_relative_paths_begin_at_the_current_directory(
    path: Seq<u8>,
    parts: Seq<Seq<char>>,
    dir: Seq<u8>,
)
    requires
        parts.len() > 0,
        are_names(parts),
    ensures
        absolute(path) ==> seen_from(path, None) == Ok::<Seq<u8>, ConfigErrorView>(path)
            && seen_from(path, Some(dir)) == Ok::<Seq<u8>, ConfigErrorView>(path),
        !absolute(path) ==> seen_from(path, None) == Err::<Seq<u8>, ConfigErrorView>(
            ConfigErrorView::NoCurrentDirectory,
        ),
        seen_from(encode_utf8(joined(parts, '/')), Some(dir)) is Ok,
        components(seen_from(encode_utf8(joined(parts, '/')), Some(dir))->Ok_0) == components(dir)
            + named(encoded(parts)),
{
    lemma_below_folder(dir, parts);
}

/// Whether a watch entry is refused: where it lies cannot be told, or its remote name
/// names nothing.
pub open spec fn is_refused(entry: WatchEntryView, env: PathEnv) -> bool {
    watch_path(entry.local_path, env) is Err || name_segments(entry.remote_name).len() == 0
}

/// The first entry that is refused is the first one of which that can be said; where none
/// can be refused, none is.
pub proof fn law_the_first_refused_entry_is_reported(
    watch: Seq<WatchEntryView>,
    env: PathEnv,
    canonical: Seq<Option<Seq<u8>>>,
)
    ensures
        0 <= first_refused(watch, env, canonical) <= watch.len(),
        first_refused(watch, env, canonical) < watch.len() ==> is_refused(
            watch[first_refused(watch, env, canonical)],
            env,
        ),
        forall|i: int|
            0 <= i < first_refused(watch, env, canonical) ==> !is_refused(
                #[trigger] watch[i],
                env,
            ),
    decreases watch.len(),
{
    if watch.len() > 0 {
        let head = watch.drop_last();
        let last = watch.len() - 1;
        law_the_first_refused_entry_is_reported(head, env, canonical);
        law_normalized_splits_into_segments(watch[last].remote_name);
        let k = first_refused(watch, env, canonical);
        let h = first_refused(head, env, canonical);
        if h < last {
            assert(head[h] == watch[h]);
        }
        assert forall|i: int| 0 <= i < k implies !is_refused(#[trigger] watch[i], env) by {
            if i < last {
                assert(head[i] == watch[i]);
            }
        }
    }
}

/// An entry that is not refused is kept under the path that it resolves to or, where there
/// is nothing at it, under the absolute path that it means, and with the names of its
/// remote name, one slash between each two.
pub proof fn law_accepted_entries_are_kept_in_order(
    entry: WatchEntryView,
    env: PathEnv,
    canonical: Option<Seq<u8>>,
)
    requires
        !is_refused(entry, env),
    ensures
        normalized_entry(entry, env, canonical).1 is None,
        split_on(normalized_entry(entry, env, canonical).0.remote_name, '/') == name_segments(
            entry.remote_name,
        ),
        canonical is Some ==> normalized_entry(entry, env, canonical).0.local_path == canonical->0,
        canonical is None ==> normalized_entry(entry, env, canonical).0.local_path == watch_path(
            entry.local_path,
            env,
        )->Ok_0,
{
    law_normalized_splits_into_segments(entry.remote_name);
}

/// Bringing an entry into order that is in order changes nothing: one with an absolute
/// path, and a remote name as it is kept, without white space at its ends.
pub proof fn law_entries_in_order_stay_as_they_are(
    entry: WatchEntryView,
    text: Seq<char>,
    env: PathEnv,
    again: PathEnv,
    canonical: Option<Seq<u8>>,
)
    requires
        !is_refused(entry, env),
        normalized_entry(entry, env, canonical).0.local_path == encode_utf8(text),
        text.len() > 0,
        text[0] == '/',
        trimmed(normalized(entry.remote_name), CharClass::WhiteSpace) == normalized(
            entry.remote_name,
        ),
    ensures
        ({
            let kept = normalized_entry(entry, env, canonical).0;
            normalized_entry(kept, again, None) == (kept, None::<ConfigErrorView>)
        }),
{
    let kept = normalized_entry(entry, env, canonical).0;
    law_only_a_leading_tilde_stands_for_home(text, None);
    law_normalize_is_idempotent(entry.remote_name);
    law_normalized_splits_into_segments(entry.remote_name);
    lemma_reads_as(text);
    let head = seq!['/'];
    let rest = text.skip(1);
    assert(text == head + rest);
    lemma_encode_concat(head, rest);
    lemma_encode_slash();
    assert(encode_utf8(text)[0] == SLASH);
    assert(absolute(kept.local_path));
}

/// The remote target folder always names something: what the configuration says, with one
/// slash between each two names, or `guploadsync` where that names nothing.
pub proof fn law_there_is_always_a_target_folder(raw: Seq<char>)
    ensures
        name_segments(raw).len() > 0 ==> split_on(target_folder(raw), '/') == name_segments(raw),
        name_segments(raw).len() == 0 ==> target_folder(raw) == "guploadsync"@,
{
    law_normalized_splits_into_segments(raw);
}

/// A file is known by one path at run time, however its path is spelled: two absolute
/// paths that resolve to the same one are the same. A path at which there is nothing stays
/// as it is, and only a relative one depends on the current directory, from which it is
/// read.
pub proof fn law_a_file_has_one_path_at_run_time(
    a: Seq<u8>,
    b: Seq<u8>,
    facts: PathFacts,
    other: PathFacts,
    parts: Seq<Seq<char>>,
)
    requires
        parts.len() > 0,
        are_names(parts),
    ensures
        absolute(a) && absolute(b) && !(facts.kind is Missing) && !(other.kind is Missing)
            && facts.canonical is Some && other.canonical is Some && facts.canonical->0@
            == other.canonical->0@ ==> runtime_path(a, facts) == runtime_path(b, other)
            && runtime_path(a, facts) == facts.canonical->0@,
        absolute(a) && (facts.kind is Missing || facts.canonical is None) ==> runtime_path(a, facts)
            == a,
        absolute(a) && facts.kind == other.kind && facts.canonical == other.canonical
            ==> runtime_path(a, facts) == runtime_path(a, other),
        facts.current_dir is Some ==> components(
            runtime_path(encode_utf8(joined(parts, '/')), facts),
        ) == components(facts.current_dir->0@) + named(encoded(parts)),
        !absolute(a) && facts.current_dir is None ==> runtime_path(a, facts) == a,
{
    if facts.current_dir is Some {
        lemma_below_folder(facts.current_dir->0@, parts);
    }
}

/// What stands at a name below a folder lies directly in it.
pub proof fn law_files_lie_in_their_folders(dir: Seq<u8>, name: &str)
    requires
        is_name(encode_utf8(name@)),
    ensures
        components(below(dir, name)) == components(dir).push(
            Component::Normal(encode_utf8(name@)),
        ),
        within(below(dir, name), dir),
{
    let parts = seq![name@];
    assert(parts.drop_last().len() == 0);
    assert(joined(parts, '/') == name@);
    lemma_below_folder(dir, parts);
    assert(named(encoded(parts)) == seq![Component::Normal(encode_utf8(name@))]);
    assert(components(dir) + named(encoded(parts)) == components(dir).push(
        Component::Normal(encode_utf8(name@)),
    ));
    assert(components(dir) == components(below(dir, name)).take(components(dir).len() as int));
}

/// The folder that stands for a remote target folder lies in `remote_sandbox` in the data
/// folder, under the names of the target folder, in their order; a slash before or after
/// them does not count.
pub proof fn law_the_sandbox_lies_in_the_data_folder(data_dir: Seq<u8>, parts: Seq<Seq<char>>)
    requires
        parts.len() > 0,
        are_names(parts),
        trimmed(joined(parts, '/'), CharClass::One('/')) == joined(parts, '/'),
    ensures
        components(sandbox_dir(data_dir, joined(parts, '/'))) == components(data_dir).push(
            Component::Normal(encode_utf8("remote_sandbox"@)),
        ) + named(encoded(parts)),
{
    let root = below(data_dir, "remote_sandbox");
    lemma_below_folder(root, parts);
    reveal_strlit("remote_sandbox");
    lemma_encode_is_name("remote_sandbox"@);
    assert("remote_sandbox"@.len() == 14);
    law_files_lie_in_their_folders(data_dir, "remote_sandbox");
}

/// A root folder is the one that the system names and, where it names none, lies below the
/// home directory, under the names of the usual one.
pub proof fn law_root_folders_default_to_home(
    named_dir: LocalPath,
    home: LocalPath,
    fallback: &str,
    parts: Seq<Seq<char>>,
)
    requires
        parts.len() > 0,
        are_names(parts),
        fallback@ == joined(parts, '/'),
    ensures
        root_dir(Some(named_dir), home, fallback) == named_dir@,
        components(root_dir(None, home, fallback)) == components(home@) + named(encoded(parts)),
{
    lemma_below_folder(home@, parts);
}

} // verus!
