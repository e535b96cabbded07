//! What holds of the small operations on text that names and paths are made with.
use vstd::prelude::*;
use vstd::utf8::{encode_utf8, encode_utf8_decode_utf8, encode_utf8_valid_utf8};

use crate::config::{config_error_text, ConfigErrorView};
use crate::encoding::{
    lemma_encode_concat, lemma_encode_contains, lemma_encode_dots, lemma_encode_nonempty,
};
use crate::hash_utils::{fingerprint, hex_digit, hex_text, md5_digest, signed_seconds};
use crate::path::{after_last, cut_at_dot, file_name_of, DOT};
use crate::remote::fs_remote::{fs_error_text, FsRemoteErrorView};
use crate::remote::google_drive::{
    create_failed_text, fetch_failed_text, list_failed_text, sandbox_folder,
};
use crate::state_db::{below_pattern, columns, stored_remote, FileStateView, SqlValueView};
use crate::sync_engine::conflict::{copy_name, dotted_extension, no_parent_text, stem_text};
use crate::sync_engine::model::copy_failed_text;
use crate::text::{
    decimal, digit, lemma_split_concat, lemma_split_none, lossy_text, replaced, split_on, trimmed,
    trimmed_end, trimmed_start, CharClass,
};
use crate::virtual_path::{
    cleaned, law_normalized_splits_into_segments, name_segments, normalized, proper,
};

verus! {

/// The number that digits in decimal stand for.
pub open spec fn decimal_value(text: Seq<char>) -> int
    decreases text.len(),
{
    if text.len() == 0 {
        0
    } else {
        10 * decimal_value(text.drop_last()) + (text.last() as int - '0' as int)
    }
}

/// A number in decimal reads as that number, and is made of digits.
pub proof fn law_decimals_read_back(n: nat)
    ensures
        decimal_value(decimal(n)) == n,
        decimal(n).len() > 0,
        forall|i: int|
            0 <= i < decimal(n).len() ==> '0' as int <= (#[trigger] decimal(n)[i]) as int
                <= '9' as int,
    decreases n,
{
    let text = decimal(n);
    if n < 10 {
        assert(text.drop_last().len() == 0);
        assert(text.last() == digit(n));
        assert(decimal_value(text.drop_last()) == 0);
    } else {
        law_decimals_read_back(n / 10);
        let head = decimal(n / 10);
        assert(text.drop_last() == head);
        assert(text.last() == digit(n % 10));
        assert forall|i: int| 0 <= i < text.len() implies '0' as int <= (#[trigger] text[i]) as int
            <= '9' as int by {
            if i < head.len() {
                assert(text[i] == head[i]);
            }
        }
    }
}

/// The value of a hexadecimal digit.
pub open spec fn hex_value(c: char) -> int {
    if c as int >= 'a' as int {
        c as int - 'a' as int + 10
    } else {
        c as int - '0' as int
    }
}

/// Bytes in hexadecimal read as those bytes, two digits for each, the higher one first.
pub proof fn law_hexadecimals_read_back(bytes: Seq<u8>, i: int)
    requires
        0 <= i < bytes.len(),
    ensures
        hex_text(bytes).len() == 2 * bytes.len(),
        bytes[i] == 16 * hex_value(hex_text(bytes)[2 * i]) + hex_value(hex_text(bytes)[2 * i + 1]),
{
    let b = bytes[i] as int;
    assert((2 * i) % 2 == 0 && (2 * i) / 2 == i);
    assert((2 * i + 1) % 2 == 1 && (2 * i + 1) / 2 == i);
    assert(hex_text(bytes)[2 * i] == hex_digit(b / 16));
    assert(hex_text(bytes)[2 * i + 1] == hex_digit(b % 16));
    assert(0 <= b / 16 < 16);
    lemma_hex_value(b / 16);
    lemma_hex_value(b % 16);
}

/// A fingerprint reads as the digest of the whole content, however long that is: two digits
/// for each byte, the higher one first.
pub proof fn law_fingerprints_read_as_digests(content: Seq<u8>, i: int)
    requires
        0 <= i < md5_digest(content).len(),
    ensures
        fingerprint(content).len() == 2 * md5_digest(content).len(),
        md5_digest(content)[i] == 16 * hex_value(fingerprint(content)[2 * i]) + hex_value(
            fingerprint(content)[2 * i + 1],
        ),
{
    law_hexadecimals_read_back(md5_digest(content), i);
}

/// Two contents have one fingerprint exactly where they have one digest.
pub proof fn law_fingerprints_differ_as_digests_do(a: Seq<u8>, b: Seq<u8>)
    ensures
        fingerprint(a) == fingerprint(b) <==> md5_digest(a) == md5_digest(b),
{
    let (left, right) = (md5_digest(a), md5_digest(b));
    if fingerprint(a) == fingerprint(b) {
        assert(fingerprint(a).len() == 2 * left.len() && fingerprint(b).len() == 2 * right.len());
        assert forall|i: int| 0 <= i < left.len() implies left[i] == right[i] by {
            law_fingerprints_read_as_digests(a, i);
            law_fingerprints_read_as_digests(b, i);
        }
        assert(left =~= right);
    }
}

/// The value of a digit is what it was made of.
proof fn lemma_hex_value(n: int)
    requires
        0 <= n < 16,
    ensures
        hex_value(hex_digit(n)) == n,
{
}

/// What is left when characters of a class are taken off both ends: what stands between
/// them, and it neither begins nor ends with one.
pub proof fn law_only_the_ends_are_trimmed(s: Seq<char>, class: CharClass)
    ensures
        ({
            let start = s.len() - trimmed_start(s, class).len();
            let end = start + trimmed(s, class).len();
            &&& 0 <= start <= end <= s.len()
            &&& trimmed(s, class) == s.subrange(start, end)
            &&& forall|i: int| 0 <= i < start ==> class.has(#[trigger] s[i])
            &&& forall|i: int| end <= i < s.len() ==> class.has(#[trigger] s[i])
            &&& trimmed(s, class).len() > 0 ==> !class.has(trimmed(s, class)[0]) && !class.has(
                trimmed(s, class).last(),
            )
        }),
{
    let tail = trimmed_start(s, class);
    let start = s.len() - tail.len();
    lemma_trimmed_start(s, class);
    lemma_trimmed_end(tail, class);
    let end = start + trimmed(s, class).len();
    assert(trimmed(s, class) == s.subrange(start, end));
    assert forall|i: int| end <= i < s.len() implies class.has(#[trigger] s[i]) by {
        assert(s[i] == tail[i - start]);
    }
}

/// What is left when characters of a class are taken off the beginning.
proof fn lemma_trimmed_start(s: Seq<char>, class: CharClass)
    ensures
        trimmed_start(s, class).len() <= s.len(),
        trimmed_start(s, class) == s.skip(s.len() - trimmed_start(s, class).len()),
        forall|i: int|
            0 <= i < s.len() - trimmed_start(s, class).len() ==> class.has(#[trigger] s[i]),
        trimmed_start(s, class).len() > 0 ==> !class.has(trimmed_start(s, class)[0]),
    decreases s.len(),
{
    if s.len() > 0 && class.has(s[0]) {
        let rest = s.drop_first();
        lemma_trimmed_start(rest, class);
        let left = trimmed_start(s, class);
        assert(left == s.skip(s.len() - left.len()));
        assert forall|i: int| 0 <= i < s.len() - left.len() implies class.has(#[trigger] s[i]) by {
            if i > 0 {
                assert(s[i] == rest[i - 1]);
            }
        }
    } else {
        assert(s.skip(0) == s);
    }
}

/// What is left when characters of a class are taken off the end.
proof fn lemma_trimmed_end(s: Seq<char>, class: CharClass)
    ensures
        trimmed_end(s, class).len() <= s.len(),
        trimmed_end(s, class) == s.take(trimmed_end(s, class).len() as int),
        forall|i: int| trimmed_end(s, class).len() <= i < s.len() ==> class.has(#[trigger] s[i]),
        trimmed_end(s, class).len() > 0 ==> !class.has(trimmed_end(s, class).last()),
    decreases s.len(),
{
    if s.len() > 0 && class.has(s.last()) {
        let head = s.drop_last();
        lemma_trimmed_end(head, class);
        let left = trimmed_end(s, class);
        assert(left == s.take(left.len() as int));
        assert forall|i: int| left.len() <= i < s.len() implies class.has(#[trigger] s[i]) by {
            if i < s.len() - 1 {
                assert(s[i] == head[i]);
            }
        }
    } else {
        assert(s.take(s.len() as int) == s);
    }
}

/// Whether a text has nothing at its ends that is taken off a remote path.
pub open spec fn has_clean_ends(s: Seq<char>) -> bool {
    &&& s.len() > 0
    &&& !CharClass::WhiteSpace.has(s[0]) && !CharClass::WhiteSpace.has(s.last())
    &&& s[0] != '/' && s.last() != '/'
}

/// Such a text only has its backslashes replaced.
proof fn lemma_clean_ends(s: Seq<char>)
    requires
        has_clean_ends(s),
    ensures
        cleaned(s) == replaced(s, '\\', '/'),
{
    let white = CharClass::WhiteSpace;
    let slash = CharClass::One('/');
    assert(trimmed_start(s, white) == s);
    assert(trimmed_end(s, white) == s);
    assert(trimmed_start(s, slash) == s);
    assert(trimmed_end(s, slash) == s);
}

/// The names of a remote path are those of its parts, one after the other: bringing two
/// paths into the form they are kept in and joining them is the same as joining them first.
pub proof fn law_remote_names_come_part_by_part(a: Seq<char>, b: Seq<char>)
    requires
        has_clean_ends(a),
        has_clean_ends(b),
    ensures
        name_segments(a.push('/') + b) == name_segments(a) + name_segments(b),
{
    let whole = a.push('/') + b;
    let x = replaced(a, '\\', '/');
    let y = replaced(b, '\\', '/');
    let pred = |part: Seq<char>| proper(part);
    assert(whole[0] == a[0] && whole.last() == b.last());
    lemma_clean_ends(a);
    lemma_clean_ends(b);
    lemma_clean_ends(whole);
    assert(replaced(whole, '\\', '/') == x.push('/') + y);
    lemma_split_concat(x, '/', y);
    Seq::filter_distributes_over_add(split_on(x, '/'), split_on(y, '/'), pred);
}

/// A part of a remote path that is a plain name is one of its names; one that is empty or
/// `.` is none.
pub proof fn law_plain_names_are_kept(name: Seq<char>)
    requires
        !name.contains('/'),
        !name.contains('\\'),
        trimmed(name, CharClass::WhiteSpace) == name,
    ensures
        name_segments(name) == if name.len() == 0 || name == seq!['.'] {
            Seq::empty()
        } else {
            seq![name]
        },
{
    let slash = CharClass::One('/');
    let pred = |part: Seq<char>| proper(part);
    assert(trimmed(name, slash) == name) by {
        if name.len() > 0 {
            assert(name.contains(name[0]));
            assert(name.contains(name.last()));
        }
    }
    assert(replaced(name, '\\', '/') == name) by {
        assert forall|i: int| 0 <= i < name.len() implies replaced(name, '\\', '/')[i] == name[i] by {
            assert(name.contains(name[i]));
        }
    }
    lemma_split_none(name, '/');
    let one = seq![name];
    assert(split_on(name, '/') == one);
    assert(one.drop_last() == Seq::<Seq<char>>::empty());
    reveal_with_fuel(Seq::filter, 2);
    assert(one.filter(pred) == if pred(name) {
        one
    } else {
        Seq::empty()
    });
}

/// A remote path in the form it is kept in is stored as it is, and a slash before or after
/// a path does not change what it is stored under.
pub proof fn law_kept_paths_are_stored_as_they_are(raw: Seq<char>, path: Seq<char>)
    ensures
        stored_remote(normalized(raw)) == normalized(raw),
        stored_remote(seq!['/'] + path) == stored_remote(path),
        !stored_remote(path).contains('\\'),
{
    let kept = normalized(raw);
    let slash = CharClass::One('/');
    law_normalized_splits_into_segments(raw);
    assert(trimmed_start(kept, slash) == kept);
    assert(trimmed_end(kept, slash) == kept);
    assert forall|i: int| 0 <= i < kept.len() implies replaced(kept, '\\', '/')[i] == kept[i] by {
        assert(kept.contains(kept[i]));
    }
    assert(replaced(kept, '\\', '/') == kept);
    let longer = seq!['/'] + path;
    assert(longer[0] == '/');
    assert(longer.drop_first() == path);
    assert(trimmed_start(longer, slash) == trimmed_start(path, slash));
    let stored = stored_remote(path);
    if stored.contains('\\') {
        let k = choose|k: int| 0 <= k < stored.len() && stored[k] == '\\';
        assert(stored[k] != '\\');
    }
}

/// The pattern for what lies below a path is the path, a slash and a wildcard; slashes at
/// the end of the path do not count.
pub proof fn law_patterns_end_in_a_wildcard(path: Seq<char>)
    ensures
        path.len() == 0 || path.last() != '/' ==> below_pattern(path) == path + seq!['/', '%'],
        below_pattern(path.push('/')) == below_pattern(path),
{
    let longer = path.push('/');
    assert(longer.last() == '/');
    assert(longer.drop_last() == path);
}

/// The columns of a record: each field stands in the column of its name.
pub proof fn law_columns_follow_the_table(record: FileStateView)
    ensures
        columns(record).len() == 6,
        columns(record)[0] == SqlValueView::Text(lossy_text(record.local_path)),
        columns(record)[1] == SqlValueView::Text(record.drive_id),
        columns(record)[2] == SqlValueView::Text(stored_remote(record.virtual_remote_path)),
        columns(record)[3] == SqlValueView::Text(record.md5_hash),
        columns(record)[4] == SqlValueView::Integer(record.local_timestamp),
        columns(record)[5] == SqlValueView::Text(record.remote_timestamp),
{
}

/// What follows the last separator.
proof fn lemma_after_last_is(head: Seq<u8>, tail: Seq<u8>, sep: u8)
    requires
        !tail.contains(sep),
    ensures
        after_last(head.push(sep) + tail, sep) == tail,
    decreases tail.len(),
{
    let whole = head.push(sep) + tail;
    if tail.len() == 0 {
        assert(whole == head.push(sep));
    } else {
        let rest = tail.drop_last();
        assert(tail.contains(tail.last()));
        assert(!rest.contains(sep)) by {
            if rest.contains(sep) {
                let k = choose|k: int| 0 <= k < rest.len() && rest[k] == sep;
                assert(tail[k] == sep);
            }
        }
        lemma_after_last_is(head, rest, sep);
        assert(whole.drop_last() == head.push(sep) + rest);
        assert(whole.last() == tail.last());
        assert(rest.push(tail.last()) == tail);
    }
}

/// A name without a separator follows the last one as a whole.
proof fn lemma_after_last_none(name: Seq<u8>, sep: u8)
    requires
        !name.contains(sep),
    ensures
        after_last(name, sep) == name,
    decreases name.len(),
{
    if name.len() > 0 {
        let rest = name.drop_last();
        assert(name.contains(name.last()));
        assert(!rest.contains(sep)) by {
            if rest.contains(sep) {
                let k = choose|k: int| 0 <= k < rest.len() && rest[k] == sep;
                assert(name[k] == sep);
            }
        }
        lemma_after_last_none(rest, sep);
        assert(rest.push(name.last()) == name);
    }
}

/// A conflicted copy of a file `stem.ext` is named `stem (conflicted copy N).ext`, with the
/// millisecond for `N`: it keeps the whole stem and the extension.
pub proof fn law_copies_keep_stem_and_extension(
    path: Seq<u8>,
    stem: Seq<char>,
    ext: Seq<char>,
    millis: u128,
)
    requires
        file_name_of(path) == Some(encode_utf8(stem.push('.') + ext)),
        stem.len() > 0,
        !ext.contains('.'),
    ensures
        copy_name(path, millis) == stem + " (conflicted copy "@ + decimal(millis as nat) + ")"@
            + seq!['.'] + ext,
{
    let name = encode_utf8(stem.push('.') + ext);
    let a = encode_utf8(stem);
    let b = encode_utf8(ext);
    assert(stem.push('.') == stem + seq!['.']);
    lemma_encode_concat(stem, seq!['.']);
    lemma_encode_concat(stem.push('.'), ext);
    lemma_encode_dots();
    assert(name == a.push(DOT) + b);
    lemma_encode_contains(ext, '.');
    lemma_after_last_is(a, b, DOT);
    lemma_encode_nonempty(stem);
    assert(name.take(name.len() - b.len() - 1) == a);
    assert(cut_at_dot(name) == (a, Some(b)));
    encode_utf8_valid_utf8(stem);
    encode_utf8_decode_utf8(stem);
    encode_utf8_valid_utf8(ext);
    encode_utf8_decode_utf8(ext);
    assert(stem_text(path) == stem);
    assert(dotted_extension(path) == seq!['.'] + ext);
    assert(copy_name(path, millis) == stem + " (conflicted copy "@ + decimal(millis as nat) + ")"@
        + seq!['.'] + ext);
}

/// A conflicted copy of a file without an extension keeps its whole name.
pub proof fn law_copies_keep_plain_names(path: Seq<u8>, name: Seq<char>, millis: u128)
    requires
        file_name_of(path) == Some(encode_utf8(name)),
        !name.contains('.'),
    ensures
        copy_name(path, millis) == name + " (conflicted copy "@ + decimal(millis as nat) + ")"@,
{
    let bytes = encode_utf8(name);
    lemma_encode_contains(name, '.');
    lemma_encode_dots();
    lemma_after_last_none(bytes, DOT);
    assert(cut_at_dot(bytes) == (bytes, None::<Seq<u8>>));
    encode_utf8_valid_utf8(name);
    encode_utf8_decode_utf8(name);
    assert(copy_name(path, millis) == name + " (conflicted copy "@ + decimal(millis as nat)
        + ")"@);
}

/// Copies of a file that are made at different milliseconds have different names, so that
/// none takes the place of another one.
pub proof fn law_copies_at_different_times_differ(path: Seq<u8>, a: u128, b: u128)
    requires
        a != b,
    ensures
        copy_name(path, a) != copy_name(path, b),
{
    let head = stem_text(path) + " (conflicted copy "@;
    let x = decimal(a as nat);
    let y = decimal(b as nat);
    let first = copy_name(path, a);
    let second = copy_name(path, b);
    if first == second {
        assert(first.len() == second.len());
        assert(x.len() == y.len());
        assert(first.subrange(head.len() as int, (head.len() + x.len()) as int) == x);
        assert(second.subrange(head.len() as int, (head.len() + y.len()) as int) == y);
        law_decimals_read_back(a as nat);
        law_decimals_read_back(b as nat);
    }
}

/// The name of the sandbox folder names one folder: it is not empty and holds neither slash
/// nor backslash; a name that is like that already, without white space at its ends, stays
/// as it is.
pub proof fn law_the_sandbox_has_one_name(raw: Seq<char>)
    ensures
        sandbox_folder(raw).len() > 0,
        !sandbox_folder(raw).contains('/'),
        !sandbox_folder(raw).contains('\\'),
        raw.len() > 0 && !raw.contains('/') && !raw.contains('\\') && trimmed(
            raw,
            CharClass::WhiteSpace,
        ) == raw ==> sandbox_folder(raw) == raw,
{
    let name = sandbox_folder(raw);
    let slash = CharClass::One('/');
    let inner = trimmed(trimmed(raw, CharClass::WhiteSpace), slash);
    let first = replaced(inner, '/', '_');
    reveal_strlit("guploadsync");
    assert("guploadsync"@.len() == 11);
    assert(!"guploadsync"@.contains('/'));
    assert(!"guploadsync"@.contains('\\'));
    if inner.len() > 0 {
        assert forall|i: int| 0 <= i < name.len() implies name[i] != '/' && name[i] != '\\' by {
            assert(first[i] != '/');
        }
    }
    if raw.len() > 0 && !raw.contains('/') && !raw.contains('\\') && trimmed(
        raw,
        CharClass::WhiteSpace,
    ) == raw {
        assert(raw.contains(raw[0]));
        assert(raw.contains(raw.last()));
        assert(inner == raw);
        assert forall|i: int| 0 <= i < raw.len() implies name[i] == raw[i] by {
            assert(raw.contains(raw[i]));
        }
        assert(name == raw);
    }
}

/// Seconds are kept in two's complement: as they are up to the largest timestamp, and less
/// the whole range beyond it, so that different seconds are kept as different timestamps.
pub proof fn law_seconds_are_kept_apart(a: u64, b: u64)
    ensures
        i64::MIN <= signed_seconds(a) <= i64::MAX,
        a <= i64::MAX ==> signed_seconds(a) == a,
        signed_seconds(a) == signed_seconds(b) ==> a == b,
{
}

/// Whether a text holds another one, as a whole.
pub open spec fn says(text: Seq<char>, part: Seq<char>) -> bool {
    exists|before: Seq<char>, after: Seq<char>| text == #[trigger] (before + part + after)
}

/// A text says what it is put together from.
proof fn lemma_says(before: Seq<char>, part: Seq<char>, after: Seq<char>)
    ensures
        says(before + part + after, part),
        says(before + part, part),
{
    let none = Seq::<char>::empty();
    assert(before + part == before + part + none);
}

/// What is said of a watch entry, a remote path or a local path that is refused names it.
pub proof fn law_refusals_name_what_they_refuse(path: Seq<u8>, virtual_path: Seq<char>)
    ensures
        says(config_error_text(ConfigErrorView::EmptyRemoteName(path)), lossy_text(path)),
        says(fs_error_text(FsRemoteErrorView::InvalidComponent(virtual_path)), virtual_path),
        says(fs_error_text(FsRemoteErrorView::LocalMissing(path)), lossy_text(path)),
        says(fs_error_text(FsRemoteErrorView::LocalIsDirectory(path)), lossy_text(path)),
        says(fs_error_text(FsRemoteErrorView::RemoteMissing(virtual_path)), virtual_path),
        says(fs_error_text(FsRemoteErrorView::SourceMissing(virtual_path)), virtual_path),
        says(fs_error_text(FsRemoteErrorView::RemoteIsDirectory(virtual_path)), virtual_path),
        says(fs_error_text(FsRemoteErrorView::MetadataMissing(virtual_path)), virtual_path),
        says(no_parent_text(path), lossy_text(path)),
        says(copy_failed_text(virtual_path, path), lossy_text(path)),
        says(copy_failed_text(virtual_path, path), virtual_path),
{
    let text = lossy_text(path);
    lemma_says("watch entry with local_path="@, text, " has empty remote_name"@);
    lemma_says("invalid remote path component in "@, virtual_path, Seq::empty());
    lemma_says("local path does not exist: "@, text, Seq::empty());
    lemma_says(
        "upload_or_update currently supports files only, got directory "@,
        text,
        Seq::empty(),
    );
    lemma_says("remote file does not exist: "@, virtual_path, Seq::empty());
    lemma_says("remote source does not exist: "@, virtual_path, Seq::empty());
    lemma_says(
        "download_to_local only supports files, got directory "@,
        virtual_path,
        Seq::empty(),
    );
    lemma_says("metadata not available after "@, virtual_path, Seq::empty());
    lemma_says("path has no parent: "@, text, Seq::empty());
    let head = "failed to store conflicted copy for "@;
    lemma_says(head + virtual_path + " at "@, text, Seq::empty());
    lemma_says(head, virtual_path, " at "@ + text);
    assert(copy_failed_text(virtual_path, path) == head + virtual_path + (" at "@ + text));
}

/// What is said of a request to Drive that failed names the file it was for: its name and its
/// parent, or its identifier.
pub proof fn law_drive_failures_name_the_file(parent_id: Seq<char>, name: Seq<char>, id: Seq<char>)
    ensures
        says(list_failed_text(parent_id, name), parent_id),
        says(list_failed_text(parent_id, name), name),
        says(create_failed_text(parent_id, name), parent_id),
        says(create_failed_text(parent_id, name), name),
        says(fetch_failed_text(id), id),
{
    let listing = "failed to list Drive children for parent "@;
    lemma_says(listing, parent_id, " and name '"@ + name + "'"@);
    assert(list_failed_text(parent_id, name) == listing + parent_id + (" and name '"@ + name
        + "'"@));
    lemma_says(listing + parent_id + " and name '"@, name, "'"@);
    let making = "failed to create Drive folder '"@;
    lemma_says(making, name, "' under parent "@ + parent_id);
    assert(create_failed_text(parent_id, name) == making + name + ("' under parent "@
        + parent_id));
    lemma_says(making + name + "' under parent "@, parent_id, Seq::empty());
    lemma_says("failed to fetch Drive file metadata for "@, id, Seq::empty());
}

} // verus!
