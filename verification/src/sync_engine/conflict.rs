//! The name that a conflicting remote version is stored under.
use vstd::prelude::*;
use vstd::utf8::{
    decode_utf8, decode_utf8_encode_utf8, encode_utf8, encode_utf8_decode_utf8,
    encode_utf8_valid_utf8, valid_utf8,
};

use crate::encoding::{
    lemma_encode_concat, lemma_encode_contains, lemma_encode_dots, lemma_encode_injective,
    lemma_encode_is_name, lemma_valid_around_ascii,
};
use crate::failure::Failure;
use crate::path::{
    components, cut_at_dot, file_name_of, is_name, lemma_components_of_pushed, lemma_cut_at_dot,
    lemma_file_name_is_a_name, lemma_last_component_is_the_file_name, named, parent_of, pushed,
    same_path, stem_and_extension, Component, LocalPath, DOT, SLASH,
};
use crate::text::{decimal, digit, from_chars, joined, lossy_text, text_from_utf8, to_decimal};

verus! {

/// The stem of the file name that a path ends in, or `file` where there is none
/// or it is not valid UTF-8.
pub open spec fn stem_text(path: Seq<u8>) -> Seq<char> {
    match file_name_of(path) {
        Some(name) => if valid_utf8(cut_at_dot(name).0) {
            decode_utf8(cut_at_dot(name).0)
        } else {
            "file"@
        },
        None => "file"@,
    }
}

/// The extension of the file name that a path ends in with its dot, or nothing
/// where there is none or it is not valid UTF-8.
pub open spec fn dotted_extension(path: Seq<u8>) -> Seq<char> {
    match file_name_of(path) {
        Some(name) => match cut_at_dot(name).1 {
            Some(ext) => if valid_utf8(ext) {
                seq!['.'] + decode_utf8(ext)
            } else {
                Seq::empty()
            },
            None => Seq::empty(),
        },
        None => Seq::empty(),
    }
}

/// The name of a copy made at the given millisecond.
pub open spec fn copy_name(path: Seq<u8>, millis: u128) -> Seq<char> {
    stem_text(path) + " (conflicted copy "@ + decimal(millis as nat) + ")"@ + dotted_extension(path)
}

/// What is said of a path without a parent.
pub open spec fn no_parent_text(path: Seq<u8>) -> Seq<char> {
    "path has no parent: "@ + lossy_text(path)
}

/// Where a copy made at the given millisecond stands: beside the file. The
/// millisecond is missing where the clock stands before 1970.
pub open spec fn conflicted_copy(path: Seq<u8>, millis: Option<u128>) -> Result<
    Seq<u8>,
    Seq<char>,
> {
    match parent_of(path) {
        None => Err(no_parent_text(path)),
        Some(parent) => match millis {
            None => Err("system time is before UNIX_EPOCH"@),
            Some(n) => Ok(pushed(parent, encode_utf8(copy_name(path, n)))),
        },
    }
}

/// The failure for a path without a parent.
pub fn no_parent(path: &LocalPath) -> (r: Failure)
    ensures
        r@ == no_parent_text(path@),
{
    let mut message = "path has no parent: ".to_owned();
    message.append(path.to_text().as_str());
    Failure { message }
}

/// Where a copy of a file that is in conflict is stored: beside it, under a
/// name that tells the millisecond.
pub fn make_conflicted_copy_path(original: &LocalPath, millis: Option<u128>) -> (r: Result<
    LocalPath,
    Failure,
>)
    ensures
        match conflicted_copy(original@, millis) {
            Ok(path) => r is Ok && r->Ok_0@ == path,
            Err(why) => r is Err && r->Err_0@ == why,
        },
{
    let parent = match original.parent() {
        Some(parent) => parent,
        None => {
            return Err(no_parent(original));
        },
    };
    let n: u128 = match millis {
        Some(n) => n,
        None => {
            return Err(Failure::new("system time is before UNIX_EPOCH"));
        },
    };
    let mut name = "file".to_owned();
    let mut ext: Option<String> = None;
    match original.file_name() {
        Some(file_name) => {
            let (stem, extension) = stem_and_extension(&file_name);
            match text_from_utf8(stem.as_slice()) {
                Some(text) => {
                    name = text;
                },
                None => {},
            }
            match extension {
                Some(extension) => {
                    ext = text_from_utf8(extension.as_slice());
                },
                None => {},
            }
        },
        None => {},
    }
    name.append(" (conflicted copy ");
    name.append(from_chars(to_decimal(n).as_slice()).as_str());
    name.append(")");
    match ext {
        Some(ext) => {
            name.push('.');
            name.append(ext.as_str());
        },
        None => {},
    }
    assert(name@ == copy_name(original@, n));
    Ok(parent.join_text(name.as_str()))
}

/// Neither text holds the character where their concatenation does not, and
/// the other way round.
proof fn lemma_concat_contains(a: Seq<char>, b: Seq<char>, c: char)
    ensures
        (a + b).contains(c) <==> a.contains(c) || b.contains(c),
{
    let whole = a + b;
    if whole.contains(c) {
        let k = choose|k: int| 0 <= k < whole.len() && whole[k] == c;
        if k < a.len() {
            assert(a[k] == c);
        } else {
            assert(b[k - a.len()] == c);
        }
    }
    if a.contains(c) {
        let k = choose|k: int| 0 <= k < a.len() && a[k] == c;
        assert(whole[k] == c);
    }
    if b.contains(c) {
        let k = choose|k: int| 0 <= k < b.len() && b[k] == c;
        assert(whole[k + a.len()] == c);
    }
}

/// A number in decimal holds no slash.
proof fn lemma_decimal_has_no_slash(n: nat)
    ensures
        !decimal(n).contains('/'),
    decreases n,
{
    if n < 10 {
        assert(decimal(n)[0] == digit(n));
    } else {
        lemma_decimal_has_no_slash(n / 10);
        let head = decimal(n / 10);
        if decimal(n).contains('/') {
            let k = choose|k: int| 0 <= k < decimal(n).len() && decimal(n)[k] == '/';
            if k < head.len() {
                assert(head[k] == '/');
            }
        }
    }
}

/// Text that encodes to bytes without a slash holds none.
proof fn lemma_decoded_has_no_slash(bytes: Seq<u8>)
    requires
        valid_utf8(bytes),
        !bytes.contains(SLASH),
    ensures
        !decode_utf8(bytes).contains('/'),
{
    decode_utf8_encode_utf8(bytes);
    lemma_encode_contains(decode_utf8(bytes), '/');
}

/// The name of a copy can stand between slashes.
proof fn lemma_copy_name_is_a_name(path: Seq<u8>, millis: u128)
    ensures
        is_name(encode_utf8(copy_name(path, millis))),
{
    let stem = stem_text(path);
    let ext = dotted_extension(path);
    let digits = decimal(millis as nat);
    reveal_strlit(" (conflicted copy ");
    reveal_strlit(")");
    reveal_strlit("file");
    assert(!"file"@.contains('/'));
    assert(!" (conflicted copy "@.contains('/'));
    assert(!")"@.contains('/'));
    match file_name_of(path) {
        Some(name) => {
            lemma_file_name_is_a_name(path);
            lemma_cut_at_dot(name);
            let cut = cut_at_dot(name);
            assert(!cut.0.contains(SLASH)) by {
                if cut.0.contains(SLASH) {
                    let k = choose|k: int| 0 <= k < cut.0.len() && cut.0[k] == SLASH;
                    assert(name[k] == SLASH);
                }
            }
            if valid_utf8(cut.0) {
                lemma_decoded_has_no_slash(cut.0);
            }
            match cut.1 {
                Some(bytes) => {
                    assert(!bytes.contains(SLASH)) by {
                        if bytes.contains(SLASH) {
                            let k = choose|k: int| 0 <= k < bytes.len() && bytes[k] == SLASH;
                            assert(name[k + cut.0.len() + 1] == SLASH);
                        }
                    }
                    if valid_utf8(bytes) {
                        lemma_decoded_has_no_slash(bytes);
                        assert(!seq!['.'].contains('/'));
                        lemma_concat_contains(seq!['.'], decode_utf8(bytes), '/');
                    }
                },
                None => {},
            }
        },
        None => {},
    }
    lemma_decimal_has_no_slash(millis as nat);
    let a = stem + " (conflicted copy "@;
    lemma_concat_contains(stem, " (conflicted copy "@, '/');
    lemma_concat_contains(a, digits, '/');
    lemma_concat_contains(a + digits, ")"@, '/');
    lemma_concat_contains(a + digits + ")"@, ext, '/');
    lemma_encode_is_name(copy_name(path, millis));
}

/// A copy stands beside the file, under another name: it never takes the
/// file's place.
pub proof fn law_a_copy_stands_beside_the_file(path: Seq<u8>, millis: u128)
    requires
        parent_of(path) is Some,
    ensures
        conflicted_copy(path, Some(millis)) is Ok,
        components(conflicted_copy(path, Some(millis))->Ok_0) == components(
            parent_of(path)->0,
        ).push(Component::Normal(encode_utf8(copy_name(path, millis)))),
        !same_path(conflicted_copy(path, Some(millis))->Ok_0, path),
{
    let parent = parent_of(path)->0;
    let text = copy_name(path, millis);
    let name = encode_utf8(text);
    let copy = conflicted_copy(path, Some(millis))->Ok_0;
    lemma_copy_name_is_a_name(path, millis);
    let parts = seq![name];
    assert(joined(parts, SLASH) == name);
    lemma_components_of_pushed(parent, parts);
    assert(named(parts) == seq![Component::Normal(name)]);
    assert(components(copy) == components(parent).push(Component::Normal(name)));
    if same_path(copy, path) {
        lemma_last_component_is_the_file_name(path);
        assert(file_name_of(path) == Some(name));
        reveal_strlit(")");
        encode_utf8_valid_utf8(text);
        encode_utf8_decode_utf8(text);
        lemma_cut_at_dot(name);
        match cut_at_dot(name) {
            (stem, None) => {
                assert(stem_text(path) == text);
                assert(text.len() > text.len());
            },
            (stem, Some(ext)) => {
                let dot = seq!['.'];
                lemma_valid_around_ascii(name, stem.len() as int);
                decode_utf8_encode_utf8(stem);
                decode_utf8_encode_utf8(ext);
                let a = decode_utf8(stem);
                let b = decode_utf8(ext);
                lemma_encode_concat(a, dot);
                lemma_encode_concat(a + dot, b);
                lemma_encode_dots();
                assert(encode_utf8(a + dot + b) == stem + seq![DOT] + ext);
                assert(stem + seq![DOT] + ext == name);
                lemma_encode_injective(a + dot + b, text);
                assert(text == a + " (conflicted copy "@ + decimal(millis as nat) + ")"@ + (dot
                    + b));
                assert(text.len() > (a + dot + b).len());
            },
        }
    }
}

} // verus!
