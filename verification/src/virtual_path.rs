//! Remote paths as slash-separated text, and the form they are kept in.
use vstd::prelude::*;
use vstd::slice::slice_to_vec;

use crate::keyed::lemma_filter_all;
use crate::text::{
    char_lists, from_chars, join, joined, lemma_split_joined, lemma_split_parts, replace, replaced,
    split, split_on, to_chars, trim, trimmed, trimmed_end, trimmed_start, CharClass,
};

verus! {

/// Whether a part between slashes names something: it is neither empty nor
/// `.`.
pub open spec fn proper(part: Seq<char>) -> bool {
    part.len() > 0 && part != seq!['.']
}

/// `raw` without surrounding white space, then without surrounding slashes,
/// and with slashes for backslashes.
pub open spec fn cleaned(raw: Seq<char>) -> Seq<char> {
    replaced(trimmed(trimmed(raw, CharClass::WhiteSpace), CharClass::One('/')), '\\', '/')
}

/// The names that a remote path goes through.
pub open spec fn name_segments(raw: Seq<char>) -> Seq<Seq<char>> {
    split_on(cleaned(raw), '/').filter(|part: Seq<char>| proper(part))
}

/// The form in which a remote path is kept: its names with one slash between
/// each two.
pub open spec fn normalized(raw: Seq<char>) -> Seq<char> {
    joined(name_segments(raw), '/')
}

/// The names that a remote path goes through.
pub fn segments(raw: &str) -> (r: Vec<Vec<char>>)
    ensures
        char_lists(r@) == name_segments(raw@),
{
    let chars = to_chars(raw);
    let inner = trim(trim(chars.as_slice(), CharClass::WhiteSpace), CharClass::One('/'));
    let clean = replace(inner, '\\', '/');
    let parts = split(clean.as_slice(), '/');
    let ghost all = char_lists(parts@);
    let ghost pred = |part: Seq<char>| proper(part);
    let mut r: Vec<Vec<char>> = Vec::new();
    let mut i: usize = 0;
    proof {
        reveal(Seq::filter);
        assert(char_lists(r@) == all.take(0).filter(pred));
    }
    while i < parts.len()
        invariant
            i <= parts.len(),
            all == char_lists(parts@),
            pred == (|part: Seq<char>| proper(part)),
            char_lists(r@) == all.take(i as int).filter(pred),
        decreases parts.len() - i,
    {
        let part = &parts[i];
        let ghost before = r@;
        proof {
            reveal(Seq::filter);
            assert(all.take(i + 1).drop_last() == all.take(i as int));
            assert(all.take(i + 1).last() == part@);
        }
        let is_dot: bool = part.len() == 1 && part[0] == '.';
        proof {
            if is_dot {
                assert(part@ == seq!['.']);
            } else if part@ == seq!['.'] {
                assert(part@[0] == '.');
            }
        }
        if part.len() > 0 && !is_dot {
            r.push(slice_to_vec(part.as_slice()));
            assert(char_lists(r@) == char_lists(before).push(part@));
        }
        i += 1;
    }
    assert(all.take(i as int) == all);
    r
}

/// Brings a remote path into the form it is kept in.
pub fn normalize(raw: &str) -> (r: String)
    ensures
        r@ == normalized(raw@),
{
    from_chars(join(&segments(raw), '/').as_slice())
}

/// The parts of a split are made of the text's own elements.
proof fn lemma_split_elements<T>(s: Seq<T>, sep: T, x: T)
    requires
        !s.contains(x),
    ensures
        forall|i: int| 0 <= i < split_on(s, sep).len() ==> !(#[trigger] split_on(s, sep)[i]).contains(x),
    decreases s.len(),
{
    if s.len() > 0 {
        assert(!s.drop_last().contains(x)) by {
            if s.drop_last().contains(x) {
                let k = choose|k: int| 0 <= k < s.drop_last().len() && s.drop_last()[k] == x;
                assert(s[k] == x);
            }
        }
        lemma_split_elements(s.drop_last(), sep, x);
        lemma_split_parts(s.drop_last(), sep);
        assert(s.contains(s.last()));
        let before = split_on(s.drop_last(), sep);
        if s.last() != sep {
            let last = before.last().push(s.last());
            assert(!last.contains(x)) by {
                if last.contains(x) {
                    let k = choose|k: int| 0 <= k < last.len() && last[k] == x;
                    if k < before.last().len() {
                        assert(before.last()[k] == x);
                    }
                }
            }
        }
    }
}

/// A text joined from parts that are not empty and hold no separator neither
/// begins nor ends with one, and holds nothing else than its parts and
/// separators do.
pub proof fn lemma_joined_ends<T>(parts: Seq<Seq<T>>, sep: T, x: T)
    requires
        parts.len() > 0,
        forall|i: int|
            0 <= i < parts.len() ==> (#[trigger] parts[i]).len() > 0 && !parts[i].contains(sep)
                && !parts[i].contains(x),
        x != sep,
    ensures
        joined(parts, sep).len() > 0,
        joined(parts, sep)[0] != sep,
        joined(parts, sep).last() != sep,
        !joined(parts, sep).contains(x),
    decreases parts.len(),
{
    let whole = joined(parts, sep);
    let last = parts.last();
    assert(last.contains(last.last()));
    if parts.len() == 1 {
        assert(parts[0].contains(parts[0][0]));
    } else {
        let head = parts.drop_last();
        assert forall|i: int| 0 <= i < head.len() implies (#[trigger] head[i]).len() > 0
            && !head[i].contains(sep) && !head[i].contains(x) by {
            assert(head[i] == parts[i]);
        }
        lemma_joined_ends(head, sep, x);
        let first = joined(head, sep);
        assert(whole == first.push(sep) + last);
        assert(whole[0] == first[0]);
        assert(whole.last() == last.last());
        if whole.contains(x) {
            let k = choose|k: int| 0 <= k < whole.len() && whole[k] == x;
            if k < first.len() {
                assert(first[k] == x);
            } else if k > first.len() {
                assert(last[k - first.len() - 1] == x);
            }
        }
    }
}

/// A text that holds no `from` stays as it is.
proof fn lemma_replaced_none(s: Seq<char>, from: char, to: char)
    requires
        !s.contains(from),
    ensures
        replaced(s, from, to) == s,
{
    assert forall|i: int| 0 <= i < s.len() implies replaced(s, from, to)[i] == s[i] by {
        assert(s.contains(s[i]));
    }
}

/// The names that a remote path goes through are neither empty nor `.`, and
/// hold neither slash nor backslash.
pub proof fn law_segments_are_proper(raw: Seq<char>)
    ensures
        forall|i: int|
            0 <= i < name_segments(raw).len() ==> proper(#[trigger] name_segments(raw)[i])
                && !name_segments(raw)[i].contains('/') && !name_segments(raw)[i].contains('\\'),
{
    let clean = cleaned(raw);
    let parts = split_on(clean, '/');
    let pred = |part: Seq<char>| proper(part);
    assert(!clean.contains('\\')) by {
        if clean.contains('\\') {
            let k = choose|k: int| 0 <= k < clean.len() && clean[k] == '\\';
            assert(clean[k] == '\\');
        }
    }
    lemma_split_parts(clean, '/');
    lemma_split_elements(clean, '/', '\\');
    assert forall|i: int| 0 <= i < name_segments(raw).len() implies proper(
        #[trigger] name_segments(raw)[i],
    ) && !name_segments(raw)[i].contains('/') && !name_segments(raw)[i].contains('\\') by {
        parts.lemma_filter_pred(pred, i);
        let seg = name_segments(raw)[i];
        assert(parts.filter(pred).contains(seg));
        parts.lemma_filter_contains_rev(pred, seg);
        let k = choose|k: int| 0 <= k < parts.len() && parts[k] == seg;
        assert(!parts[k].contains('/'));
    }
}

/// A remote path in the form it is kept in is empty or splits into the very
/// names that the raw path goes through; it neither begins nor ends with a
/// slash and holds no backslash.
pub proof fn law_normalized_splits_into_segments(raw: Seq<char>)
    ensures
        name_segments(raw).len() == 0 ==> normalized(raw).len() == 0,
        name_segments(raw).len() > 0 ==> {
            &&& split_on(normalized(raw), '/') == name_segments(raw)
            &&& normalized(raw).len() > 0
            &&& normalized(raw)[0] != '/'
            &&& normalized(raw).last() != '/'
        },
        !normalized(raw).contains('\\'),
{
    law_segments_are_proper(raw);
    let parts = name_segments(raw);
    if parts.len() > 0 {
        assert forall|i: int| 0 <= i < parts.len() implies (#[trigger] parts[i]).len() > 0
            && !parts[i].contains('/') && !parts[i].contains('\\') by {
            assert(proper(parts[i]));
        }
        lemma_split_joined(parts, '/');
        lemma_joined_ends(parts, '/', '\\');
    }
}

/// Names with one slash between each two are in the form that a remote path is
/// kept in, where there is no white space at the ends.
pub proof fn lemma_normalized_names(parts: Seq<Seq<char>>)
    requires
        parts.len() > 0,
        forall|i: int|
            0 <= i < parts.len() ==> proper(#[trigger] parts[i]) && !parts[i].contains('/')
                && !parts[i].contains('\\'),
        trimmed(joined(parts, '/'), CharClass::WhiteSpace) == joined(parts, '/'),
    ensures
        name_segments(joined(parts, '/')) == parts,
        normalized(joined(parts, '/')) == joined(parts, '/'),
{
    let n = joined(parts, '/');
    let slash = CharClass::One('/');
    let pred = |part: Seq<char>| proper(part);
    assert forall|i: int| 0 <= i < parts.len() implies (#[trigger] parts[i]).len() > 0
        && !parts[i].contains('/') && !parts[i].contains('\\') by {
        assert(proper(parts[i]));
    }
    lemma_split_joined(parts, '/');
    lemma_joined_ends(parts, '/', '\\');
    reveal_with_fuel(trimmed_start, 2);
    reveal_with_fuel(trimmed_end, 2);
    assert(trimmed(n, slash) == n);
    lemma_replaced_none(n, '\\', '/');
    assert(cleaned(n) == n);
    lemma_filter_all(parts, pred);
}

/// Normalizing twice is normalizing once, where the result has no white space
/// at its ends (the path `/ a` normalizes to one that begins with a space).
pub proof fn law_normalize_is_idempotent(raw: Seq<char>)
    requires
        trimmed(normalized(raw), CharClass::WhiteSpace) == normalized(raw),
    ensures
        normalized(normalized(raw)) == normalized(raw),
{
    let n = normalized(raw);
    law_segments_are_proper(raw);
    if name_segments(raw).len() > 0 {
        lemma_normalized_names(name_segments(raw));
    } else {
        assert(n == Seq::<char>::empty());
        assert(cleaned(n) == n);
        assert(split_on(n, '/') == seq![Seq::<char>::empty()]);
        assert(seq![Seq::<char>::empty()].drop_last() == Seq::<Seq<char>>::empty());
        reveal(Seq::filter);
        assert(name_segments(n) == Seq::<Seq<char>>::empty()) by {
            reveal_with_fuel(Seq::filter, 2);
        }
    }
}

} // verus!
