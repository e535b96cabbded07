//! Text as sequences of characters: trimming, splitting, joining and
//! rewriting, each with the sequence it yields.
use vstd::prelude::*;
use vstd::slice::slice_subrange;
use vstd::utf8::{decode_utf8, valid_utf8};

verus! {

/// `String::push`: appends the given character to the end of the string.
pub assume_specification[ String::push ](s: &mut String, c: char)
    ensures
        final(s)@ == old(s)@.push(c),
;

/// What `String::from_utf8_lossy` makes of bytes that are not valid UTF-8.
pub uninterp spec fn text_with_replacements(bytes: Seq<u8>) -> Seq<char>;

/// The text that the bytes encode or, where they are not valid UTF-8, the one
/// with replacement characters for what is not.
pub open spec fn lossy_text(bytes: Seq<u8>) -> Seq<char> {
    if valid_utf8(bytes) {
        decode_utf8(bytes)
    } else {
        text_with_replacements(bytes)
    }
}

/// `String::from_utf8_lossy`: the text that the bytes encode where they are
/// valid UTF-8, and a function of the bytes alone in any case. Where the
/// replacement characters stand is left to the name.
#[verifier::external_body]
pub(crate) fn text_lossy(bytes: &[u8]) -> (s: String)
    ensures
        valid_utf8(bytes@) ==> s@ == decode_utf8(bytes@),
        !valid_utf8(bytes@) ==> s@ == text_with_replacements(bytes@),
{
    String::from_utf8_lossy(bytes).into_owned()
}

/// `std::str::from_utf8`: the text that the bytes encode, or nothing where
/// they are not valid UTF-8.
#[verifier::external_body]
pub(crate) fn text_from_utf8(bytes: &[u8]) -> (s: Option<String>)
    ensures
        s is Some <==> valid_utf8(bytes@),
        s is Some ==> s->0@ == decode_utf8(bytes@),
{
    match std::str::from_utf8(bytes) {
        Ok(text) => Some(text.to_owned()),
        Err(_) => None,
    }
}

/// The characters that a trim takes off the ends of a text.
#[derive(Clone, Copy)]
pub enum CharClass {
    /// Unicode white space.
    WhiteSpace,
    /// One given character.
    One(char),
}

/// The characters with the Unicode property `White_Space`.
pub open spec fn is_white_space(c: char) -> bool {
    let n = c as u32;
    ||| 0x09 <= n <= 0x0d
    ||| n == 0x20
    ||| n == 0x85
    ||| n == 0xa0
    ||| n == 0x1680
    ||| 0x2000 <= n <= 0x200a
    ||| n == 0x2028
    ||| n == 0x2029
    ||| n == 0x202f
    ||| n == 0x205f
    ||| n == 0x3000
}

impl CharClass {
    /// Whether the class holds `c`.
    pub open spec fn has(self, c: char) -> bool {
        match self {
            CharClass::WhiteSpace => is_white_space(c),
            CharClass::One(one) => c == one,
        }
    }

    /// Whether the class holds `c`.
    pub fn contains(self, c: char) -> (r: bool)
        ensures
            r == self.has(c),
    {
        match self {
            CharClass::WhiteSpace => {
                let n: u32 = c as u32;
                (0x09 <= n && n <= 0x0d) || n == 0x20 || n == 0x85 || n == 0xa0 || n == 0x1680 || (
                0x2000 <= n && n <= 0x200a) || n == 0x2028 || n == 0x2029 || n == 0x202f || n
                    == 0x205f || n == 0x3000
            },
            CharClass::One(one) => c == one,
        }
    }
}

/// `s` without its longest prefix of characters of the class.
pub open spec fn trimmed_start(s: Seq<char>, class: CharClass) -> Seq<char>
    decreases s.len(),
{
    if s.len() > 0 && class.has(s[0]) {
        trimmed_start(s.drop_first(), class)
    } else {
        s
    }
}

/// `s` without its longest suffix of characters of the class.
pub open spec fn trimmed_end(s: Seq<char>, class: CharClass) -> Seq<char>
    decreases s.len(),
{
    if s.len() > 0 && class.has(s.last()) {
        trimmed_end(s.drop_last(), class)
    } else {
        s
    }
}

/// `s` with the characters of the class taken off both ends.
pub open spec fn trimmed(s: Seq<char>, class: CharClass) -> Seq<char> {
    trimmed_end(trimmed_start(s, class), class)
}

/// `s` with every `from` replaced by `to`.
pub open spec fn replaced(s: Seq<char>, from: char, to: char) -> Seq<char> {
    s.map_values(
        |c: char|
            if c == from {
                to
            } else {
                c
            },
    )
}

/// The parts of `s` between its separators. There is always at least one, and
/// a part may be empty.
pub open spec fn split_on<T>(s: Seq<T>, sep: T) -> Seq<Seq<T>>
    decreases s.len(),
{
    if s.len() == 0 {
        seq![Seq::<T>::empty()]
    } else {
        let before = split_on(s.drop_last(), sep);
        if s.last() == sep {
            before.push(Seq::<T>::empty())
        } else {
            before.drop_last().push(before.last().push(s.last()))
        }
    }
}

/// The parts with one separator between each two.
pub open spec fn joined<T>(parts: Seq<Seq<T>>, sep: T) -> Seq<T>
    decreases parts.len(),
{
    if parts.len() == 0 {
        Seq::<T>::empty()
    } else if parts.len() == 1 {
        parts[0]
    } else {
        joined(parts.drop_last(), sep).push(sep) + parts.last()
    }
}

/// The views of a list of character lists.
pub open spec fn char_lists(parts: Seq<Vec<char>>) -> Seq<Seq<char>> {
    parts.map_values(|part: Vec<char>| part@)
}

/// The views of a list of strings.
pub open spec fn texts(parts: Seq<String>) -> Seq<Seq<char>> {
    parts.map_values(|part: String| part@)
}

/// The view of a text that may be missing.
pub open spec fn text_view(text: Option<String>) -> Option<Seq<char>> {
    match text {
        Some(text) => Some(text@),
        None => None,
    }
}

/// A text that may be missing, once more.
pub fn clone_text(text: &Option<String>) -> (r: Option<String>)
    ensures
        text_view(r) == text_view(*text),
{
    match text {
        Some(text) => Some(text.clone()),
        None => None,
    }
}

/// `n` in decimal, without leading zeros.
pub open spec fn decimal(n: nat) -> Seq<char>
    decreases n,
{
    if n < 10 {
        seq![digit(n)]
    } else {
        decimal(n / 10).push(digit(n % 10))
    }
}

/// The decimal digit of value `d`.
pub open spec fn digit(d: nat) -> char {
    ((('0' as u32) + d) as u32) as char
}

/// The characters of a string, in order.
pub fn to_chars(s: &str) -> (chars: Vec<char>)
    ensures
        chars@ == s@,
{
    let mut chars: Vec<char> = Vec::new();
    for c in it: s.chars()
        invariant
            chars@ == it.seq().take(it.index()),
            it.seq() == s@,
    {
        chars.push(c);
    }
    chars
}

/// The string made of the given characters.
pub fn from_chars(chars: &[char]) -> (s: String)
    ensures
        s@ == chars@,
{
    let mut s: String = String::new();
    let mut i: usize = 0;
    while i < chars.len()
        invariant
            i <= chars.len(),
            s@ == chars@.take(i as int),
        decreases chars.len() - i,
    {
        s.push(chars[i]);
        i += 1;
    }
    assert(chars@.take(i as int) == chars@);
    s
}

/// Whether two character lists are equal.
pub fn same_chars(a: &[char], b: &[char]) -> (r: bool)
    ensures
        r == (a@ == b@),
{
    if a.len() != b.len() {
        return false;
    }
    let mut i: usize = 0;
    while i < a.len()
        invariant
            i <= a.len(),
            a.len() == b.len(),
            a@.take(i as int) == b@.take(i as int),
        decreases a.len() - i,
    {
        if a[i] != b[i] {
            assert(a@[i as int] != b@[i as int]);
            return false;
        }
        assert(a@.take(i + 1) == a@.take(i as int).push(a@[i as int]));
        assert(b@.take(i + 1) == b@.take(i as int).push(b@[i as int]));
        i += 1;
    }
    assert(a@.take(i as int) == a@);
    assert(b@.take(i as int) == b@);
    true
}

/// Whether two texts are equal.
pub fn same_text(a: &str, b: &str) -> (r: bool)
    ensures
        r == (a@ == b@),
{
    same_chars(to_chars(a).as_slice(), to_chars(b).as_slice())
}

/// Takes the characters of the class off both ends.
pub fn trim(chars: &[char], class: CharClass) -> (r: &[char])
    ensures
        r@ == trimmed(chars@, class),
{
    let mut from: usize = 0;
    assert(chars@.skip(0) == chars@);
    while from < chars.len() && class.contains(chars[from])
        invariant
            from <= chars.len(),
            trimmed_start(chars@, class) == trimmed_start(chars@.skip(from as int), class),
        decreases chars.len() - from,
    {
        assert(chars@.skip(from as int).drop_first() == chars@.skip(from + 1));
        from += 1;
    }
    let ghost start = chars@.skip(from as int);
    assert(start == trimmed_start(chars@, class));
    let mut to: usize = chars.len();
    assert(chars@.subrange(from as int, to as int) == start);
    while to > from && class.contains(chars[to - 1])
        invariant
            from <= to <= chars.len(),
            trimmed_end(start, class) == trimmed_end(
                chars@.subrange(from as int, to as int),
                class,
            ),
        decreases to - from,
    {
        assert(chars@.subrange(from as int, to as int).drop_last() == chars@.subrange(
            from as int,
            to - 1,
        ));
        to -= 1;
    }
    slice_subrange(chars, from, to)
}

/// Takes the characters of the class off the end.
pub fn trim_end(chars: &[char], class: CharClass) -> (r: &[char])
    ensures
        r@ == trimmed_end(chars@, class),
{
    let mut to: usize = chars.len();
    assert(chars@.take(to as int) == chars@);
    while to > 0 && class.contains(chars[to - 1])
        invariant
            to <= chars.len(),
            trimmed_end(chars@, class) == trimmed_end(chars@.take(to as int), class),
        decreases to,
    {
        assert(chars@.take(to as int).drop_last() == chars@.take(to - 1));
        to -= 1;
    }
    let r = slice_subrange(chars, 0, to);
    assert(r@ == chars@.take(to as int));
    r
}

/// Replaces every `from` by `to`.
pub fn replace(chars: &[char], from: char, to: char) -> (r: Vec<char>)
    ensures
        r@ == replaced(chars@, from, to),
{
    let mut r: Vec<char> = Vec::new();
    let mut i: usize = 0;
    while i < chars.len()
        invariant
            i <= chars.len(),
            r@ == replaced(chars@, from, to).take(i as int),
        decreases chars.len() - i,
    {
        let c = chars[i];
        if c == from {
            r.push(to);
        } else {
            r.push(c);
        }
        assert(replaced(chars@, from, to).take(i + 1) == replaced(chars@, from, to).take(
            i as int,
        ).push(replaced(chars@, from, to)[i as int]));
        i += 1;
    }
    assert(replaced(chars@, from, to).take(i as int) == replaced(chars@, from, to));
    r
}

/// Splits a text at each separator.
pub fn split(chars: &[char], sep: char) -> (parts: Vec<Vec<char>>)
    ensures
        char_lists(parts@) == split_on(chars@, sep),
        parts@.len() > 0,
{
    let mut parts: Vec<Vec<char>> = Vec::new();
    let mut current: Vec<char> = Vec::new();
    let mut i: usize = 0;
    assert(char_lists(parts@).push(current@) == split_on(chars@.take(0), sep));
    while i < chars.len()
        invariant
            i <= chars.len(),
            char_lists(parts@).push(current@) == split_on(chars@.take(i as int), sep),
        decreases chars.len() - i,
    {
        let c = chars[i];
        assert(chars@.take(i + 1).drop_last() == chars@.take(i as int));
        assert(char_lists(parts@).push(current@).drop_last() == char_lists(parts@));
        if c == sep {
            let ghost before = parts@;
            let ghost last = current;
            parts.push(current);
            current = Vec::new();
            assert(char_lists(parts@) == char_lists(before).push(last@));
        } else {
            current.push(c);
        }
        i += 1;
    }
    assert(chars@.take(i as int) == chars@);
    let ghost before = parts@;
    let ghost last = current;
    parts.push(current);
    assert(char_lists(parts@) == char_lists(before).push(last@));
    parts
}

/// Appends the characters of `tail` to `chars`.
pub fn append(chars: &mut Vec<char>, tail: &[char])
    ensures
        final(chars)@ == old(chars)@ + tail@,
{
    let ghost before = chars@;
    let mut i: usize = 0;
    while i < tail.len()
        invariant
            i <= tail.len(),
            chars@ == before + tail@.take(i as int),
        decreases tail.len() - i,
    {
        chars.push(tail[i]);
        assert(tail@.take(i + 1) == tail@.take(i as int).push(tail@[i as int]));
        i += 1;
    }
    assert(tail@.take(i as int) == tail@);
}

/// Joins the parts with one separator between each two.
pub fn join(parts: &Vec<Vec<char>>, sep: char) -> (r: Vec<char>)
    ensures
        r@ == joined(char_lists(parts@), sep),
{
    let mut r: Vec<char> = Vec::new();
    let mut i: usize = 0;
    while i < parts.len()
        invariant
            i <= parts.len(),
            r@ == joined(char_lists(parts@).take(i as int), sep),
        decreases parts.len() - i,
    {
        let ghost done = char_lists(parts@).take(i + 1);
        assert(done.drop_last() == char_lists(parts@).take(i as int));
        assert(done.last() == parts@[i as int]@);
        if i > 0 {
            r.push(sep);
        }
        append(&mut r, parts[i].as_slice());
        i += 1;
    }
    assert(char_lists(parts@).take(i as int) == char_lists(parts@));
    r
}

/// Writes a number in decimal.
pub fn to_decimal(n: u128) -> (r: Vec<char>)
    ensures
        r@ == decimal(n as nat),
    decreases n,
{
    let last: u32 = (n % 10) as u32;
    let c: char = decimal_digit(last);
    if n < 10 {
        let mut r: Vec<char> = Vec::new();
        r.push(c);
        r
    } else {
        let mut r = to_decimal(n / 10);
        r.push(c);
        r
    }
}

/// The character of a decimal digit.
fn decimal_digit(d: u32) -> (c: char)
    requires
        d < 10,
    ensures
        c == digit(d as nat),
{
    if d == 0 {
        '0'
    } else if d == 1 {
        '1'
    } else if d == 2 {
        '2'
    } else if d == 3 {
        '3'
    } else if d == 4 {
        '4'
    } else if d == 5 {
        '5'
    } else if d == 6 {
        '6'
    } else if d == 7 {
        '7'
    } else if d == 8 {
        '8'
    } else {
        '9'
    }
}

/// A split has at least one part, and no part holds a separator.
pub proof fn lemma_split_parts<T>(s: Seq<T>, sep: T)
    ensures
        split_on(s, sep).len() > 0,
        forall|i: int|
            0 <= i < split_on(s, sep).len() ==> !(#[trigger] split_on(s, sep)[i]).contains(sep),
    decreases s.len(),
{
    if s.len() > 0 {
        let before = split_on(s.drop_last(), sep);
        lemma_split_parts(s.drop_last(), sep);
        if s.last() != sep {
            assert(!before.last().push(s.last()).contains(sep)) by {
                if before.last().push(s.last()).contains(sep) {
                    let k = choose|k: int|
                        0 <= k < before.last().push(s.last()).len() && before.last().push(
                            s.last(),
                        )[k] == sep;
                    if k < before.last().len() {
                        assert(before.last()[k] == sep);
                    }
                    assert(before.last().contains(sep));
                }
            }
        }
    }
}

/// The parts of two texts with a separator between them are those of the one
/// and those of the other.
pub proof fn lemma_split_concat<T>(s: Seq<T>, sep: T, t: Seq<T>)
    ensures
        split_on(s.push(sep) + t, sep) == split_on(s, sep) + split_on(t, sep),
    decreases t.len(),
{
    let whole = s.push(sep) + t;
    if t.len() == 0 {
        assert(whole == s.push(sep));
        assert(whole.drop_last() == s);
        assert(split_on(s, sep).push(Seq::<T>::empty()) == split_on(s, sep)
            + seq![Seq::<T>::empty()]);
    } else {
        lemma_split_concat(s, sep, t.drop_last());
        lemma_split_parts(t.drop_last(), sep);
        assert(whole.drop_last() == s.push(sep) + t.drop_last());
        assert(whole.last() == t.last());
        let a = split_on(s, sep);
        let b = split_on(t.drop_last(), sep);
        assert((a + b).drop_last() == a + b.drop_last());
        assert((a + b).last() == b.last());
        if t.last() == sep {
            assert((a + b).push(Seq::<T>::empty()) == a + b.push(Seq::<T>::empty()));
        } else {
            assert((a + b.drop_last()).push(b.last().push(t.last())) == a + b.drop_last().push(
                b.last().push(t.last()),
            ));
        }
    }
}

/// A text without separator is its own only part.
pub proof fn lemma_split_none<T>(s: Seq<T>, sep: T)
    requires
        !s.contains(sep),
    ensures
        split_on(s, sep) == seq![s],
    decreases s.len(),
{
    if s.len() > 0 {
        assert(!s.drop_last().contains(sep)) by {
            if s.drop_last().contains(sep) {
                let k = choose|k: int| 0 <= k < s.drop_last().len() && s.drop_last()[k] == sep;
                assert(s[k] == sep);
            }
        }
        lemma_split_none(s.drop_last(), sep);
        assert(s.contains(s.last()));
        assert(s.drop_last().push(s.last()) == s);
        assert(split_on(s, sep) == seq![s]);
    } else {
        assert(s == Seq::<T>::empty());
    }
}

/// Splitting undoes joining, where no part holds a separator.
pub proof fn lemma_split_joined<T>(parts: Seq<Seq<T>>, sep: T)
    requires
        parts.len() > 0,
        forall|i: int| 0 <= i < parts.len() ==> !(#[trigger] parts[i]).contains(sep),
    ensures
        split_on(joined(parts, sep), sep) == parts,
    decreases parts.len(),
{
    if parts.len() == 1 {
        lemma_split_none(parts[0], sep);
        assert(seq![parts[0]] == parts);
    } else {
        assert forall|i: int| 0 <= i < parts.drop_last().len() implies !(
        #[trigger] parts.drop_last()[i]).contains(sep) by {
            assert(parts.drop_last()[i] == parts[i]);
        }
        lemma_split_joined(parts.drop_last(), sep);
        lemma_split_concat(joined(parts.drop_last(), sep), sep, parts.last());
        lemma_split_none(parts.last(), sep);
        assert(parts.drop_last() + seq![parts.last()] == parts);
    }
}

} // verus!
