//! How names keep their shape when they are encoded in UTF-8.
use vstd::prelude::*;
use vstd::utf8::{
    char_u32_cast, encode_scalar, encode_utf8, encode_utf8_decode_utf8,
    is_char_boundary_iff_not_is_continuation_byte, pop_first_scalar, valid_utf8, valid_utf8_split,
};

use crate::path::{is_name, DOT, SLASH};

verus! {

/// The bytes of a scalar value: one below 128 for itself, or only larger ones.
proof fn lemma_scalar_bytes(v: u32)
    ensures
        encode_scalar(v).len() > 0,
        v < 0x80 ==> encode_scalar(v) == seq![v as u8],
        v >= 0x80 ==> forall|i: int|
            0 <= i < encode_scalar(v).len() ==> #[trigger] encode_scalar(v)[i] >= 0x80u8,
{
    if v < 0x80 {
        assert((v & 0x7F) as u8 == v as u8) by (bit_vector)
            requires
                v < 0x80,
        ;
    } else {
        let a = ((v >> 6) & 0x1F) as u8;
        let b = ((v >> 12) & 0x0F) as u8;
        let c = ((v >> 18) & 0x7) as u8;
        let d = (v & 0x3F) as u8;
        let e = ((v >> 6) & 0x3F) as u8;
        let f = ((v >> 12) & 0x3F) as u8;
        assert(0xC0u8 | a >= 0x80u8) by (bit_vector);
        assert(0xE0u8 | b >= 0x80u8) by (bit_vector);
        assert(0xF0u8 | c >= 0x80u8) by (bit_vector);
        assert(0x80u8 | d >= 0x80u8) by (bit_vector);
        assert(0x80u8 | e >= 0x80u8) by (bit_vector);
        assert(0x80u8 | f >= 0x80u8) by (bit_vector);
    }
}

/// An ASCII character occurs in a text as its byte occurs in the encoding.
pub proof fn lemma_encode_contains(s: Seq<char>, c: char)
    requires
        (c as u32) < 0x80,
    ensures
        encode_utf8(s).contains((c as u32) as u8) <==> s.contains(c),
    decreases s.len(),
{
    let byte = (c as u32) as u8;
    if s.len() > 0 {
        let rest = s.drop_first();
        let v = s[0] as u32;
        let head = encode_scalar(v);
        let tail = encode_utf8(rest);
        lemma_encode_contains(rest, c);
        lemma_scalar_bytes(v);
        assert(encode_utf8(s) == head + tail);
        assert(head.contains(byte) <==> s[0] == c) by {
            if head.contains(byte) {
                let k = choose|k: int| 0 <= k < head.len() && head[k] == byte;
                assert(byte < 0x80);
                assert(v < 0x80);
                assert(head[0] == v as u8);
                assert(v == c as u32);
                char_u32_cast(s[0], v);
                char_u32_cast(c, v);
            }
            if s[0] == c {
                assert(head[0] == byte);
            }
        }
        if encode_utf8(s).contains(byte) {
            let k = choose|k: int| 0 <= k < encode_utf8(s).len() && encode_utf8(s)[k] == byte;
            if k < head.len() {
                assert(head[k] == byte);
                assert(s[0] == c);
            } else {
                assert(tail[k - head.len()] == byte);
                let j = choose|j: int| 0 <= j < rest.len() && rest[j] == c;
                assert(s[j + 1] == c);
            }
        }
        if s.contains(c) {
            let j = choose|j: int| 0 <= j < s.len() && s[j] == c;
            if j == 0 {
                let k = choose|k: int| 0 <= k < head.len() && head[k] == byte;
                assert(encode_utf8(s)[k] == byte);
            } else {
                assert(rest[j - 1] == c);
                let k = choose|k: int| 0 <= k < tail.len() && tail[k] == byte;
                assert(encode_utf8(s)[k + head.len()] == byte);
            }
        }
    }
}

/// The encoding of two texts after each other.
pub proof fn lemma_encode_concat(a: Seq<char>, b: Seq<char>)
    ensures
        encode_utf8(a + b) == encode_utf8(a) + encode_utf8(b),
    decreases a.len(),
{
    if a.len() == 0 {
        assert(a + b == b);
    } else {
        lemma_encode_concat(a.drop_first(), b);
        assert((a + b).drop_first() == a.drop_first() + b);
        assert(encode_utf8(a + b) == encode_scalar(a[0] as u32) + (encode_utf8(a.drop_first())
            + encode_utf8(b)));
    }
}

/// What stands before and after an ASCII byte in valid UTF-8 is valid UTF-8.
pub proof fn lemma_valid_around_ascii(bytes: Seq<u8>, i: int)
    requires
        valid_utf8(bytes),
        0 <= i < bytes.len(),
        bytes[i] < 0x80,
    ensures
        valid_utf8(bytes.take(i)),
        valid_utf8(bytes.skip(i + 1)),
{
    is_char_boundary_iff_not_is_continuation_byte(bytes, i);
    valid_utf8_split(bytes, i);
    let tail = bytes.subrange(i, bytes.len() as int);
    assert(tail[0] == bytes[i]);
    assert(pop_first_scalar(tail) == bytes.skip(i + 1));
    assert(bytes.subrange(0, i) == bytes.take(i));
}

/// The encoding of a text that is not empty is not empty.
pub proof fn lemma_encode_nonempty(s: Seq<char>)
    requires
        s.len() > 0,
    ensures
        encode_utf8(s).len() > 0,
{
    lemma_scalar_bytes(s[0] as u32);
}

/// Texts with the same encoding are the same.
pub proof fn lemma_encode_injective(a: Seq<char>, b: Seq<char>)
    requires
        encode_utf8(a) == encode_utf8(b),
    ensures
        a == b,
{
    encode_utf8_decode_utf8(a);
    encode_utf8_decode_utf8(b);
}

/// The encodings of `.` and `..`.
pub proof fn lemma_encode_dots()
    ensures
        encode_utf8(seq!['.']) == seq![DOT],
        encode_utf8(seq!['.', '.']) == seq![DOT, DOT],
{
    let one = seq!['.'];
    let two = seq!['.', '.'];
    lemma_scalar_bytes('.' as u32);
    assert(one.drop_first() == Seq::<char>::empty());
    assert(two.drop_first() == one);
    reveal_with_fuel(encode_utf8, 2);
    assert(encode_utf8(one) == seq![DOT]);
    assert(encode_utf8(two) == seq![DOT] + encode_utf8(one));
}

/// The encoding of a slash.
pub proof fn lemma_encode_slash()
    ensures
        encode_utf8(seq!['/']) == seq![SLASH],
{
    let one = seq!['/'];
    lemma_scalar_bytes('/' as u32);
    assert(one.drop_first() == Seq::<char>::empty());
    reveal_with_fuel(encode_utf8, 2);
}

/// A text can stand as a name between slashes exactly if its encoding can.
pub proof fn lemma_encode_is_name(s: Seq<char>)
    ensures
        is_name(encode_utf8(s)) <==> s.len() > 0 && !s.contains('/') && s != seq!['.'] && s != seq![
            '.',
            '.',
        ],
{
    lemma_encode_contains(s, '/');
    lemma_encode_dots();
    if s.len() > 0 {
        lemma_encode_nonempty(s);
    }
    if encode_utf8(s) == seq![DOT] {
        lemma_encode_injective(s, seq!['.']);
    }
    if encode_utf8(s) == seq![DOT, DOT] {
        lemma_encode_injective(s, seq!['.', '.']);
    }
}

} // verus!
