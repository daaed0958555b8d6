//! Facts about ASCII bytes inside UTF-8 text, and the two cuts that the
//! escaping loop makes at such a byte.
//!
//! A byte below `0x80` never occurs inside the encoding of a longer character,
//! so text can be searched byte by byte for ASCII characters and cut where one
//! is found.
use vstd::prelude::*;
use vstd::string::*;
use vstd::utf8::*;

verus! {

/// Whether `c` is an ASCII character.
pub open spec fn is_ascii_char(c: char) -> bool {
    (c as u32) < 0x80
}

/// An ASCII byte begins a character.
pub(crate) proof fn lemma_ascii_byte_begins_char(bytes: Seq<u8>, index: int)
    requires
        valid_utf8(bytes),
        0 <= index < bytes.len(),
        bytes[index] < 0x80,
    ensures
        is_char_boundary(bytes, index),
{
    is_char_boundary_iff_not_is_continuation_byte(bytes, index);
}

/// Text cut at a character boundary is the two pieces put together.
pub(crate) proof fn lemma_cut_at_boundary(
    whole: Seq<char>,
    head: Seq<char>,
    tail: Seq<char>,
    index: int,
)
    requires
        is_char_boundary(encode_utf8(whole), index),
        encode_utf8(head) == encode_utf8(whole).subrange(0, index),
        encode_utf8(tail) == encode_utf8(whole).subrange(index, encode_utf8(whole).len() as int),
    ensures
        whole == head + tail,
{
    let bytes = encode_utf8(whole);
    encode_utf8_valid_utf8(whole);
    decode_utf8_split(bytes, index);
    encode_utf8_decode_utf8(whole);
    encode_utf8_decode_utf8(head);
    encode_utf8_decode_utf8(tail);
}

/// Where the encoding starts with an ASCII byte, that byte is the first
/// character, and the rest of the encoding is the encoding of the rest.
pub(crate) proof fn lemma_leading_ascii_byte(chars: Seq<char>)
    requires
        encode_utf8(chars).len() > 0,
        encode_utf8(chars)[0] < 0x80,
    ensures
        chars.len() > 0,
        chars[0] == encode_utf8(chars)[0] as char,
        encode_utf8(chars.drop_first()) == encode_utf8(chars).subrange(
            1,
            encode_utf8(chars).len() as int,
        ),
{
    let bytes = encode_utf8(chars);
    let first = bytes[0];
    encode_utf8_first_scalar(chars);
    assert(first & 0x7f == first) by (bit_vector)
        requires
            first < 0x80,
    ;
    char_u32_cast(chars[0], first as u32);
}

/// An ASCII character of the text is one of the bytes of its encoding.
pub(crate) proof fn lemma_ascii_char_among_bytes(chars: Seq<char>, at: int) -> (index: int)
    requires
        0 <= at < chars.len(),
        is_ascii_char(chars[at]),
    ensures
        0 <= index < encode_utf8(chars).len(),
        encode_utf8(chars)[index] as char == chars[at],
    decreases chars.len(),
{
    let first = chars[0] as u32;
    char_is_scalar(chars[0]);
    if at == 0 {
        assert(((first & 0x7F) as u8) as u32 == first) by (bit_vector)
            requires
                first < 0x80,
        ;
        char_u32_cast(chars[0], first);
        0
    } else {
        let inner = lemma_ascii_char_among_bytes(chars.drop_first(), at - 1);
        encode_scalar(first).len() + inner
    }
}

/// Cuts `text` in front of the ASCII byte at `index`.
pub(crate) fn split_before_ascii(text: &str, index: usize) -> (res: (&str, &str))
    requires
        index < text.spec_bytes().len(),
        text.spec_bytes()[index as int] < 0x80,
    ensures
        text@ == res.0@ + res.1@,
        res.0.spec_bytes() == text.spec_bytes().subrange(0, index as int),
        res.1@.len() > 0,
        res.1@[0] == text.spec_bytes()[index as int] as char,
        res.1.spec_bytes().len() > 0,
        res.1.spec_bytes()[0] == text.spec_bytes()[index as int],
{
    proof {
        encode_utf8_valid_utf8(text@);
        lemma_ascii_byte_begins_char(text.spec_bytes(), index as int);
    }
    let (head, tail) = text.split_at(index);
    proof {
        lemma_cut_at_boundary(text@, head@, tail@, index as int);
        lemma_leading_ascii_byte(tail@);
    }
    (head, tail)
}

/// Drops the ASCII character that `text` begins with.
pub(crate) fn skip_ascii(text: &str) -> (res: &str)
    requires
        text.spec_bytes().len() > 0,
        text.spec_bytes()[0] < 0x80,
    ensures
        text@.len() > 0,
        res@ == text@.drop_first(),
{
    proof {
        encode_utf8_valid_utf8(text@);
        reveal_with_fuel(is_char_boundary, 2);
    }
    let (first, rest) = text.split_at(1);
    proof {
        lemma_cut_at_boundary(text@, first@, rest@, 1);
        lemma_leading_ascii_byte(text@);
        encode_utf8_decode_utf8(rest@);
        encode_utf8_decode_utf8(text@.drop_first());
    }
    rest
}

} // verus!
