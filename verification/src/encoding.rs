//! Facts that carry statements about the bytes of a UTF-8 string over to
//! its characters, and back.

use vstd::prelude::*;
use vstd::utf8::*;

verus! {

/// Encoding goes through concatenation.
pub proof fn lemma_encode_concat(a: Seq<char>, b: Seq<char>)
    ensures
        encode_utf8(a + b) == encode_utf8(a) + encode_utf8(b),
    decreases a.len(),
{
    if a.len() > 0 {
        lemma_encode_concat(a.drop_first(), b);
        assert((a + b).drop_first() =~= a.drop_first() + b);
    }
}

/// Two texts with the same encoding are the same text.
pub proof fn lemma_encode_injective(a: Seq<char>, b: Seq<char>)
    requires
        encode_utf8(a) == encode_utf8(b),
    ensures
        a == b,
{
    encode_utf8_decode_utf8(a);
    encode_utf8_decode_utf8(b);
}

/// Every character takes at least one byte, so a text is no longer than its
/// encoding, and only the empty text has an empty encoding.
pub proof fn lemma_encode_len(chars: Seq<char>)
    ensures
        chars.len() <= encode_utf8(chars).len(),
    decreases chars.len(),
{
    if chars.len() > 0 {
        lemma_encode_len(chars.drop_first());
    }
}

/// A valid encoding that is not empty starts with the first byte of a
/// character, never with a continuation byte.
pub proof fn lemma_starts_with_leading_byte(bytes: Seq<u8>)
    requires
        valid_utf8(bytes),
        bytes.len() > 0,
    ensures
        !is_continuation_byte(bytes[0]),
{
}

/// Where a prefix of a valid encoding is itself a valid encoding, it ends
/// between two characters of the whole.
pub proof fn lemma_valid_prefix_ends_at_boundary(bytes: Seq<u8>, end: int)
    requires
        valid_utf8(bytes),
        0 <= end <= bytes.len(),
        valid_utf8(bytes.subrange(0, end)),
    ensures
        is_char_boundary(bytes, end),
    decreases end,
{
    if end > 0 {
        let prefix = bytes.subrange(0, end);
        let width = length_of_first_scalar(bytes);
        let rest = pop_first_scalar(bytes);
        assert(pop_first_scalar(prefix) =~= rest.subrange(0, end - width));
        lemma_valid_prefix_ends_at_boundary(rest, end - width);
    }
}

/// An ASCII character is encoded as the one byte of the same value.
pub proof fn lemma_encode_ascii(c: char)
    requires
        (c as u32) < 0x80,
    ensures
        encode_utf8(seq![c]) == seq![c as u8],
{
    let v = c as u32;
    assert(v as u8 == leading_byte_width_1(v)) by (bit_vector)
        requires
            v < 0x80,
    ;
    assert(encode_utf8(seq![c]) =~= seq![c as u8]) by {
        reveal_with_fuel(encode_utf8, 2);
    }
}

/// An ASCII character of a text stands in the encoding as one byte of the
/// same value, between the encodings of what comes before and after it.
pub proof fn lemma_encode_around_ascii(chars: Seq<char>, at: int)
    requires
        0 <= at < chars.len(),
        (chars[at] as u32) < 0x80,
    ensures
        encode_utf8(chars) == encode_utf8(chars.subrange(0, at)) + seq![chars[at] as u8]
            + encode_utf8(chars.subrange(at + 1, chars.len() as int)),
{
    let before = chars.subrange(0, at);
    let after = chars.subrange(at + 1, chars.len() as int);
    assert(chars =~= before + seq![chars[at]] + after);
    lemma_encode_concat(before + seq![chars[at]], after);
    lemma_encode_concat(before, seq![chars[at]]);
    lemma_encode_ascii(chars[at]);
}

/// Where an encoding starts with an ASCII byte, the text starts with the
/// character of the same value, and the rest of the bytes encode the rest of
/// the text.
pub proof fn lemma_decode_leading_ascii(chars: Seq<char>)
    requires
        encode_utf8(chars).len() > 0,
        encode_utf8(chars)[0] < 0x80,
    ensures
        chars.len() > 0,
        chars[0] == encode_utf8(chars)[0] as char,
        encode_utf8(chars.drop_first()) == encode_utf8(chars).drop_first(),
{
    let bytes = encode_utf8(chars);
    let first = bytes[0];
    encode_utf8_first_scalar(chars);
    assert(codepoint_width_1(first) == first as u32) by (bit_vector)
        requires
            first < 0x80,
    ;
    char_u32_cast(chars[0], first as u32);
}

} // verus!
