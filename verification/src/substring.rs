//! Substring containment, as a specification over sequences and as an
//! executable test on string slices.

use vstd::prelude::*;
use vstd::utf8::*;
use vstd::string::*;
use crate::encoding::{
    lemma_encode_concat, lemma_encode_injective, lemma_encode_len,
    lemma_starts_with_leading_byte, lemma_valid_prefix_ends_at_boundary,
};

verus! {

/// `needle` is found in `haystack`, element for element, starting at offset `at`.
pub open spec fn occurs_at<A>(haystack: Seq<A>, needle: Seq<A>, at: int) -> bool {
    &&& 0 <= at
    &&& at + needle.len() <= haystack.len()
    &&& haystack.subrange(at, at + needle.len()) == needle
}

/// `needle` is a contiguous run of `haystack`.  The empty sequence occurs in
/// every sequence, the empty one included.
pub open spec fn occurs_in<A>(needle: Seq<A>, haystack: Seq<A>) -> bool {
    exists|at: int| occurs_at(haystack, needle, at)
}

/// The empty sequence occurs in every sequence.
pub proof fn lemma_empty_occurs<A>(haystack: Seq<A>)
    ensures
        occurs_in(Seq::<A>::empty(), haystack),
{
    assert(haystack.subrange(0, 0) =~= Seq::<A>::empty());
    assert(occurs_at(haystack, Seq::<A>::empty(), 0));
}

/// An occurrence among the characters is an occurrence among the encoded bytes.
proof fn lemma_chars_occur_then_bytes(needle: Seq<char>, haystack: Seq<char>, at: int)
    requires
        occurs_at(haystack, needle, at),
    ensures
        occurs_in(encode_utf8(needle), encode_utf8(haystack)),
{
    let before = haystack.subrange(0, at);
    let after = haystack.subrange(at + needle.len(), haystack.len() as int);
    assert(haystack =~= before + needle + after);
    lemma_encode_concat(before + needle, after);
    lemma_encode_concat(before, needle);
    let h = encode_utf8(haystack);
    let n = encode_utf8(needle);
    let k = encode_utf8(before).len() as int;
    assert(h.subrange(k, k + n.len()) =~= n);
    assert(occurs_at(h, n, k));
}

/// An occurrence among the encoded bytes starts and ends between characters,
/// so it is an occurrence among the characters.
proof fn lemma_bytes_occur_then_chars(needle: Seq<char>, haystack: Seq<char>, at: int)
    requires
        occurs_at(encode_utf8(haystack), encode_utf8(needle), at),
    ensures
        occurs_in(needle, haystack),
{
    let h = encode_utf8(haystack);
    let n = encode_utf8(needle);
    if n.len() == 0 {
        lemma_encode_len(needle);
        assert(needle =~= Seq::<char>::empty());
        lemma_empty_occurs(haystack);
    } else {
        encode_utf8_valid_utf8(haystack);
        encode_utf8_valid_utf8(needle);
        lemma_starts_with_leading_byte(n);
        is_char_boundary_iff_not_is_continuation_byte(h, at);
        valid_utf8_split(h, at);
        let head = h.subrange(0, at);
        let tail = h.subrange(at, h.len() as int);
        assert(tail.subrange(0, n.len() as int) =~= n);
        lemma_valid_prefix_ends_at_boundary(tail, n.len() as int);
        valid_utf8_split(tail, n.len() as int);
        let rest = tail.subrange(n.len() as int, tail.len() as int);
        let before = decode_utf8(head);
        let after = decode_utf8(rest);
        decode_utf8_encode_utf8(head);
        decode_utf8_encode_utf8(rest);
        lemma_encode_concat(before, needle);
        lemma_encode_concat(before + needle, after);
        assert(encode_utf8(before + needle + after) =~= h);
        lemma_encode_injective(before + needle + after, haystack);
        let k = before.len() as int;
        assert(haystack.subrange(k, k + needle.len()) =~= needle);
        assert(occurs_at(haystack, needle, k));
    }
}

/// A text contains another exactly when its encoding contains the other's
/// encoding: a match among the bytes can neither start nor end inside a
/// character.
pub proof fn lemma_occurs_in_encoding(needle: Seq<char>, haystack: Seq<char>)
    ensures
        occurs_in(encode_utf8(needle), encode_utf8(haystack)) <==> occurs_in(needle, haystack),
{
    if occurs_in(needle, haystack) {
        let at = choose|at: int| occurs_at(haystack, needle, at);
        lemma_chars_occur_then_bytes(needle, haystack, at);
    }
    if occurs_in(encode_utf8(needle), encode_utf8(haystack)) {
        let at = choose|at: int| occurs_at(encode_utf8(haystack), encode_utf8(needle), at);
        lemma_bytes_occur_then_chars(needle, haystack, at);
    }
}

/// Whether `needle` lies in `haystack` at offset `at`.
fn matches_at(haystack: &[u8], needle: &[u8], at: usize) -> (hit: bool)
    requires
        at + needle.len() <= haystack.len(),
    ensures
        hit == occurs_at(haystack@, needle@, at as int),
{
    let mut i: usize = 0;
    while i < needle.len()
        invariant
            i <= needle.len(),
            at + needle.len() <= haystack.len(),
            forall|j: int| 0 <= j < i ==> haystack@[at + j] == needle@[j],
        decreases needle.len() - i,
    {
        if haystack[at + i] != needle[i] {
            return false;
        }
        i += 1;
    }
    assert(haystack@.subrange(at as int, at + needle.len()) =~= needle@);
    true
}

/// Whether `needle` is a contiguous run of `haystack`.
fn occurs_in_bytes(needle: &[u8], haystack: &[u8]) -> (found: bool)
    ensures
        found == occurs_in(needle@, haystack@),
{
    if needle.len() > haystack.len() {
        return false;
    }
    let last: usize = haystack.len() - needle.len();
    let mut at: usize = 0;
    while at < last
        invariant
            at <= last,
            last + needle.len() == haystack.len(),
            forall|k: int| 0 <= k < at ==> !occurs_at(haystack@, needle@, k),
        decreases last - at,
    {
        if matches_at(haystack, needle, at) {
            return true;
        }
        at += 1;
    }
    matches_at(haystack, needle, last)
}

/// Whether `needle` occurs in `haystack`, character for character.
///
/// The empty string occurs in every string.
pub fn contains(haystack: &str, needle: &str) -> (found: bool)
    ensures
        found == occurs_in(needle@, haystack@),
{
    proof {
        lemma_occurs_in_encoding(needle@, haystack@);
    }
    occurs_in_bytes(needle.as_bytes(), haystack.as_bytes())
}

} // verus!
