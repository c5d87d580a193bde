//! Lowercasing, which the case-insensitive search leaves to the standard
//! library.

use vstd::prelude::*;

verus! {

/// The lowercase form of `text`, as `str::to_lowercase` computes it from
/// the Unicode tables that the standard library carries.  The mapping looks
/// at more than one character at a time: a capital sigma at the end of a word
/// is lowered to another letter than elsewhere.
pub uninterp spec fn lowercase_of(text: Seq<char>) -> Seq<char>;

/// `str::to_lowercase` returns a new `String` that holds the lowercase form
/// of `text`.  The result is a function of the characters of `text` alone,
/// and a text without characters has a lowercase form without characters.
pub assume_specification[ str::to_lowercase ](text: &str) -> (lowered: String)
    ensures
        lowered@ == lowercase_of(text@),
        text@.len() == 0 ==> lowered@.len() == 0,
;

} // verus!
