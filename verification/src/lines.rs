//! Lines of a text.
//!
//! A line ends at a line feed, or at the end of the text.  The line feed is
//! not part of the line, and neither is a carriage return that stands right
//! before it.  A text that ends in a line feed has no empty line after it.

use vstd::prelude::*;
use vstd::utf8::*;
use vstd::string::*;
use crate::encoding::{
    lemma_decode_leading_ascii, lemma_encode_around_ascii, lemma_encode_concat,
    lemma_encode_injective, lemma_encode_len,
};
use crate::substring::{occurs_at, occurs_in};

verus! {

/// Offset of the first line feed of `text`, or its length where it has none.
pub open spec fn line_end(text: Seq<char>) -> int
    decreases text.len(),
{
    if text.len() == 0 || text[0] == '\n' {
        0
    } else {
        1 + line_end(text.drop_first())
    }
}

/// `line_end` lies within the text, no line feed stands before it, and a
/// line feed stands at it unless it is the end of the text.
pub proof fn lemma_line_end_bounds(text: Seq<char>)
    ensures
        0 <= line_end(text) <= text.len(),
        forall|i: int| 0 <= i < line_end(text) ==> text[i] != '\n',
        line_end(text) < text.len() ==> text[line_end(text)] == '\n',
    decreases text.len(),
{
    if text.len() > 0 && text[0] != '\n' {
        let rest = text.drop_first();
        lemma_line_end_bounds(rest);
        assert forall|i: int| 0 <= i < line_end(text) implies text[i] != '\n' by {
            if i > 0 {
                assert(text[i] == rest[i - 1]);
            }
        }
    }
}

/// `line` without the carriage return at its end, if it has one.
pub open spec fn without_carriage_return(line: Seq<char>) -> Seq<char> {
    if line.len() > 0 && line.last() == '\r' {
        line.drop_last()
    } else {
        line
    }
}

/// The lines of `text`, in order.
///
/// No line holds a line feed.  A last line that no line feed ends is kept as
/// it stands, a carriage return at its end included.
pub open spec fn split_lines(text: Seq<char>) -> Seq<Seq<char>>
    decreases text.len(),
    via split_lines_decreases
{
    let end = line_end(text);
    if text.len() == 0 {
        Seq::empty()
    } else if end >= text.len() {
        seq![text]
    } else {
        seq![without_carriage_return(text.subrange(0, end))] + split_lines(
            text.subrange(end + 1, text.len() as int),
        )
    }
}

#[via_fn]
proof fn split_lines_decreases(text: Seq<char>) {
    lemma_line_end_bounds(text);
}

/// `line_end` is the one offset with no line feed before it and a line feed,
/// or the end of the text, at it.
pub proof fn lemma_line_end(text: Seq<char>, end: int)
    requires
        0 <= end <= text.len(),
        forall|i: int| 0 <= i < end ==> text[i] != '\n',
        end < text.len() ==> text[end] == '\n',
    ensures
        line_end(text) == end,
    decreases text.len(),
{
    if end > 0 {
        lemma_line_end(text.drop_first(), end - 1);
    }
}

/// A text without a line feed is one line, unless it is empty.
pub proof fn lemma_single_line(text: Seq<char>)
    requires
        text.len() > 0,
        forall|i: int| 0 <= i < text.len() ==> text[i] != '\n',
    ensures
        split_lines(text) == seq![text],
{
    lemma_line_end(text, text.len() as int);
}

/// The lines of `head`, a line feed and `tail`, where `head` holds no line
/// feed: `head` without its carriage return, then the lines of `tail`.
pub proof fn lemma_split_at_line_feed(head: Seq<char>, tail: Seq<char>)
    requires
        forall|i: int| 0 <= i < head.len() ==> head[i] != '\n',
    ensures
        split_lines(head + seq!['\n'] + tail) == seq![without_carriage_return(head)] + split_lines(
            tail,
        ),
{
    let text = head + seq!['\n'] + tail;
    let end = head.len() as int;
    lemma_line_end(text, end);
    assert(text.subrange(0, end) =~= head);
    assert(text.subrange(end + 1, text.len() as int) =~= tail);
}

/// No line holds a line feed.
pub proof fn lemma_lines_hold_no_line_feed(text: Seq<char>)
    ensures
        forall|i: int, j: int|
            0 <= i < split_lines(text).len() && 0 <= j < split_lines(text)[i].len() ==> (
            #[trigger] split_lines(text)[i][j]) != '\n',
    decreases text.len(),
{
    let end = line_end(text);
    lemma_line_end_bounds(text);
    if text.len() > 0 && end < text.len() {
        let rest = text.subrange(end + 1, text.len() as int);
        lemma_lines_hold_no_line_feed(rest);
        let first = without_carriage_return(text.subrange(0, end));
        assert forall|i: int, j: int|
            0 <= i < split_lines(text).len() && 0 <= j < split_lines(text)[i].len() implies (
        #[trigger] split_lines(text)[i][j]) != '\n' by {
            if i == 0 {
            } else {
                assert(split_lines(text)[i] == split_lines(rest)[i - 1]);
            }
        }
    }
}

/// Every line is a run of characters of the text.
pub proof fn lemma_lines_occur_in_text(text: Seq<char>)
    ensures
        forall|i: int|
            0 <= i < split_lines(text).len() ==> occurs_in(#[trigger] split_lines(text)[i], text),
    decreases text.len(),
{
    let end = line_end(text);
    lemma_line_end_bounds(text);
    if text.len() == 0 {
    } else if end >= text.len() {
        assert(text.subrange(0, text.len() as int) =~= text);
        assert(occurs_at(text, text, 0));
    } else {
        let rest = text.subrange(end + 1, text.len() as int);
        lemma_lines_occur_in_text(rest);
        let first = without_carriage_return(text.subrange(0, end));
        assert forall|i: int| 0 <= i < split_lines(text).len() implies occurs_in(
            #[trigger] split_lines(text)[i],
            text,
        ) by {
            if i == 0 {
                assert(text.subrange(0, first.len() as int) =~= first);
                assert(occurs_at(text, first, 0));
            } else {
                let line = split_lines(rest)[i - 1];
                let at = choose|at: int| occurs_at(rest, line, at);
                assert(text.subrange(end + 1 + at, end + 1 + at + line.len()) =~= rest.subrange(
                    at,
                    at + line.len(),
                ));
                assert(occurs_at(text, line, end + 1 + at));
            }
        }
    }
}

/// The two parts of `text` before and from the byte offset `at`, which must
/// lie between two characters.
fn split_between<'a>(text: &'a str, at: usize) -> (parts: (&'a str, &'a str))
    requires
        is_char_boundary(text.spec_bytes(), at as int),
    ensures
        text@ == parts.0@ + parts.1@,
        parts.0.spec_bytes() == text.spec_bytes().subrange(0, at as int),
        parts.1.spec_bytes() == text.spec_bytes().subrange(
            at as int,
            text.spec_bytes().len() as int,
        ),
{
    let parts = text.split_at(at);
    proof {
        encode_utf8_valid_utf8(text@);
        lemma_encode_concat(parts.0@, parts.1@);
        assert(encode_utf8(parts.0@ + parts.1@) =~= encode_utf8(text@));
        lemma_encode_injective(parts.0@ + parts.1@, text@);
    }
    parts
}

/// `line` without the carriage return at its end, if it has one.
fn strip_carriage_return<'a>(line: &'a str) -> (stripped: &'a str)
    ensures
        stripped@ == without_carriage_return(line@),
{
    let bytes = line.as_bytes();
    let n: usize = bytes.len();
    if n > 0 && bytes[n - 1] == 0x0d {
        proof {
            encode_utf8_valid_utf8(line@);
            is_char_boundary_iff_not_is_continuation_byte(bytes@, n - 1);
        }
        let parts = split_between(line, n - 1);
        proof {
            // The second part is the carriage return and nothing else.
            lemma_decode_leading_ascii(parts.1@);
            lemma_encode_len(parts.1@.drop_first());
        }
        parts.0
    } else {
        proof {
            if line@.len() > 0 && line@.last() == '\r' {
                // Then the last byte would be a carriage return.
                lemma_encode_around_ascii(line@, line@.len() - 1);
            }
        }
        line
    }
}

/// The first line of `text` and what follows its line feed.
fn cut_line<'a>(text: &'a str) -> (parts: (&'a str, &'a str))
    requires
        text@.len() > 0,
    ensures
        split_lines(text@) == seq![parts.0@] + split_lines(parts.1@),
        parts.1@.len() < text@.len(),
{
    let bytes = text.as_bytes();
    let n: usize = bytes.len();
    let mut at: usize = 0;
    while at < n && bytes[at] != 0x0a
        invariant
            at <= n,
            n == bytes.len(),
            forall|i: int| 0 <= i < at ==> bytes@[i] != 0x0a,
        decreases n - at,
    {
        at += 1;
    }
    proof {
        encode_utf8_valid_utf8(text@);
        if at < n {
            is_char_boundary_iff_not_is_continuation_byte(bytes@, at as int);
        } else {
            is_char_boundary_start_end_of_seq(bytes@);
        }
    }
    let (head, tail) = split_between(text, at);
    proof {
        assert forall|i: int| 0 <= i < head@.len() implies head@[i] != '\n' by {
            if head@[i] == '\n' {
                lemma_encode_around_ascii(head@, i);
                let k = encode_utf8(head@.subrange(0, i)).len() as int;
                assert(encode_utf8(head@)[k] == 0x0a);
                assert(head.spec_bytes().len() == at);
            }
        }
    }
    if at == n {
        proof {
            lemma_encode_len(tail@);
            lemma_single_line(text@);
        }
        (head, tail)
    } else {
        proof {
            encode_utf8_valid_utf8(tail@);
            reveal_with_fuel(is_char_boundary, 2);
        }
        let (_, rest) = split_between(tail, 1);
        proof {
            lemma_decode_leading_ascii(tail@);
            lemma_encode_injective(rest@, tail@.drop_first());
            assert(text@ =~= head@ + seq!['\n'] + rest@);
            lemma_split_at_line_feed(head@, rest@);
        }
        (strip_carriage_return(head), rest)
    }
}

/// The lines of `contents`, in order, each a slice of `contents`.
pub fn lines<'a>(contents: &'a str) -> (out: Vec<&'a str>)
    ensures
        out.deep_view() == split_lines(contents@),
{
    let mut out: Vec<&'a str> = Vec::new();
    let mut rest = contents;
    while !rest.is_empty()
        invariant
            split_lines(contents@) == out.deep_view() + split_lines(rest@),
        decreases rest@.len(),
    {
        let (line, tail) = cut_line(rest);
        out.push(line);
        rest = tail;
    }
    out
}

/// Each line that `lines` returns is a run of characters of `contents`, and
/// none holds a line feed.
pub proof fn theorem_lines_are_runs_of_the_text<'a>(contents: &'a str, out: Vec<&'a str>)
    requires
        call_ensures(lines, (contents,), out),
    ensures
        forall|i: int| 0 <= i < out@.len() ==> occurs_in(#[trigger] out@[i]@, contents@),
        forall|i: int, j: int|
            0 <= i < out@.len() && 0 <= j < out@[i]@.len() ==> (#[trigger] out@[i]@[j]) != '\n',
{
    lemma_lines_occur_in_text(contents@);
    lemma_lines_hold_no_line_feed(contents@);
    assert forall|i: int| 0 <= i < out@.len() implies occurs_in(
        #[trigger] out@[i]@,
        contents@,
    ) by {
        assert(out.deep_view()[i] == out@[i]@);
    }
    assert forall|i: int, j: int| 0 <= i < out@.len() && 0 <= j < out@[i]@.len() implies (
    #[trigger] out@[i]@[j]) != '\n' by {
        assert(split_lines(contents@)[i][j] != '\n');
    }
}

} // verus!
