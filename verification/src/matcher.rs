//! The two searches: the lines of a text that contain a query, verbatim or
//! ignoring letter case.

use vstd::prelude::*;
use vstd::string::*;
use crate::casefold::lowercase_of;
use crate::lines::{lemma_lines_occur_in_text, lines, split_lines};
use crate::sequences::{
    is_subsequence_of, lemma_filter_is_subsequence, lemma_filter_keeps_all,
    lemma_filter_through_wider,
};
use crate::substring::{contains, lemma_empty_occurs, occurs_in};

verus! {

/// The test that `search` puts to a line: `query` occurs in it verbatim.
pub open spec fn verbatim(query: Seq<char>) -> spec_fn(Seq<char>) -> bool {
    |line: Seq<char>| occurs_in(query, line)
}

/// The test that `search_case_insensitive` puts to a line: the lowercase
/// form of `query` occurs in the lowercase form of the line.
pub open spec fn ignoring_case(query: Seq<char>) -> spec_fn(Seq<char>) -> bool {
    |line: Seq<char>| occurs_in(lowercase_of(query), lowercase_of(line))
}

/// The lines of `contents` in which `query` occurs verbatim, in the order
/// and as often as they stand in `contents`.
pub open spec fn matching_lines(query: Seq<char>, contents: Seq<char>) -> Seq<Seq<char>> {
    split_lines(contents).filter(verbatim(query))
}

/// The lines of `contents` whose lowercase form holds the lowercase form of
/// `query`, in the order and as often as they stand in `contents`.
pub open spec fn matching_lines_ignoring_case(query: Seq<char>, contents: Seq<char>) -> Seq<
    Seq<char>,
> {
    split_lines(contents).filter(ignoring_case(query))
}

/// The lines of `contents` that contain `query`, character for character,
/// in the order in which they stand there.  Each is a slice of `contents`.
///
/// No input is refused: where nothing matches, the result is empty.
pub fn search<'a>(query: &str, contents: &'a str) -> (out: Vec<&'a str>)
    ensures
        out.deep_view() == matching_lines(query@, contents@),
{
    let all = lines(contents);
    let mut out: Vec<&'a str> = Vec::new();
    let mut i: usize = 0;
    while i < all.len()
        invariant
            i <= all.len(),
            out.deep_view() == all.deep_view().take(i as int).filter(verbatim(query@)),
        decreases all.len() - i,
    {
        let line = all[i];
        let ghost seen = all.deep_view().take(i as int);
        let hit = contains(line, query);
        if hit {
            out.push(line);
        }
        proof {
            seen.lemma_filter_push(line@, verbatim(query@));
            assert(all.deep_view().take(i + 1) =~= seen.push(line@));
        }
        i += 1;
    }
    proof {
        assert(all.deep_view().take(i as int) =~= all.deep_view());
    }
    out
}

/// The lines of `contents` that contain `query` when letter case is left
/// aside, in the order in which they stand there.  Each is a slice of
/// `contents`, in its own case.
///
/// The query is lowercased once, and each line is lowercased for the test.
/// No input is refused: where nothing matches, the result is empty, and the
/// empty query matches every line.
pub fn search_case_insensitive<'a>(query: &str, contents: &'a str) -> (out: Vec<&'a str>)
    ensures
        out.deep_view() == matching_lines_ignoring_case(query@, contents@),
        query@.len() == 0 ==> out.deep_view() == split_lines(contents@),
{
    let needle = query.to_lowercase();
    let all = lines(contents);
    let mut out: Vec<&'a str> = Vec::new();
    let mut i: usize = 0;
    while i < all.len()
        invariant
            i <= all.len(),
            needle@ == lowercase_of(query@),
            out.deep_view() == all.deep_view().take(i as int).filter(ignoring_case(query@)),
        decreases all.len() - i,
    {
        let line = all[i];
        let ghost seen = all.deep_view().take(i as int);
        let lowered = line.to_lowercase();
        let hit = contains(lowered.as_str(), needle.as_str());
        if hit {
            out.push(line);
        }
        proof {
            seen.lemma_filter_push(line@, ignoring_case(query@));
            assert(all.deep_view().take(i + 1) =~= seen.push(line@));
        }
        i += 1;
    }
    proof {
        assert(all.deep_view().take(i as int) =~= all.deep_view());
        if query@.len() == 0 {
            assert(needle@ =~= Seq::<char>::empty());
            let keep = ignoring_case(query@);
            assert forall|k: int| 0 <= k < all.deep_view().len() implies keep(
                #[trigger] all.deep_view()[k],
            ) by {
                lemma_empty_occurs(lowercase_of(all.deep_view()[k]));
            }
            lemma_filter_keeps_all(all.deep_view(), keep);
        }
    }
    out
}

/// `search` returns nothing but lines of `contents` in which `query` occurs
/// verbatim, and every such line.  They come in the order in which they
/// stand in `contents`, and none comes more often than it stands there.
/// Each is a run of characters of `contents`.
pub proof fn theorem_search_selects_in_order<'a>(
    query: &str,
    contents: &'a str,
    out: Vec<&'a str>,
)
    requires
        call_ensures(search, (query, contents), out),
    ensures
        forall|i: int| 0 <= i < out@.len() ==> occurs_in(query@, #[trigger] out@[i]@),
        forall|i: int|
            0 <= i < split_lines(contents@).len() && occurs_in(query@, split_lines(contents@)[i])
                ==> out.deep_view().contains(#[trigger] split_lines(contents@)[i]),
        is_subsequence_of(out.deep_view(), split_lines(contents@)),
        forall|i: int| 0 <= i < out@.len() ==> occurs_in(#[trigger] out@[i]@, contents@),
{
    let all = split_lines(contents@);
    let found = out.deep_view();
    lemma_lines_occur_in_text(contents@);
    assert forall|i: int| 0 <= i < out@.len() implies occurs_in(
        #[trigger] out@[i]@,
        contents@,
    ) by {
        all.lemma_filter_contains_rev(verbatim(query@), found[i]);
    }
    assert forall|i: int| 0 <= i < out@.len() implies occurs_in(query@, #[trigger] out@[i]@) by {
        all.lemma_filter_pred(verbatim(query@), i);
    }
    assert forall|i: int| 0 <= i < all.len() && occurs_in(query@, all[i]) implies found.contains(
        #[trigger] all[i],
    ) by {
        all.lemma_filter_contains(verbatim(query@), i);
    }
    lemma_filter_is_subsequence(all, verbatim(query@));
}

/// `search_case_insensitive` returns nothing but lines of `contents` whose
/// lowercase form holds the lowercase form of `query`, and every such line.
/// They come in the order in which they stand in `contents`, and none comes
/// more often than it stands there.  Each is a run of characters of
/// `contents`.
pub proof fn theorem_search_case_insensitive_selects_in_order<'a>(
    query: &str,
    contents: &'a str,
    out: Vec<&'a str>,
)
    requires
        call_ensures(search_case_insensitive, (query, contents), out),
    ensures
        forall|i: int|
            0 <= i < out@.len() ==> occurs_in(
                lowercase_of(query@),
                lowercase_of(#[trigger] out@[i]@),
            ),
        forall|i: int|
            0 <= i < split_lines(contents@).len() && occurs_in(
                lowercase_of(query@),
                lowercase_of(split_lines(contents@)[i]),
            ) ==> out.deep_view().contains(#[trigger] split_lines(contents@)[i]),
        is_subsequence_of(out.deep_view(), split_lines(contents@)),
        forall|i: int| 0 <= i < out@.len() ==> occurs_in(#[trigger] out@[i]@, contents@),
{
    let all = split_lines(contents@);
    let found = out.deep_view();
    lemma_lines_occur_in_text(contents@);
    assert forall|i: int| 0 <= i < out@.len() implies occurs_in(
        #[trigger] out@[i]@,
        contents@,
    ) by {
        all.lemma_filter_contains_rev(ignoring_case(query@), found[i]);
    }
    assert forall|i: int| 0 <= i < out@.len() implies occurs_in(
        lowercase_of(query@),
        lowercase_of(#[trigger] out@[i]@),
    ) by {
        all.lemma_filter_pred(ignoring_case(query@), i);
    }
    assert forall|i: int|
        0 <= i < all.len() && occurs_in(
            lowercase_of(query@),
            lowercase_of(all[i]),
        ) implies found.contains(#[trigger] all[i]) by {
        all.lemma_filter_contains(ignoring_case(query@), i);
    }
    lemma_filter_is_subsequence(all, ignoring_case(query@));
}

/// Lowercasing keeps every occurrence of `query` in a line of `contents`:
/// where `query` occurs in a line, its lowercase form occurs in the
/// lowercase form of that line.
///
/// This holds of most texts, and fails where the lowercase form of a letter
/// depends on what follows the letter: the capital sigma that ends the query
/// and not the word it stands in.
pub open spec fn lowercasing_keeps_matches(query: Seq<char>, contents: Seq<char>) -> bool {
    forall|i: int|
        0 <= i < split_lines(contents).len() && occurs_in(
            query,
            #[trigger] split_lines(contents)[i],
        ) ==> occurs_in(lowercase_of(query), lowercase_of(split_lines(contents)[i]))
}

/// Where lowercasing keeps the matches, `search_case_insensitive` returns
/// every line that `search` returns, in the same order and at least as
/// often: what `search` returns is what it would keep of the lines that
/// `search_case_insensitive` returns.
pub proof fn theorem_case_insensitive_finds_more<'a>(
    query: &str,
    contents: &'a str,
    exact: Vec<&'a str>,
    loose: Vec<&'a str>,
)
    requires
        call_ensures(search, (query, contents), exact),
        call_ensures(search_case_insensitive, (query, contents), loose),
        lowercasing_keeps_matches(query@, contents@),
    ensures
        forall|i: int| 0 <= i < exact@.len() ==> loose.deep_view().contains(#[trigger] exact@[i]@),
        is_subsequence_of(exact.deep_view(), loose.deep_view()),
        exact.deep_view() == loose.deep_view().filter(verbatim(query@)),
{
    let all = split_lines(contents@);
    lemma_filter_through_wider(all, verbatim(query@), ignoring_case(query@));
    lemma_filter_is_subsequence(all.filter(ignoring_case(query@)), verbatim(query@));
    assert forall|i: int| 0 <= i < exact@.len() implies loose.deep_view().contains(
        #[trigger] exact@[i]@,
    ) by {
        assert(exact.deep_view()[i] == exact@[i]@);
        loose.deep_view().lemma_filter_contains_rev(verbatim(query@), exact@[i]@);
    }
}

/// Two runs of `search` on the same query and contents return the same
/// lines, and so do two runs of `search_case_insensitive`.
pub proof fn theorem_search_repeatable<'a>(
    query: &str,
    contents: &'a str,
    first: Vec<&'a str>,
    second: Vec<&'a str>,
)
    requires
        (call_ensures(search, (query, contents), first) && call_ensures(
            search,
            (query, contents),
            second,
        )) || (call_ensures(search_case_insensitive, (query, contents), first) && call_ensures(
            search_case_insensitive,
            (query, contents),
            second,
        )),
    ensures
        first.deep_view() == second.deep_view(),
{
}

/// The empty query matches every line: either search returns all the lines
/// of `contents` for it.
pub proof fn theorem_empty_query_matches_every_line<'a>(
    query: &str,
    contents: &'a str,
    out: Vec<&'a str>,
)
    requires
        query@.len() == 0,
        call_ensures(search, (query, contents), out) || call_ensures(
            search_case_insensitive,
            (query, contents),
            out,
        ),
    ensures
        out.deep_view() == split_lines(contents@),
{
    let all = split_lines(contents@);
    let keep = verbatim(query@);
    assert(query@ =~= Seq::<char>::empty());
    assert forall|i: int| 0 <= i < all.len() implies keep(#[trigger] all[i]) by {
        lemma_empty_occurs(all[i]);
    }
    lemma_filter_keeps_all(all, keep);
}

/// Empty contents have no line: either search returns nothing for them,
/// whatever the query.
pub proof fn theorem_empty_contents_match_nothing<'a>(
    query: &str,
    contents: &'a str,
    out: Vec<&'a str>,
)
    requires
        contents@.len() == 0,
        call_ensures(search, (query, contents), out) || call_ensures(
            search_case_insensitive,
            (query, contents),
            out,
        ),
    ensures
        out@.len() == 0,
{
    let all = split_lines(contents@);
    all.lemma_filter_len(verbatim(query@));
    all.lemma_filter_len(ignoring_case(query@));
}

} // verus!
