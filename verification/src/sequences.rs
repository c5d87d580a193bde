//! Filtering a sequence: what is kept stands in the sequence, in its order.

use vstd::prelude::*;

verus! {

/// `at` gives, for each element of `part`, a position in `whole` that holds
/// it, and these positions grow from one element to the next.
pub open spec fn embeds_at<A>(part: Seq<A>, whole: Seq<A>, at: Seq<int>) -> bool {
    &&& at.len() == part.len()
    &&& forall|k: int|
        0 <= k < at.len() ==> 0 <= #[trigger] at[k] < whole.len() && part[k] == whole[at[k]]
    &&& forall|j: int, k: int| 0 <= j < k < at.len() ==> #[trigger] at[j] < #[trigger] at[k]
}

/// `part` is `whole` with some elements left out: the elements that stay
/// keep their order, and none is there more often than in `whole`.
pub open spec fn is_subsequence_of<A>(part: Seq<A>, whole: Seq<A>) -> bool {
    exists|at: Seq<int>| embeds_at(part, whole, at)
}

/// What a filter keeps is a subsequence of what it was given.
pub proof fn lemma_filter_is_subsequence<A>(whole: Seq<A>, keep: spec_fn(A) -> bool)
    ensures
        is_subsequence_of(whole.filter(keep), whole),
    decreases whole.len(),
{
    reveal(Seq::filter);
    if whole.len() == 0 {
        assert(embeds_at(whole.filter(keep), whole, Seq::<int>::empty()));
    } else {
        let front = whole.drop_last();
        lemma_filter_is_subsequence(front, keep);
        let before = choose|at: Seq<int>| embeds_at(front.filter(keep), front, at);
        if keep(whole.last()) {
            let at = before.push(whole.len() - 1);
            assert(embeds_at(whole.filter(keep), whole, at));
        } else {
            assert(embeds_at(whole.filter(keep), whole, before));
        }
    }
}

/// A filter whose test holds of every element keeps the sequence as it is.
pub proof fn lemma_filter_keeps_all<A>(whole: Seq<A>, keep: spec_fn(A) -> bool)
    requires
        forall|i: int| 0 <= i < whole.len() ==> keep(#[trigger] whole[i]),
    ensures
        whole.filter(keep) == whole,
    decreases whole.len(),
{
    reveal(Seq::filter);
    if whole.len() > 0 {
        let front = whole.drop_last();
        assert(forall|i: int| 0 <= i < front.len() ==> keep(#[trigger] front[i]));
        lemma_filter_keeps_all(front, keep);
    }
}

/// Where `narrow` holds only of elements of which `wide` holds, filtering by
/// `wide` first loses nothing that `narrow` keeps.
pub proof fn lemma_filter_through_wider<A>(
    whole: Seq<A>,
    narrow: spec_fn(A) -> bool,
    wide: spec_fn(A) -> bool,
)
    requires
        forall|i: int| 0 <= i < whole.len() && narrow(#[trigger] whole[i]) ==> wide(whole[i]),
    ensures
        whole.filter(wide).filter(narrow) == whole.filter(narrow),
    decreases whole.len(),
{
    reveal(Seq::filter);
    if whole.len() > 0 {
        let front = whole.drop_last();
        let last = whole.last();
        assert(forall|i: int|
            0 <= i < front.len() && narrow(#[trigger] front[i]) ==> wide(front[i]));
        lemma_filter_through_wider(front, narrow, wide);
        if wide(last) {
            front.filter(wide).lemma_filter_push(last, narrow);
        }
    }
}

} // verus!
