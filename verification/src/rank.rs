use crate::score::Score;
use vstd::prelude::*;
use vstd::seq_lib::{
    lemma_multiset_commutative, to_multiset_build, to_multiset_contains, to_multiset_len,
};

verus! {

/// Whether entry `a` comes before entry `b` in a ranking: the higher score
/// first, and of two equal scores the lower document index.
pub open spec fn ranks_before(a: (usize, Score), b: (usize, Score)) -> bool {
    a.1.value() > b.1.value() || (a.1.value() == b.1.value() && a.0 < b.0)
}

/// Whether some entry of `ranking` is the entry of document `doc_index`.
pub open spec fn lists(ranking: Seq<(usize, Score)>, doc_index: int) -> bool {
    exists|j: int| 0 <= j < ranking.len() && (#[trigger] ranking[j]).0 == doc_index
}

/// Whether `ranking` is the ranking of the documents whose scores are
/// `scores`, document `i` having the score `scores[i]`.
pub open spec fn is_ranking(scores: Seq<Score>, ranking: Seq<(usize, Score)>) -> bool {
    // one entry per document
    &&& ranking.len() == scores.len()
    // each entry pairs a document with its own score
    &&& forall|j: int|
        0 <= j < ranking.len() ==> (#[trigger] ranking[j]).0 < scores.len() && ranking[j].1
            == scores[ranking[j].0 as int]
    // every document has an entry
    &&& forall|i: int| 0 <= i < scores.len() ==> #[trigger] lists(ranking, i)
    // no document has two
    &&& forall|j: int, k: int|
        0 <= j < k < ranking.len() ==> (#[trigger] ranking[j]).0 != (#[trigger] ranking[k]).0
    // best first, ties by ascending document index
    &&& forall|j: int, k: int|
        0 <= j < k < ranking.len() ==> ranks_before(#[trigger] ranking[j], #[trigger] ranking[k])
}

/// The documents of one corpus with one list of scores have one ranking:
/// ranking them again gives the same entries in the same order.
pub proof fn lemma_ranking_unique(
    scores: Seq<Score>,
    first: Seq<(usize, Score)>,
    second: Seq<(usize, Score)>,
)
    requires
        is_ranking(scores, first),
        is_ranking(scores, second),
    ensures
        first == second,
{
    lemma_rankings_agree(scores, first, second, scores.len() as int);
}

/// Two rankings of the same scores agree on their first `upto` entries.
proof fn lemma_rankings_agree(
    scores: Seq<Score>,
    first: Seq<(usize, Score)>,
    second: Seq<(usize, Score)>,
    upto: int,
)
    requires
        is_ranking(scores, first),
        is_ranking(scores, second),
        0 <= upto <= scores.len(),
    ensures
        forall|j: int| 0 <= j < upto ==> first[j] == second[j],
    decreases upto,
{
    if upto > 0 {
        lemma_rankings_agree(scores, first, second, upto - 1);
        let j = upto - 1;
        // Where the entry of each ranking stands in the other.
        assert(lists(second, first[j].0 as int));
        let k = choose|k: int| 0 <= k < second.len() && (#[trigger] second[k]).0 == first[j].0;
        assert(lists(first, second[j].0 as int));
        let m = choose|m: int| 0 <= m < first.len() && (#[trigger] first[m]).0 == second[j].0;
        assert(second[k] == first[j] && first[m] == second[j]);
        // Not earlier, where the two agree and no document has two entries;
        // and not both later, as neither entry can come before the other.
        assert(k < j ==> first[k] == second[k]);
        assert(m < j ==> second[m] == first[m]);
        assert(k > j && m > j ==> ranks_before(second[j], second[k]) && ranks_before(
            first[j],
            first[m],
        ));
    }
}

/// No entry comes before an earlier one.
spec fn ordered(entries: Seq<(usize, Score)>) -> bool {
    forall|j: int, k: int|
        0 <= j < k < entries.len() ==> !ranks_before(#[trigger] entries[k], #[trigger] entries[j])
}

/// The entries of the documents in index order, before any sorting.
spec fn numbered(scores: Seq<Score>) -> Seq<(usize, Score)> {
    Seq::new(scores.len(), |i: int| (i as usize, scores[i]))
}

fn precedes(a: &(usize, Score), b: &(usize, Score)) -> (before: bool)
    ensures
        before == ranks_before(*a, *b),
{
    let ka: i64 = a.1.sort_key();
    let kb: i64 = b.1.sort_key();
    proof {
        a.1.lemma_key_orders_by_value(b.1);
        b.1.lemma_key_orders_by_value(a.1);
    }
    ka > kb || (ka == kb && a.0 < b.0)
}

/// Merges two ordered runs into one.
fn merge(left: &Vec<(usize, Score)>, right: &Vec<(usize, Score)>) -> (merged: Vec<(usize, Score)>)
    requires
        ordered(left@),
        ordered(right@),
    ensures
        ordered(merged@),
        merged@.to_multiset() == left@.to_multiset().add(right@.to_multiset()),
{
    let mut merged: Vec<(usize, Score)> = Vec::new();
    let mut i: usize = 0;
    let mut j: usize = 0;
    proof {
        let nothing = Seq::<(usize, Score)>::empty();
        assert(left@.take(0) =~= nothing);
        assert(right@.take(0) =~= nothing);
        to_multiset_len(nothing);
    }
    while i < left.len() || j < right.len()
        invariant
            i <= left.len(),
            j <= right.len(),
            ordered(left@),
            ordered(right@),
            ordered(merged@),
            merged@.to_multiset() == left@.take(i as int).to_multiset().add(
                right@.take(j as int).to_multiset(),
            ),
            forall|x: int, k: int|
                0 <= x < merged@.len() && i <= k < left@.len() ==> !ranks_before(
                    #[trigger] left@[k],
                    #[trigger] merged@[x],
                ),
            forall|x: int, k: int|
                0 <= x < merged@.len() && j <= k < right@.len() ==> !ranks_before(
                    #[trigger] right@[k],
                    #[trigger] merged@[x],
                ),
        decreases left.len() - i + right.len() - j,
    {
        let from_left = if i == left.len() {
            false
        } else if j == right.len() {
            true
        } else {
            !precedes(&right[j], &left[i])
        };
        let ghost so_far = merged@;
        if from_left {
            let entry = left[i];
            merged.push(entry);
            proof {
                assert(left@.take(i + 1) =~= left@.take(i as int).push(entry));
                to_multiset_build(so_far, entry);
                to_multiset_build(left@.take(i as int), entry);
                assert(merged@.to_multiset() =~= left@.take(i + 1).to_multiset().add(
                    right@.take(j as int).to_multiset(),
                ));
            }
            i += 1;
        } else {
            let entry = right[j];
            merged.push(entry);
            proof {
                assert(right@.take(j + 1) =~= right@.take(j as int).push(entry));
                to_multiset_build(so_far, entry);
                to_multiset_build(right@.take(j as int), entry);
                assert(merged@.to_multiset() =~= left@.take(i as int).to_multiset().add(
                    right@.take(j + 1).to_multiset(),
                ));
            }
            j += 1;
        }
    }
    proof {
        assert(left@.take(left.len() as int) =~= left@);
        assert(right@.take(right.len() as int) =~= right@);
    }
    merged
}

/// Sorts entries into ranking order by merging sorted halves.
fn sort_entries(entries: Vec<(usize, Score)>) -> (sorted: Vec<(usize, Score)>)
    ensures
        ordered(sorted@),
        sorted@.to_multiset() == entries@.to_multiset(),
    decreases entries@.len(),
{
    let n: usize = entries.len();
    if n <= 1 {
        return entries;
    }
    let ghost all = entries@;
    let mut left = entries;
    let right = left.split_off(n / 2);
    proof {
        assert(all =~= left@ + right@);
        lemma_multiset_commutative(left@, right@);
    }
    let left = sort_entries(left);
    let right = sort_entries(right);
    merge(&left, &right)
}

/// Ranks the documents of a corpus by their scores, `scores[i]` being the
/// score of document `i`: every document once, the best score first, equal
/// scores in ascending order of document index.
pub fn rank_documents(scores: &Vec<Score>) -> (ranking: Vec<(usize, Score)>)
    ensures
        is_ranking(scores@, ranking@),
{
    let mut entries: Vec<(usize, Score)> = Vec::new();
    let mut i: usize = 0;
    while i < scores.len()
        invariant
            i <= scores.len(),
            entries@ == numbered(scores@.take(i as int)),
        decreases scores.len() - i,
    {
        entries.push((i, scores[i]));
        i += 1;
    }
    proof {
        assert(scores@.take(scores.len() as int) =~= scores@);
    }
    let ranking = sort_entries(entries);
    proof {
        lemma_sorted_numbering_ranks(scores@, ranking@);
    }
    ranking
}

/// An ordered rearrangement of the numbered scores is their ranking.
proof fn lemma_sorted_numbering_ranks(scores: Seq<Score>, sorted: Seq<(usize, Score)>)
    requires
        scores.len() <= usize::MAX,
        ordered(sorted),
        sorted.to_multiset() == numbered(scores).to_multiset(),
    ensures
        is_ranking(scores, sorted),
{
    let entries = numbered(scores);
    to_multiset_len(sorted);
    to_multiset_len(entries);
    assert forall|j: int| 0 <= j < sorted.len() implies (#[trigger] sorted[j]).0 < scores.len()
        && sorted[j].1 == scores[sorted[j].0 as int] by {
        // It is an entry of the numbering, as the two hold the same entries.
        to_multiset_contains(sorted, sorted[j]);
        to_multiset_contains(entries, sorted[j]);
        assert(entries.contains(sorted[j]));
    }
    assert forall|i: int| 0 <= i < scores.len() implies #[trigger] lists(sorted, i) by {
        to_multiset_contains(sorted, entries[i]);
        to_multiset_contains(entries, entries[i]);
        assert(sorted.contains(entries[i]));
    }
    // The numbering holds no entry twice, so neither does the rearrangement:
    // two of its entries differ, hence in their documents, and are in order.
    assert(entries.no_duplicates());
    entries.lemma_multiset_has_no_duplicates();
    sorted.lemma_multiset_has_no_duplicates_conv();
    assert forall|j: int, k: int| 0 <= j < k < sorted.len() implies (#[trigger] sorted[j]).0 != (
    #[trigger] sorted[k]).0 && ranks_before(sorted[j], sorted[k]) by {
        assert(sorted[j] != sorted[k]);
    }
}

} // verus!
