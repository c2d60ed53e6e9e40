//! Ranking by weight: the heaviest entry first, and among entries of equal
//! weight the one that stood first.

use rayon::slice::ParallelSliceMut;
use std::cmp::Ordering;
use vstd::prelude::*;

verus! {

/// Entry `a` comes before entry `b` in the ranking: it is heavier, or as
/// heavy and stands earlier.
pub open spec fn outranks(weights: Seq<int>, a: int, b: int) -> bool {
    weights[a] > weights[b] || (weights[a] == weights[b] && a < b)
}

/// How many of the first `n` entries come before entry `i`.
pub open spec fn outranking_upto(weights: Seq<int>, i: int, n: int) -> nat
    decreases n,
{
    if n <= 0 {
        0
    } else {
        outranking_upto(weights, i, n - 1) + if outranks(weights, n - 1, i) {
            1nat
        } else {
            0nat
        }
    }
}

/// The place of entry `i` in the ranking: the number of entries that come
/// before it.
pub open spec fn rank_of(weights: Seq<int>, i: int) -> nat {
    outranking_upto(weights, i, weights.len() as int)
}

/// `order` lists the entries by rank: the entry at place `k` is the one of
/// rank `k`.
pub open spec fn is_ranking(weights: Seq<int>, order: Seq<usize>) -> bool {
    &&& order.len() == weights.len()
    &&& forall|k: int| 0 <= k < order.len() ==> (#[trigger] order[k]) < weights.len()
    &&& forall|k: int| 0 <= k < order.len() ==> rank_of(weights, #[trigger] order[k] as int) == k
    &&& forall|i: int|
        0 <= i < weights.len() ==> (#[trigger] rank_of(weights, i)) < order.len() && order[rank_of(
            weights,
            i,
        ) as int] == i
}

/// The weights as mathematical integers.
pub open spec fn ints_of(weights: Seq<u128>) -> Seq<int> {
    Seq::new(weights.len(), |i: int| weights[i] as int)
}

/// The order that [`sort_by_rank`] sorts by: heavier pairs first, and among
/// pairs of one weight the smaller tag first.
pub open spec fn pair_before(a: (u128, usize), b: (u128, usize)) -> bool {
    a.0 > b.0 || (a.0 == b.0 && a.1 < b.1)
}

/// Compares two tagged weights by [`pair_before`].
fn rank_order(a: &(u128, usize), b: &(u128, usize)) -> (o: Ordering)
    ensures
        (o == Ordering::Less) == pair_before(*a, *b),
        (o == Ordering::Greater) == pair_before(*b, *a),
        (o == Ordering::Equal) == (*a == *b),
{
    if a.0 > b.0 {
        Ordering::Less
    } else if a.0 < b.0 {
        Ordering::Greater
    } else if a.1 < b.1 {
        Ordering::Less
    } else if a.1 > b.1 {
        Ordering::Greater
    } else {
        Ordering::Equal
    }
}

/// Sorts tagged weights with rayon's `par_sort_by`, handing it
/// [`rank_order`] as the comparator.
///
/// Taken on trust from rayon's documentation of `par_sort_by`: for a
/// comparator that is a total order, which `rank_order` is, the slice ends
/// up holding the same elements as before, and no element stands before one
/// that the comparator puts ahead of it.
#[verifier::external_body]
fn sort_by_rank(pairs: &mut Vec<(u128, usize)>)
    ensures
        final(pairs)@.to_multiset() == old(pairs)@.to_multiset(),
        forall|k: int, l: int|
            0 <= k < l < final(pairs)@.len() ==> !pair_before(
                #[trigger] final(pairs)@[l],
                #[trigger] final(pairs)@[k],
            ),
{
    pairs.par_sort_by(|a, b| rank_order(a, b));
}

/// Entry `j` stands somewhere in `order`.
spec fn listed(order: Seq<usize>, j: int) -> bool {
    exists|m: int| 0 <= m < order.len() && #[trigger] order[m] == j
}

/// `order` lists every entry once, each before the entries it outranks.
spec fn sorted_cover(weights: Seq<int>, order: Seq<usize>) -> bool {
    &&& order.len() == weights.len()
    &&& forall|k: int| 0 <= k < order.len() ==> (#[trigger] order[k]) < weights.len()
    &&& forall|k: int, l: int|
        0 <= k < l < order.len() ==> outranks(
            weights,
            #[trigger] order[k] as int,
            #[trigger] order[l] as int,
        )
    &&& forall|j: int| 0 <= j < weights.len() ==> #[trigger] listed(order, j)
}

/// An entry that none of the first `n` entries comes before has none of
/// them counted against it.
proof fn lemma_count_none(weights: Seq<int>, i: int, n: int)
    requires
        forall|j: int| 0 <= j < n ==> !outranks(weights, j, i),
    ensures
        outranking_upto(weights, i, n) == 0,
    decreases n,
{
    if n > 0 {
        lemma_count_none(weights, i, n - 1);
    }
}

/// If the entries that come before `b` are `a` and those that come before
/// `a`, then `b` has one more entry counted against it than `a`.
proof fn lemma_count_step(weights: Seq<int>, a: int, b: int, n: int)
    requires
        0 <= a,
        forall|j: int|
            0 <= j < n ==> (outranks(weights, j, b) <==> (outranks(weights, j, a) || j == a)),
    ensures
        outranking_upto(weights, b, n) == outranking_upto(weights, a, n) + if a < n {
            1nat
        } else {
            0nat
        },
    decreases n,
{
    if n > 0 {
        lemma_count_step(weights, a, b, n - 1);
    }
}

/// In a sorted cover the entry at place `k` has rank `k`.
proof fn lemma_rank_in_sorted(weights: Seq<int>, order: Seq<usize>, k: int)
    requires
        sorted_cover(weights, order),
        0 <= k < order.len(),
    ensures
        rank_of(weights, order[k] as int) == k,
    decreases k,
{
    let n = weights.len() as int;
    if k == 0 {
        assert forall|j: int| 0 <= j < n implies !outranks(weights, j, order[0] as int) by {
            assert(listed(order, j));
            let m = choose|m: int| 0 <= m < order.len() && #[trigger] order[m] == j;
            if m > 0 {
                assert(outranks(weights, order[0] as int, order[m] as int));
            }
        }
        lemma_count_none(weights, order[0] as int, n);
    } else {
        lemma_rank_in_sorted(weights, order, k - 1);
        let a = order[k - 1] as int;
        let b = order[k] as int;
        assert(outranks(weights, a, b));
        assert forall|j: int| 0 <= j < n implies (outranks(weights, j, b) <==> (outranks(
            weights,
            j,
            a,
        ) || j == a)) by {
            assert(listed(order, j));
            let m = choose|m: int| 0 <= m < order.len() && #[trigger] order[m] == j;
            if m < k - 1 {
                assert(outranks(weights, order[m] as int, order[k - 1] as int));
                assert(outranks(weights, order[m] as int, order[k] as int));
            } else if m > k {
                assert(outranks(weights, order[k - 1] as int, order[m] as int));
                assert(outranks(weights, order[k] as int, order[m] as int));
            }
        }
        lemma_count_step(weights, a, b, n);
    }
}

/// A sorted cover is the ranking.
proof fn lemma_sorted_cover_is_ranking(weights: Seq<int>, order: Seq<usize>)
    requires
        sorted_cover(weights, order),
    ensures
        is_ranking(weights, order),
{
    assert forall|k: int| 0 <= k < order.len() implies rank_of(weights, #[trigger] order[k] as int)
        == k by {
        lemma_rank_in_sorted(weights, order, k);
    }
    assert forall|i: int| 0 <= i < weights.len() implies (#[trigger] rank_of(weights, i))
        < order.len() && order[rank_of(weights, i) as int] == i by {
        assert(listed(order, i));
        let m = choose|m: int| 0 <= m < order.len() && #[trigger] order[m] == i;
        lemma_rank_in_sorted(weights, order, m);
    }
}

/// In a ranking, entries stand in the order of their ranks: an entry at an
/// earlier place outranks every entry at a later one.
pub proof fn lemma_ranking_is_sorted(weights: Seq<int>, order: Seq<usize>, k: int, l: int)
    requires
        is_ranking(weights, order),
        0 <= k < l < order.len(),
    ensures
        outranks(weights, order[k] as int, order[l] as int),
        weights[order[k] as int] >= weights[order[l] as int],
{
    let a = order[k] as int;
    let b = order[l] as int;
    if !outranks(weights, a, b) {
        // then `b` comes before `a`, or they are one entry
        assert(rank_of(weights, a) == k);
        assert(rank_of(weights, b) == l);
        if a != b {
            assert(outranks(weights, b, a));
            lemma_rank_monotone(weights, b, a, weights.len() as int);
        }
    }
}

/// An entry has more entries counted against it than any entry that comes
/// before it has.
proof fn lemma_rank_monotone(weights: Seq<int>, a: int, b: int, n: int)
    requires
        0 <= a < weights.len(),
        0 <= b < weights.len(),
        outranks(weights, a, b),
        0 <= n <= weights.len(),
    ensures
        outranking_upto(weights, a, n) + if a < n {
            1nat
        } else {
            0nat
        } <= outranking_upto(weights, b, n),
    decreases n,
{
    if n > 0 {
        lemma_rank_monotone(weights, a, b, n - 1);
    }
}

/// The first of the heaviest among the first `n` entries.
pub open spec fn first_max_upto(weights: Seq<int>, n: int) -> int
    decreases n,
{
    if n <= 1 {
        0
    } else {
        let m = first_max_upto(weights, n - 1);
        if weights[n - 1] > weights[m] {
            n - 1
        } else {
            m
        }
    }
}

/// The entry of rank 0: the first of the heaviest.
pub open spec fn first_max(weights: Seq<int>) -> int {
    first_max_upto(weights, weights.len() as int)
}

/// None of the first `n` entries comes before the first of their heaviest.
pub proof fn lemma_first_max_upto(weights: Seq<int>, n: int)
    requires
        1 <= n <= weights.len(),
    ensures
        0 <= first_max_upto(weights, n) < n,
        forall|j: int| 0 <= j < n ==> !outranks(weights, j, first_max_upto(weights, n)),
    decreases n,
{
    if n > 1 {
        lemma_first_max_upto(weights, n - 1);
        let m = first_max_upto(weights, n - 1);
        assert forall|j: int| 0 <= j < n implies !outranks(
            weights,
            j,
            first_max_upto(weights, n),
        ) by {
            if j < n - 1 {
                assert(!outranks(weights, j, m));
            }
        }
    }
}

/// A ranking of a list that is not empty starts with the first of the
/// heaviest entries.
pub proof fn lemma_ranking_starts_with_first_max(weights: Seq<int>, order: Seq<usize>)
    requires
        is_ranking(weights, order),
        weights.len() > 0,
    ensures
        0 <= first_max(weights) < weights.len(),
        order[0] == first_max(weights),
{
    lemma_first_max_upto(weights, weights.len() as int);
    lemma_count_none(weights, first_max(weights), weights.len() as int);
    assert(rank_of(weights, first_max(weights)) == 0);
}

/// Ranks the entries of `weights`: the result lists their positions, the
/// heaviest first, entries of equal weight in the order in which they
/// stand.
pub fn ranking(weights: &Vec<u128>) -> (order: Vec<usize>)
    ensures
        is_ranking(ints_of(weights@), order@),
{
    let n: usize = weights.len();
    let mut pairs: Vec<(u128, usize)> = Vec::new();
    let mut i: usize = 0;
    while i < n
        invariant
            n == weights@.len(),
            i <= n,
            pairs@.len() == i,
            forall|j: int| 0 <= j < i ==> #[trigger] pairs@[j] == (weights@[j], j as usize),
        decreases n - i,
    {
        pairs.push((weights[i], i));
        i = i + 1;
    }
    let ghost tagged = pairs@;
    sort_by_rank(&mut pairs);
    let ghost sorted = pairs@;
    proof {
        broadcast use vstd::seq_lib::group_to_multiset_ensures;

        assert(tagged.no_duplicates());
        tagged.lemma_multiset_has_no_duplicates();
        sorted.lemma_multiset_has_no_duplicates_conv();
        assert(sorted.to_multiset().len() == tagged.to_multiset().len());
        assert(sorted.len() == n);
        assert forall|k: int| 0 <= k < n implies (#[trigger] sorted[k]).1 < n && sorted[k].0
            == weights@[sorted[k].1 as int] by {
            assert(sorted.contains(sorted[k]));
            assert(sorted.to_multiset().count(sorted[k]) > 0);
            assert(tagged.to_multiset().count(sorted[k]) > 0);
            assert(tagged.contains(sorted[k]));
        }
        assert forall|j: int| 0 <= j < n implies #[trigger] sorted.contains(tagged[j]) by {
            assert(tagged.contains(tagged[j]));
            assert(tagged.to_multiset().count(tagged[j]) > 0);
            assert(sorted.to_multiset().count(tagged[j]) > 0);
        }
    }
    let mut order: Vec<usize> = Vec::new();
    let mut k: usize = 0;
    while k < n
        invariant
            k <= n,
            pairs@.len() == n,
            order@.len() == k,
            forall|j: int| 0 <= j < k ==> #[trigger] order@[j] == pairs@[j].1,
        decreases n - k,
    {
        order.push(pairs[k].1);
        k = k + 1;
    }
    proof {
        let w = ints_of(weights@);
        assert forall|a: int, b: int| 0 <= a < b < order@.len() implies outranks(
            w,
            #[trigger] order@[a] as int,
            #[trigger] order@[b] as int,
        ) by {
            assert(!pair_before(sorted[b], sorted[a]));
            assert(sorted[a] != sorted[b]);
        }
        assert forall|j: int| 0 <= j < w.len() implies #[trigger] listed(order@, j) by {
            assert(sorted.contains(tagged[j]));
            let m = choose|m: int| 0 <= m < sorted.len() && sorted[m] == tagged[j];
            assert(order@[m] == j);
        }
        assert(sorted_cover(w, order@));
        lemma_sorted_cover_is_ranking(w, order@);
    }
    order
}

} // verus!
