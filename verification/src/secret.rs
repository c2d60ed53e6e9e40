//! Picking the secret of the day: a shuffle of the answer list that the
//! seed decides, and the day as a place in it.
//!
//! The shuffle is that of the rand crate, version 0.8: the generator is
//! `StdRng`, a ChaCha generator with 12 rounds, seeded from the 64 bits of
//! the seed by `seed_from_u64`; `shuffle` is the Fisher-Yates shuffle, from
//! the last place of the list down.  Another generator or another shuffle
//! would give other secrets for the same seed and day.

use rand::rngs::StdRng;
use rand::seq::SliceRandom;
use rand::SeedableRng;
use vstd::prelude::*;

use crate::game::Game;
use crate::word::words_of;

verus! {

/// What rand's `shuffle` makes of `items` when its generator is a `StdRng`
/// that `seed_from_u64` has made from `seed`.
pub uninterp spec fn shuffled(items: Seq<usize>, seed: u64) -> Seq<usize>;

/// Shuffles `items` with rand: `StdRng::seed_from_u64(seed)` makes the
/// generator and `SliceRandom::shuffle` permutes the slice in place.
///
/// Taken on trust: the outcome is a function of the items and the seed
/// (the generator is deterministic, and `shuffle` draws its indices in 32
/// bits wherever the length allows, so that every platform walks the same
/// path), and it holds the same items as before (`shuffle` only swaps).
#[verifier::external_body]
fn shuffle_seeded(items: &mut Vec<usize>, seed: u64)
    ensures
        final(items)@ == shuffled(old(items)@, seed),
        final(items)@.to_multiset() == old(items)@.to_multiset(),
{
    let mut rng: StdRng = StdRng::seed_from_u64(seed);
    items.shuffle(&mut rng);
}

/// The places `0, 1, .., n - 1`, in order.
pub open spec fn places(n: nat) -> Seq<usize> {
    Seq::new(n, |i: int| i as usize)
}

/// The shuffle that `seed` decides holds each of the places `0, .., n - 1`
/// once.
pub open spec fn is_shuffle_of_places(n: nat, seed: u64) -> bool {
    shuffled(places(n), seed).to_multiset() == places(n).to_multiset()
}

/// An order that holds each of the places `0, .., n - 1` once has `n`
/// entries, none twice, each of them a place, and every place among them.
/// The places must be numbers of the machine.
pub proof fn lemma_order_of_places(order: Seq<usize>, n: nat)
    requires
        n <= usize::MAX,
        order.to_multiset() == places(n).to_multiset(),
    ensures
        order.len() == n,
        order.no_duplicates(),
        forall|k: int| 0 <= k < order.len() ==> (#[trigger] order[k]) < n,
        forall|p: int| 0 <= p < n ==> order.contains(#[trigger] places(n)[p]),
{
    broadcast use vstd::seq_lib::group_to_multiset_ensures;

    let all = places(n);
    assert(order.to_multiset().len() == all.to_multiset().len());
    assert(all.no_duplicates());
    all.lemma_multiset_has_no_duplicates();
    order.lemma_multiset_has_no_duplicates_conv();
    assert forall|k: int| 0 <= k < order.len() implies (#[trigger] order[k]) < n by {
        assert(order.contains(order[k]));
        assert(order.to_multiset().count(order[k]) > 0);
        assert(all.to_multiset().count(order[k]) > 0);
        assert(all.contains(order[k]));
    }
    assert forall|p: int| 0 <= p < n implies order.contains(#[trigger] all[p]) by {
        assert(all.contains(all[p]));
        assert(all.to_multiset().count(all[p]) > 0);
        assert(order.to_multiset().count(all[p]) > 0);
    }
}

/// Under one seed, different days of a list without duplicates have
/// different secrets.
pub proof fn lemma_days_have_distinct_secrets(
    words: Seq<Seq<char>>,
    seed: u64,
    day: int,
    other: int,
)
    requires
        words.len() <= usize::MAX,
        is_shuffle_of_places(words.len(), seed),
        words.no_duplicates(),
        1 <= day <= words.len(),
        1 <= other <= words.len(),
        day != other,
    ensures
        pick_secret(words, seed, day) != pick_secret(words, seed, other),
{
    let order = shuffled(places(words.len()), seed);
    lemma_order_of_places(order, words.len());
    assert(order[day - 1] != order[other - 1]);
}

/// Under one seed, every word of the list is the secret of some day.
pub proof fn lemma_every_word_has_its_day(words: Seq<Seq<char>>, seed: u64, i: int)
    requires
        words.len() <= usize::MAX,
        is_shuffle_of_places(words.len(), seed),
        0 <= i < words.len(),
    ensures
        exists|day: int| 1 <= day <= words.len() && #[trigger] pick_secret(words, seed, day) == words[i],
{
    let n = words.len();
    let order = shuffled(places(n), seed);
    lemma_order_of_places(order, n);
    assert(places(n)[i] == i);
    assert(order.contains(places(n)[i]));
    let k = choose|k: int| 0 <= k < order.len() && order[k] == places(n)[i];
    assert(pick_secret(words, seed, k + 1) == words[i]);
}

/// The secret of day `day` (counted from 1): the word at the place that
/// the shuffle of the seed puts `day`-th.
pub open spec fn pick_secret(words: Seq<Seq<char>>, seed: u64, day: int) -> Seq<char> {
    words[shuffled(places(words.len()), seed)[day - 1] as int]
}

/// The word of day `day` (counted from 1) under the order `order`: the
/// word at place `order[day - 1]`.
pub fn word_of_day(word_list: &Vec<String>, order: &Vec<usize>, day: usize) -> (word: String)
    requires
        1 <= day <= order@.len(),
        order@[day - 1] < word_list@.len(),
    ensures
        word@ == word_list@[order@[day - 1] as int]@,
{
    word_list[order[day - 1]].clone()
}

impl Game {
    /// Picks the secret of day `day` (counted from 1) from `word_list`: the
    /// list is shuffled as `seed` decides, and the word that comes `day`-th
    /// is returned.  The same list, seed and day always give the same word.
    pub fn get_seed_random_word(word_list: &Vec<String>, seed: u64, day: usize) -> (word: String)
        requires
            1 <= day <= word_list@.len(),
        ensures
            word@ == pick_secret(words_of(word_list@), seed, day as int),
            words_of(word_list@).contains(word@),
            is_shuffle_of_places(word_list@.len(), seed),
    {
        let n: usize = word_list.len();
        let mut order: Vec<usize> = Vec::new();
        let mut i: usize = 0;
        while i < n
            invariant
                i <= n,
                order@.len() == i,
                forall|j: int| 0 <= j < i ==> #[trigger] order@[j] == j,
            decreases n - i,
        {
            order.push(i);
            i = i + 1;
        }
        let ghost before = order@;
        assert(before =~= places(n as nat));
        shuffle_seeded(&mut order, seed);
        proof {
            lemma_order_of_places(order@, n as nat);
            let picked = order@[day - 1];
            assert(words_of(word_list@)[picked as int] == word_list@[picked as int]@);
        }
        word_of_day(word_list, &order, day)
    }
}

} // verus!
