//! Recommending guesses: how often each letter stands at each place among
//! the candidates, a score for each candidate, and the candidates with the
//! highest scores.
//!
//! The weight of a letter at a place is the share of the candidates that
//! hold the letter there.  All weights of one table are fractions over the
//! number of candidates, so the table keeps the numerators and the common
//! denominator, and scores are compared by their numerators.

use crate::ranking::{
    first_max, ints_of, is_ranking, lemma_ranking_is_sorted, lemma_ranking_starts_with_first_max,
    rank_of, ranking,
};
use crate::word::{
    all_words, is_letter, is_word, letter_index, letters_of, words_of, ALPHABET_LENGTH,
    WORD_LENGTH,
};
use vstd::prelude::*;

verus! {

/// No more than this many words are recommended at a time.
pub const RECOMMEND_NUMBER: usize = 5;

/// Among the first `n` words of the pool, those that hold `c` at place
/// `pos`.
pub open spec fn column_count(pool: Seq<Seq<char>>, pos: int, c: char, n: int) -> nat
    decreases n,
{
    if n <= 0 {
        0
    } else {
        column_count(pool, pos, c, n - 1) + if pool[n - 1][pos] == c {
            1nat
        } else {
            0nat
        }
    }
}

/// The score of a word over its first `n` places: for each place, the
/// number of words of the pool that hold the same letter there.
pub open spec fn score_upto(word: Seq<char>, pool: Seq<Seq<char>>, n: int) -> nat
    decreases n,
{
    if n <= 0 {
        0
    } else {
        score_upto(word, pool, n - 1) + column_count(pool, n - 1, word[n - 1], pool.len() as int)
    }
}

/// The score of a word against a pool, as a multiple of the weight of one
/// word: the sum over its places of the number of words of the pool that
/// hold the same letter at that place.
pub open spec fn score_of(word: Seq<char>, pool: Seq<Seq<char>>) -> nat {
    score_upto(word, pool, word.len() as int)
}

/// The scores of the words of a pool against the pool itself.
pub open spec fn scores_of(pool: Seq<Seq<char>>) -> Seq<int> {
    Seq::new(pool.len(), |i: int| score_of(pool[i], pool) as int)
}

/// The word of a pool that is recommended first: the first of those with
/// the highest score.
pub open spec fn top_word(pool: Seq<Seq<char>>) -> Seq<char> {
    pool[first_max(scores_of(pool))]
}

/// For each place of a word and each letter, the number of words of a pool
/// that hold the letter at that place, and the size of the pool.
///
/// The weight of a letter at a place is `counts[place][letter] / total`,
/// and 0 where `total` is 0.
pub struct WeightTable {
    pub counts: [[usize; ALPHABET_LENGTH]; WORD_LENGTH],
    pub total: usize,
}

impl WeightTable {
    /// The table holds the counts of the first `n` words of the pool.
    pub open spec fn counts_upto(&self, pool: Seq<Seq<char>>, n: int) -> bool {
        forall|pos: int, c: char|
            0 <= pos < WORD_LENGTH && is_letter(c) ==> #[trigger] self.counts@[pos]@[letter_index(
                c,
            )] == column_count(pool, pos, c, n)
    }

    /// The table is the weight table of the pool.
    pub open spec fn describes(&self, pool: Seq<Seq<char>>) -> bool {
        &&& self.total == pool.len()
        &&& self.counts_upto(pool, pool.len() as int)
    }

    /// The sum of the counts that the table holds for the first `n`
    /// letters of a word, each at its place.
    pub open spec fn grade_upto(&self, word: Seq<char>, n: int) -> nat
        decreases n,
    {
        if n <= 0 {
            0
        } else {
            self.grade_upto(word, n - 1) + self.counts@[n - 1]@[letter_index(word[n - 1])] as nat
        }
    }

    /// The grade of a word: the sum of the counts that the table holds for
    /// its letters, each at its place.  Divided by `total` it is the sum of
    /// the weights of its letters.
    pub open spec fn grade(&self, word: Seq<char>) -> nat {
        self.grade_upto(word, word.len() as int)
    }
}

/// Against the weight table of a pool, the grade of a word is its score
/// against the pool.
pub proof fn lemma_grade_is_score(table: WeightTable, word: Seq<char>, pool: Seq<Seq<char>>, n: int)
    requires
        table.describes(pool),
        is_word(word),
        0 <= n <= WORD_LENGTH,
    ensures
        table.grade_upto(word, n) == score_upto(word, pool, n),
    decreases n,
{
    if n > 0 {
        lemma_grade_is_score(table, word, pool, n - 1);
        assert(is_letter(word[n - 1]));
    }
}

/// No more words hold a letter at a place than there are words.
pub proof fn lemma_column_count_bound(pool: Seq<Seq<char>>, pos: int, c: char, n: int)
    requires
        0 <= n,
    ensures
        column_count(pool, pos, c, n) <= n,
    decreases n,
{
    if n > 0 {
        lemma_column_count_bound(pool, pos, c, n - 1);
    }
}

/// Counts, for each place and each letter, the words of the pool that hold
/// the letter at that place.
pub fn compute_letter_weight(pool: &Vec<String>) -> (table: WeightTable)
    requires
        all_words(pool@),
    ensures
        table.describes(words_of(pool@)),
{
    let mut table = WeightTable {
        counts: [[0usize; ALPHABET_LENGTH]; WORD_LENGTH],
        total: pool.len(),
    };
    let ghost words = words_of(pool@);
    let mut i: usize = 0;
    while i < pool.len()
        invariant
            i <= pool.len(),
            all_words(pool@),
            words == words_of(pool@),
            table.total == pool.len(),
            table.counts_upto(words, i as int),
        decreases pool.len() - i,
    {
        let letters: Vec<usize> = letters_of(pool[i].as_str());
        let ghost word = pool@[i as int]@;
        assert(words[i as int] == word);
        let mut pos: usize = 0;
        while pos < WORD_LENGTH
            invariant
                pos <= WORD_LENGTH,
                i < pool.len(),
                is_word(word),
                words.len() == pool@.len(),
                words[i as int] == word,
                table.total == pool.len(),
                letters@.len() == WORD_LENGTH,
                forall|j: int| 0 <= j < WORD_LENGTH ==> letters@[j] == letter_index(#[trigger] word[j]),
                forall|j: int| 0 <= j < WORD_LENGTH ==> (#[trigger] letters@[j]) < ALPHABET_LENGTH,
                forall|p: int, c: char|
                    0 <= p < WORD_LENGTH && is_letter(c) ==> #[trigger] table.counts@[p]@[letter_index(
                        c,
                    )] == column_count(
                        words,
                        p,
                        c,
                        if p < pos {
                            i as int + 1
                        } else {
                            i as int
                        },
                    ),
            decreases WORD_LENGTH - pos,
        {
            let k: usize = letters[pos];
            proof {
                assert(letter_index(word[pos as int]) == k);
                lemma_column_count_bound(words, pos as int, word[pos as int], i as int);
            }
            let mut row: [usize; ALPHABET_LENGTH] = table.counts[pos];
            row[k] = row[k] + 1;
            table.counts[pos] = row;
            pos = pos + 1;
        }
        i = i + 1;
    }
    table
}

/// Scores a word against a weight table: the sum over its places of the
/// count the table holds for its letter there.
pub fn compute_next_guess_grade(word: &str, table: &WeightTable) -> (grade: u128)
    requires
        is_word(word@),
    ensures
        grade == table.grade(word@),
{
    let letters: Vec<usize> = letters_of(word);
    let mut grade: u128 = 0;
    let mut pos: usize = 0;
    while pos < WORD_LENGTH
        invariant
            pos <= WORD_LENGTH,
            is_word(word@),
            letters@.len() == WORD_LENGTH,
            forall|j: int| 0 <= j < WORD_LENGTH ==> letters@[j] == letter_index(#[trigger] word@[j]),
            forall|j: int| 0 <= j < WORD_LENGTH ==> (#[trigger] letters@[j]) < ALPHABET_LENGTH,
            grade <= pos * usize::MAX,
            grade == table.grade_upto(word@, pos as int),
        decreases WORD_LENGTH - pos,
    {
        let k: usize = letters[pos];
        let count: usize = table.counts[pos][k];
        proof {
            assert(letter_index(word@[pos as int]) == k);
        }
        grade = grade + count as u128;
        pos = pos + 1;
    }
    grade
}

/// The smaller of two lengths.
pub open spec fn shorter(a: int, b: int) -> int {
    if a <= b {
        a
    } else {
        b
    }
}

/// Recommends up to `n_max` words of the pool: those with the highest
/// scores, the highest first, words of equal score in the order in which
/// the pool holds them.
pub fn recommend(pool: &Vec<String>, n_max: usize) -> (picks: Vec<String>)
    requires
        all_words(pool@),
    ensures
        picks@.len() == shorter(n_max as int, pool@.len() as int),
        forall|i: int|
            0 <= i < pool@.len() && (#[trigger] rank_of(scores_of(words_of(pool@)), i))
                < picks@.len() ==> picks@[rank_of(scores_of(words_of(pool@)), i) as int]@
                == pool@[i]@,
        forall|k: int|
            0 <= k < picks@.len() ==> words_of(pool@).contains(#[trigger] picks@[k]@),
        forall|k: int, l: int|
            0 <= k < l < picks@.len() ==> score_of(#[trigger] picks@[k]@, words_of(pool@))
                >= score_of(#[trigger] picks@[l]@, words_of(pool@)),
        picks@.len() > 0 ==> picks@[0]@ == top_word(words_of(pool@)),
        all_words(picks@),
{
    let ghost words = words_of(pool@);
    let table: WeightTable = compute_letter_weight(pool);
    let mut grades: Vec<u128> = Vec::new();
    let mut i: usize = 0;
    while i < pool.len()
        invariant
            i <= pool.len(),
            all_words(pool@),
            words == words_of(pool@),
            table.describes(words),
            grades@.len() == i,
            forall|j: int| 0 <= j < i ==> #[trigger] grades@[j] == score_of(words[j], words),
        decreases pool.len() - i,
    {
        let grade: u128 = compute_next_guess_grade(pool[i].as_str(), &table);
        proof {
            assert(words[i as int] == pool@[i as int]@);
            lemma_grade_is_score(table, words[i as int], words, WORD_LENGTH as int);
        }
        grades.push(grade);
        i = i + 1;
    }
    let order: Vec<usize> = ranking(&grades);
    let ghost scores = scores_of(words);
    assert(ints_of(grades@) =~= scores);

    let wanted: usize = if n_max < pool.len() {
        n_max
    } else {
        pool.len()
    };
    let mut picks: Vec<String> = Vec::new();
    let mut k: usize = 0;
    while k < wanted
        invariant
            k <= wanted,
            wanted <= pool.len(),
            words == words_of(pool@),
            all_words(pool@),
            is_ranking(scores, order@),
            scores.len() == pool@.len(),
            picks@.len() == k,
            forall|j: int| 0 <= j < k ==> (#[trigger] picks@[j])@ == pool@[order@[j] as int]@,
        decreases wanted - k,
    {
        picks.push(pool[order[k]].clone());
        k = k + 1;
    }
    proof {
        assert forall|k: int| 0 <= k < picks@.len() implies words.contains(
            #[trigger] picks@[k]@,
        ) by {
            assert(words[order@[k] as int] == picks@[k]@);
        }
        assert forall|k: int, l: int| 0 <= k < l < picks@.len() implies score_of(
            #[trigger] picks@[k]@,
            words,
        ) >= score_of(#[trigger] picks@[l]@, words) by {
            lemma_ranking_is_sorted(scores, order@, k, l);
            assert(scores[order@[k] as int] == score_of(words[order@[k] as int], words));
            assert(scores[order@[l] as int] == score_of(words[order@[l] as int], words));
        }
        if picks@.len() > 0 {
            lemma_ranking_starts_with_first_max(scores, order@);
        }
    }
    picks
}

} // verus!
