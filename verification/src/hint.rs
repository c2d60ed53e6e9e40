//! Narrowing a pool of candidate words by the feedback for one guess.
//!
//! A word stays in the pool when it could be the secret as far as this one
//! guess tells: it agrees with the guess at every `Green` place, differs at
//! every `Yellow` and `Red` place, holds every `Yellow` letter somewhere,
//! and holds each letter as often as the feedback allows.

use crate::feedback::{
    feedback, lemma_marked_count, lemma_red_iff_excess, lemma_red_upto_step, marked_upto,
    red_upto, GuessWordStatus,
};
use crate::status::LetterStatus;
use crate::word::{
    all_words, count_letter, is_letter, is_word, lemma_count_positive_iff_occurs, letter_at,
    letter_counts, letter_index, letters_of, words_of, ALPHABET_LENGTH, WORD_LENGTH,
};
use vstd::prelude::*;

verus! {

/// What the feedback at place `i` asks of a candidate word.
pub open spec fn place_fits(
    word: Seq<char>,
    guess: Seq<char>,
    result: Seq<LetterStatus>,
    i: int,
) -> bool {
    match result[i] {
        LetterStatus::Green => word[i] == guess[i],
        LetterStatus::Yellow => word[i] != guess[i] && word.contains(guess[i]),
        LetterStatus::Red => word[i] != guess[i],
        LetterStatus::Unknown => true,
    }
}

/// The number of places of the guess that hold `c` and are `Green` or
/// `Yellow`: the secret has at least this many copies of `c`.
pub open spec fn required_count(guess: Seq<char>, result: Seq<LetterStatus>, c: char) -> nat {
    marked_upto(guess, result, c, guess.len() as int)
}

/// Some place of the guess holds `c` and is `Red`: the secret has no more
/// copies of `c` than the `Green` and `Yellow` places account for.
pub open spec fn is_capped(guess: Seq<char>, result: Seq<LetterStatus>, c: char) -> bool {
    red_upto(guess, result, c, guess.len() as int)
}

/// What the feedback asks of the number of copies of `c` in a candidate.
pub open spec fn count_fits(
    word: Seq<char>,
    guess: Seq<char>,
    result: Seq<LetterStatus>,
    c: char,
) -> bool {
    if is_capped(guess, result, c) {
        count_letter(word, c) == required_count(guess, result, c)
    } else {
        count_letter(word, c) >= required_count(guess, result, c)
    }
}

/// `word` could be the secret, as far as the feedback `result` for `guess`
/// tells.
pub open spec fn consistent(word: Seq<char>, guess: Seq<char>, result: Seq<LetterStatus>) -> bool {
    &&& forall|i: int| 0 <= i < guess.len() ==> #[trigger] place_fits(word, guess, result, i)
    &&& forall|c: char| is_letter(c) ==> #[trigger] count_fits(word, guess, result, c)
}

/// The test that [`narrow`] filters a pool by.
pub open spec fn consistent_with(guess: Seq<char>, result: Seq<LetterStatus>) -> spec_fn(
    Seq<char>,
) -> bool {
    |word: Seq<char>| consistent(word, guess, result)
}

/// For each letter, how many copies the feedback asks for and whether it
/// caps them.
struct CountRule {
    required: [usize; ALPHABET_LENGTH],
    capped: [bool; ALPHABET_LENGTH],
}

impl CountRule {
    spec fn describes(&self, guess: Seq<char>, result: Seq<LetterStatus>, n: int) -> bool {
        &&& forall|c: char|
            is_letter(c) ==> self.required@[#[trigger] letter_index(c)] == marked_upto(
                guess,
                result,
                c,
                n,
            )
        &&& forall|c: char|
            is_letter(c) ==> self.capped@[#[trigger] letter_index(c)] == red_upto(
                guess,
                result,
                c,
                n,
            )
    }
}

/// Reads off the feedback how often each letter must occur.
fn count_rule(guess: &str, result: &GuessWordStatus) -> (rule: CountRule)
    requires
        is_word(guess@),
    ensures
        rule.describes(guess@, result@, WORD_LENGTH as int),
{
    let g: Vec<usize> = letters_of(guess);
    let mut rule = CountRule {
        required: [0usize; ALPHABET_LENGTH],
        capped: [false; ALPHABET_LENGTH],
    };
    let mut i: usize = 0;
    while i < WORD_LENGTH
        invariant
            i <= WORD_LENGTH,
            is_word(guess@),
            g@.len() == WORD_LENGTH,
            forall|j: int| 0 <= j < WORD_LENGTH ==> g@[j] == letter_index(#[trigger] guess@[j]),
            forall|j: int| 0 <= j < WORD_LENGTH ==> (#[trigger] g@[j]) < ALPHABET_LENGTH,
            rule.describes(guess@, result@, i as int),
            forall|c: char|
                is_letter(c) ==> marked_upto(guess@, result@, c, i as int) <= i,
        decreases WORD_LENGTH - i,
    {
        let k: usize = g[i];
        let ghost n = i as int;
        proof {
            assert(letter_index(guess@[n]) == k);
        }
        match result[i] {
            LetterStatus::Green => {
                rule.required[k] = rule.required[k] + 1;
            },
            LetterStatus::Yellow => {
                rule.required[k] = rule.required[k] + 1;
            },
            LetterStatus::Red => {
                rule.capped[k] = true;
            },
            LetterStatus::Unknown => {},
        }
        proof {
            assert forall|c: char| is_letter(c) implies rule.capped@[#[trigger] letter_index(c)]
                == red_upto(guess@, result@, c, n + 1) by {
                lemma_red_upto_step(guess@, result@, c, n);
            }
        }
        i = i + 1;
    }
    rule
}

/// Decides whether one word could be the secret.
fn word_fits(word: &str, guess: &str, result: &GuessWordStatus, rule: &CountRule) -> (fits: bool)
    requires
        is_word(word@),
        is_word(guess@),
        rule.describes(guess@, result@, WORD_LENGTH as int),
    ensures
        fits == consistent(word@, guess@, result@),
{
    let w: Vec<usize> = letters_of(word);
    let g: Vec<usize> = letters_of(guess);
    let counts: [usize; ALPHABET_LENGTH] = letter_counts(word);

    let mut i: usize = 0;
    while i < WORD_LENGTH
        invariant
            i <= WORD_LENGTH,
            is_word(word@),
            is_word(guess@),
            w@.len() == WORD_LENGTH,
            g@.len() == WORD_LENGTH,
            forall|j: int| 0 <= j < WORD_LENGTH ==> w@[j] == letter_index(#[trigger] word@[j]),
            forall|j: int| 0 <= j < WORD_LENGTH ==> g@[j] == letter_index(#[trigger] guess@[j]),
            forall|j: int| 0 <= j < WORD_LENGTH ==> (#[trigger] g@[j]) < ALPHABET_LENGTH,
            forall|c: char|
                is_letter(c) ==> counts@[#[trigger] letter_index(c)] == count_letter(word@, c),
            forall|j: int| 0 <= j < i ==> #[trigger] place_fits(word@, guess@, result@, j),
        decreases WORD_LENGTH - i,
    {
        let ghost n = i as int;
        let same: bool = w[i] == g[i];
        let held: bool = counts[g[i]] > 0;
        proof {
            assert(same <==> word@[n] == guess@[n]);
            assert(letter_index(guess@[n]) == g@[n]);
            lemma_count_positive_iff_occurs(word@, guess@[n], WORD_LENGTH as int);
            assert(held <==> word@.contains(guess@[n]));
        }
        let ok: bool = match result[i] {
            LetterStatus::Green => same,
            LetterStatus::Yellow => !same && held,
            LetterStatus::Red => !same,
            LetterStatus::Unknown => true,
        };
        assert(ok == place_fits(word@, guess@, result@, n));
        if !ok {
            return false;
        }
        i = i + 1;
    }

    let mut k: usize = 0;
    while k < ALPHABET_LENGTH
        invariant
            k <= ALPHABET_LENGTH,
            rule.describes(guess@, result@, WORD_LENGTH as int),
            guess@.len() == WORD_LENGTH,
            forall|c: char|
                is_letter(c) ==> counts@[#[trigger] letter_index(c)] == count_letter(word@, c),
            forall|j: int| 0 <= j < guess@.len() ==> #[trigger] place_fits(word@, guess@, result@, j),
            forall|c: char|
                is_letter(c) && letter_index(c) < k ==> #[trigger] count_fits(
                    word@,
                    guess@,
                    result@,
                    c,
                ),
        decreases ALPHABET_LENGTH - k,
    {
        let ghost c = letter_at(k as int);
        proof {
            assert(is_letter(c) && letter_index(c) == k);
        }
        let ok: bool = if rule.capped[k] {
            counts[k] == rule.required[k]
        } else {
            counts[k] >= rule.required[k]
        };
        assert(ok == count_fits(word@, guess@, result@, c));
        if !ok {
            return false;
        }
        proof {
            assert forall|d: char| is_letter(d) && letter_index(d) < k + 1 implies #[trigger] count_fits(
                word@,
                guess@,
                result@,
                d,
            ) by {
                if letter_index(d) == k {
                    assert(d == c);
                }
            }
        }
        k = k + 1;
    }
    true
}

/// Keeps the words of `pool` that are consistent with the feedback
/// `result` for `guess`, in the order in which the pool holds them.
pub fn narrow(pool: &Vec<String>, guess: &str, result: &GuessWordStatus) -> (kept: Vec<String>)
    requires
        all_words(pool@),
        is_word(guess@),
    ensures
        words_of(kept@) == words_of(pool@).filter(consistent_with(guess@, result@)),
        all_words(kept@),
        words_of(pool@).no_duplicates() ==> words_of(kept@).no_duplicates(),
{
    proof {
        if words_of(pool@).no_duplicates() {
            lemma_filter_keeps_distinct(words_of(pool@), consistent_with(guess@, result@));
        }
    }
    let rule: CountRule = count_rule(guess, result);
    let mut kept: Vec<String> = Vec::new();
    let ghost pred = consistent_with(guess@, result@);
    let mut i: usize = 0;
    assert(words_of(pool@).take(0) =~= Seq::<Seq<char>>::empty());
    while i < pool.len()
        invariant
            i <= pool.len(),
            all_words(pool@),
            is_word(guess@),
            rule.describes(guess@, result@, WORD_LENGTH as int),
            pred == consistent_with(guess@, result@),
            words_of(kept@) == words_of(pool@).take(i as int).filter(pred),
            all_words(kept@),
        decreases pool.len() - i,
    {
        let ghost before = words_of(pool@).take(i as int);
        let ghost after = words_of(pool@).take(i as int + 1);
        let ghost old_kept = words_of(kept@);
        let fits: bool = word_fits(pool[i].as_str(), guess, result, &rule);
        proof {
            reveal(Seq::filter);
            assert(after.drop_last() =~= before);
            assert(after.last() == pool@[i as int]@);
            assert(pred(pool@[i as int]@) == fits);
            assert(after.filter(pred) == if fits {
                before.filter(pred).push(pool@[i as int]@)
            } else {
                before.filter(pred)
            });
        }
        if fits {
            kept.push(pool[i].clone());
            proof {
                assert(words_of(kept@) =~= old_kept.push(pool@[i as int]@));
            }
        }
        i = i + 1;
    }
    assert(words_of(pool@).take(pool@.len() as int) =~= words_of(pool@));
    kept
}

/// A filter that rejects an entry of a list returns a shorter list.
pub proof fn lemma_filter_shrinks<A>(list: Seq<A>, pred: spec_fn(A) -> bool, i: int)
    requires
        0 <= i < list.len(),
        !pred(list[i]),
    ensures
        list.filter(pred).len() < list.len(),
    decreases list.len(),
{
    reveal(Seq::filter);
    list.drop_last().lemma_filter_len(pred);
    if i < list.len() - 1 {
        lemma_filter_shrinks(list.drop_last(), pred, i);
    }
}

/// What a filter returns stood in the list.
pub proof fn lemma_filter_keeps_members<A>(list: Seq<A>, pred: spec_fn(A) -> bool, i: int)
    requires
        0 <= i < list.filter(pred).len(),
    ensures
        list.contains(list.filter(pred)[i]),
    decreases list.len(),
{
    reveal(Seq::filter);
    if list.len() > 0 {
        let rest = list.drop_last().filter(pred);
        if i < rest.len() {
            lemma_filter_keeps_members(list.drop_last(), pred, i);
            let j = choose|j: int| 0 <= j < list.drop_last().len() && list.drop_last()[j] == rest[i];
            assert(list[j] == rest[i]);
        } else {
            assert(list[list.len() - 1] == list.filter(pred)[i]);
        }
    }
}

/// A filter of a list without duplicates returns a list without
/// duplicates.
pub proof fn lemma_filter_keeps_distinct<A>(list: Seq<A>, pred: spec_fn(A) -> bool)
    requires
        list.no_duplicates(),
    ensures
        list.filter(pred).no_duplicates(),
    decreases list.len(),
{
    reveal(Seq::filter);
    if list.len() > 0 {
        let front = list.drop_last();
        let kept = front.filter(pred);
        lemma_filter_keeps_distinct(front, pred);
        if pred(list.last()) {
            assert forall|i: int| 0 <= i < kept.len() implies kept[i] != list.last() by {
                lemma_filter_keeps_members(front, pred, i);
                let j = choose|j: int| 0 <= j < front.len() && front[j] == kept[i];
                assert(list[j] == kept[i]);
            }
        }
    }
}

/// The secret is consistent with the feedback for any guess against it.
pub proof fn lemma_secret_is_consistent(secret: Seq<char>, guess: Seq<char>)
    requires
        secret.len() == guess.len(),
    ensures
        consistent(secret, guess, feedback(secret, guess)),
{
    let fb = feedback(secret, guess);
    let len = guess.len() as int;
    assert forall|i: int| 0 <= i < guess.len() implies #[trigger] place_fits(
        secret,
        guess,
        fb,
        i,
    ) by {
        if fb[i] == LetterStatus::Yellow {
            lemma_count_positive_iff_occurs(secret, guess[i], secret.len() as int);
        }
    }
    assert forall|c: char| is_letter(c) implies #[trigger] count_fits(secret, guess, fb, c) by {
        lemma_marked_count(secret, guess, c, len);
        lemma_red_iff_excess(secret, guess, c, len);
    }
}

/// Narrowing a pool by the feedback for a guess against the secret never
/// drops the secret.
pub proof fn lemma_narrow_keeps_secret(pool: Seq<Seq<char>>, secret: Seq<char>, guess: Seq<char>)
    requires
        pool.contains(secret),
        secret.len() == guess.len(),
    ensures
        pool.filter(consistent_with(guess, feedback(secret, guess))).contains(secret),
{
    broadcast use vstd::seq_lib::group_filter_ensures;

    lemma_secret_is_consistent(secret, guess);
    let i = choose|i: int| 0 <= i < pool.len() && pool[i] == secret;
    assert(consistent_with(guess, feedback(secret, guess))(pool[i]));
}

} // verus!
