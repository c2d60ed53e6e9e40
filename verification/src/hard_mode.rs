//! The hard-mode rule: a guess must use what the round has revealed.

use crate::feedback::GuessWordStatus;
use crate::status::LetterStatus;
use crate::word::{
    count_letter, is_letter, is_word, lemma_count_positive_iff_occurs, letter_at, letter_counts,
    letter_index, letters_of, ALPHABET_LENGTH, WORD_LENGTH,
};
use vstd::prelude::*;

verus! {

/// The candidate repeats the last guess at each of its `Green` places.
pub open spec fn keeps_greens(
    candidate: Seq<char>,
    last_guess: Seq<char>,
    last_result: Seq<LetterStatus>,
) -> bool {
    forall|i: int|
        0 <= i < last_guess.len() && #[trigger] last_result[i] == LetterStatus::Green
            ==> candidate[i] == last_guess[i]
}

/// The candidate holds every letter that is known to be `Yellow`.
pub open spec fn covers_yellows(candidate: Seq<char>, knowledge: Seq<LetterStatus>) -> bool {
    forall|c: char|
        is_letter(c) && knowledge[#[trigger] letter_index(c)] == LetterStatus::Yellow
            ==> candidate.contains(c)
}

/// The candidate is a legal next guess in hard mode.
pub open spec fn legal_next_guess(
    candidate: Seq<char>,
    last_guess: Seq<char>,
    last_result: Seq<LetterStatus>,
    knowledge: Seq<LetterStatus>,
) -> bool {
    keeps_greens(candidate, last_guess, last_result) && covers_yellows(candidate, knowledge)
}

/// Decides whether `candidate` may follow `last_guess` in hard mode: it
/// must keep every `Green` letter of the last guess in its place and hold
/// every letter whose known status is `Yellow`.
pub fn is_legal_next_guess(
    candidate: &str,
    last_guess: &str,
    last_result: &GuessWordStatus,
    knowledge: &[LetterStatus; ALPHABET_LENGTH],
) -> (legal: bool)
    requires
        is_word(candidate@),
        is_word(last_guess@),
    ensures
        legal == legal_next_guess(candidate@, last_guess@, last_result@, knowledge@),
{
    let w: Vec<usize> = letters_of(candidate);
    let g: Vec<usize> = letters_of(last_guess);
    let counts: [usize; ALPHABET_LENGTH] = letter_counts(candidate);

    let mut i: usize = 0;
    while i < WORD_LENGTH
        invariant
            i <= WORD_LENGTH,
            is_word(candidate@),
            is_word(last_guess@),
            w@.len() == WORD_LENGTH,
            g@.len() == WORD_LENGTH,
            forall|j: int| 0 <= j < WORD_LENGTH ==> w@[j] == letter_index(#[trigger] candidate@[j]),
            forall|j: int| 0 <= j < WORD_LENGTH ==> g@[j] == letter_index(#[trigger] last_guess@[j]),
            forall|j: int|
                0 <= j < i && #[trigger] last_result@[j] == LetterStatus::Green ==> candidate@[j]
                    == last_guess@[j],
        decreases WORD_LENGTH - i,
    {
        let ghost n = i as int;
        proof {
            assert(w@[n] == g@[n] <==> candidate@[n] == last_guess@[n]);
        }
        if last_result[i] == LetterStatus::Green && w[i] != g[i] {
            assert(last_result@[n] == LetterStatus::Green && candidate@[n] != last_guess@[n]);
            return false;
        }
        i = i + 1;
    }

    let mut k: usize = 0;
    while k < ALPHABET_LENGTH
        invariant
            k <= ALPHABET_LENGTH,
            is_word(candidate@),
            keeps_greens(candidate@, last_guess@, last_result@),
            forall|c: char|
                is_letter(c) ==> counts@[#[trigger] letter_index(c)] == count_letter(
                    candidate@,
                    c,
                ),
            forall|c: char|
                is_letter(c) && letter_index(c) < k && knowledge@[#[trigger] letter_index(c)]
                    == LetterStatus::Yellow ==> candidate@.contains(c),
        decreases ALPHABET_LENGTH - k,
    {
        let ghost c = letter_at(k as int);
        proof {
            assert(is_letter(c) && letter_index(c) == k);
            lemma_count_positive_iff_occurs(candidate@, c, WORD_LENGTH as int);
        }
        if knowledge[k] == LetterStatus::Yellow && counts[k] == 0 {
            assert(!candidate@.contains(c));
            return false;
        }
        proof {
            assert forall|d: char|
                is_letter(d) && letter_index(d) < k + 1 && knowledge@[#[trigger] letter_index(d)]
                    == LetterStatus::Yellow implies candidate@.contains(d) by {
                if letter_index(d) == k {
                    assert(d == c);
                }
            }
        }
        k = k + 1;
    }
    true
}

} // verus!
