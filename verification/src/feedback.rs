//! The feedback for one guess: a status for each of its letters.
//!
//! A letter at the right place is `Green`.  The copies of a letter that the
//! secret holds beyond its `Green` places are handed out, from left to
//! right, to the places of the guess that hold the letter and are not
//! `Green`: those places are `Yellow`.  Every other place is `Red`.

use crate::status::LetterStatus;
use crate::word::{
    count_letter, count_upto, is_letter, is_word, lemma_count_upto_monotone, letter_at,
    letter_counts, letter_index, letters_of, ALPHABET_LENGTH, WORD_LENGTH,
};
use vstd::prelude::*;

verus! {

/// The feedback for one guess: one status for each of its letters.
pub type GuessWordStatus = [LetterStatus; WORD_LENGTH];

/// Among the first `n` places, those where guess and secret both hold `c`.
pub open spec fn exact_upto(secret: Seq<char>, guess: Seq<char>, c: char, n: int) -> nat
    decreases n,
{
    if n <= 0 {
        0
    } else {
        exact_upto(secret, guess, c, n - 1) + if guess[n - 1] == c && secret[n - 1] == c {
            1nat
        } else {
            0nat
        }
    }
}

/// Among the first `n` places, those where the guess holds `c` and the
/// secret holds another letter.
pub open spec fn misplaced_upto(secret: Seq<char>, guess: Seq<char>, c: char, n: int) -> nat
    decreases n,
{
    if n <= 0 {
        0
    } else {
        misplaced_upto(secret, guess, c, n - 1) + if guess[n - 1] == c && secret[n - 1] != c {
            1nat
        } else {
            0nat
        }
    }
}

/// The copies of `c` in the secret that no `Green` place of the guess
/// accounts for.
pub open spec fn spare(secret: Seq<char>, guess: Seq<char>, c: char) -> int {
    count_letter(secret, c) - exact_upto(secret, guess, c, guess.len() as int)
}

/// The status of place `i` of the guess.
pub open spec fn status_at(secret: Seq<char>, guess: Seq<char>, i: int) -> LetterStatus {
    if guess[i] == secret[i] {
        LetterStatus::Green
    } else if misplaced_upto(secret, guess, guess[i], i) < spare(secret, guess, guess[i]) {
        LetterStatus::Yellow
    } else {
        LetterStatus::Red
    }
}

/// The feedback for `guess` against `secret`.
pub open spec fn feedback(secret: Seq<char>, guess: Seq<char>) -> Seq<LetterStatus> {
    Seq::new(guess.len(), |i: int| status_at(secret, guess, i))
}

/// The places that agree on `c` are places of the secret that hold `c`.
pub proof fn lemma_exact_at_most_count(secret: Seq<char>, guess: Seq<char>, c: char, n: int)
    requires
        0 <= n,
    ensures
        exact_upto(secret, guess, c, n) <= count_upto(secret, c, n),
    decreases n,
{
    if n > 0 {
        lemma_exact_at_most_count(secret, guess, c, n - 1);
    }
}

/// What is left of a letter while the second pass runs: the spare copies
/// less those that earlier places have taken, and never less than none.
spec fn left_over(secret: Seq<char>, guess: Seq<char>, c: char, n: int) -> int {
    let rest = spare(secret, guess, c) - misplaced_upto(secret, guess, c, n);
    if rest > 0 {
        rest
    } else {
        0
    }
}

/// Computes the feedback for `guess` against `secret`.
///
/// Both must be words; the feedback is then exactly [`feedback`].
pub fn classify(secret: &str, guess: &str) -> (result: GuessWordStatus)
    requires
        is_word(secret@),
        is_word(guess@),
    ensures
        result@ == feedback(secret@, guess@),
{
    let s: Vec<usize> = letters_of(secret);
    let g: Vec<usize> = letters_of(guess);
    let mut remaining: [usize; ALPHABET_LENGTH] = letter_counts(secret);
    let mut result: GuessWordStatus = [LetterStatus::Unknown; WORD_LENGTH];

    let mut i: usize = 0;
    while i < WORD_LENGTH
        invariant
            i <= WORD_LENGTH,
            is_word(secret@),
            is_word(guess@),
            s@.len() == WORD_LENGTH,
            g@.len() == WORD_LENGTH,
            forall|j: int| 0 <= j < WORD_LENGTH ==> s@[j] == letter_index(#[trigger] secret@[j]),
            forall|j: int| 0 <= j < WORD_LENGTH ==> g@[j] == letter_index(#[trigger] guess@[j]),
            forall|j: int| 0 <= j < WORD_LENGTH ==> (#[trigger] g@[j]) < ALPHABET_LENGTH,
            forall|c: char|
                is_letter(c) ==> remaining@[#[trigger] letter_index(c)] == count_letter(secret@, c)
                    - exact_upto(secret@, guess@, c, i as int),
        decreases WORD_LENGTH - i,
    {
        if s[i] == g[i] {
            let k: usize = g[i];
            proof {
                let c = guess@[i as int];
                assert(secret@[i as int] == c);
                assert(letter_index(c) == k);
                lemma_exact_at_most_count(secret@, guess@, c, i as int + 1);
                lemma_count_upto_monotone(secret@, c, i as int + 1, WORD_LENGTH as int);
            }
            remaining[k] = remaining[k] - 1;
        } else {
            assert(secret@[i as int] != guess@[i as int]);
        }
        i = i + 1;
    }

    let mut i: usize = 0;
    while i < WORD_LENGTH
        invariant
            i <= WORD_LENGTH,
            is_word(secret@),
            is_word(guess@),
            s@.len() == WORD_LENGTH,
            g@.len() == WORD_LENGTH,
            forall|j: int| 0 <= j < WORD_LENGTH ==> s@[j] == letter_index(#[trigger] secret@[j]),
            forall|j: int| 0 <= j < WORD_LENGTH ==> g@[j] == letter_index(#[trigger] guess@[j]),
            forall|j: int| 0 <= j < WORD_LENGTH ==> (#[trigger] g@[j]) < ALPHABET_LENGTH,
            forall|c: char|
                is_letter(c) ==> remaining@[#[trigger] letter_index(c)] == left_over(
                    secret@,
                    guess@,
                    c,
                    i as int,
                ),
            forall|j: int| 0 <= j < i ==> (#[trigger] result@[j]) == status_at(secret@, guess@, j),
        decreases WORD_LENGTH - i,
    {
        let k: usize = g[i];
        proof {
            assert(letter_index(guess@[i as int]) == k);
            assert(s@[i as int] == g@[i as int] <==> secret@[i as int] == guess@[i as int]);
        }
        if s[i] == g[i] {
            result[i] = LetterStatus::Green;
        } else if remaining[k] != 0 {
            remaining[k] = remaining[k] - 1;
            result[i] = LetterStatus::Yellow;
        } else {
            result[i] = LetterStatus::Red;
        }
        i = i + 1;
    }
    assert(result@ =~= feedback(secret@, guess@));
    result
}

/// Among the first `n` places, those that hold status `s`.
pub open spec fn status_count(result: Seq<LetterStatus>, s: LetterStatus, n: int) -> nat
    decreases n,
{
    if n <= 0 {
        0
    } else {
        status_count(result, s, n - 1) + if result[n - 1] == s {
            1nat
        } else {
            0nat
        }
    }
}

/// Among the first `n` places, those where secret and guess hold the same
/// letter.
pub open spec fn agree_upto(secret: Seq<char>, guess: Seq<char>, n: int) -> nat
    decreases n,
{
    if n <= 0 {
        0
    } else {
        agree_upto(secret, guess, n - 1) + if secret[n - 1] == guess[n - 1] {
            1nat
        } else {
            0nat
        }
    }
}

/// Among the first `n` places, those where the guess holds `c` and the
/// feedback is `Green` or `Yellow`.
pub open spec fn marked_upto(guess: Seq<char>, result: Seq<LetterStatus>, c: char, n: int) -> nat
    decreases n,
{
    if n <= 0 {
        0
    } else {
        marked_upto(guess, result, c, n - 1) + if guess[n - 1] == c && (result[n - 1]
            == LetterStatus::Green || result[n - 1] == LetterStatus::Yellow) {
            1nat
        } else {
            0nat
        }
    }
}

/// Some place among the first `n` holds `c` in the guess and is `Red`.
pub open spec fn red_upto(guess: Seq<char>, result: Seq<LetterStatus>, c: char, n: int) -> bool {
    exists|i: int| 0 <= i < n && guess[i] == c && #[trigger] result[i] == LetterStatus::Red
}

/// A `Red` place of a letter among the first `n + 1` places is one among
/// the first `n`, or place `n` itself.
pub proof fn lemma_red_upto_step(guess: Seq<char>, result: Seq<LetterStatus>, c: char, n: int)
    requires
        0 <= n,
    ensures
        red_upto(guess, result, c, n + 1) <==> red_upto(guess, result, c, n) || (guess[n] == c
            && result[n] == LetterStatus::Red),
{
    if red_upto(guess, result, c, n) {
        let i = choose|i: int|
            0 <= i < n && guess[i] == c && #[trigger] result[i] == LetterStatus::Red;
        assert(0 <= i < n + 1 && guess[i] == c && result[i] == LetterStatus::Red);
    }
    if guess[n] == c && result[n] == LetterStatus::Red {
        assert(0 <= n < n + 1 && guess[n] == c && result[n] == LetterStatus::Red);
    }
    if red_upto(guess, result, c, n + 1) {
        let i = choose|i: int|
            0 <= i < n + 1 && guess[i] == c && #[trigger] result[i] == LetterStatus::Red;
        if i < n {
            assert(0 <= i < n && guess[i] == c && result[i] == LetterStatus::Red);
        }
    }
}

/// The smaller of two numbers.
pub open spec fn least(a: int, b: int) -> int {
    if a <= b {
        a
    } else {
        b
    }
}

/// The places of a letter that the feedback marks `Green` or `Yellow` are
/// the places that agree on it, and as many of the misplaced ones as the
/// secret has spare copies.
pub proof fn lemma_marked_count(secret: Seq<char>, guess: Seq<char>, c: char, n: int)
    requires
        secret.len() == guess.len(),
        0 <= n <= guess.len(),
    ensures
        spare(secret, guess, c) >= 0,
        marked_upto(guess, feedback(secret, guess), c, n) == exact_upto(secret, guess, c, n)
            + least(misplaced_upto(secret, guess, c, n) as int, spare(secret, guess, c)),
    decreases n,
{
    lemma_exact_at_most_count(secret, guess, c, guess.len() as int);
    if n > 0 {
        lemma_marked_count(secret, guess, c, n - 1);
    }
}

/// A place of a letter is `Red` exactly when the guess has more misplaced
/// copies of the letter than the secret has spare ones.
pub proof fn lemma_red_iff_excess(secret: Seq<char>, guess: Seq<char>, c: char, n: int)
    requires
        secret.len() == guess.len(),
        0 <= n <= guess.len(),
    ensures
        red_upto(guess, feedback(secret, guess), c, n) <==> misplaced_upto(secret, guess, c, n)
            > spare(secret, guess, c),
    decreases n,
{
    lemma_exact_at_most_count(secret, guess, c, guess.len() as int);
    if n > 0 {
        lemma_red_iff_excess(secret, guess, c, n - 1);
        lemma_red_upto_step(guess, feedback(secret, guess), c, n - 1);
    }
}

/// The `Green` places of the feedback are the places where guess and
/// secret agree.
pub proof fn lemma_green_count(secret: Seq<char>, guess: Seq<char>, n: int)
    requires
        0 <= n <= guess.len(),
    ensures
        status_count(feedback(secret, guess), LetterStatus::Green, n) == agree_upto(
            secret,
            guess,
            n,
        ),
    decreases n,
{
    if n > 0 {
        lemma_green_count(secret, guess, n - 1);
    }
}

/// The feedback for a guess has exactly as many `Green` places as there are
/// places where guess and secret hold the same letter, and for no letter
/// does it mark more places `Green` or `Yellow` than the secret has copies
/// of that letter.
pub proof fn lemma_feedback_respects_counts(secret: Seq<char>, guess: Seq<char>, c: char)
    requires
        secret.len() == guess.len(),
    ensures
        status_count(feedback(secret, guess), LetterStatus::Green, guess.len() as int)
            == agree_upto(secret, guess, guess.len() as int),
        marked_upto(guess, feedback(secret, guess), c, guess.len() as int) <= count_letter(
            secret,
            c,
        ),
{
    lemma_green_count(secret, guess, guess.len() as int);
    lemma_marked_count(secret, guess, c, guess.len() as int);
}

/// The best status among the first `n` places of the guess that hold `c`;
/// `Unknown` where there is none.
pub open spec fn best_upto(guess: Seq<char>, result: Seq<LetterStatus>, c: char, n: int) -> LetterStatus
    decreases n,
{
    if n <= 0 {
        LetterStatus::Unknown
    } else if guess[n - 1] == c {
        best_upto(guess, result, c, n - 1).best_of(result[n - 1])
    } else {
        best_upto(guess, result, c, n - 1)
    }
}

/// The knowledge about the alphabet after one more guess: each letter keeps
/// the better of what was known and what the guess has shown of it.
pub open spec fn merged(
    knowledge: Seq<LetterStatus>,
    guess: Seq<char>,
    result: Seq<LetterStatus>,
) -> Seq<LetterStatus> {
    Seq::new(
        knowledge.len(),
        |k: int| knowledge[k].best_of(best_upto(guess, result, letter_at(k), guess.len() as int)),
    )
}

/// Merges the feedback for one guess into the knowledge about the alphabet.
pub fn merge_knowledge(
    knowledge: &mut [LetterStatus; ALPHABET_LENGTH],
    guess: &str,
    result: &GuessWordStatus,
)
    requires
        is_word(guess@),
    ensures
        final(knowledge)@ == merged(old(knowledge)@, guess@, result@),
{
    let g: Vec<usize> = letters_of(guess);
    let ghost before = knowledge@;
    let mut i: usize = 0;
    while i < WORD_LENGTH
        invariant
            i <= WORD_LENGTH,
            is_word(guess@),
            g@.len() == WORD_LENGTH,
            before.len() == ALPHABET_LENGTH,
            forall|j: int| 0 <= j < WORD_LENGTH ==> g@[j] == letter_index(#[trigger] guess@[j]),
            forall|j: int| 0 <= j < WORD_LENGTH ==> (#[trigger] g@[j]) < ALPHABET_LENGTH,
            forall|c: char|
                is_letter(c) ==> knowledge@[#[trigger] letter_index(c)] == before[letter_index(
                    c,
                )].best_of(best_upto(guess@, result@, c, i as int)),
        decreases WORD_LENGTH - i,
    {
        let k: usize = g[i];
        proof {
            assert(letter_index(guess@[i as int]) == k);
        }
        knowledge[k] = knowledge[k].max(result[i]);
        i = i + 1;
    }
    proof {
        assert forall|k: int| 0 <= k < ALPHABET_LENGTH implies knowledge@[k] == merged(
            before,
            guess@,
            result@,
        )[k] by {
            let c = letter_at(k);
            assert(is_letter(c) && letter_index(c) == k);
        }
        assert(knowledge@ =~= merged(before, guess@, result@));
    }
}

/// Merging the same feedback a second time changes nothing.
pub proof fn lemma_merge_idempotent(
    knowledge: Seq<LetterStatus>,
    guess: Seq<char>,
    result: Seq<LetterStatus>,
)
    ensures
        merged(merged(knowledge, guess, result), guess, result) == merged(knowledge, guess, result),
{
    assert(merged(merged(knowledge, guess, result), guess, result) =~= merged(
        knowledge,
        guess,
        result,
    ));
}

/// Merging never lowers what is known of a letter.
pub proof fn lemma_merge_only_improves(
    knowledge: Seq<LetterStatus>,
    guess: Seq<char>,
    result: Seq<LetterStatus>,
    k: int,
)
    requires
        0 <= k < knowledge.len(),
    ensures
        merged(knowledge, guess, result).len() == knowledge.len(),
        merged(knowledge, guess, result)[k].level() >= knowledge[k].level(),
{
}

} // verus!
