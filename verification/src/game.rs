//! One round of the game: the secret, the guesses made against it, and what
//! they have revealed.

use vstd::prelude::*;

use crate::feedback::{
    classify, feedback, lemma_merge_only_improves, merge_knowledge, merged, GuessWordStatus,
};
use crate::hard_mode::{is_legal_next_guess, legal_next_guess};
use crate::hint::{
    consistent, consistent_with, lemma_filter_shrinks, lemma_narrow_keeps_secret, narrow,
    place_fits,
};
use crate::input::{contains_word, same_text, sanitize_word, sanitized};
use crate::recommend::{recommend, scores_of, shorter, top_word, RECOMMEND_NUMBER};
use crate::ranking::{lemma_first_max_upto, rank_of};
use crate::status::LetterStatus;
use crate::word::{all_words, is_word, words_of, ALPHABET_LENGTH, WORD_LENGTH};

verus! {

/// A round ends after this many guesses.
pub const TRY_CASES: usize = 6;

/// Why a word that was typed cannot be played.
#[derive(Debug, Copy, Clone, PartialEq, Eq, Structural)]
pub enum ErrorType {
    /// The word does not have `WORD_LENGTH` letters.
    WrongLength,
    /// The guess is not in the list of acceptable words.
    GuessNotInList,
    /// The secret is not in the list of answers.
    AnsNotInList,
    /// Hard mode is on and the guess does not use what was revealed.
    HintUnused,
}

impl ErrorType {
    /// What the error is called in the output that programs read.
    pub open spec fn terse() -> Seq<char> {
        "INVALID"@
    }

    /// What the error tells a player.
    pub open spec fn told(self) -> Seq<char> {
        match self {
            ErrorType::WrongLength => "The length of a word should be 5, please try another word!"@,
            ErrorType::GuessNotInList => "Not in the dictionary! Please try another word!"@,
            ErrorType::AnsNotInList => "Not in the dictionary! Please enter another answer!"@,
            ErrorType::HintUnused => "You must use the hint in difficult mode."@,
        }
    }

    /// The message for the error: what it tells a player where
    /// `is_tty` is set, and `INVALID` where it is not.
    pub fn print_error(&self, is_tty: bool) -> (message: String)
        ensures
            message@ == if is_tty {
                self.told()
            } else {
                ErrorType::terse()
            },
    {
        if is_tty {
            match self {
                ErrorType::WrongLength => String::from_str(
                    "The length of a word should be 5, please try another word!",
                ),
                ErrorType::GuessNotInList => String::from_str(
                    "Not in the dictionary! Please try another word!",
                ),
                ErrorType::AnsNotInList => String::from_str(
                    "Not in the dictionary! Please enter another answer!",
                ),
                ErrorType::HintUnused => String::from_str(
                    "You must use the hint in difficult mode.",
                ),
            }
        } else {
            String::from_str("INVALID")
        }
    }
}

/// The knowledge at the start of a round: nothing is known of any letter.
pub open spec fn fresh_knowledge() -> Seq<LetterStatus> {
    Seq::new(ALPHABET_LENGTH as nat, |k: int| LetterStatus::Unknown)
}

/// The knowledge after the first `n` guesses of a history.
pub open spec fn knowledge_after(
    history: Seq<(Seq<char>, Seq<LetterStatus>)>,
    n: int,
) -> Seq<LetterStatus>
    decreases n,
{
    if n <= 0 {
        fresh_knowledge()
    } else {
        merged(knowledge_after(history, n - 1), history[n - 1].0, history[n - 1].1)
    }
}

/// A pool narrowed by the feedback for a guess against the secret.
pub open spec fn narrowed_by(secret: Seq<char>, pool: Seq<Seq<char>>, guess: Seq<char>) -> Seq<
    Seq<char>,
> {
    pool.filter(consistent_with(guess, feedback(secret, guess)))
}

/// A pool narrowed by the feedback for each of the first `n` of the
/// guesses `played`, one after the other.
pub open spec fn pool_after(
    secret: Seq<char>,
    pool: Seq<Seq<char>>,
    played: Seq<Seq<char>>,
    n: int,
) -> Seq<Seq<char>>
    decreases n,
{
    if n <= 0 {
        pool
    } else {
        narrowed_by(secret, pool_after(secret, pool, played, n - 1), played[n - 1])
    }
}

/// `played` is the run of the solver from `pool` with `first` as the first
/// guess: it starts with `first`, every later guess is the top
/// recommendation from the pool narrowed by the feedback for all guesses
/// before it, and it ends with the secret, which no earlier guess is.
pub open spec fn is_solver_run(
    secret: Seq<char>,
    pool: Seq<Seq<char>>,
    first: Seq<char>,
    played: Seq<Seq<char>>,
) -> bool {
    &&& played.len() >= 1
    &&& played[0] == first
    &&& forall|k: int|
        1 <= k < played.len() ==> #[trigger] played[k] == top_word(
            pool_after(secret, pool, played, k),
        )
    &&& played.last() == secret
    &&& forall|k: int| 0 <= k < played.len() - 1 ==> #[trigger] played[k] != secret
}

/// The words of the guesses of a history from place `base` on.
pub open spec fn words_played(guesses: Seq<(String, GuessWordStatus)>, base: int) -> Seq<
    Seq<char>,
> {
    Seq::new((guesses.len() - base) as nat, |k: int| guesses[base + k].0@)
}

/// One round: a secret and the guesses made against it.
pub struct Game {
    /// Hard mode is on.
    pub difficult: bool,
    /// The secret.
    pub answer: String,
    /// The best status seen of each letter of the alphabet.
    pub alphabet: [LetterStatus; ALPHABET_LENGTH],
    /// The guesses in the order in which they were made, each with its
    /// feedback.
    pub guesses: Vec<(String, GuessWordStatus)>,
    /// The secret has been guessed.
    pub is_win: bool,
    /// The words that could still be the secret.
    pub hint_list: Vec<String>,
    /// The pool that the solver works on.
    pub test_list: Vec<String>,
}

impl Game {
    /// The guesses made, each with its feedback.
    pub open spec fn history(&self) -> Seq<(Seq<char>, Seq<LetterStatus>)> {
        Seq::new(self.guesses@.len(), |i: int| (self.guesses@[i].0@, self.guesses@[i].1@))
    }

    /// The round is well formed: the secret and the guesses are words, each
    /// guess carries the feedback for it, the alphabet holds what the
    /// guesses have revealed, and the pools hold words.
    pub open spec fn wf(&self) -> bool {
        &&& is_word(self.answer@)
        &&& forall|i: int|
            0 <= i < self.guesses@.len() ==> is_word((#[trigger] self.guesses@[i]).0@)
                && self.guesses@[i].1@ == feedback(self.answer@, self.guesses@[i].0@)
        &&& self.alphabet@ == knowledge_after(self.history(), self.guesses@.len() as int)
        &&& all_words(self.hint_list@)
        &&& all_words(self.test_list@)
    }

    /// Starts a round with the given secret and pools.
    pub fn new(
        answer: String,
        difficult: bool,
        hint_list: Vec<String>,
        test_list: Vec<String>,
    ) -> (game: Game)
        ensures
            game.answer == answer,
            game.difficult == difficult,
            game.alphabet@ == fresh_knowledge(),
            game.guesses@.len() == 0,
            !game.is_win,
            game.hint_list == hint_list,
            game.test_list == test_list,
            is_word(answer@) && all_words(hint_list@) && all_words(test_list@) ==> game.wf(),
    {
        let game = Game {
            difficult,
            answer,
            alphabet: [LetterStatus::Unknown; ALPHABET_LENGTH],
            guesses: Vec::new(),
            is_win: false,
            hint_list,
            test_list,
        };
        assert(game.alphabet@ =~= fresh_knowledge());
        game
    }

    /// The feedback for `word` against the secret.
    pub fn get_guess_word_status(&self, word: &str) -> (status: GuessWordStatus)
        requires
            is_word(self.answer@),
            is_word(word@),
        ensures
            status@ == feedback(self.answer@, word@),
    {
        classify(self.answer.as_str(), word)
    }

    /// Plays `word`: computes its feedback, merges it into the knowledge
    /// about the alphabet, and appends the guess to the history.
    pub fn play(&mut self, word: &str) -> (status: GuessWordStatus)
        requires
            old(self).wf(),
            is_word(word@),
        ensures
            final(self).wf(),
            status@ == feedback(old(self).answer@, word@),
            final(self).alphabet@ == merged(old(self).alphabet@, word@, status@),
            forall|k: int|
                0 <= k < ALPHABET_LENGTH ==> (#[trigger] final(self).alphabet@[k]).level() >= old(
                    self,
                ).alphabet@[k].level(),
            final(self).guesses@.len() == old(self).guesses@.len() + 1,
            forall|i: int|
                0 <= i < old(self).guesses@.len() ==> #[trigger] final(self).guesses@[i] == old(
                    self,
                ).guesses@[i],
            final(self).guesses@.last().0@ == word@,
            final(self).guesses@.last().1 == status,
            final(self).answer == old(self).answer,
            final(self).difficult == old(self).difficult,
            final(self).is_win == old(self).is_win,
            final(self).hint_list == old(self).hint_list,
            final(self).test_list == old(self).test_list,
    {
        let status: GuessWordStatus = self.get_guess_word_status(word);
        let ghost before = self.alphabet@;
        let ghost past = self.history();
        let ghost n = self.guesses@.len() as int;
        merge_knowledge(&mut self.alphabet, word, &status);
        self.guesses.push((word.to_owned(), status));
        proof {
            let now = self.history();
            assert(now.len() == n + 1);
            assert forall|i: int| 0 <= i < n implies now[i] == past[i] by {}
            lemma_knowledge_prefix(past, now, n);
            assert(now[n] == (word@, status@));
            assert forall|k: int| 0 <= k < ALPHABET_LENGTH implies (#[trigger] self.alphabet@[k]).level()
                >= before[k].level() by {
                lemma_merge_only_improves(before, word@, status@, k);
            }
        }
        status
    }

    /// The number of guesses made so far.
    pub fn get_tries(&self) -> (tries: usize)
        ensures
            tries == self.guesses@.len(),
    {
        self.guesses.len()
    }

    /// Tells whether the round is over once `word` has been played: it is
    /// when `word` is the secret, which wins the round, or when `TRY_CASES`
    /// guesses have been made.
    pub fn is_game_over(&mut self, word: &str) -> (over: bool)
        ensures
            over == (word@ == old(self).answer@ || old(self).guesses@.len() >= TRY_CASES),
            final(self).is_win == (old(self).is_win || word@ == old(self).answer@),
            final(self).answer == old(self).answer,
            final(self).difficult == old(self).difficult,
            final(self).alphabet == old(self).alphabet,
            final(self).guesses == old(self).guesses,
            final(self).hint_list == old(self).hint_list,
            final(self).test_list == old(self).test_list,
    {
        let tries_number: usize = self.guesses.len();
        if same_text(word, self.answer.as_str()) {
            self.is_win = true;
            true
        } else if tries_number >= TRY_CASES {
            true
        } else {
            false
        }
    }

    /// Tells whether `guess` is in `word_list`.
    pub fn input_valid_check(guess: &String, word_list: &Vec<String>) -> (valid: bool)
        ensures
            valid == words_of(word_list@).contains(guess@),
    {
        contains_word(word_list, guess.as_str())
    }

    /// The hard-mode rule for `word` as the next guess: legal before the
    /// first guess, and after it when `word` keeps the `Green` letters of
    /// the last guess and holds every letter known to be `Yellow`.
    pub fn check_difficult_mode(&self, word: &str) -> (legal: bool)
        requires
            self.wf(),
            is_word(word@),
        ensures
            legal == (self.guesses@.len() == 0 || legal_next_guess(
                word@,
                self.guesses@.last().0@,
                self.guesses@.last().1@,
                self.alphabet@,
            )),
    {
        if self.guesses.len() >= 1 {
            let last: &(String, GuessWordStatus) = &self.guesses[self.guesses.len() - 1];
            is_legal_next_guess(word, last.0.as_str(), &last.1, &self.alphabet)
        } else {
            true
        }
    }

    /// Checks a line that was typed as the secret: in the form in which
    /// words are compared it must have `WORD_LENGTH` letters and stand in
    /// `word_list`.
    pub fn get_secret_word(line: &str, word_list: &Vec<String>) -> (checked: Result<
        String,
        ErrorType,
    >)
        ensures
            checked is Ok <==> secret_verdict(sanitized(line@), words_of(word_list@)) is None,
            checked matches Ok(word) ==> word@ == sanitized(line@),
            checked matches Err(e) ==> secret_verdict(sanitized(line@), words_of(word_list@))
                == Some(e),
    {
        let secret_word: String = sanitize_word(line);
        if secret_word.as_str().unicode_len() != WORD_LENGTH {
            Err(ErrorType::WrongLength)
        } else if !contains_word(word_list, secret_word.as_str()) {
            Err(ErrorType::AnsNotInList)
        } else {
            Ok(secret_word)
        }
    }

    /// Checks a line that was typed as a guess: in the form in which words
    /// are compared it must have `WORD_LENGTH` letters, stand in
    /// `word_list` and, in hard mode, use what the round has revealed.
    pub fn ask_for_guess(&self, line: &str, word_list: &Vec<String>) -> (checked: Result<
        String,
        ErrorType,
    >)
        requires
            self.wf(),
            all_words(word_list@),
        ensures
            checked is Ok <==> self.guess_verdict(sanitized(line@), words_of(word_list@)) is None,
            checked matches Ok(word) ==> word@ == sanitized(line@) && is_word(word@),
            checked matches Err(e) ==> self.guess_verdict(sanitized(line@), words_of(word_list@))
                == Some(e),
    {
        let guess: String = sanitize_word(line);
        if guess.as_str().unicode_len() != WORD_LENGTH {
            return Err(ErrorType::WrongLength);
        }
        if !contains_word(word_list, guess.as_str()) {
            return Err(ErrorType::GuessNotInList);
        }
        proof {
            let i = choose|i: int|
                0 <= i < words_of(word_list@).len() && words_of(word_list@)[i] == guess@;
            assert(word_list@[i]@ == guess@);
        }
        if self.difficult {
            if !self.check_difficult_mode(guess.as_str()) {
                return Err(ErrorType::HintUnused);
            }
        }
        Ok(guess)
    }

    /// What stands against a guess in the form in which words are
    /// compared: nothing, or the first of the errors that it runs into.
    pub open spec fn guess_verdict(&self, guess: Seq<char>, words: Seq<Seq<char>>) -> Option<
        ErrorType,
    > {
        if guess.len() != WORD_LENGTH {
            Some(ErrorType::WrongLength)
        } else if !words.contains(guess) {
            Some(ErrorType::GuessNotInList)
        } else if self.difficult && !(self.guesses@.len() == 0 || legal_next_guess(
            guess,
            self.guesses@.last().0@,
            self.guesses@.last().1@,
            self.alphabet@,
        )) {
            Some(ErrorType::HintUnused)
        } else {
            None
        }
    }

    /// The words of the pool that are consistent with the feedback
    /// `last_guess_status` for `last_guess_word`, in the order of the pool.
    pub fn get_hint(&mut self, last_guess_word: &str, last_guess_status: GuessWordStatus) -> (kept:
        Vec<String>)
        requires
            all_words(old(self).hint_list@),
            is_word(last_guess_word@),
        ensures
            words_of(kept@) == words_of(old(self).hint_list@).filter(
                consistent_with(last_guess_word@, last_guess_status@),
            ),
            all_words(kept@),
            *final(self) == *old(self),
    {
        narrow(&self.hint_list, last_guess_word, &last_guess_status)
    }

    /// Up to `RECOMMEND_NUMBER` words of `hint_list`, those with the
    /// highest scores against the list, the highest first, words of equal
    /// score in the order of the list.
    pub fn get_recommend_words(&mut self, hint_list: &Vec<String>) -> (picks: Vec<String>)
        requires
            all_words(hint_list@),
        ensures
            picks@.len() == shorter(RECOMMEND_NUMBER as int, hint_list@.len() as int),
            forall|i: int|
                0 <= i < hint_list@.len() && (#[trigger] rank_of(
                    scores_of(words_of(hint_list@)),
                    i,
                )) < picks@.len() ==> picks@[rank_of(scores_of(words_of(hint_list@)), i) as int]@
                    == hint_list@[i]@,
            picks@.len() > 0 ==> picks@[0]@ == top_word(words_of(hint_list@)),
            all_words(picks@),
            *final(self) == *old(self),
    {
        recommend(hint_list, RECOMMEND_NUMBER)
    }

    /// Solves the round without a player and counts the guesses: `word` is
    /// played first and the pool of hints narrowed by its feedback; after
    /// that the top recommendation from the pool is played and the pool
    /// narrowed again, until the word played is the secret.  The guesses
    /// are appended to the history, and both pools are left as the last
    /// narrowing made them.  The secret must be in the pool.
    pub fn over_all_game_numbers(&mut self, word: &str) -> (num: u64)
        requires
            old(self).wf(),
            is_word(word@),
            words_of(old(self).hint_list@).contains(old(self).answer@),
            old(self).hint_list@.len() < u64::MAX,
        ensures
            1 <= num <= old(self).hint_list@.len() + 1,
            final(self).guesses@.len() == old(self).guesses@.len() + num,
            forall|i: int|
                0 <= i < old(self).guesses@.len() ==> #[trigger] final(self).guesses@[i] == old(
                    self,
                ).guesses@[i],
            is_solver_run(
                old(self).answer@,
                words_of(old(self).hint_list@),
                word@,
                words_played(final(self).guesses@, old(self).guesses@.len() as int),
            ),
            final(self).guesses@.last().0@ == old(self).answer@,
            words_of(final(self).hint_list@) == pool_after(
                old(self).answer@,
                words_of(old(self).hint_list@),
                words_played(final(self).guesses@, old(self).guesses@.len() as int),
                num as int,
            ),
            words_of(final(self).test_list@) == words_of(final(self).hint_list@),
            final(self).wf(),
            final(self).answer == old(self).answer,
            final(self).difficult == old(self).difficult,
            final(self).is_win == old(self).is_win,
    {
        let ghost secret = self.answer@;
        let ghost start = words_of(self.hint_list@);
        let ghost base = self.guesses@.len() as int;
        let status: GuessWordStatus = self.play(word);
        let narrowed: Vec<String> = self.get_hint(word, status);
        let found: bool = same_text(word, self.answer.as_str());
        self.test_list = narrowed.clone();
        proof {
            lemma_narrow_keeps_secret(start, secret, word@);
            start.lemma_filter_len(consistent_with(word@, status@));
            assert(words_of(self.test_list@) =~= words_of(narrowed@));
            assert forall|i: int| 0 <= i < self.test_list@.len() implies is_word(
                #[trigger] self.test_list@[i]@,
            ) by {
                assert(is_word(narrowed@[i]@));
            }
        }
        self.hint_list = narrowed;
        proof {
            let played = words_played(self.guesses@, base);
            assert(played.len() == 1);
            assert(played[0] == word@);
            assert(pool_after(secret, start, played, 0) == start);
        }
        if found {
            return 1;
        }
        let mut num: u64 = 1;
        loop
            invariant
                self.wf(),
                self.answer@ == secret,
                secret == old(self).answer@,
                start == words_of(old(self).hint_list@),
                base == old(self).guesses@.len(),
                is_word(word@),
                self.answer == old(self).answer,
                self.difficult == old(self).difficult,
                self.is_win == old(self).is_win,
                1 <= num,
                num + self.hint_list@.len() <= start.len() + 1,
                start.len() < u64::MAX,
                self.guesses@.len() == base + num,
                forall|i: int|
                    0 <= i < base ==> #[trigger] self.guesses@[i] == old(self).guesses@[i],
                words_played(self.guesses@, base)[0] == word@,
                forall|k: int|
                    1 <= k < num ==> #[trigger] words_played(self.guesses@, base)[k] == top_word(
                        pool_after(secret, start, words_played(self.guesses@, base), k),
                    ),
                forall|k: int|
                    0 <= k < num ==> #[trigger] words_played(self.guesses@, base)[k] != secret,
                words_of(self.hint_list@) == pool_after(
                    secret,
                    start,
                    words_played(self.guesses@, base),
                    num as int,
                ),
                words_of(self.test_list@) == words_of(self.hint_list@),
                words_of(self.hint_list@).contains(secret),
            decreases self.hint_list@.len(),
        {
            let ghost pool = words_of(self.hint_list@);
            let ghost before = words_played(self.guesses@, base);
            let picks: Vec<String> = recommend(&self.hint_list, RECOMMEND_NUMBER);
            assert(pool.len() > 0);
            let status: GuessWordStatus = self.play(picks[0].as_str());
            let kept: Vec<String> = self.get_hint(picks[0].as_str(), status);
            let found: bool = same_text(picks[0].as_str(), self.answer.as_str());
            self.test_list = kept.clone();
            proof {
                lemma_narrow_keeps_secret(pool, secret, picks@[0]@);
                pool.lemma_filter_len(consistent_with(picks@[0]@, status@));
                assert(words_of(self.test_list@) =~= words_of(kept@));
                assert forall|i: int| 0 <= i < self.test_list@.len() implies is_word(
                    #[trigger] self.test_list@[i]@,
                ) by {
                    assert(is_word(kept@[i]@));
                }
            }
            self.hint_list = kept;
            proof {
                let played = words_played(self.guesses@, base);
                let n = num as int;
                assert(played.len() == n + 1);
                assert forall|k: int| 0 <= k < n implies played[k] == before[k] by {}
                assert(played[n] == picks@[0]@);
                assert forall|k: int| 0 <= k <= n implies pool_after(secret, start, played, k)
                    == pool_after(secret, start, before, k) by {
                    lemma_pool_after_prefix(secret, start, before, played, k);
                }
                assert(pool_after(secret, start, played, n) == pool);
                assert(words_of(self.hint_list@) == pool_after(secret, start, played, n + 1));
                assert forall|k: int| 1 <= k < n + 1 implies #[trigger] played[k] == top_word(
                    pool_after(secret, start, played, k),
                ) by {
                    if k < n {
                        assert(before[k] == top_word(pool_after(secret, start, before, k)));
                    }
                }
                if !found {
                    lemma_top_word_is_dropped(secret, pool);
                }
            }
            num = num + 1;
            if found {
                return num;
            }
        }
    }
}

/// The pool after `n` guesses depends on those guesses alone.
pub proof fn lemma_pool_after_prefix(
    secret: Seq<char>,
    pool: Seq<Seq<char>>,
    a: Seq<Seq<char>>,
    b: Seq<Seq<char>>,
    n: int,
)
    requires
        0 <= n <= a.len(),
        n <= b.len(),
        forall|i: int| 0 <= i < n ==> a[i] == b[i],
    ensures
        pool_after(secret, pool, a, n) == pool_after(secret, pool, b, n),
    decreases n,
{
    if n > 0 {
        lemma_pool_after_prefix(secret, pool, a, b, n - 1);
    }
}

/// Two runs of the solver from one pool with one first guess agree on
/// their first `n` guesses.
proof fn lemma_solver_runs_agree(
    secret: Seq<char>,
    pool: Seq<Seq<char>>,
    first: Seq<char>,
    a: Seq<Seq<char>>,
    b: Seq<Seq<char>>,
    n: int,
)
    requires
        is_solver_run(secret, pool, first, a),
        is_solver_run(secret, pool, first, b),
        0 <= n <= a.len(),
        n <= b.len(),
    ensures
        forall|i: int| 0 <= i < n ==> a[i] == b[i],
    decreases n,
{
    if n > 1 {
        lemma_solver_runs_agree(secret, pool, first, a, b, n - 1);
        lemma_pool_after_prefix(secret, pool, a, b, n - 1);
        assert(a[n - 1] == top_word(pool_after(secret, pool, a, n - 1)));
        assert(b[n - 1] == top_word(pool_after(secret, pool, b, n - 1)));
    }
}

/// The secret, the pool and the first guess decide the run of the solver:
/// there is one run only.
pub proof fn lemma_solver_run_is_unique(
    secret: Seq<char>,
    pool: Seq<Seq<char>>,
    first: Seq<char>,
    a: Seq<Seq<char>>,
    b: Seq<Seq<char>>,
)
    requires
        is_solver_run(secret, pool, first, a),
        is_solver_run(secret, pool, first, b),
    ensures
        a == b,
{
    if a.len() <= b.len() {
        lemma_solver_runs_agree(secret, pool, first, a, b, a.len() as int);
        if a.len() < b.len() {
            assert(b[a.len() - 1] != secret);
            assert(a[a.len() - 1] == secret);
        }
    } else {
        lemma_solver_runs_agree(secret, pool, first, a, b, b.len() as int);
        assert(a[b.len() - 1] != secret);
        assert(b[b.len() - 1] == secret);
    }
    assert(a =~= b);
}

/// A guess that is not the secret is not consistent with the feedback for
/// it: the feedback tells that the guess is wrong at some place.
pub proof fn lemma_wrong_guess_is_inconsistent(secret: Seq<char>, guess: Seq<char>)
    requires
        secret.len() == guess.len(),
        secret != guess,
    ensures
        !consistent(guess, guess, feedback(secret, guess)),
{
    if forall|i: int| 0 <= i < guess.len() ==> guess[i] == secret[i] {
        assert(guess =~= secret);
    }
    let i = choose|i: int| 0 <= i < guess.len() && guess[i] != secret[i];
    assert(!place_fits(guess, guess, feedback(secret, guess), i));
}

/// Narrowing a pool of words by the feedback for its top word makes the
/// pool shorter unless the top word is the secret.
pub proof fn lemma_top_word_is_dropped(secret: Seq<char>, pool: Seq<Seq<char>>)
    requires
        is_word(secret),
        forall|i: int| 0 <= i < pool.len() ==> is_word(#[trigger] pool[i]),
        pool.len() > 0,
        top_word(pool) != secret,
    ensures
        pool.filter(consistent_with(top_word(pool), feedback(secret, top_word(pool)))).len()
            < pool.len(),
{
    let scores = scores_of(pool);
    lemma_first_max_upto(scores, scores.len() as int);
    let top = crate::ranking::first_max(scores);
    let guess = pool[top];
    assert(is_word(guess));
    lemma_wrong_guess_is_inconsistent(secret, guess);
    lemma_filter_shrinks(pool, consistent_with(guess, feedback(secret, guess)), top);
}

/// The knowledge after `n` guesses depends on those guesses alone.
pub proof fn lemma_knowledge_prefix(
    a: Seq<(Seq<char>, Seq<LetterStatus>)>,
    b: Seq<(Seq<char>, Seq<LetterStatus>)>,
    n: int,
)
    requires
        0 <= n <= a.len(),
        n <= b.len(),
        forall|i: int| 0 <= i < n ==> a[i] == b[i],
    ensures
        knowledge_after(a, n) == knowledge_after(b, n),
    decreases n,
{
    if n > 0 {
        lemma_knowledge_prefix(a, b, n - 1);
    }
}

/// What stands against a secret in the form in which words are compared:
/// nothing, or the first of the errors that it runs into.
pub open spec fn secret_verdict(secret: Seq<char>, words: Seq<Seq<char>>) -> Option<ErrorType> {
    if secret.len() != WORD_LENGTH {
        Some(ErrorType::WrongLength)
    } else if !words.contains(secret) {
        Some(ErrorType::AnsNotInList)
    } else {
        None
    }
}

} // verus!
