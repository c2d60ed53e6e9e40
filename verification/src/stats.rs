//! What a session remembers of the rounds played: wins and losses, the
//! guesses that winning took, how often each word was guessed, and the
//! rounds themselves, as they are written to a state file.
//!
//! The counts of the words are kept in a hash map.  A hash map is walked
//! in no order that could be stated, so the words are kept in a list
//! beside it, each once, and the list is what is sorted when the most
//! frequent words are asked for.

use vstd::hash_map::StringHashMap;
use vstd::prelude::*;

use crate::feedback::GuessWordStatus;
use crate::input::same_text;
use crate::lexical::{lemma_lex_total, lex_less};
use crate::ranking::{ints_of, is_ranking, lemma_ranking_is_sorted, rank_of, ranking};
use crate::word::words_of;
use crate::wordlist::sort_words;

verus! {

/// One round as the state file holds it: the secret and the guesses.
pub struct GameRecord {
    pub answer: String,
    pub guesses: Vec<String>,
}

impl View for GameRecord {
    type V = (Seq<char>, Seq<Seq<char>>);

    open spec fn view(&self) -> (Seq<char>, Seq<Seq<char>>) {
        (self.answer@, words_of(self.guesses@))
    }
}

/// The rounds of a list of records.
pub open spec fn rounds_of(games: Seq<GameRecord>) -> Seq<(Seq<char>, Seq<Seq<char>>)> {
    Seq::new(games.len(), |i: int| games[i]@)
}

/// What a state file holds.
pub struct GameState {
    pub total_rounds: Option<u32>,
    pub games: Option<Vec<GameRecord>>,
}

/// What was found where the state file should be.
pub enum StateFile {
    /// There is no file.
    Missing,
    /// There is a file, and it does not hold a state.
    Invalid,
    /// The state that the file holds.
    Parsed(GameState),
}

/// How often each word was guessed: the words that were guessed, each
/// with its count.
pub type Tally = Map<Seq<char>, nat>;

/// How often `word` was guessed according to a tally.
pub open spec fn times_guessed(tally: Tally, word: Seq<char>) -> nat {
    if tally.contains_key(word) {
        tally[word]
    } else {
        0
    }
}

/// The tally after one more guess of `word`.
pub open spec fn bump(tally: Tally, word: Seq<char>) -> Tally {
    tally.insert(word, times_guessed(tally, word) + 1)
}

/// The tally after the first `n` of the guesses `words`.
pub open spec fn tallied(tally: Tally, words: Seq<Seq<char>>, n: int) -> Tally
    decreases n,
{
    if n <= 0 {
        tally
    } else {
        bump(tallied(tally, words, n - 1), words[n - 1])
    }
}

/// How often `word` stands among the first `n` of the guesses `words`.
pub open spec fn occurrences(words: Seq<Seq<char>>, word: Seq<char>, n: int) -> nat
    decreases n,
{
    if n <= 0 {
        0
    } else {
        occurrences(words, word, n - 1) + if words[n - 1] == word {
            1nat
        } else {
            0nat
        }
    }
}

/// One more guess of a word raises the count of that word by one and
/// leaves the counts of all other words as they were.
pub proof fn lemma_bump_counts(tally: Tally, word: Seq<char>, other: Seq<char>)
    ensures
        times_guessed(bump(tally, word), other) == times_guessed(tally, other) + if other == word {
            1nat
        } else {
            0nat
        },
{
}

/// After some guesses, each word has been guessed as often as before and
/// as often again as it stands among the guesses.
pub proof fn lemma_tallied_counts(tally: Tally, words: Seq<Seq<char>>, word: Seq<char>, n: int)
    requires
        0 <= n <= words.len(),
    ensures
        times_guessed(tallied(tally, words, n), word) == times_guessed(tally, word) + occurrences(
            words,
            word,
            n,
        ),
    decreases n,
{
    if n > 0 {
        lemma_tallied_counts(tally, words, word, n - 1);
        lemma_bump_counts(tallied(tally, words, n - 1), words[n - 1], word);
    }
}

/// What a session remembers, as plain values.
pub struct StatsView {
    /// The rounds won.
    pub wins: int,
    /// The rounds lost.
    pub fails: int,
    /// The guesses made in the rounds won.
    pub total_tries: int,
    /// The guesses made in all rounds.
    pub recorded: nat,
    /// How often each word was guessed.
    pub used_words: Tally,
    /// The rounds, in the order in which they were played.
    pub games: Seq<(Seq<char>, Seq<Seq<char>>)>,
    /// Where the state is kept, if anywhere.
    pub state_path: Option<Seq<char>>,
}

impl StatsView {
    /// Nothing has been played; the state is kept at `state_path`.
    pub open spec fn empty(state_path: Option<Seq<char>>) -> StatsView {
        StatsView {
            wins: 0,
            fails: 0,
            total_tries: 0,
            recorded: 0,
            used_words: Map::empty(),
            games: Seq::empty(),
            state_path,
        }
    }

    /// The counters have room for one more round of `n` guesses.
    pub open spec fn can_record(self, n: nat, is_win: bool) -> bool {
        &&& is_win ==> self.wins < i32::MAX && self.total_tries + n <= i32::MAX
        &&& !is_win ==> self.fails < i32::MAX
        &&& self.recorded + n <= usize::MAX
    }

    /// What is remembered after one more round.
    pub open spec fn recorded_round(
        self,
        answer: Seq<char>,
        words: Seq<Seq<char>>,
        is_win: bool,
    ) -> StatsView {
        StatsView {
            wins: if is_win {
                self.wins + 1
            } else {
                self.wins
            },
            fails: if is_win {
                self.fails
            } else {
                self.fails + 1
            },
            total_tries: if is_win {
                self.total_tries + words.len()
            } else {
                self.total_tries
            },
            recorded: self.recorded + words.len(),
            used_words: tallied(self.used_words, words, words.len() as int),
            games: self.games.push((answer, words)),
            state_path: self.state_path,
        }
    }

    /// What is remembered after the first `n` of the rounds `games` have
    /// been read from a state file.  A round counts as won when its last
    /// guess is its secret.  Nothing is remembered where a round has no
    /// guess or the counters have no room for it.
    pub open spec fn replayed(self, games: Seq<(Seq<char>, Seq<Seq<char>>)>, n: int) -> Option<
        StatsView,
    >
        decreases n,
    {
        if n <= 0 {
            Some(self)
        } else {
            match self.replayed(games, n - 1) {
                None => None,
                Some(so_far) => {
                    let (answer, words) = games[n - 1];
                    if words.len() == 0 {
                        None
                    } else if !so_far.can_record(words.len(), words.last() == answer) {
                        None
                    } else {
                        Some(so_far.recorded_round(answer, words, words.last() == answer))
                    }
                },
            }
        }
    }
}

/// Entry `a` belongs before entry `b` in the list of frequent words: its
/// word was guessed more often, or as often and comes first in the
/// alphabet.
pub open spec fn comes_first(a: (String, usize), b: (String, usize)) -> bool {
    a.1 > b.1 || (a.1 == b.1 && lex_less(a.0@, b.0@))
}

/// The rounds that a parsed state holds; none where it holds no list.
pub open spec fn rounds_in(state: GameState) -> Seq<(Seq<char>, Seq<Seq<char>>)> {
    match state.games {
        Some(games) => rounds_of(games@),
        None => Seq::empty(),
    }
}

/// What is remembered after loading: see [`Stats::load`].
pub open spec fn restored(state_path: Option<String>, file: StateFile) -> Option<StatsView> {
    match state_path {
        None => Some(StatsView::empty(None)),
        Some(path) => match file {
            StateFile::Missing => Some(StatsView::empty(Some(path@))),
            StateFile::Invalid => None,
            StateFile::Parsed(state) => StatsView::empty(Some(path@)).replayed(
                rounds_in(state),
                rounds_in(state).len() as int,
            ),
        },
    }
}

/// Once a round cannot be replayed, no later round can.
pub proof fn lemma_replay_stays_lost(
    start: StatsView,
    games: Seq<(Seq<char>, Seq<Seq<char>>)>,
    m: int,
    n: int,
)
    requires
        0 <= m <= n,
        start.replayed(games, m) is None,
    ensures
        start.replayed(games, n) is None,
    decreases n,
{
    if m < n {
        lemma_replay_stays_lost(start, games, m, n - 1);
    }
}

/// The words of a history of guesses.
pub open spec fn guessed_words(guesses: Seq<(String, GuessWordStatus)>) -> Seq<Seq<char>> {
    Seq::new(guesses.len(), |i: int| guesses[i].0@)
}

/// What a session remembers of the rounds played.
pub struct Stats {
    wins: i32,
    fails: i32,
    total_tries: i32,
    recorded: usize,
    used_words: StringHashMap<usize>,
    words_seen: Vec<String>,
    games: Vec<GameRecord>,
    state_path: Option<String>,
}

impl View for Stats {
    type V = StatsView;

    closed spec fn view(&self) -> StatsView {
        StatsView {
            wins: self.wins as int,
            fails: self.fails as int,
            total_tries: self.total_tries as int,
            recorded: self.recorded as nat,
            used_words: Map::new(
                |word: Seq<char>| self.used_words@.contains_key(word),
                |word: Seq<char>| self.used_words@[word] as nat,
            ),
            games: rounds_of(self.games@),
            state_path: match self.state_path {
                Some(path) => Some(path@),
                None => None,
            },
        }
    }
}

/// A copy of a list of words.
pub fn copy_words(words: &Vec<String>) -> (copy: Vec<String>)
    ensures
        words_of(copy@) == words_of(words@),
        copy@.len() == words@.len(),
        forall|i: int| 0 <= i < words@.len() ==> (#[trigger] copy@[i])@ == words@[i]@,
{
    let mut copy: Vec<String> = Vec::new();
    let mut i: usize = 0;
    while i < words.len()
        invariant
            i <= words.len(),
            copy@.len() == i,
            forall|j: int| 0 <= j < i ==> (#[trigger] copy@[j])@ == words@[j]@,
        decreases words.len() - i,
    {
        copy.push(words[i].clone());
        i = i + 1;
    }
    assert(words_of(copy@) =~= words_of(words@));
    copy
}

impl GameRecord {
    /// A copy of the record.
    pub fn copy(&self) -> (copy: GameRecord)
        ensures
            copy@ == self@,
    {
        GameRecord { answer: self.answer.clone(), guesses: copy_words(&self.guesses) }
    }
}

impl Stats {
    /// The invariant of the counters: none is negative, every round is
    /// either won or lost, the rounds won took no more guesses than were
    /// made in all, the words seen are the words of the tally, each once,
    /// and no word was guessed more often than guesses were made.
    pub closed spec fn wf(&self) -> bool {
        &&& self.wins >= 0
        &&& self.fails >= 0
        &&& self.total_tries >= 0
        &&& self.wins + self.fails == self.games@.len()
        &&& self.total_tries <= self.recorded
        &&& words_of(self.words_seen@).no_duplicates()
        &&& forall|i: int|
            0 <= i < self.words_seen@.len() ==> self.used_words@.contains_key(
                #[trigger] self.words_seen@[i]@,
            )
        &&& forall|word: Seq<char>| #[trigger]
            self.used_words@.contains_key(word) ==> words_of(self.words_seen@).contains(word)
        &&& forall|word: Seq<char>| #[trigger]
            self.used_words@.contains_key(word) ==> 1 <= self.used_words@[word] <= self.recorded
    }

    /// The invariant as the view shows it.
    pub proof fn lemma_wf_view(&self)
        requires
            self.wf(),
        ensures
            self@.wins >= 0,
            self@.fails >= 0,
            self@.total_tries >= 0,
            self@.wins + self@.fails == self@.games.len(),
            self@.total_tries <= self@.recorded,
            forall|word: Seq<char>| #[trigger]
                self@.used_words.contains_key(word) ==> 1 <= self@.used_words[word]
                    <= self@.recorded,
    {
    }

    /// Nothing has been played, and the state is kept nowhere.
    pub fn new() -> (stats: Stats)
        ensures
            stats.wf(),
            stats@ == StatsView::empty(None),
    {
        let stats = Stats {
            wins: 0,
            fails: 0,
            total_tries: 0,
            recorded: 0,
            used_words: StringHashMap::new(),
            words_seen: Vec::new(),
            games: Vec::new(),
            state_path: None,
        };
        assert(stats@.used_words =~= Map::empty());
        assert(stats@.games =~= Seq::empty());
        stats
    }

    /// Nothing has been played, and the state is kept at `state_path`.
    fn starting_at(state_path: &Option<String>) -> (stats: Stats)
        ensures
            stats.wf(),
            stats@ == StatsView::empty(
                match *state_path {
                    Some(path) => Some(path@),
                    None => None,
                },
            ),
    {
        let mut stats = Stats::new();
        stats.state_path = match state_path {
            Some(path) => Some(path.clone()),
            None => None,
        };
        assert(stats@.used_words =~= Map::empty());
        assert(stats@.games =~= Seq::empty());
        stats
    }

    /// Tells whether the counters have room for one more round of `n`
    /// guesses.
    pub fn has_room(&self, n: usize, is_win: bool) -> (room: bool)
        requires
            self.wf(),
        ensures
            room == self@.can_record(n as nat, is_win),
    {
        let tries_fit: bool = if is_win {
            self.wins < i32::MAX && n <= i32::MAX as usize && self.total_tries <= i32::MAX
                - n as i32
        } else {
            self.fails < i32::MAX
        };
        tries_fit && n <= usize::MAX - self.recorded
    }

    /// Counts one more guess of `word`.
    fn count(&mut self, word: String)
        requires
            old(self).wf(),
            old(self).recorded < usize::MAX,
        ensures
            final(self).wf(),
            final(self)@ == (StatsView {
                recorded: old(self)@.recorded + 1,
                used_words: bump(old(self)@.used_words, word@),
                ..old(self)@
            }),
    {
        let ghost before = self@;
        let ghost seen = words_of(self.words_seen@);
        let counted: Option<usize> = match self.used_words.get(word.as_str()) {
            Some(count) => Some(*count),
            None => None,
        };
        self.recorded = self.recorded + 1;
        match counted {
            Some(count) => {
                self.used_words.insert(word, count + 1);
            },
            None => {
                self.words_seen.push(word.clone());
                self.used_words.insert(word, 1);
                proof {
                    let now = words_of(self.words_seen@);
                    assert(now =~= seen.push(word@));
                    assert forall|i: int, j: int| 0 <= i < j < now.len() implies now[i]
                        != now[j] by {
                        if j == now.len() - 1 {
                            assert(seen[i] == old(self).words_seen@[i]@);
                        }
                    }
                }
            },
        }
        proof {
            let now = words_of(self.words_seen@);
            assert forall|other: Seq<char>| #[trigger]
                self.used_words@.contains_key(other) implies now.contains(other) by {
                if other == word@ {
                    if counted is None {
                        assert(now[now.len() - 1] == word@);
                    } else {
                        assert(seen.contains(other));
                        let i = choose|i: int| 0 <= i < seen.len() && seen[i] == other;
                        assert(now[i] == other);
                    }
                } else {
                    assert(seen.contains(other));
                    let i = choose|i: int| 0 <= i < seen.len() && seen[i] == other;
                    assert(now[i] == other);
                }
            }
            assert(self@.used_words =~= bump(before.used_words, word@));
            assert(self@.games == before.games);
        }
    }

    /// Records a round: the secret, the words guessed, and whether the
    /// round was won.
    fn record(&mut self, answer: String, words: Vec<String>, is_win: bool)
        requires
            old(self).wf(),
            old(self)@.can_record(words@.len(), is_win),
        ensures
            final(self).wf(),
            final(self)@ == old(self)@.recorded_round(answer@, words_of(words@), is_win),
    {
        let ghost before = self@;
        let ghost guessed = words_of(words@);
        let mut i: usize = 0;
        while i < words.len()
            invariant
                i <= words.len(),
                self.wf(),
                guessed == words_of(words@),
                before.recorded + words@.len() <= usize::MAX,
                self@ == (StatsView {
                    recorded: (before.recorded + i) as nat,
                    used_words: tallied(before.used_words, guessed, i as int),
                    ..before
                }),
            decreases words.len() - i,
        {
            assert(guessed[i as int] == words@[i as int]@);
            self.count(words[i].clone());
            i = i + 1;
        }
        if is_win {
            self.wins = self.wins + 1;
            self.total_tries = self.total_tries + words.len() as i32;
        } else {
            self.fails = self.fails + 1;
        }
        self.games.push(GameRecord { answer, guesses: words });
        proof {
            assert(self@.games =~= before.games.push((answer@, guessed)));
        }
    }

    /// Records a round that has ended: the guesses made, the secret, and
    /// whether the round was won.
    pub fn update(&mut self, guesses: &Vec<(String, GuessWordStatus)>, answer: String, is_win: bool)
        requires
            old(self).wf(),
            old(self)@.can_record(guesses@.len(), is_win),
        ensures
            final(self).wf(),
            final(self)@ == old(self)@.recorded_round(answer@, guessed_words(guesses@), is_win),
    {
        let mut all_guess_words: Vec<String> = Vec::new();
        let mut i: usize = 0;
        while i < guesses.len()
            invariant
                i <= guesses.len(),
                all_guess_words@.len() == i,
                forall|j: int| 0 <= j < i ==> (#[trigger] all_guess_words@[j])@ == guesses@[j].0@,
            decreases guesses.len() - i,
        {
            all_guess_words.push(guesses[i].0.clone());
            i = i + 1;
        }
        assert(words_of(all_guess_words@) =~= guessed_words(guesses@));
        self.record(answer, all_guess_words, is_win);
    }

    /// The words guessed, the most frequent first, words guessed equally
    /// often in alphabetical order, each with the number of times it was
    /// guessed: every word of the tally is listed, with its count, and
    /// each entry belongs before the entries that follow it.
    pub fn get_frequent_words(&self) -> (words: Vec<(String, usize)>)
        requires
            self.wf(),
        ensures
            forall|k: int|
                0 <= k < words@.len() ==> self@.used_words.contains_key(
                    (#[trigger] words@[k]).0@,
                ) && self@.used_words[words@[k].0@] == words@[k].1,
            forall|word: Seq<char>| #[trigger]
                self@.used_words.contains_key(word) ==> exists|k: int|
                    0 <= k < words@.len() && (#[trigger] words@[k]).0@ == word,
            forall|k: int, l: int|
                0 <= k < l < words@.len() ==> comes_first(#[trigger] words@[k], #[trigger] words@[l]),
    {
        let ghost seen = words_of(self.words_seen@);
        let mut keys: Vec<String> = copy_words(&self.words_seen);
        sort_words(&mut keys);
        let ghost sorted = words_of(keys@);
        proof {
            broadcast use vstd::seq_lib::group_to_multiset_ensures;

            seen.lemma_multiset_has_no_duplicates();
            sorted.lemma_multiset_has_no_duplicates_conv();
            assert forall|i: int| 0 <= i < sorted.len() implies self.used_words@.contains_key(
                #[trigger] sorted[i],
            ) by {
                assert(sorted.contains(sorted[i]));
                assert(sorted.to_multiset().count(sorted[i]) > 0);
                assert(seen.to_multiset().count(sorted[i]) > 0);
                assert(seen.contains(sorted[i]));
                let j = choose|j: int| 0 <= j < seen.len() && seen[j] == sorted[i];
                assert(self.words_seen@[j]@ == sorted[i]);
            }
            assert forall|word: Seq<char>| #[trigger]
                self.used_words@.contains_key(word) implies sorted.contains(word) by {
                assert(seen.contains(word));
                assert(seen.to_multiset().count(word) > 0);
                assert(sorted.to_multiset().count(word) > 0);
            }
        }
        let n: usize = keys.len();
        let mut amounts: Vec<usize> = Vec::new();
        let mut weights: Vec<u128> = Vec::new();
        let mut i: usize = 0;
        while i < n
            invariant
                i <= n,
                n == keys@.len(),
                sorted == words_of(keys@),
                amounts@.len() == i,
                weights@.len() == i,
                forall|j: int| 0 <= j < n ==> self.used_words@.contains_key(#[trigger] sorted[j]),
                forall|j: int|
                    0 <= j < i ==> #[trigger] amounts@[j] == self.used_words@[sorted[j]]
                        && weights@[j] == amounts@[j],
            decreases n - i,
        {
            assert(sorted[i as int] == keys@[i as int]@);
            let amount: usize = match self.used_words.get(keys[i].as_str()) {
                Some(count) => *count,
                None => 0,
            };
            amounts.push(amount);
            weights.push(amount as u128);
            i = i + 1;
        }
        let order: Vec<usize> = ranking(&weights);
        let mut words: Vec<(String, usize)> = Vec::new();
        let mut k: usize = 0;
        while k < n
            invariant
                k <= n,
                n == keys@.len(),
                amounts@.len() == n,
                sorted == words_of(keys@),
                is_ranking(ints_of(weights@), order@),
                weights@.len() == n,
                words@.len() == k,
                forall|j: int|
                    0 <= j < k ==> (#[trigger] words@[j]).0@ == sorted[order@[j] as int]
                        && words@[j].1 == amounts@[order@[j] as int],
            decreases n - k,
        {
            let at: usize = order[k];
            assert(sorted[at as int] == keys@[at as int]@);
            words.push((keys[at].clone(), amounts[at]));
            k = k + 1;
        }
        proof {
            let w = ints_of(weights@);
            assert forall|j: int| 0 <= j < words@.len() implies self@.used_words.contains_key(
                (#[trigger] words@[j]).0@,
            ) && self@.used_words[words@[j].0@] == words@[j].1 by {
                assert(self.used_words@.contains_key(sorted[order@[j] as int]));
            }
            assert forall|word: Seq<char>| #[trigger]
                self@.used_words.contains_key(word) implies exists|j: int|
                0 <= j < words@.len() && (#[trigger] words@[j]).0@ == word by {
                assert(sorted.contains(word));
                let i = choose|i: int| 0 <= i < sorted.len() && sorted[i] == word;
                let r = rank_of(w, i) as int;
                assert(order@[r] == i);
                assert(words@[r].0@ == word);
            }
            assert forall|a: int, b: int| 0 <= a < b < words@.len() implies comes_first(
                #[trigger] words@[a],
                #[trigger] words@[b],
            ) by {
                lemma_ranking_is_sorted(w, order@, a, b);
                let x = order@[a] as int;
                let y = order@[b] as int;
                assert(w[x] == amounts@[x] && w[y] == amounts@[y]);
                if amounts@[x] == amounts@[y] {
                    assert(x < y);
                    assert(!lex_less(keys@[y]@, keys@[x]@));
                    assert(sorted[x] != sorted[y]);
                    if !lex_less(sorted[x], sorted[y]) {
                        lemma_lex_total(sorted[x], sorted[y], 0);
                    }
                }
            }
        }
        words
    }

    /// Restores what a session remembers from what was found where its
    /// state is kept.  Without a state path, and without a file, nothing
    /// has been played.  With a file, its rounds are replayed in order, a
    /// round counting as won when its last guess is its secret.  Nothing is
    /// returned where the file holds no state, a round in it has no guess,
    /// or the counters have no room for its rounds.
    pub fn load(state_path: &Option<String>, file: StateFile) -> (loaded: Option<Stats>)
        ensures
            loaded is Some <==> restored(*state_path, file) is Some,
            loaded matches Some(stats) ==> stats.wf() && Some(stats@) == restored(
                *state_path,
                file,
            ),
    {
        if state_path.is_none() {
            return Some(Stats::new());
        }
        let mut stats: Stats = Stats::starting_at(state_path);
        let ghost start = stats@;
        match file {
            StateFile::Missing => Some(stats),
            StateFile::Invalid => None,
            StateFile::Parsed(state) => {
                match state.games {
                    None => Some(stats),
                    Some(games) => {
                        let ghost rounds = rounds_of(games@);
                        let mut i: usize = 0;
                        assert(restored(*state_path, file) == start.replayed(
                            rounds,
                            games@.len() as int,
                        ));
                        while i < games.len()
                            invariant
                                i <= games.len(),
                                stats.wf(),
                                rounds == rounds_of(games@),
                                restored(*state_path, file) == start.replayed(
                                    rounds,
                                    games@.len() as int,
                                ),
                                start.replayed(rounds, i as int) == Some(stats@),
                            decreases games.len() - i,
                        {
                            let game: GameRecord = games[i].copy();
                            assert(rounds[i as int] == game@);
                            let tries: usize = game.guesses.len();
                            if tries == 0 {
                                proof {
                                    lemma_replay_stays_lost(start, rounds, i as int + 1, games@.len() as int);
                                }
                                return None;
                            }
                            let is_win: bool = same_text(
                                game.guesses[tries - 1].as_str(),
                                game.answer.as_str(),
                            );
                            assert(game.guesses@[tries - 1]@ == words_of(game.guesses@).last());
                            if !stats.has_room(tries, is_win) {
                                proof {
                                    lemma_replay_stays_lost(start, rounds, i as int + 1, games@.len() as int);
                                }
                                return None;
                            }
                            stats.record(game.answer, game.guesses, is_win);
                            i = i + 1;
                        }
                        Some(stats)
                    },
                }
            },
        }
    }

    /// The state that saving writes: the number of rounds played, and the
    /// rounds.
    pub fn save(&self) -> (state: GameState)
        requires
            self.wf(),
        ensures
            state.total_rounds == Some((self@.wins + self@.fails) as u32),
            state.games matches Some(games) && rounds_of(games@) == self@.games,
    {
        let mut games: Vec<GameRecord> = Vec::new();
        let mut i: usize = 0;
        while i < self.games.len()
            invariant
                i <= self.games.len(),
                games@.len() == i,
                forall|j: int| 0 <= j < i ==> (#[trigger] games@[j])@ == self.games@[j]@,
            decreases self.games.len() - i,
        {
            games.push(self.games[i].copy());
            i = i + 1;
        }
        assert(rounds_of(games@) =~= self@.games);
        GameState { total_rounds: Some(self.wins as u32 + self.fails as u32), games: Some(games) }
    }

    /// The number of rounds won.
    pub fn get_wins(&self) -> (wins: i32)
        ensures
            wins == self@.wins,
    {
        self.wins
    }

    /// The number of rounds lost.
    pub fn get_fails(&self) -> (fails: i32)
        ensures
            fails == self@.fails,
    {
        self.fails
    }

    /// The number of guesses made in the rounds won.
    pub fn get_total_tries(&self) -> (tries: i32)
        ensures
            tries == self@.total_tries,
    {
        self.total_tries
    }
}

} // verus!
