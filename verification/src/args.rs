//! The options of the program: what the command line and a configuration
//! file ask for, and which combinations are refused.
//!
//! Reading files is not done here.  The options are worked out in steps,
//! and between the steps the caller reads what the step has asked for: the
//! configuration file after [`WordProcessor::begin`], the two word lists
//! after [`WordProcessor::choose_mode`].

use vstd::prelude::*;

use crate::input::{same_text, uppercased};
use crate::wordlist::{
    ascending, find_stranger, first_stranger, lemma_no_stranger, read_list, read_word_list,
    sort_words, uppercase_list, ListError,
};
use crate::lexical::lex_less;
use crate::word::{all_words, is_word, words_of};

verus! {

/// `c` is one of the digits `0` to `9`.
pub open spec fn is_digit(c: char) -> bool {
    '0' <= c && c <= '9'
}

/// The number that the first `n` of a row of digits write in decimal.
pub open spec fn digits_value(digits: Seq<char>, n: int) -> nat
    decreases n,
{
    if n <= 0 {
        0
    } else {
        digits_value(digits, n - 1) * 10 + (digits[n - 1] as int - '0' as int) as nat
    }
}

/// A text without the plus sign that it may start with.
pub open spec fn unsigned_part(text: Seq<char>) -> Seq<char> {
    if text.len() > 0 && text[0] == '+' {
        text.subrange(1, text.len() as int)
    } else {
        text
    }
}

/// The number that a text writes: the text is a row of one or more digits,
/// with or without a plus sign before it, and the number that the digits
/// write in decimal is no more than `u64::MAX`.  Any other text writes no
/// number.  This is how the standard library reads a `u64`.
pub open spec fn parsed_u64(text: Seq<char>) -> Option<u64> {
    let digits = unsigned_part(text);
    if digits.len() > 0 && (forall|i: int| 0 <= i < digits.len() ==> is_digit(#[trigger] digits[i]))
        && digits_value(digits, digits.len() as int) <= u64::MAX {
        Some(digits_value(digits, digits.len() as int) as u64)
    } else {
        None
    }
}

/// More digits write no smaller number.
pub proof fn lemma_digits_value_grows(digits: Seq<char>, m: int, n: int)
    requires
        0 <= m <= n <= digits.len(),
        forall|i: int| 0 <= i < digits.len() ==> is_digit(#[trigger] digits[i]),
    ensures
        digits_value(digits, m) <= digits_value(digits, n),
    decreases n,
{
    if m < n {
        lemma_digits_value_grows(digits, m, n - 1);
        assert(is_digit(digits[n - 1]));
    }
}

/// Reads the number that a text writes.
pub fn parse_u64(text: &str) -> (number: Option<u64>)
    ensures
        number == parsed_u64(text@),
{
    let n: usize = text.unicode_len();
    if n == 0 {
        return None;
    }
    let start: usize = if text.get_char(0) == '+' {
        1
    } else {
        0
    };
    let ghost digits = unsigned_part(text@);
    assert(digits.len() == n - start);
    assert(forall|j: int| 0 <= j < digits.len() ==> digits[j] == text@[start + j]);
    if start == n {
        return None;
    }
    let mut value: u64 = 0;
    let mut i: usize = start;
    while i < n
        invariant
            start <= i <= n,
            n == text@.len(),
            digits == unsigned_part(text@),
            digits.len() == n - start,
            forall|j: int| 0 <= j < digits.len() ==> digits[j] == text@[start + j],
            forall|j: int| 0 <= j < i - start ==> is_digit(#[trigger] digits[j]),
            value == digits_value(digits, i - start),
        decreases n - i,
    {
        let c: char = text.get_char(i);
        assert(digits[i - start] == c);
        if !('0' <= c && c <= '9') {
            return None;
        }
        let digit: u64 = (c as u32 - '0' as u32) as u64;
        if value > (u64::MAX - digit) / 10 {
            proof {
                if forall|j: int| 0 <= j < digits.len() ==> is_digit(#[trigger] digits[j]) {
                    lemma_digits_value_grows(digits, i - start + 1, digits.len() as int);
                }
            }
            return None;
        }
        value = value * 10 + digit;
        i = i + 1;
    }
    Some(value)
}

/// What `char::is_alphabetic` returns for a character.
pub uninterp spec fn alphabetic(c: char) -> bool;

/// Calls `char::is_alphabetic`.  Taken on trust: the result is a function
/// of the character alone.
#[verifier::external_body]
fn is_alphabetic(c: char) -> (yes: bool)
    ensures
        yes == alphabetic(c),
{
    c.is_alphabetic()
}

/// Argument `i` is the flag with the given short and long spellings.
pub open spec fn flagged(args: Seq<String>, short: Seq<char>, long: Seq<char>, i: int) -> bool {
    args[i]@ == short || args[i]@ == long
}

/// The place of the first occurrence of the flag among the first `n`
/// arguments.
pub open spec fn first_flag(
    args: Seq<String>,
    short: Seq<char>,
    long: Seq<char>,
    n: int,
) -> Option<int>
    decreases n,
{
    if n <= 0 {
        None
    } else {
        match first_flag(args, short, long, n - 1) {
            Some(i) => Some(i),
            None => if flagged(args, short, long, n - 1) {
                Some(n - 1)
            } else {
                None
            },
        }
    }
}

/// The flag occurs among the arguments.
pub open spec fn wants(args: Seq<String>, short: Seq<char>, long: Seq<char>) -> bool {
    first_flag(args, short, long, args.len() as int) is Some
}

/// The argument that follows the first occurrence of the flag, if the flag
/// occurs and is not the last argument.
pub open spec fn value_after(args: Seq<String>, short: Seq<char>, long: Seq<char>) -> Option<
    String,
> {
    match first_flag(args, short, long, args.len() as int) {
        Some(i) => if i + 1 < args.len() {
            Some(args[i + 1])
        } else {
            None
        },
        None => None,
    }
}

/// The first occurrence of a flag, as far as `n` arguments show it.
pub proof fn lemma_first_flag(args: Seq<String>, short: Seq<char>, long: Seq<char>, n: int)
    requires
        0 <= n <= args.len(),
    ensures
        match first_flag(args, short, long, n) {
            Some(i) => 0 <= i < n && flagged(args, short, long, i) && forall|j: int|
                0 <= j < i ==> !flagged(args, short, long, j),
            None => forall|j: int| 0 <= j < n ==> !flagged(args, short, long, j),
        },
    decreases n,
{
    if n > 0 {
        lemma_first_flag(args, short, long, n - 1);
    }
}

/// A flag has a first occurrence exactly when it occurs.
pub proof fn lemma_wants_iff_occurs(args: Seq<String>, short: Seq<char>, long: Seq<char>)
    ensures
        wants(args, short, long) <==> exists|i: int|
            0 <= i < args.len() && #[trigger] flagged(args, short, long, i),
{
    lemma_first_flag(args, short, long, args.len() as int);
}

/// Looks for the first occurrence of a flag among the arguments.
pub fn flag_position(args: &[String], short: &str, long: &str) -> (place: Option<usize>)
    ensures
        match place {
            Some(i) => first_flag(args@, short@, long@, args@.len() as int) == Some(i as int),
            None => first_flag(args@, short@, long@, args@.len() as int) is None,
        },
        place is Some <==> wants(args@, short@, long@),
        place matches Some(i) ==> i < args@.len(),
{
    let mut i: usize = 0;
    while i < args.len()
        invariant
            i <= args.len(),
            first_flag(args@, short@, long@, i as int) is None,
        decreases args.len() - i,
    {
        if same_text(args[i].as_str(), short) || same_text(args[i].as_str(), long) {
            proof {
                lemma_flag_found(args@, short@, long@, i as int + 1, args@.len() as int);
            }
            return Some(i);
        }
        i = i + 1;
    }
    None
}

/// Tells whether a flag occurs among the arguments.
pub fn has_flag(args: &[String], short: &str, long: &str) -> (found: bool)
    ensures
        found == wants(args@, short@, long@),
{
    flag_position(args, short, long).is_some()
}

/// Once a flag is found, later arguments do not change where.
pub proof fn lemma_flag_found(
    args: Seq<String>,
    short: Seq<char>,
    long: Seq<char>,
    m: int,
    n: int,
)
    requires
        0 <= m <= n,
        first_flag(args, short, long, m) is Some,
    ensures
        first_flag(args, short, long, n) == first_flag(args, short, long, m),
    decreases n,
{
    if m < n {
        lemma_flag_found(args, short, long, m, n - 1);
    }
}

/// The argument that follows the first occurrence of a flag.
pub fn flag_value(args: &[String], short: &str, long: &str) -> (value: Option<String>)
    ensures
        value == value_after(args@, short@, long@),
{
    let n: usize = args.len();
    match flag_position(args, short, long) {
        Some(i) => if i + 1 < n {
            Some(args[i + 1].clone())
        } else {
            None
        },
        None => None,
    }
}

/// Tells whether a character occurs in a text.
pub fn has_char(text: &str, c: char) -> (found: bool)
    ensures
        found == text@.contains(c),
{
    let n: usize = text.unicode_len();
    let mut i: usize = 0;
    while i < n
        invariant
            i <= n,
            n == text@.len(),
            forall|j: int| 0 <= j < i ==> text@[j] != c,
        decreases n - i,
    {
        if text.get_char(i) == c {
            return true;
        }
        i = i + 1;
    }
    false
}

/// What a configuration file holds.
pub struct Config {
    pub random: bool,
    pub difficult: bool,
    pub stats: bool,
    pub day: Option<usize>,
    pub seed: Option<u64>,
    pub final_set: Option<String>,
    pub acceptable_set: Option<String>,
    pub state: Option<String>,
    pub word: Option<String>,
}

/// Why the options are refused.
#[derive(Debug, PartialEq, Eq)]
pub enum ArgError {
    /// The word given with `-w` is empty.
    EmptyWord,
    /// Statistics are asked for and the secret is given on the command
    /// line.
    StatsWithWord,
    /// An answer is not among the acceptable words; the first such answer
    /// is named.
    NotAcceptable(String),
    /// The day is negative, zero, or beyond the list of answers.
    InvalidDay,
    /// A secret is given in random mode.
    WordInRandomMode,
    /// A day or a seed is given outside random mode.
    DayOrSeedWithoutRandom,
}

/// What to do about a word list.
pub enum ListRequest {
    /// Keep the list at hand.
    Keep,
    /// The file name given is not one; keep the list at hand and say so.
    Ignore(String),
    /// Read the list from the file of this name.
    Load(String),
}

/// The request that a file name, or none, makes: a name with a dot in it
/// names a file to read.
pub open spec fn request_for(value: Option<String>) -> ListRequest {
    match value {
        None => ListRequest::Keep,
        Some(name) => if name@.contains('.') {
            ListRequest::Load(name)
        } else {
            ListRequest::Ignore(name)
        },
    }
}

/// A number as a day: itself, where it is a number of the machine.
pub open spec fn day_of(number: Option<u64>) -> Option<usize> {
    match number {
        Some(day) => if day <= usize::MAX {
            Some(day as usize)
        } else {
            None
        },
        None => None,
    }
}

/// The day that a text names: the number that it writes, where that is a
/// number of the machine.
pub open spec fn parsed_day(text: Seq<char>) -> Option<usize> {
    day_of(parsed_u64(text))
}

/// Takes a number as a day.
pub fn as_day(number: Option<u64>) -> (day: Option<usize>)
    ensures
        day == day_of(number),
{
    match number {
        Some(number) => if number <= usize::MAX as u64 {
            Some(number as usize)
        } else {
            None
        },
        None => None,
    }
}

/// The options of the program.
pub struct WordProcessor {
    /// The secret is picked at random.
    pub random_mode: bool,
    /// `-w` was given.
    pub word_mode: bool,
    /// The secret was given on the command line.
    pub meet_word_argument: bool,
    /// Hard mode.
    pub difficult_mode: bool,
    /// Statistics are printed after each round.
    pub stats_mode: bool,
    /// The secret, where it was given.
    pub word_argument: Option<String>,
    /// `-s` was given.
    pub seed_mode: bool,
    /// The seed of the shuffle.
    pub seed_argument: Option<u64>,
    /// `-d` was given.
    pub day_mode: bool,
    /// The day, counted from 1.
    pub day_argument: Option<usize>,
    /// The name of the file of answers.
    pub final_set_file: Option<String>,
    /// The name of the file of acceptable words.
    pub acceptable_set_file: Option<String>,
    /// The answers.
    pub final_set: Vec<String>,
    /// The acceptable words.
    pub acceptable_set: Vec<String>,
    /// The state is saved after each round.
    pub state_mode: bool,
    /// Where the state is kept.
    pub state_path: Option<String>,
    /// A configuration file was named.
    pub config_mode: bool,
    /// The configuration file.
    pub config_path: Option<String>,
    /// The text interface is asked for.
    pub tui_mode: bool,
    /// The graphical interface is asked for.
    pub gui_mode: bool,
    /// Hints are asked for.
    pub hint_mode: bool,
    /// The solver is to be tried on every answer.
    pub test_mode: bool,
}

/// The view of an optional text.
pub open spec fn text_of(value: Option<String>) -> Option<Seq<char>> {
    match value {
        Some(text) => Some(text@),
        None => None,
    }
}

impl WordProcessor {
    /// The options before anything was asked for.
    pub fn new() -> (options: WordProcessor)
        ensures
            !options.random_mode,
            !options.word_mode,
            !options.meet_word_argument,
            !options.difficult_mode,
            !options.stats_mode,
            options.word_argument is None,
            !options.seed_mode,
            options.seed_argument is None,
            !options.day_mode,
            options.day_argument is None,
            text_of(options.final_set_file) == Some("builtin_word.rs"@),
            text_of(options.acceptable_set_file) == Some("builtin_word.rs"@),
            options.final_set@.len() == 0,
            options.acceptable_set@.len() == 0,
            !options.state_mode,
            options.state_path is None,
            !options.config_mode,
            options.config_path is None,
            !options.tui_mode,
            !options.gui_mode,
            !options.hint_mode,
            !options.test_mode,
    {
        WordProcessor {
            random_mode: false,
            word_mode: false,
            meet_word_argument: false,
            difficult_mode: false,
            stats_mode: false,
            word_argument: None,
            seed_mode: false,
            seed_argument: None,
            day_mode: false,
            day_argument: None,
            final_set_file: Some(String::from_str("builtin_word.rs")),
            acceptable_set_file: Some(String::from_str("builtin_word.rs")),
            final_set: Vec::new(),
            acceptable_set: Vec::new(),
            state_mode: false,
            state_path: None,
            config_mode: false,
            config_path: None,
            tui_mode: false,
            gui_mode: false,
            hint_mode: false,
            test_mode: false,
        }
    }

    /// The day is one of the list of answers: at least 1 and no more than
    /// the list has words.
    pub fn validate_day(&self) -> (valid: bool)
        requires
            self.day_argument is Some,
        ensures
            valid == (1 <= self.day_argument->0 <= self.final_set@.len()),
    {
        let day: usize = match self.day_argument {
            Some(day) => day,
            None => 0,
        };
        if day == 0 {
            return false;
        } else if day > self.final_set.len() {
            return false;
        }
        return true;
    }

    /// Checks that every answer is an acceptable word, and names the first
    /// answer that is not.
    pub fn check_sets(&self, final_set: &Vec<String>, acceptable_set: &Vec<String>) -> (checked:
        Result<(), ArgError>)
        ensures
            checked == match first_stranger(
                final_set@,
                acceptable_set@,
                final_set@.len() as int,
            ) {
                Some(word) => Err::<(), ArgError>(ArgError::NotAcceptable(word)),
                None => Ok::<(), ArgError>(()),
            },
            checked is Ok <==> forall|i: int|
                0 <= i < final_set@.len() ==> words_of(acceptable_set@).contains(
                    #[trigger] final_set@[i]@,
                ),
    {
        proof {
            lemma_no_stranger(
                final_set@,
                acceptable_set@,
                final_set@.len() as int,
            );
        }
        match find_stranger(final_set, acceptable_set) {
            Some(word) => Err(ArgError::NotAcceptable(word)),
            None => Ok(()),
        }
    }
}

impl WordProcessor {
    /// The options after [`WordProcessor::begin`].
    pub open spec fn begun(self, args: Seq<String>, finals: Vec<String>, acceptables: Vec<String>) -> WordProcessor {
        WordProcessor {
            final_set: finals,
            acceptable_set: acceptables,
            seed_argument: Some(101u64),
            day_argument: Some(1usize),
            config_mode: self.config_mode || wants(args, "-c"@, "--config"@),
            ..self
        }
    }

    /// The first step: takes the built-in word lists, sets seed 101 and
    /// day 1, and notes whether a configuration file is named.  Returns the
    /// name of the configuration file to read, if one is given.
    pub fn begin(&mut self, args: &[String], finals: Vec<String>, acceptables: Vec<String>) -> (config:
        Option<String>)
        ensures
            *final(self) == old(self).begun(args@, finals, acceptables),
            config == value_after(args@, "-c"@, "--config"@),
    {
        self.final_set = finals;
        self.acceptable_set = acceptables;
        self.seed_argument = Some(101);
        self.day_argument = Some(1);
        if has_flag(args, "-c", "--config") {
            self.config_mode = true;
        }
        flag_value(args, "-c", "--config")
    }

    /// The options after [`WordProcessor::load_config_from_file`].
    pub open spec fn configured(self, path: String, config: Option<Config>) -> WordProcessor {
        match config {
            Some(c) => WordProcessor {
                random_mode: c.word is None,
                difficult_mode: c.difficult,
                stats_mode: c.stats,
                day_argument: c.day,
                seed_argument: c.seed,
                final_set_file: c.final_set,
                acceptable_set_file: c.acceptable_set,
                state_path: c.state,
                word_argument: c.word,
                config_path: Some(path),
                ..self
            },
            None => WordProcessor { config_path: Some(path), ..self },
        }
    }

    /// Takes over what the configuration file at `path` holds; `config` is
    /// `None` where the file holds no configuration.  The secret is picked
    /// at random exactly when the file names none.
    pub fn load_config_from_file(&mut self, path: String, config: Option<Config>)
        ensures
            *final(self) == old(self).configured(path, config),
    {
        match config {
            Some(c) => {
                self.difficult_mode = c.difficult;
                self.stats_mode = c.stats;
                self.day_argument = c.day;
                self.seed_argument = c.seed;
                self.final_set_file = c.final_set;
                self.acceptable_set_file = c.acceptable_set;
                self.state_path = c.state;
                self.word_argument = c.word;
                self.random_mode = self.word_argument.is_none();
            },
            None => {},
        }
        self.config_path = Some(path);
    }

    /// The secret that the command line gives: the argument after `-w`,
    /// where it begins with an alphabetic character.
    pub open spec fn given_word(args: Seq<String>) -> Option<String> {
        match value_after(args, "-w"@, "--word"@) {
            Some(word) => if word@.len() > 0 && alphabetic(word@[0]) {
                Some(word)
            } else {
                None
            },
            None => None,
        }
    }

    /// The options once the secret is taken from the command line.
    pub open spec fn worded(self, args: Seq<String>, given: Option<String>) -> WordProcessor {
        WordProcessor {
            random_mode: if wants(args, "-w"@, "--word"@) {
                false
            } else {
                self.random_mode
            },
            word_mode: self.word_mode || wants(args, "-w"@, "--word"@),
            word_argument: match given {
                Some(word) => Some(word),
                None => self.word_argument,
            },
            meet_word_argument: self.meet_word_argument || given is Some,
            ..self
        }
    }

    /// The options once the switches are taken from the command line.
    pub open spec fn switched(self, args: Seq<String>) -> WordProcessor {
        WordProcessor {
            random_mode: self.random_mode || wants(args, "-r"@, "--random"@),
            difficult_mode: self.difficult_mode || wants(args, "-D"@, "--difficult"@),
            stats_mode: self.stats_mode || wants(args, "-t"@, "--stats"@),
            ..self
        }
    }

    /// The options after [`WordProcessor::apply_modes`].
    pub open spec fn chosen(self, args: Seq<String>, given: Option<String>) -> WordProcessor {
        self.worded(args, given).switched(args)
    }

    /// Statistics are asked for beside a secret from the command line.
    pub open spec fn stats_beside_word(self, args: Seq<String>, given: Option<String>) -> bool {
        wants(args, "-t"@, "--stats"@) && (self.meet_word_argument || given is Some)
    }

    /// Takes the modes that the command line asks for, `given` being the
    /// secret that it gives.  `-w` ends random mode, `-r` asks for it,
    /// `-D` asks for hard mode and `-t` for statistics, which are refused
    /// beside a secret from the command line.
    pub fn apply_modes(&mut self, args: &[String], given: Option<String>) -> (applied: Result<
        (),
        ArgError,
    >)
        ensures
            applied == if old(self).stats_beside_word(args@, given) {
                Err::<(), ArgError>(ArgError::StatsWithWord)
            } else {
                Ok::<(), ArgError>(())
            },
            applied is Ok ==> *final(self) == old(self).chosen(args@, given),
    {
        if has_flag(args, "-t", "--stats") && (self.meet_word_argument || given.is_some()) {
            return Err(ArgError::StatsWithWord);
        }
        self.take_word(args, given);
        self.take_switches(args);
        Ok(())
    }

    /// Takes the secret from the command line.
    fn take_word(&mut self, args: &[String], given: Option<String>)
        ensures
            *final(self) == old(self).worded(args@, given),
    {
        if has_flag(args, "-w", "--word") {
            self.random_mode = false;
            self.word_mode = true;
        }
        match given {
            Some(word) => {
                self.word_argument = Some(word);
                self.meet_word_argument = true;
            },
            None => {},
        }
    }

    /// Takes the switches from the command line.
    fn take_switches(&mut self, args: &[String])
        ensures
            *final(self) == old(self).switched(args@),
    {
        if has_flag(args, "-r", "--random") {
            self.random_mode = true;
        }
        if has_flag(args, "-D", "--difficult") {
            self.difficult_mode = true;
        }
        if has_flag(args, "-t", "--stats") {
            self.stats_mode = true;
        }
    }

    /// What stands against the modes that the command line asks for.
    pub open spec fn choose_fault(self, args: Seq<String>) -> Option<ArgError> {
        if value_after(args, "-w"@, "--word"@) matches Some(word) && word@.len() == 0 {
            Some(ArgError::EmptyWord)
        } else if self.stats_beside_word(args, WordProcessor::given_word(args)) {
            Some(ArgError::StatsWithWord)
        } else {
            None
        }
    }

    /// The second step: the modes that the command line asks for.  The
    /// argument after `-w` is the secret where it starts with an
    /// alphabetic character, and is refused where it is empty; the rest is
    /// as in [`WordProcessor::apply_modes`].
    pub fn choose_mode(&mut self, args: &[String]) -> (chosen: Result<(), ArgError>)
        ensures
            chosen == match old(self).choose_fault(args@) {
                Some(e) => Err::<(), ArgError>(e),
                None => Ok::<(), ArgError>(()),
            },
            chosen is Ok ==> *final(self) == old(self).chosen(
                args@,
                WordProcessor::given_word(args@),
            ),
    {
        let given: Option<String> = match flag_value(args, "-w", "--word") {
            Some(next_argument) => {
                if next_argument.as_str().unicode_len() == 0 {
                    return Err(ArgError::EmptyWord);
                }
                if is_alphabetic(next_argument.as_str().get_char(0)) {
                    Some(next_argument)
                } else {
                    None
                }
            },
            None => None,
        };
        self.apply_modes(args, given)
    }

    /// What the command line asks about the list of answers.
    pub fn final_set_request(args: &[String]) -> (request: ListRequest)
        ensures
            request == request_for(value_after(args@, "-f"@, "--final-set"@)),
    {
        list_request(flag_value(args, "-f", "--final-set"))
    }

    /// What the command line asks about the list of acceptable words.
    pub fn acceptable_set_request(args: &[String]) -> (request: ListRequest)
        ensures
            request == request_for(value_after(args@, "-a"@, "--acceptable-set"@)),
    {
        list_request(flag_value(args, "-a", "--acceptable-set"))
    }

    /// Takes the lines of the file `file_name` as the list of answers.  On
    /// an error nothing changes.
    pub fn load_answer_list(&mut self, file_name: &str, lines: &Vec<String>) -> (loaded: Result<
        (),
        ListError,
    >)
        ensures
            match read_list(words_of(lines@)) {
                Ok(list) => loaded is Ok && words_of(final(self).final_set@) == list && all_words(
                    final(self).final_set@,
                ) && text_of(final(self).final_set_file) == Some(file_name@) && *final(self)
                    == (WordProcessor {
                    final_set: final(self).final_set,
                    final_set_file: final(self).final_set_file,
                    ..*old(self)
                }),
                Err(e) => loaded == Err::<(), ListError>(e) && *final(self) == *old(self),
            },
    {
        match read_word_list(lines) {
            Ok(list) => {
                self.final_set = list;
                self.final_set_file = Some(file_name.to_owned());
                Ok(())
            },
            Err(e) => Err(e),
        }
    }

    /// Takes the lines of the file `file_name` as the list of acceptable
    /// words, in ascending order.  On an error nothing changes.
    pub fn load_accept_list(&mut self, file_name: &str, lines: &Vec<String>) -> (loaded: Result<
        (),
        ListError,
    >)
        ensures
            match read_list(words_of(lines@)) {
                Ok(list) => loaded is Ok && words_of(final(self).acceptable_set@).to_multiset()
                    == list.to_multiset() && ascending(words_of(final(self).acceptable_set@))
                    && all_words(final(self).acceptable_set@) && text_of(
                    final(self).acceptable_set_file,
                ) == Some(file_name@) && *final(self) == (WordProcessor {
                    acceptable_set: final(self).acceptable_set,
                    acceptable_set_file: final(self).acceptable_set_file,
                    ..*old(self)
                }),
                Err(e) => loaded == Err::<(), ListError>(e) && *final(self) == *old(self),
            },
    {
        match read_word_list(lines) {
            Ok(list) => {
                let mut list = list;
                let ghost read = words_of(list@);
                sort_words(&mut list);
                proof {
                    broadcast use vstd::seq_lib::group_to_multiset_ensures;

                    let sorted = words_of(list@);
                    assert forall|i: int| 0 <= i < list@.len() implies is_word(
                        #[trigger] list@[i]@,
                    ) by {
                        assert(sorted[i] == list@[i]@);
                        assert(sorted.contains(sorted[i]));
                        assert(sorted.to_multiset().count(sorted[i]) > 0);
                        assert(read.to_multiset().count(sorted[i]) > 0);
                        assert(read.contains(sorted[i]));
                    }
                    assert forall|i: int, j: int| 0 <= i < j < sorted.len() implies !lex_less(
                        #[trigger] sorted[j],
                        #[trigger] sorted[i],
                    ) by {
                        assert(!lex_less(list@[j]@, list@[i]@));
                    }
                }
                self.acceptable_set = list;
                self.acceptable_set_file = Some(file_name.to_owned());
                Ok(())
            },
            Err(e) => Err(e),
        }
    }

    /// The seed after the command line: the number after `-s`, where there
    /// is one.
    pub open spec fn seed_after(self, args: Seq<String>) -> Option<u64> {
        match value_after(args, "-s"@, "--seed"@) {
            Some(text) => match parsed_u64(text@) {
                Some(seed) => Some(seed),
                None => self.seed_argument,
            },
            None => self.seed_argument,
        }
    }

    /// The day after the command line: the number after `-d`, where there
    /// is one.
    pub open spec fn day_after(self, args: Seq<String>) -> Option<usize> {
        match value_after(args, "-d"@, "--day"@) {
            Some(text) => match parsed_day(text@) {
                Some(day) => Some(day),
                None => self.day_argument,
            },
            None => self.day_argument,
        }
    }

    /// The day that the command line gives is refused: it has a minus sign
    /// in it, or it is a number that is not a day of the list of answers.
    pub open spec fn day_refused(self, args: Seq<String>) -> bool {
        match value_after(args, "-d"@, "--day"@) {
            Some(text) => text@.contains('-') || match parsed_day(text@) {
                Some(day) => !(1 <= day <= self.final_set@.len()),
                None => false,
            },
            None => false,
        }
    }

    /// The options once the seed is taken from the command line.
    pub open spec fn seeded(self, args: Seq<String>) -> WordProcessor {
        WordProcessor {
            seed_mode: self.seed_mode || wants(args, "-s"@, "--seed"@),
            seed_argument: self.seed_after(args),
            ..self
        }
    }

    /// The options once the day is taken from the command line.
    pub open spec fn dated(self, args: Seq<String>) -> WordProcessor {
        WordProcessor {
            day_mode: self.day_mode || wants(args, "-d"@, "--day"@),
            day_argument: self.day_after(args),
            ..self
        }
    }

    /// The options once the state file is taken from the command line.
    pub open spec fn kept(self, args: Seq<String>) -> WordProcessor {
        WordProcessor {
            state_mode: self.state_mode || wants(args, "-S"@, "--state"@),
            state_path: match value_after(args, "-S"@, "--state"@) {
                Some(path) => Some(path),
                None => self.state_path,
            },
            ..self
        }
    }

    /// The options once the interfaces are taken from the command line.
    pub open spec fn shown(self, args: Seq<String>) -> WordProcessor {
        WordProcessor {
            tui_mode: self.tui_mode || wants(args, "-T"@, "--tui"@),
            gui_mode: self.gui_mode || wants(args, "-G"@, "--gui"@),
            hint_mode: self.hint_mode || wants(args, "-H"@, "--hint"@),
            test_mode: self.test_mode || wants(args, "--test"@, "--test"@),
            ..self
        }
    }

    /// The options after [`WordProcessor::finish`].
    pub open spec fn finished(self, args: Seq<String>) -> WordProcessor {
        self.seeded(args).dated(args).kept(args).shown(args)
    }

    /// What stands against the options at the last step.
    pub open spec fn finish_fault(self, args: Seq<String>) -> Option<ArgError> {
        match first_stranger(self.final_set@, self.acceptable_set@, self.final_set@.len() as int) {
            Some(word) => Some(ArgError::NotAcceptable(word)),
            None => if self.day_refused(args) {
                Some(ArgError::InvalidDay)
            } else if self.random_mode && self.word_mode {
                Some(ArgError::WordInRandomMode)
            } else if !self.random_mode && (self.day_mode || wants(args, "-d"@, "--day"@)
                || self.seed_mode || wants(args, "-s"@, "--seed"@)) {
                Some(ArgError::DayOrSeedWithoutRandom)
            } else {
                None
            },
        }
    }

    /// The last step: checks that the answers are acceptable words and
    /// names the first that is not, takes the seed and the day from the
    /// command line, refuses a secret in
    /// random mode and a day or a seed outside it, and takes the state
    /// file and the interfaces asked for.
    pub fn finish(&mut self, args: &[String]) -> (finished: Result<(), ArgError>)
        ensures
            finished == match old(self).finish_fault(args@) {
                Some(e) => Err::<(), ArgError>(e),
                None => Ok::<(), ArgError>(()),
            },
            finished is Ok ==> *final(self) == old(self).finished(args@),
    {
        match self.finish_check(args) {
            Some(e) => {
                return Err(e);
            },
            None => {},
        }
        self.take_seed(args);
        self.take_day(args);
        self.take_state(args);
        self.take_interfaces(args);
        Ok(())
    }

    /// Looks for what stands against the options at the last step.
    pub fn finish_check(&self, args: &[String]) -> (fault: Option<ArgError>)
        ensures
            fault == self.finish_fault(args@),
    {
        match find_stranger(&self.final_set, &self.acceptable_set) {
            Some(word) => {
                return Some(ArgError::NotAcceptable(word));
            },
            None => {},
        }
        match self.day_given(args) {
            Ok(_day) => {},
            Err(e) => {
                return Some(e);
            },
        }
        let seed_flag: bool = has_flag(args, "-s", "--seed");
        let day_flag: bool = has_flag(args, "-d", "--day");
        if self.random_mode && self.word_mode {
            return Some(ArgError::WordInRandomMode);
        }
        if !self.random_mode && (self.day_mode || day_flag || self.seed_mode || seed_flag) {
            return Some(ArgError::DayOrSeedWithoutRandom);
        }
        None
    }

    /// Takes the seed from the command line.
    fn take_seed(&mut self, args: &[String])
        ensures
            *final(self) == old(self).seeded(args@),
    {
        self.seed_mode = self.seed_mode || has_flag(args, "-s", "--seed");
        match flag_value(args, "-s", "--seed") {
            Some(next_argument) => match parse_u64(next_argument.as_str()) {
                Some(seed) => {
                    self.seed_argument = Some(seed);
                },
                None => {},
            },
            None => {},
        }
    }

    /// Takes the day from the command line.
    fn take_day(&mut self, args: &[String])
        ensures
            *final(self) == old(self).dated(args@),
    {
        self.day_mode = self.day_mode || has_flag(args, "-d", "--day");
        match flag_value(args, "-d", "--day") {
            Some(next_argument) => match self.parse_day(next_argument.as_str()) {
                Some(day) => {
                    self.day_argument = Some(day);
                },
                None => {},
            },
            None => {},
        }
    }

    /// Takes the state file from the command line.
    fn take_state(&mut self, args: &[String])
        ensures
            *final(self) == old(self).kept(args@),
    {
        self.state_mode = self.state_mode || has_flag(args, "-S", "--state");
        match flag_value(args, "-S", "--state") {
            Some(state) => {
                self.state_path = Some(state);
            },
            None => {},
        }
    }

    /// Takes the interfaces from the command line.
    fn take_interfaces(&mut self, args: &[String])
        ensures
            *final(self) == old(self).shown(args@),
    {
        self.tui_mode = self.tui_mode || has_flag(args, "-T", "--tui");
        self.gui_mode = self.gui_mode || has_flag(args, "-G", "--gui");
        self.hint_mode = self.hint_mode || has_flag(args, "-H", "--hint");
        self.test_mode = self.test_mode || has_flag(args, "--test", "--test");
    }

    /// The day that the command line gives, if it gives one and does not
    /// give one that is refused.
    pub fn day_given(&self, args: &[String]) -> (given: Result<Option<usize>, ArgError>)
        ensures
            given is Err <==> self.day_refused(args@),
            given matches Err(e) ==> e == ArgError::InvalidDay,
            given matches Ok(day) ==> day == match value_after(args@, "-d"@, "--day"@) {
                Some(text) => parsed_day(text@),
                None => None,
            },
    {
        match flag_value(args, "-d", "--day") {
            Some(next_argument) => {
                if has_char(next_argument.as_str(), '-') {
                    return Err(ArgError::InvalidDay);
                }
                let day: Option<usize> = self.parse_day(next_argument.as_str());
                match day {
                    Some(number) => {
                        if number == 0 || number > self.final_set.len() {
                            return Err(ArgError::InvalidDay);
                        }
                    },
                    None => {},
                }
                Ok(day)
            },
            None => Ok(None),
        }
    }

    /// The day that a text names.
    pub fn parse_day(&self, text: &str) -> (day: Option<usize>)
        ensures
            day == parsed_day(text@),
    {
        as_day(parse_u64(text))
    }
}

/// The request that a file name, or none, makes.
pub fn list_request(value: Option<String>) -> (request: ListRequest)
    ensures
        request == request_for(value),
{
    match value {
        None => ListRequest::Keep,
        Some(name) => if has_char(name.as_str(), '.') {
            ListRequest::Load(name)
        } else {
            ListRequest::Ignore(name)
        },
    }
}

/// The answers that the program has when no file names others.
pub fn get_default_answers_list(builtin: &[&str]) -> (list: Vec<String>)
    ensures
        list@.len() == builtin@.len(),
        forall|i: int| 0 <= i < builtin@.len() ==> (#[trigger] list@[i])@ == uppercased(builtin@[i]@),
{
    uppercase_list(builtin)
}

/// The acceptable words that the program has when no file names others.
pub fn get_default_accept_list(builtin: &[&str]) -> (list: Vec<String>)
    ensures
        list@.len() == builtin@.len(),
        forall|i: int| 0 <= i < builtin@.len() ==> (#[trigger] list@[i])@ == uppercased(builtin@[i]@),
{
    uppercase_list(builtin)
}

} // verus!
