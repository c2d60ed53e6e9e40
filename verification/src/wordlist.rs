//! Word lists: reading one from the lines of a file, and checking that the
//! answers are among the acceptable words.

use vstd::prelude::*;

use crate::input::{
    contains_word, is_white_space, trim_text, trimmed, uppercase_text, uppercased, white_space,
};
use crate::lexical::lex_less;
use crate::word::{all_words, is_word, words_of, WORD_LENGTH};

verus! {

/// A run starts at place `i` of a row of marks: the place is not marked,
/// and it is the first or follows a marked place.
pub open spec fn starts_run(gaps: Seq<bool>, i: int) -> bool {
    !gaps[i] && (i == 0 || gaps[i - 1])
}

/// The number of runs that start among the first `n` places of a row of
/// marks.
pub open spec fn runs_upto(gaps: Seq<bool>, n: int) -> nat
    decreases n,
{
    if n <= 0 {
        0
    } else {
        runs_upto(gaps, n - 1) + if starts_run(gaps, n - 1) {
            1nat
        } else {
            0nat
        }
    }
}

/// For each character of a line, whether it is white space.
pub open spec fn gaps_of(line: Seq<char>) -> Seq<bool> {
    Seq::new(line.len(), |i: int| white_space(line[i]))
}

/// The number of words in a line: of runs of characters that are not white
/// space.
pub open spec fn words_in(line: Seq<char>) -> nat {
    runs_upto(gaps_of(line), line.len() as int)
}

/// Counts the runs of places that are not marked.
pub fn count_runs(gaps: &Vec<bool>) -> (count: usize)
    ensures
        count == runs_upto(gaps@, gaps@.len() as int),
{
    let mut count: usize = 0;
    let mut after_gap: bool = true;
    let mut i: usize = 0;
    while i < gaps.len()
        invariant
            i <= gaps.len(),
            count == runs_upto(gaps@, i as int),
            count <= i,
            after_gap == (i == 0 || gaps@[i - 1]),
        decreases gaps.len() - i,
    {
        if !gaps[i] && after_gap {
            count = count + 1;
        }
        after_gap = gaps[i];
        i = i + 1;
    }
    count
}

/// Counts the words in a line.
pub fn count_words(line: &str) -> (count: usize)
    ensures
        count == words_in(line@),
{
    let n: usize = line.unicode_len();
    let mut gaps: Vec<bool> = Vec::new();
    let mut i: usize = 0;
    while i < n
        invariant
            i <= n,
            n == line@.len(),
            gaps@.len() == i,
            forall|j: int| 0 <= j < i ==> gaps@[j] == white_space(line@[j]),
        decreases n - i,
    {
        gaps.push(is_white_space(line.get_char(i)));
        i = i + 1;
    }
    assert(gaps@ =~= gaps_of(line@));
    count_runs(&gaps)
}

/// Why a file is not a word list.
#[derive(Debug, Copy, Clone, PartialEq, Eq, Structural)]
pub enum ListError {
    /// A line holds more than one word.
    ManyWords,
    /// The word of a line does not have `WORD_LENGTH` characters.
    WrongLength,
    /// The word of a line holds a character that is no letter from `A` to
    /// `Z`.
    NotLetters,
    /// A word stands in the list twice.
    Duplicated,
}

/// The entry that a line of a word-list file stands for: the line trimmed
/// and in upper case.
pub open spec fn entry_of(line: Seq<char>) -> Seq<char> {
    uppercased(trimmed(line))
}

/// What the first `n` lines of a file make as a word list: the entries of
/// the lines in order, or the first error.  A line must hold no more than
/// one word, and its entry must be a word of the game, `WORD_LENGTH`
/// letters from `A` to `Z`, that has not occurred before.
pub open spec fn read_upto(lines: Seq<Seq<char>>, n: int) -> Result<Seq<Seq<char>>, ListError>
    decreases n,
{
    if n <= 0 {
        Ok(Seq::empty())
    } else {
        match read_upto(lines, n - 1) {
            Err(e) => Err(e),
            Ok(list) => {
                let line = lines[n - 1];
                if words_in(line) > 1 {
                    Err(ListError::ManyWords)
                } else if entry_of(line).len() != WORD_LENGTH {
                    Err(ListError::WrongLength)
                } else if !is_word(entry_of(line)) {
                    Err(ListError::NotLetters)
                } else if list.contains(entry_of(line)) {
                    Err(ListError::Duplicated)
                } else {
                    Ok(list.push(entry_of(line)))
                }
            },
        }
    }
}

/// What the lines of a file make as a word list.
pub open spec fn read_list(lines: Seq<Seq<char>>) -> Result<Seq<Seq<char>>, ListError> {
    read_upto(lines, lines.len() as int)
}

/// Once a line is in error, the file is.
pub proof fn lemma_read_error_stays(lines: Seq<Seq<char>>, m: int, n: int)
    requires
        0 <= m <= n,
        read_upto(lines, m) is Err,
    ensures
        read_upto(lines, n) == read_upto(lines, m),
    decreases n,
{
    if m < n {
        lemma_read_error_stays(lines, m, n - 1);
    }
}

/// A list that was read is a set of words: each entry is a word of the
/// game, and none stands in it twice.
pub proof fn lemma_read_list_is_word_set(lines: Seq<Seq<char>>, n: int)
    requires
        0 <= n,
    ensures
        read_upto(lines, n) matches Ok(list) ==> list.no_duplicates() && forall|i: int|
            0 <= i < list.len() ==> is_word(#[trigger] list[i]),
    decreases n,
{
    if n > 0 {
        lemma_read_list_is_word_set(lines, n - 1);
    }
}

/// Reads a word list from the lines of a file.
pub fn read_word_list(lines: &Vec<String>) -> (read: Result<Vec<String>, ListError>)
    ensures
        match read {
            Ok(list) => read_list(words_of(lines@)) == Ok::<Seq<Seq<char>>, ListError>(
                words_of(list@),
            ) && words_of(list@).no_duplicates() && all_words(list@),
            Err(e) => read_list(words_of(lines@)) == Err::<Seq<Seq<char>>, ListError>(e),
        },
{
    let ghost texts = words_of(lines@);
    let mut list: Vec<String> = Vec::new();
    let mut i: usize = 0;
    assert(words_of(list@) =~= Seq::<Seq<char>>::empty());
    while i < lines.len()
        invariant
            i <= lines.len(),
            texts == words_of(lines@),
            read_upto(texts, i as int) == Ok::<Seq<Seq<char>>, ListError>(words_of(list@)),
        decreases lines.len() - i,
    {
        let line: &str = lines[i].as_str();
        assert(texts[i as int] == line@);
        let ghost so_far = words_of(list@);
        if count_words(line) > 1 {
            proof {
                lemma_read_error_stays(texts, i as int + 1, texts.len() as int);
            }
            return Err(ListError::ManyWords);
        }
        let entry: String = uppercase_text(trim_text(line));
        if entry.as_str().unicode_len() != WORD_LENGTH {
            proof {
                lemma_read_error_stays(texts, i as int + 1, texts.len() as int);
            }
            return Err(ListError::WrongLength);
        }
        if !is_a_word(entry.as_str()) {
            proof {
                lemma_read_error_stays(texts, i as int + 1, texts.len() as int);
            }
            return Err(ListError::NotLetters);
        }
        if contains_word(&list, entry.as_str()) {
            proof {
                lemma_read_error_stays(texts, i as int + 1, texts.len() as int);
            }
            return Err(ListError::Duplicated);
        }
        list.push(entry);
        assert(words_of(list@) =~= so_far.push(entry_of(line@)));
        i = i + 1;
    }
    proof {
        lemma_read_list_is_word_set(texts, texts.len() as int);
        assert forall|j: int| 0 <= j < list@.len() implies is_word(#[trigger] list@[j]@) by {
            assert(words_of(list@)[j] == list@[j]@);
        }
    }
    Ok(list)
}

/// Sorts a list of texts with `sort` of the standard library.
///
/// Taken on trust from its documentation, and from that of the order of
/// `str`: the list ends up holding the same texts as before, in ascending
/// order, and texts are ordered character by character.
#[verifier::external_body]
pub(crate) fn sort_words(list: &mut Vec<String>)
    ensures
        words_of(final(list)@).to_multiset() == words_of(old(list)@).to_multiset(),
        forall|i: int, j: int|
            0 <= i < j < final(list)@.len() ==> !lex_less(
                #[trigger] final(list)@[j]@,
                #[trigger] final(list)@[i]@,
            ),
{
    list.sort();
}

/// The texts of a list stand in ascending order.
pub open spec fn ascending(list: Seq<Seq<char>>) -> bool {
    forall|i: int, j: int| 0 <= i < j < list.len() ==> !lex_less(#[trigger] list[j], #[trigger] list[i])
}

/// The first of the first `n` answers that is not an acceptable word.
pub open spec fn first_stranger(answers: Seq<String>, acceptable: Seq<String>, n: int) -> Option<
    String,
>
    decreases n,
{
    if n <= 0 {
        None
    } else {
        match first_stranger(answers, acceptable, n - 1) {
            Some(word) => Some(word),
            None => if words_of(acceptable).contains(answers[n - 1]@) {
                None
            } else {
                Some(answers[n - 1])
            },
        }
    }
}

/// There is no stranger exactly when every answer is an acceptable word,
/// and a stranger is an answer that is not acceptable and stands before
/// every other such answer.
pub proof fn lemma_no_stranger(answers: Seq<String>, acceptable: Seq<String>, n: int)
    requires
        0 <= n <= answers.len(),
    ensures
        first_stranger(answers, acceptable, n) is None <==> forall|i: int|
            0 <= i < n ==> words_of(acceptable).contains(#[trigger] answers[i]@),
        first_stranger(answers, acceptable, n) matches Some(word) ==> exists|k: int|
            0 <= k < n && #[trigger] answers[k] == word && !words_of(acceptable).contains(word@)
                && forall|i: int|
                0 <= i < k ==> words_of(acceptable).contains(#[trigger] answers[i]@),
    decreases n,
{
    if n > 0 {
        lemma_no_stranger(answers, acceptable, n - 1);
        match first_stranger(answers, acceptable, n - 1) {
            Some(word) => {
                let k = choose|k: int|
                    0 <= k < n - 1 && #[trigger] answers[k] == word && !words_of(
                        acceptable,
                    ).contains(word@) && forall|i: int|
                        0 <= i < k ==> words_of(acceptable).contains(#[trigger] answers[i]@);
                assert(0 <= k < n && answers[k] == word);
            },
            None => {
                if !words_of(acceptable).contains(answers[n - 1]@) {
                    assert(0 <= n - 1 < n && answers[n - 1] == answers[n - 1]);
                }
            },
        }
    }
}

/// Once an answer is a stranger, it stays the first.
pub proof fn lemma_stranger_stays(answers: Seq<String>, acceptable: Seq<String>, m: int, n: int)
    requires
        0 <= m <= n,
        first_stranger(answers, acceptable, m) is Some,
    ensures
        first_stranger(answers, acceptable, n) == first_stranger(answers, acceptable, m),
    decreases n,
{
    if m < n {
        lemma_stranger_stays(answers, acceptable, m, n - 1);
    }
}

/// Looks for an answer that is not an acceptable word, and returns the
/// first one.
pub fn find_stranger(final_set: &Vec<String>, acceptable_set: &Vec<String>) -> (found: Option<
    String,
>)
    ensures
        found == first_stranger(final_set@, acceptable_set@, final_set@.len() as int),
{
    let mut i: usize = 0;
    while i < final_set.len()
        invariant
            i <= final_set.len(),
            first_stranger(final_set@, acceptable_set@, i as int) is None,
        decreases final_set.len() - i,
    {
        if !contains_word(acceptable_set, final_set[i].as_str()) {
            proof {
                lemma_stranger_stays(
                    final_set@,
                    acceptable_set@,
                    i as int + 1,
                    final_set@.len() as int,
                );
            }
            return Some(final_set[i].clone());
        }
        i = i + 1;
    }
    None
}

/// Tells whether every entry of a list is a word.
pub fn is_word_list(list: &Vec<String>) -> (ok: bool)
    ensures
        ok == all_words(list@),
{
    let mut i: usize = 0;
    while i < list.len()
        invariant
            i <= list.len(),
            forall|j: int| 0 <= j < i ==> is_word(#[trigger] list@[j]@),
        decreases list.len() - i,
    {
        if !is_a_word(list[i].as_str()) {
            return false;
        }
        i = i + 1;
    }
    true
}

/// Tells whether a text is a word.
pub fn is_a_word(text: &str) -> (ok: bool)
    ensures
        ok == is_word(text@),
{
    let n: usize = text.unicode_len();
    if n != WORD_LENGTH {
        return false;
    }
    let mut i: usize = 0;
    while i < n
        invariant
            i <= n,
            n == text@.len(),
            n == WORD_LENGTH,
            forall|j: int| 0 <= j < i ==> crate::word::is_letter(#[trigger] text@[j]),
        decreases n - i,
    {
        let c: char = text.get_char(i);
        if !('A' <= c && c <= 'Z') {
            return false;
        }
        i = i + 1;
    }
    true
}

/// The texts of a list in upper case.
pub fn uppercase_list(words: &[&str]) -> (list: Vec<String>)
    ensures
        list@.len() == words@.len(),
        forall|i: int| 0 <= i < words@.len() ==> (#[trigger] list@[i])@ == uppercased(words@[i]@),
{
    let mut list: Vec<String> = Vec::new();
    let mut i: usize = 0;
    while i < words.len()
        invariant
            i <= words.len(),
            list@.len() == i,
            forall|j: int| 0 <= j < i ==> (#[trigger] list@[j])@ == uppercased(words@[j]@),
        decreases words.len() - i,
    {
        list.push(uppercase_text(words[i]));
        i = i + 1;
    }
    list
}

} // verus!
