//! Words: fixed-length sequences of upper-case letters, and the counting
//! functions the game's rules are stated with.

use vstd::prelude::*;

verus! {

/// Every word of the game has this many letters.
pub const WORD_LENGTH: usize = 5;

/// The alphabet runs from `A` to `Z`.
pub const ALPHABET_LENGTH: usize = 26;

/// `c` is one of the letters `A` to `Z`.
pub open spec fn is_letter(c: char) -> bool {
    'A' <= c && c <= 'Z'
}

/// `w` is a word: `WORD_LENGTH` letters, each from `A` to `Z`.
pub open spec fn is_word(w: Seq<char>) -> bool {
    &&& w.len() == WORD_LENGTH
    &&& forall|i: int| 0 <= i < w.len() ==> is_letter(#[trigger] w[i])
}

/// The words of a list, each as its sequence of characters.
pub open spec fn words_of(list: Seq<String>) -> Seq<Seq<char>> {
    Seq::new(list.len(), |i: int| list[i]@)
}

/// Every entry of the list is a word.
pub open spec fn all_words(list: Seq<String>) -> bool {
    forall|i: int| 0 <= i < list.len() ==> is_word(#[trigger] list[i]@)
}

/// The slot of a letter in a table of the alphabet: 0 for `A`, 25 for `Z`.
pub open spec fn letter_index(c: char) -> int {
    c as int - 'A' as int
}

/// The letter of a slot of the alphabet.
pub open spec fn letter_at(k: int) -> char {
    (k + 'A' as int) as char
}

/// How often `c` occurs among the first `n` letters of `w`.
pub open spec fn count_upto(w: Seq<char>, c: char, n: int) -> nat
    decreases n,
{
    if n <= 0 {
        0
    } else {
        count_upto(w, c, n - 1) + if w[n - 1] == c { 1nat } else { 0nat }
    }
}

/// How often `c` occurs in `w`.
pub open spec fn count_letter(w: Seq<char>, c: char) -> nat {
    count_upto(w, c, w.len() as int)
}

/// The slots of the letters of a word, in order.
pub fn letters_of(word: &str) -> (out: Vec<usize>)
    requires
        is_word(word@),
    ensures
        out@.len() == WORD_LENGTH,
        forall|i: int| 0 <= i < WORD_LENGTH ==> out@[i] == letter_index(#[trigger] word@[i]),
        forall|i: int| 0 <= i < WORD_LENGTH ==> (#[trigger] out@[i]) < ALPHABET_LENGTH,
{
    let mut out: Vec<usize> = Vec::new();
    let mut i: usize = 0;
    while i < WORD_LENGTH
        invariant
            i <= WORD_LENGTH,
            is_word(word@),
            out@.len() == i,
            forall|j: int| 0 <= j < i ==> out@[j] == letter_index(#[trigger] word@[j]),
            forall|j: int| 0 <= j < i ==> (#[trigger] out@[j]) < ALPHABET_LENGTH,
        decreases WORD_LENGTH - i,
    {
        let c: char = word.get_char(i);
        let k: usize = (c as u32 - 'A' as u32) as usize;
        out.push(k);
        i = i + 1;
    }
    out
}

/// The number of occurrences of `c` among the first `n` letters never
/// decreases with `n`, and never exceeds `n`.
pub proof fn lemma_count_upto_monotone(w: Seq<char>, c: char, m: int, n: int)
    requires
        0 <= m <= n,
    ensures
        count_upto(w, c, m) <= count_upto(w, c, n),
        count_upto(w, c, n) <= n,
    decreases n,
{
    if n > 0 {
        if m < n {
            lemma_count_upto_monotone(w, c, m, n - 1);
        } else {
            lemma_count_upto_monotone(w, c, m - 1, n - 1);
        }
    }
}

/// A letter that stands somewhere in a word is counted at least once, and
/// a letter that is counted stands somewhere.
pub proof fn lemma_count_positive_iff_occurs(w: Seq<char>, c: char, n: int)
    requires
        0 <= n <= w.len(),
    ensures
        count_upto(w, c, n) > 0 <==> exists|i: int| 0 <= i < n && w[i] == c,
    decreases n,
{
    if n > 0 {
        lemma_count_positive_iff_occurs(w, c, n - 1);
        if w[n - 1] == c {
            assert(0 <= n - 1 < n && w[n - 1] == c);
        } else if count_upto(w, c, n) > 0 {
            let i = choose|i: int| 0 <= i < n - 1 && w[i] == c;
            assert(0 <= i < n && w[i] == c);
        } else {
            if exists|i: int| 0 <= i < n && w[i] == c {
                let i = choose|i: int| 0 <= i < n && w[i] == c;
                assert(0 <= i < n - 1 && w[i] == c);
            }
        }
    }
}

/// How often each letter of the alphabet occurs in a word, one slot per
/// letter.
pub fn letter_counts(word: &str) -> (out: [usize; ALPHABET_LENGTH])
    requires
        is_word(word@),
    ensures
        forall|c: char|
            is_letter(c) ==> out@[#[trigger] letter_index(c)] == count_letter(word@, c),
{
    let letters: Vec<usize> = letters_of(word);
    let mut out: [usize; ALPHABET_LENGTH] = [0usize; ALPHABET_LENGTH];
    let mut i: usize = 0;
    while i < WORD_LENGTH
        invariant
            i <= WORD_LENGTH,
            is_word(word@),
            letters@.len() == WORD_LENGTH,
            forall|j: int| 0 <= j < WORD_LENGTH ==> letters@[j] == letter_index(#[trigger] word@[j]),
            forall|j: int| 0 <= j < WORD_LENGTH ==> (#[trigger] letters@[j]) < ALPHABET_LENGTH,
            forall|c: char|
                is_letter(c) ==> out@[#[trigger] letter_index(c)] == count_upto(
                    word@,
                    c,
                    i as int,
                ),
        decreases WORD_LENGTH - i,
    {
        let k: usize = letters[i];
        proof {
            lemma_count_upto_monotone(word@, word@[i as int], i as int, i as int);
        }
        out[k] = out[k] + 1;
        i = i + 1;
    }
    out
}

} // verus!
