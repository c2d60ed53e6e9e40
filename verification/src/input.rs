//! What a player types, brought to the form in which words are compared:
//! trimmed, in upper case, and without anything but the letters of the
//! ASCII alphabet.

use vstd::prelude::*;

use crate::word::words_of;

verus! {

/// `c` is white space: one of the 25 characters that have the property
/// `White_Space` of Unicode, by which the standard library tells white
/// space.
pub open spec fn white_space(c: char) -> bool {
    ||| '\u{9}' <= c && c <= '\u{d}'
    ||| c == ' '
    ||| c == '\u{85}'
    ||| c == '\u{a0}'
    ||| c == '\u{1680}'
    ||| '\u{2000}' <= c && c <= '\u{200a}'
    ||| c == '\u{2028}'
    ||| c == '\u{2029}'
    ||| c == '\u{202f}'
    ||| c == '\u{205f}'
    ||| c == '\u{3000}'
}

/// Tells whether a character is white space.
pub fn is_white_space(c: char) -> (white: bool)
    ensures
        white == white_space(c),
{
    ('\u{9}' <= c && c <= '\u{d}') || c == ' ' || c == '\u{85}' || c == '\u{a0}' || c
        == '\u{1680}' || ('\u{2000}' <= c && c <= '\u{200a}') || c == '\u{2028}' || c
        == '\u{2029}' || c == '\u{202f}' || c == '\u{205f}' || c == '\u{3000}'
}

/// The first place from `i` on that does not hold white space; the length
/// of the text where there is none.
pub open spec fn skip_front(text: Seq<char>, i: int) -> int
    decreases text.len() - i,
{
    if 0 <= i < text.len() && white_space(text[i]) {
        skip_front(text, i + 1)
    } else {
        i
    }
}

/// The end of the text before place `j` once the white space at that end
/// is dropped: the place after the last character before `j` that is not
/// white space; 0 where there is none.
pub open spec fn skip_back(text: Seq<char>, j: int) -> int
    decreases j,
{
    if 0 < j <= text.len() && white_space(text[j - 1]) {
        skip_back(text, j - 1)
    } else {
        j
    }
}

/// A text without the white space at its two ends.
pub open spec fn trimmed(text: Seq<char>) -> Seq<char> {
    let from = skip_front(text, 0);
    let to = skip_back(text, text.len() as int);
    if from < to {
        text.subrange(from, to)
    } else {
        Seq::empty()
    }
}

/// Where the white space at the two ends of a text stops: between the
/// ends, with white space only outside and none just inside.
pub proof fn lemma_skip_ends(text: Seq<char>, i: int, j: int)
    requires
        0 <= i <= text.len(),
        0 <= j <= text.len(),
    ensures
        i <= skip_front(text, i) <= text.len(),
        0 <= skip_back(text, j) <= j,
        forall|k: int| i <= k < skip_front(text, i) ==> white_space(#[trigger] text[k]),
        forall|k: int| skip_back(text, j) <= k < j ==> white_space(#[trigger] text[k]),
        skip_front(text, i) < text.len() ==> !white_space(text[skip_front(text, i)]),
        skip_back(text, j) > 0 ==> !white_space(text[skip_back(text, j) - 1]),
    decreases text.len() - i + j,
{
    if i < text.len() && white_space(text[i]) {
        lemma_skip_ends(text, i + 1, 0);
    }
    if 0 < j && white_space(text[j - 1]) {
        lemma_skip_ends(text, text.len() as int, j - 1);
    }
}

/// A trimmed text neither starts nor ends with white space, and the text
/// it comes from is white space, then the trimmed text, then white space.
pub proof fn lemma_trimmed(text: Seq<char>)
    ensures
        trimmed(text).len() > 0 ==> !white_space(trimmed(text).first()) && !white_space(
            trimmed(text).last(),
        ),
        exists|front: Seq<char>, back: Seq<char>|
            #![trigger front + trimmed(text) + back]
            text == front + trimmed(text) + back && (forall|k: int|
                0 <= k < front.len() ==> white_space(#[trigger] front[k])) && (forall|k: int|
                0 <= k < back.len() ==> white_space(#[trigger] back[k])),
{
    let n = text.len() as int;
    let from = skip_front(text, 0);
    let to = skip_back(text, n);
    lemma_skip_ends(text, 0, n);
    if from < to {
        let front = text.subrange(0, from);
        let back = text.subrange(to, n);
        assert(text =~= front + trimmed(text) + back);
    } else {
        // the text is white space from end to end
        assert forall|k: int| 0 <= k < n implies white_space(#[trigger] text[k]) by {
            if k < from {
            } else {
                assert(to <= k);
            }
        }
        let none = Seq::<char>::empty();
        assert(text =~= text + trimmed(text) + none);
    }
}

/// Drops the white space at the two ends of a text.
pub fn trim_text(text: &str) -> (out: &str)
    ensures
        out@ == trimmed(text@),
{
    let n: usize = text.unicode_len();
    let mut from: usize = 0;
    while from < n
        invariant
            from <= n,
            n == text@.len(),
            skip_front(text@, 0) == skip_front(text@, from as int),
        ensures
            from <= n,
            skip_front(text@, 0) == from,
        decreases n - from,
    {
        if !is_white_space(text.get_char(from)) {
            break ;
        }
        from = from + 1;
    }
    let mut to: usize = n;
    while to > from
        invariant
            from <= to <= n,
            n == text@.len(),
            skip_back(text@, n as int) == skip_back(text@, to as int),
        ensures
            from <= to <= n,
            skip_back(text@, n as int) == skip_back(text@, to as int),
            to > from ==> !white_space(text@[to - 1]),
        decreases to,
    {
        if !is_white_space(text.get_char(to - 1)) {
            break ;
        }
        to = to - 1;
    }
    proof {
        lemma_skip_ends(text@, 0, to as int);
        if to == from {
            assert(text@.subrange(from as int, to as int) =~= Seq::<char>::empty());
        }
    }
    text.substring_char(from, to)
}

/// What `str::to_uppercase` returns for a text: its upper-case equivalent.
pub uninterp spec fn uppercased(text: Seq<char>) -> Seq<char>;

/// Calls `str::to_uppercase`.  Taken on trust: the result is a
/// function of the text alone.
#[verifier::external_body]
pub(crate) fn uppercase_text(text: &str) -> (out: String)
    ensures
        out@ == uppercased(text@),
{
    text.to_uppercase()
}

/// `c` is a letter of the ASCII alphabet, of either case.
pub open spec fn is_ascii_letter(c: char) -> bool {
    ('A' <= c && c <= 'Z') || ('a' <= c && c <= 'z')
}

/// The test that [`letters_only`] filters by.
pub open spec fn ascii_letter() -> spec_fn(char) -> bool {
    |c: char| is_ascii_letter(c)
}

/// A line of input in the form in which words are compared.
pub open spec fn sanitized(line: Seq<char>) -> Seq<char> {
    uppercased(trimmed(line)).filter(ascii_letter())
}

/// Tells whether two texts are the same.
pub fn same_text(a: &str, b: &str) -> (same: bool)
    ensures
        same == (a@ == b@),
{
    let n: usize = a.unicode_len();
    if n != b.unicode_len() {
        return false;
    }
    let mut i: usize = 0;
    while i < n
        invariant
            i <= n,
            n == a@.len(),
            n == b@.len(),
            forall|j: int| 0 <= j < i ==> a@[j] == b@[j],
        decreases n - i,
    {
        if a.get_char(i) != b.get_char(i) {
            return false;
        }
        i = i + 1;
    }
    assert(a@ =~= b@);
    true
}

/// Tells whether a list holds a word.
pub fn contains_word(word_list: &Vec<String>, word: &str) -> (found: bool)
    ensures
        found == words_of(word_list@).contains(word@),
{
    let mut i: usize = 0;
    while i < word_list.len()
        invariant
            i <= word_list.len(),
            forall|j: int| 0 <= j < i ==> word_list@[j]@ != word@,
        decreases word_list.len() - i,
    {
        if same_text(word_list[i].as_str(), word) {
            assert(words_of(word_list@)[i as int] == word@);
            return true;
        }
        i = i + 1;
    }
    assert forall|j: int| 0 <= j < words_of(word_list@).len() implies words_of(word_list@)[j]
        != word@ by {
        assert(words_of(word_list@)[j] == word_list@[j]@);
    }
    false
}

/// Keeps the letters of the ASCII alphabet of a text, in order.
pub fn letters_only(text: &str) -> (out: String)
    ensures
        out@ == text@.filter(ascii_letter()),
{
    let n: usize = text.unicode_len();
    let mut out: String = String::new();
    let mut i: usize = 0;
    assert(text@.take(0) =~= Seq::<char>::empty());
    while i < n
        invariant
            i <= n,
            n == text@.len(),
            out@ == text@.take(i as int).filter(ascii_letter()),
        decreases n - i,
    {
        let c: char = text.get_char(i);
        let keep: bool = ('A' <= c && c <= 'Z') || ('a' <= c && c <= 'z');
        let ghost before = text@.take(i as int);
        let ghost after = text@.take(i as int + 1);
        proof {
            reveal(Seq::filter);
            assert(after.drop_last() =~= before);
            assert(after.last() == c);
            assert(ascii_letter()(c) == keep);
            assert(after.filter(ascii_letter()) == if keep {
                before.filter(ascii_letter()).push(c)
            } else {
                before.filter(ascii_letter())
            });
        }
        if keep {
            let piece: &str = text.substring_char(i, i + 1);
            proof {
                assert(piece@ =~= seq![c]);
                assert(out@ + piece@ =~= out@.push(c));
            }
            out.append(piece);
        }
        i = i + 1;
    }
    assert(text@.take(n as int) =~= text@);
    out
}

/// Brings a line of input to the form in which words are compared: trimmed,
/// in upper case, and without anything but the letters of the ASCII
/// alphabet.
pub fn sanitize_word(line: &str) -> (word: String)
    ensures
        word@ == sanitized(line@),
{
    let upper: String = uppercase_text(trim_text(line));
    letters_only(upper.as_str())
}

} // verus!
