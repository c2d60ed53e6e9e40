//! Feedback as plain text: one letter for each status.

use vstd::prelude::*;

use crate::status::LetterStatus;

verus! {

/// The letter that stands for a status in plain output: `G`, `Y` and `R`
/// for the three colours, and `X` for a letter of which nothing is known.
pub open spec fn status_letter(status: LetterStatus) -> char {
    match status {
        LetterStatus::Green => 'G',
        LetterStatus::Yellow => 'Y',
        LetterStatus::Red => 'R',
        LetterStatus::Unknown => 'X',
    }
}

/// The letters that stand for a row of statuses.
pub open spec fn status_letters(statuses: Seq<LetterStatus>) -> Seq<char> {
    Seq::new(statuses.len(), |i: int| status_letter(statuses[i]))
}

/// Writes a row of statuses, the feedback for a guess or the knowledge
/// about the alphabet, as one letter for each status.
pub fn status_line<const N: usize>(statuses: &[LetterStatus; N]) -> (line: String)
    ensures
        line@ == status_letters(statuses@),
{
    let mut line: String = String::new();
    let mut i: usize = 0;
    while i < N
        invariant
            i <= N,
            statuses@.len() == N,
            line@.len() == i,
            forall|j: int| 0 <= j < i ==> line@[j] == status_letter(statuses@[j]),
        decreases N - i,
    {
        proof {
            reveal_strlit("G");
            reveal_strlit("Y");
            reveal_strlit("R");
            reveal_strlit("X");
        }
        match statuses[i] {
            LetterStatus::Green => line.append("G"),
            LetterStatus::Yellow => line.append("Y"),
            LetterStatus::Red => line.append("R"),
            LetterStatus::Unknown => line.append("X"),
        }
        i = i + 1;
    }
    assert(line@ =~= status_letters(statuses@));
    line
}

} // verus!
