//! The alphabetical order of texts: character by character, a text before
//! every text that it is a proper beginning of.

use vstd::prelude::*;

verus! {

/// `a` comes before `b`, given that the two agree on their first `k`
/// characters.
pub open spec fn lex_less_from(a: Seq<char>, b: Seq<char>, k: int) -> bool
    decreases b.len() - k,
{
    if k < 0 || k >= b.len() {
        false
    } else if k >= a.len() {
        true
    } else if a[k] != b[k] {
        a[k] < b[k]
    } else {
        lex_less_from(a, b, k + 1)
    }
}

/// `a` comes before `b` in alphabetical order.
pub open spec fn lex_less(a: Seq<char>, b: Seq<char>) -> bool {
    lex_less_from(a, b, 0)
}

/// No text comes before a text that comes before it.
pub proof fn lemma_lex_asymmetric(a: Seq<char>, b: Seq<char>, k: int)
    requires
        0 <= k,
        lex_less_from(a, b, k),
    ensures
        !lex_less_from(b, a, k),
    decreases b.len() - k,
{
    if k < a.len() && k < b.len() && a[k] == b[k] {
        lemma_lex_asymmetric(a, b, k + 1);
    }
}

/// What comes before a text comes before everything that the text comes
/// before.
pub proof fn lemma_lex_transitive(a: Seq<char>, b: Seq<char>, c: Seq<char>, k: int)
    requires
        0 <= k,
        lex_less_from(a, b, k),
        lex_less_from(b, c, k),
    ensures
        lex_less_from(a, c, k),
    decreases c.len() - k,
{
    if k < a.len() && k < b.len() && k < c.len() && a[k] == b[k] && b[k] == c[k] {
        lemma_lex_transitive(a, b, c, k + 1);
    }
}

/// Two texts that agree on their first `k` characters, neither of which
/// comes before the other, are the same text.
pub proof fn lemma_lex_total(a: Seq<char>, b: Seq<char>, k: int)
    requires
        0 <= k <= a.len(),
        k <= b.len(),
        forall|j: int| 0 <= j < k ==> a[j] == b[j],
        !lex_less_from(a, b, k),
        !lex_less_from(b, a, k),
    ensures
        a == b,
    decreases a.len() - k,
{
    if k < a.len() && k < b.len() {
        lemma_lex_total(a, b, k + 1);
    } else {
        assert(a =~= b);
    }
}

} // verus!
