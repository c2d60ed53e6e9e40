//! The four-valued status of a letter and its total order.

use std::cmp::Ordering;
use vstd::prelude::*;
use vstd::std_specs::cmp::PartialOrdSpecImpl;

verus! {

/// What is known about one letter: nothing yet, absent from the secret,
/// present elsewhere, or at the right place.
///
/// The order is `Unknown < Red < Yellow < Green`; it is fixed by
/// [`LetterStatus::level`], not by the order of the variants.
#[derive(Debug, Copy, Clone, PartialEq, Eq, Structural, Hash)]
pub enum LetterStatus {
    Unknown,
    Red,
    Yellow,
    Green,
}

impl LetterStatus {
    /// The position of a status in the total order.
    pub open spec fn level(self) -> nat {
        match self {
            LetterStatus::Unknown => 0,
            LetterStatus::Red => 1,
            LetterStatus::Yellow => 2,
            LetterStatus::Green => 3,
        }
    }

    /// The better of two statuses.
    pub open spec fn best_of(self, other: LetterStatus) -> LetterStatus {
        if self.level() >= other.level() {
            self
        } else {
            other
        }
    }

    /// How `self` compares with `other` in the total order.
    pub open spec fn ordering(self, other: LetterStatus) -> Ordering {
        if self.level() < other.level() {
            Ordering::Less
        } else if self.level() == other.level() {
            Ordering::Equal
        } else {
            Ordering::Greater
        }
    }

    /// The position of this status in the total order, from 0 for
    /// `Unknown` to 3 for `Green`.
    pub fn rank(self) -> (r: u8)
        ensures
            r == self.level(),
    {
        match self {
            LetterStatus::Unknown => 0,
            LetterStatus::Red => 1,
            LetterStatus::Yellow => 2,
            LetterStatus::Green => 3,
        }
    }

    /// The better of `self` and `other`.
    pub fn max(self, other: LetterStatus) -> (r: LetterStatus)
        ensures
            r == self.best_of(other),
    {
        if self.rank() >= other.rank() {
            self
        } else {
            other
        }
    }

    /// Compares two statuses in the total order.
    pub fn compare(self, other: LetterStatus) -> (o: Ordering)
        ensures
            o == self.ordering(other),
    {
        let a: u8 = self.rank();
        let b: u8 = other.rank();
        if a < b {
            Ordering::Less
        } else if a == b {
            Ordering::Equal
        } else {
            Ordering::Greater
        }
    }
}

impl PartialOrd for LetterStatus {
    fn partial_cmp(&self, other: &LetterStatus) -> (o: Option<Ordering>) {
        Some(self.compare(*other))
    }
}

impl PartialOrdSpecImpl for LetterStatus {
    open spec fn obeys_partial_cmp_spec() -> bool {
        true
    }

    open spec fn partial_cmp_spec(&self, other: &LetterStatus) -> Option<Ordering> {
        Some(self.ordering(*other))
    }
}

/// `best_of` is the least upper bound of the order: it is idempotent,
/// commutative and associative, and never below either argument.
pub proof fn lemma_best_of_is_join(a: LetterStatus, b: LetterStatus, c: LetterStatus)
    ensures
        a.best_of(a) == a,
        a.best_of(b) == b.best_of(a),
        a.best_of(b).best_of(c) == a.best_of(b.best_of(c)),
        a.best_of(b).level() >= a.level(),
        a.best_of(b).level() >= b.level(),
        a.best_of(b) == a || a.best_of(b) == b,
        a.best_of(b).best_of(b) == a.best_of(b),
{
}

} // verus!
