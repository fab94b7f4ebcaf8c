//! Scores of positions: whole numbers, extended by the two infinities that
//! stand for a certain win and a certain loss.

use vstd::prelude::*;

verus! {

/// The value a heuristic gives to a position. Higher is better for the side
/// the heuristic looks from.
#[derive(Clone, Copy, PartialEq, Eq, Structural, Debug, Hash)]
pub enum Score {
    /// Below every number: a certain loss.
    NegInf,
    Finite(i64),
    /// Above every number: a certain win.
    PosInf,
}

impl Score {
    /// The place of the score on the number line. Scores are ordered by it.
    pub open spec fn rank(self) -> int {
        match self {
            Score::NegInf => i64::MIN - 1,
            Score::Finite(x) => x as int,
            Score::PosInf => i64::MAX + 1,
        }
    }

    /// The larger of two scores.
    pub open spec fn upper(self, other: Score) -> Score {
        if self.rank() >= other.rank() {
            self
        } else {
            other
        }
    }

    /// The smaller of two scores.
    pub open spec fn lower(self, other: Score) -> Score {
        if self.rank() <= other.rank() {
            self
        } else {
            other
        }
    }

    /// Two scores at the same place of the number line are the same score.
    pub proof fn rank_is_injective(a: Score, b: Score)
        ensures
            a.rank() == b.rank() <==> a == b,
    {
    }

    /// `self >= other`
    pub fn ge(&self, other: &Score) -> (r: bool)
        ensures
            r == (self.rank() >= other.rank()),
    {
        match (*self, *other) {
            (Score::PosInf, _) => true,
            (_, Score::NegInf) => true,
            (Score::NegInf, _) => false,
            (_, Score::PosInf) => false,
            (Score::Finite(x), Score::Finite(y)) => x >= y,
        }
    }

    /// `self > other`
    pub fn gt(&self, other: &Score) -> (r: bool)
        ensures
            r == (self.rank() > other.rank()),
    {
        !other.ge(self)
    }

    /// `self <= other`
    pub fn le(&self, other: &Score) -> (r: bool)
        ensures
            r == (self.rank() <= other.rank()),
    {
        other.ge(self)
    }

    /// The larger of the two.
    pub fn max(self, other: Score) -> (r: Score)
        ensures
            r == self.upper(other),
    {
        if self.ge(&other) {
            self
        } else {
            other
        }
    }

    /// The smaller of the two.
    pub fn min(self, other: Score) -> (r: Score)
        ensures
            r == self.lower(other),
    {
        if self.le(&other) {
            self
        } else {
            other
        }
    }
}

} // verus!
