//! The fitness measure that organisms are ranked by.
//!
//! A fitness score is a scalar where higher is better, together with the
//! possibility of an *incomparable* score (a domain may produce one from
//! undefined arithmetic): an incomparable score ranks equal to every other
//! score, so ranking must tolerate it without failing.

use vstd::prelude::*;

verus! {

/// A fitness score. `rank` orders comparable scores (higher is fitter);
/// a measure with `ordered == false` is incomparable and ties with everything.
#[derive(Clone, Copy, Debug, PartialEq, Eq, Structural)]
pub struct FitnessMeasure {
    pub rank: i64,
    pub ordered: bool,
}

impl FitnessMeasure {
    /// A comparable score of the given rank.
    pub fn comparable(rank: i64) -> (r: FitnessMeasure)
        ensures
            r == (FitnessMeasure { rank, ordered: true }),
    {
        FitnessMeasure { rank, ordered: true }
    }

    /// A score that compares as equal to every other score.
    pub fn incomparable() -> (r: FitnessMeasure)
        ensures
            r == (FitnessMeasure { rank: 0, ordered: false }),
    {
        FitnessMeasure { rank: 0, ordered: false }
    }

    /// `self` is strictly worse than `other`: in a best-first ranking it must
    /// come later. Incomparable scores are never strictly worse than anything.
    pub open spec fn spec_outranked_by(self, other: FitnessMeasure) -> bool {
        self.ordered && other.ordered && self.rank < other.rank
    }

    /// Decides `spec_outranked_by`.
    pub fn outranked_by(&self, other: &FitnessMeasure) -> (r: bool)
        ensures
            r == self.spec_outranked_by(*other),
    {
        self.ordered && other.ordered && self.rank < other.rank
    }

    /// The measure's rendering: the rank in decimal, or `NaN` for an
    /// incomparable score, which stands in for the undefined values the
    /// domains produce.
    pub open spec fn spec_shown(self) -> Seq<char> {
        if self.ordered {
            crate::text::spec_signed_decimal(self.rank as int)
        } else {
            "NaN"@
        }
    }

    /// Render the measure as [`Self::spec_shown`] says.
    pub fn display(&self) -> (s: String)
        ensures
            s@ == self.spec_shown(),
    {
        if self.ordered {
            crate::text::signed_decimal_string(self.rank)
        } else {
            String::from_str("NaN")
        }
    }
}

} // verus!
