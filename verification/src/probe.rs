//! A fully deterministic organism for driving the engine predictably: the
//! genome is one integer, the fitness is the genome itself, and mutation adds
//! a fixed step. With it, every part of a generation transition except the
//! shuffle is pinned down exactly.

use vstd::prelude::*;
use crate::evolution::{CanDisplay, CanMutate, Fitness};
use crate::fitness::FitnessMeasure;

verus! {

/// `v` clamped to the `i64` range.
pub open spec fn clamp_value(v: int) -> int {
    if v < i64::MIN {
        i64::MIN as int
    } else if v > i64::MAX {
        i64::MAX as int
    } else {
        v
    }
}

/// A deterministic organism: fitness is `value` (incomparable when
/// `comparable` is off), mutation adds `step` to `value`, saturating.
#[derive(Debug, Clone, Copy, PartialEq, Eq, Structural)]
pub struct ProbeOrganism {
    pub value: i64,
    pub step: i64,
    pub comparable: bool,
}

impl Fitness for ProbeOrganism {
    /// The measure ranks by the genome itself.
    fn evaluate(&self) -> (r: FitnessMeasure)
        ensures
            r == (FitnessMeasure { rank: self.value, ordered: self.comparable }),
    {
        FitnessMeasure { rank: self.value, ordered: self.comparable }
    }
}

impl CanMutate for ProbeOrganism {
    /// Exactly the fixed step is added to the genome, saturating at the
    /// `i64` bounds; the step and the comparability flag are kept.
    open spec fn mutation_of(pre: Self, post: Self) -> bool {
        &&& post.value == clamp_value(pre.value + pre.step)
        &&& post.step == pre.step
        &&& post.comparable == pre.comparable
    }

    /// Add the fixed step to the genome, saturating at the `i64` bounds.
    fn mutate(&mut self) {
        let sum = self.value as i128 + self.step as i128;
        self.value = if sum < i64::MIN as i128 {
            i64::MIN
        } else if sum > i64::MAX as i128 {
            i64::MAX
        } else {
            sum as i64
        };
    }
}

impl Default for ProbeOrganism {
    /// The default probe starts at zero and steps by one.
    fn default() -> (p: Self)
        ensures
            p == (ProbeOrganism { value: 0, step: 1, comparable: true }),
    {
        ProbeOrganism { value: 0, step: 1, comparable: true }
    }
}

impl CanDisplay for ProbeOrganism {
    /// Render the genome in decimal.
    fn display(&self) -> (s: String)
        ensures
            s@ == crate::text::spec_signed_decimal(self.value as int),
    {
        crate::text::signed_decimal_string(self.value)
    }
}

} // verus!
