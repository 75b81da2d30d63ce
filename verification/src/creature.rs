//! A creature with three small genes, one of the two domains the engine
//! optimizes. Fitness is `power*toughness + speed*toughness`.

use vstd::prelude::*;
use crate::evolution::{CanDisplay, CanMutate, Fitness, MuLambdaEvolution};
use crate::fitness::FitnessMeasure;
use crate::random::pick_below;

verus! {

/// A candidate creature: three genes, drawn small and positive but free to
/// wander over the whole `i8` range under mutation.
#[derive(Debug, Clone)]
pub struct Creature {
    pub power: i8,
    pub toughness: i8,
    pub speed: i8,
}

/// The creature fitness formula: `power*toughness + speed*toughness`.
pub open spec fn creature_rank(c: Creature) -> int {
    c.power * c.toughness + c.speed * c.toughness
}

/// `v` clamped to the `i8` range.
pub open spec fn clamp_gene(v: int) -> int {
    if v < i8::MIN {
        i8::MIN as int
    } else if v > i8::MAX {
        i8::MAX as int
    } else {
        v
    }
}

/// `after` is a possible mutation of `before`: nudged by some step in
/// `[-2, 1]` and clamped to the gene range.
pub open spec fn nudged(before: int, after: int) -> bool {
    exists|d: int| -2 <= d <= 1 && after == #[trigger] clamp_gene(before + d)
}

fn random_gene() -> (g: i8)
    ensures
        1 <= g <= 9,
{
    (pick_below(9) + 1) as i8
}

fn random_step() -> (d: i8)
    ensures
        -2 <= d <= 1,
{
    (pick_below(4) as u8 as i8) - 2
}

fn nudge(gene: i8, step: i8) -> (r: i8)
    requires
        -2 <= step <= 1,
    ensures
        r == clamp_gene(gene + step),
        nudged(gene as int, r as int),
{
    let sum = gene as i16 + step as i16;
    let r = if sum < -128 {
        -128
    } else if sum > 127 {
        127
    } else {
        sum as i8
    };
    proof {
        assert(-2 <= step <= 1 && r == clamp_gene(gene + step));
    }
    r
}

impl Fitness for Creature {
    /// The measure is always comparable and its rank is exactly
    /// `power*toughness + speed*toughness`.
    fn evaluate(&self) -> (r: FitnessMeasure)
        ensures
            r.rank == creature_rank(*self),
            r.ordered,
    {
        let p = self.power as i64;
        let t = self.toughness as i64;
        let s = self.speed as i64;
        proof {
            assert(-16384 <= p * t <= 16384 && -16384 <= s * t <= 16384) by (nonlinear_arith)
                requires
                    -128 <= p <= 127,
                    -128 <= t <= 127,
                    -128 <= s <= 127,
            ;
        }
        FitnessMeasure { rank: p * t + s * t, ordered: true }
    }
}

impl CanMutate for Creature {
    /// Each gene is nudged by its own step in `[-2, 1]`, clamped to the gene
    /// range.
    open spec fn mutation_of(pre: Self, post: Self) -> bool {
        &&& nudged(pre.power as int, post.power as int)
        &&& nudged(pre.toughness as int, post.toughness as int)
        &&& nudged(pre.speed as int, post.speed as int)
    }

    /// Nudge each gene by its own random step in `[-2, 1]`; a step past the
    /// gene range is clamped rather than wrapped.
    fn mutate(&mut self) {
        self.power = nudge(self.power, random_step());
        self.toughness = nudge(self.toughness, random_step());
        self.speed = nudge(self.speed, random_step());
    }
}

impl Default for Creature {
    /// A fresh creature has every gene drawn uniformly from `[1, 9]`.
    fn default() -> (c: Self)
        ensures
            1 <= c.power <= 9,
            1 <= c.toughness <= 9,
            1 <= c.speed <= 9,
    {
        Creature { power: random_gene(), toughness: random_gene(), speed: random_gene() }
    }
}

/// The one-line rendering of a creature: `P:<power> T:<toughness> S:<speed>`.
pub open spec fn shown_creature(c: Creature) -> Seq<char> {
    "P:"@ + crate::text::spec_signed_decimal(c.power as int) + " T:"@
        + crate::text::spec_signed_decimal(c.toughness as int) + " S:"@
        + crate::text::spec_signed_decimal(c.speed as int)
}

impl CanDisplay for Creature {
    /// Render the genes as `P:<power> T:<toughness> S:<speed>`.
    fn display(&self) -> (s: String)
        ensures
            s@ == shown_creature(*self),
    {
        let mut s = String::from_str("P:");
        let power = crate::text::signed_decimal_string(self.power as i64);
        s.append(power.as_str());
        s.append(" T:");
        let toughness = crate::text::signed_decimal_string(self.toughness as i64);
        s.append(toughness.as_str());
        s.append(" S:");
        let speed = crate::text::signed_decimal_string(self.speed as i64);
        s.append(speed.as_str());
        proof {
            assert(s@ =~= shown_creature(*self));
        }
        s
    }
}

/// Evolve creatures from a 5+5 configuration until one reaches a fitness
/// above 1000 or a hundred generations have passed, reporting each
/// generation and the final population.
pub fn run_creature_example() {
    let mut engine = MuLambdaEvolution::<Creature>::with_population(5, 5);
    engine.evolve_until(
        |t: i32, p: &Creature| -> bool
            {
                let m = p.evaluate();
                t >= 100 || (m.ordered && m.rank > 1000)
            },
        true,
    );
    engine.print();
}

} // verus!
