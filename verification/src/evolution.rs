//! The (mu + lambda) selection engine.
//!
//! One generation transition shuffles the population, evaluates every member,
//! ranks the scored members best first (stably), truncates to the
//! `reproduction_rate` best — the survivors — and appends a mutated clone of
//! each of the `elite_rate` best survivors. Survivors themselves are carried
//! over by value, never mutated; only the clones are.

use vstd::prelude::*;
use vstd::math::min;
use std::io::Write;
use crate::fitness::FitnessMeasure;
use crate::ranking::{rank_sort, Scored};
use crate::random::shuffle;

verus! {

/// Write one line on standard output.
///
/// Relies on `std::io::Stdout` and the `writeln` macro: the text is printed,
/// followed by a newline; a write failure is ignored, reporting being best
/// effort.
#[verifier::external_body]
fn emit_line(line: &str) {
    let mut out = std::io::stdout();
    let _ = writeln!(out, "{}", line);
}

/// The predicate accepts exactly the generations at `bound` or past it,
/// whatever organism it is shown.
pub open spec fn accepts_from<P, F: Fn(i32, &P) -> bool>(success: F, bound: i32) -> bool {
    forall|g: i32, p: &P, b: bool| #[trigger]
        call_ensures(success, (g, p), b) ==> (b <==> g >= bound)
}

/// Capability to score oneself. Higher measures are fitter; the measure may
/// be incomparable, which ties with everything during ranking.
pub trait Fitness {
    fn evaluate(&self) -> FitnessMeasure;
}

/// Capability to perturb one's own state in place, typically at random.
pub trait CanMutate: Sized {
    /// What one `mutate` call may turn `pre` into. Each organism refines
    /// this; by default nothing is promised.
    open spec fn mutation_of(pre: Self, post: Self) -> bool {
        true
    }

    fn mutate(&mut self)
        ensures
            Self::mutation_of(*old(self), *final(self)),
    ;
}

/// Capability to describe oneself in one line, for reporting.
pub trait CanDisplay {
    fn display(&self) -> String;
}

/// Capability to combine with a partner into an offspring. The selection
/// algorithm itself never calls this; it is an extension point for callers.
pub trait CanReproduce: Sized {
    fn reproduce(&self, partner: &Self) -> Self;
}

/// The evolution engine: the current population, its generation counter, and
/// the two rates (`elite_rate` is mu, `reproduction_rate` is lambda).
#[derive(Debug)]
pub struct MuLambdaEvolution<P: Fitness + CanMutate> {
    pub generation: i32,
    pub population: Vec<P>,
    pub elite_rate: u32,
    pub reproduction_rate: u32,
}

/// The members of `pop` paired with the measures of `fits`, positionwise.
pub open spec fn scored_with<P>(pop: Seq<P>, fits: Seq<FitnessMeasure>) -> Seq<Scored<P>> {
    Seq::new(pop.len(), |i: int| Scored { organism: pop[i], fitness: fits[i] })
}

/// The organisms of a scored sequence, scores dropped.
pub open spec fn organisms_of<P>(s: Seq<Scored<P>>) -> Seq<P> {
    s.map_values(|e: Scored<P>| e.organism)
}

/// `mutant` is what one `mutate` call made of a clone of `parent`.
pub open spec fn is_mutated_clone<P: CanMutate + Clone>(parent: P, mutant: P) -> bool {
    exists|c: P| #[trigger] vstd::pervasive::cloned::<P>(parent, c) && P::mutation_of(c, mutant)
}

/// One witnessed generation transition: `shuffled` is some rearrangement of
/// the old population, `fits` the measures `evaluate` returned for its
/// members, one each, and `mutants` what the mutated clones of the elites —
/// the mu best survivors, in rank order — became. The new population is then
/// exactly the lambda best-ranked members, in rank order, followed by the
/// mutants.
pub open spec fn is_step_instance<P: Fitness + CanMutate + Clone>(
    before: Seq<P>,
    mu: int,
    lambda: int,
    shuffled: Seq<P>,
    fits: Seq<FitnessMeasure>,
    mutants: Seq<P>,
    after: Seq<P>,
) -> bool {
    let ranked = rank_sort(scored_with(shuffled, fits));
    let survivors = ranked.take(min(lambda, ranked.len() as int));
    &&& shuffled.to_multiset() == before.to_multiset()
    &&& shuffled.len() == before.len()
    &&& fits.len() == shuffled.len()
    &&& forall|i: int|
        0 <= i < shuffled.len() ==> #[trigger] call_ensures(P::evaluate, (&shuffled[i],), fits[i])
    &&& mutants.len() == min(mu, survivors.len() as int)
    &&& forall|k: int|
        0 <= k < mutants.len() ==> is_mutated_clone(survivors[k].organism, #[trigger] mutants[k])
    &&& after == organisms_of(survivors) + mutants
}

/// Everything one `evolve_step` call guarantees about the new population.
pub open spec fn step_outcome<P: Fitness + CanMutate + Clone>(
    before: Seq<P>,
    mu: int,
    lambda: int,
    after: Seq<P>,
) -> bool {
    exists|shuffled: Seq<P>, fits: Seq<FitnessMeasure>, mutants: Seq<P>|
        is_step_instance(before, mu, lambda, shuffled, fits, mutants, after)
}

/// `stages` is a run of the generation loop from the population `before`:
/// stage `m` is the population produced by the `m+1`-th transition and tested
/// at generation `start + 1 + m`, and at every stage but the last the
/// predicate returned false for every member — the loop never passes over a
/// generation that it accepted.
pub open spec fn is_rejected_run<P: Fitness + CanMutate + Clone, F: Fn(i32, &P) -> bool>(
    success: F,
    before: Seq<P>,
    start: int,
    mu: int,
    lambda: int,
    stages: Seq<Seq<P>>,
) -> bool {
    &&& forall|m: int|
        0 <= m < stages.len() ==> step_outcome(
            if m == 0 {
                before
            } else {
                stages[m - 1]
            },
            mu,
            lambda,
            #[trigger] stages[m],
        )
    &&& forall|m: int, i: int|
        0 <= m < stages.len() - 1 && 0 <= i < stages[m].len() ==> #[trigger] call_ensures(
            success,
            (((start + 1 + m) as i32), &stages[m][i]),
            false,
        )
}

/// Only the elite clones are touched by mutation: in any generation
/// transition, the retained survivors — the lambda best of the ranked
/// shuffle — stand at the front of the new population exactly as ranked, by
/// value, and only the `mutants` tail follows them.
pub proof fn lemma_survivors_carried_unchanged<P: Fitness + CanMutate + Clone>(
    before: Seq<P>,
    mu: int,
    lambda: int,
    shuffled: Seq<P>,
    fits: Seq<FitnessMeasure>,
    mutants: Seq<P>,
    after: Seq<P>,
)
    requires
        0 <= mu,
        0 <= lambda,
        is_step_instance(before, mu, lambda, shuffled, fits, mutants, after),
    ensures
        ({
            let ranked = rank_sort(scored_with(shuffled, fits));
            let kept = min(lambda, ranked.len() as int);
            &&& after.len() == kept + mutants.len()
            &&& forall|i: int| 0 <= i < kept ==> after[i] == ranked[i].organism
            &&& forall|i: int| kept <= i < after.len() ==> after[i] == mutants[i - kept]
        }),
{
    let ranked = rank_sort(scored_with(shuffled, fits));
    let kept = min(lambda, ranked.len() as int);
    let survivors = ranked.take(kept);
    assert(organisms_of(survivors).len() == kept);
    assert forall|i: int| 0 <= i < kept implies after[i] == ranked[i].organism by {
        assert(after[i] == organisms_of(survivors)[i]);
        assert(organisms_of(survivors)[i] == survivors[i].organism);
    }
}

/// Truncation is optimal when every reported score is comparable: no member
/// dropped at truncation outranks any retained survivor. (With an
/// incomparable score in the population this can fail, since such a score
/// blocks reordering across it: ranking `[5, NaN, 9]` keeps it as it stands,
/// and truncating to two drops the 9.)
pub proof fn lemma_survivors_outrank_the_dropped<P: Fitness + CanMutate + Clone>(
    before: Seq<P>,
    mu: int,
    lambda: int,
    shuffled: Seq<P>,
    fits: Seq<FitnessMeasure>,
    mutants: Seq<P>,
    after: Seq<P>,
)
    requires
        is_step_instance(before, mu, lambda, shuffled, fits, mutants, after),
        forall|i: int| 0 <= i < fits.len() ==> (#[trigger] fits[i]).ordered,
    ensures
        ({
            let ranked = rank_sort(scored_with(shuffled, fits));
            forall|i: int, j: int|
                0 <= i < min(lambda, ranked.len() as int) <= j < ranked.len() ==> (
                #[trigger] ranked[i].fitness).rank >= (#[trigger] ranked[j].fitness).rank
        }),
{
    let scored = scored_with(shuffled, fits);
    assert forall|k: int| 0 <= k < scored.len() implies (#[trigger] scored[k].fitness).ordered by {
        assert(scored[k].fitness == fits[k]);
    }
    crate::ranking::lemma_rank_sort_descending(scored);
}

impl<P: Fitness + CanMutate + Default + Clone> MuLambdaEvolution<P> {
    /// Construct an engine of `mu + lambda - 1` freshly drawn organisms.
    ///
    /// The initial population is one short of `mu + lambda`; the size is not
    /// constant across generations — after one transition it settles at
    /// `lambda + min(mu, lambda)` and stays there.
    pub fn with_population(mu: u32, lambda: u32) -> (engine: Self)
        requires
            mu >= 1,
            lambda >= 1,
            mu + lambda <= u32::MAX,
        ensures
            engine.generation == 1,
            engine.elite_rate == mu,
            engine.reproduction_rate == lambda,
            engine.population@.len() == mu + lambda - 1,
            forall|i: int|
                0 <= i < engine.population@.len() ==> #[trigger] call_ensures(
                    P::default,
                    (),
                    engine.population@[i],
                ),
    {
        let count = mu + lambda - 1;
        let mut population: Vec<P> = Vec::new();
        let mut made: u32 = 0;
        while made < count
            invariant
                population@.len() == made,
                made <= count,
                forall|i: int|
                    0 <= i < population@.len() ==> #[trigger] call_ensures(
                        P::default,
                        (),
                        population@[i],
                    ),
            decreases count - made,
        {
            population.push(P::default());
            made = made + 1;
        }
        MuLambdaEvolution { generation: 1, population, elite_rate: mu, reproduction_rate: lambda }
    }

    /// One generation transition: shuffle, evaluate, rank best first,
    /// truncate to the `reproduction_rate` best, then append a mutated clone
    /// of each of the `elite_rate` best survivors.
    ///
    /// The survivors reappear in the new population exactly as ranked — by
    /// value, unmutated; only the elite clones are mutated. The clones keep
    /// their parents' place at the tail of the round rather than being
    /// re-scored: every score is drawn afresh at the next transition anyway.
    pub fn evolve_step(&mut self)
        requires
            old(self).generation < i32::MAX,
        ensures
            final(self).generation == old(self).generation + 1,
            final(self).elite_rate == old(self).elite_rate,
            final(self).reproduction_rate == old(self).reproduction_rate,
            step_outcome(
                old(self).population@,
                old(self).elite_rate as int,
                old(self).reproduction_rate as int,
                final(self).population@,
            ),
            final(self).population@.len() == min(
                old(self).reproduction_rate as int,
                old(self).population@.len() as int,
            ) + min(
                old(self).elite_rate as int,
                min(old(self).reproduction_rate as int, old(self).population@.len() as int),
            ),
            old(self).population@.len() >= old(self).reproduction_rate
                ==> final(self).population@.len() == old(self).reproduction_rate + min(
                old(self).elite_rate as int,
                old(self).reproduction_rate as int,
            ),
    {
        self.generation = self.generation + 1;

        shuffle(&mut self.population);
        let ghost shuffled = self.population@;

        // evaluate every member, pairing it with its measure
        let mut scored: Vec<Scored<P>> = Vec::new();
        let ghost mut fits = Seq::<FitnessMeasure>::empty();
        while self.population.len() > 0
            invariant
                self.generation == old(self).generation + 1,
                self.elite_rate == old(self).elite_rate,
                self.reproduction_rate == old(self).reproduction_rate,
                fits.len() == scored@.len(),
                scored@.len() + self.population@.len() == shuffled.len(),
                scored@ == scored_with(shuffled.take(scored@.len() as int), fits),
                self.population@ == shuffled.skip(scored@.len() as int),
                forall|i: int|
                    0 <= i < fits.len() ==> #[trigger] call_ensures(
                        P::evaluate,
                        (&shuffled[i],),
                        fits[i],
                    ),
            decreases self.population@.len(),
        {
            let ghost k = scored@.len() as int;
            let p = self.population.remove(0);
            let f = p.evaluate();
            scored.push(Scored { organism: p, fitness: f });
            proof {
                assert(p == shuffled[k]);
                assert(call_ensures(P::evaluate, (&shuffled[k],), f));
                fits = fits.push(f);
                assert(scored@ =~= scored_with(shuffled.take(k + 1), fits));
                assert(self.population@ =~= shuffled.skip(k + 1));
            }
        }
        proof {
            assert(shuffled.take(shuffled.len() as int) =~= shuffled);
            assert(self.population@ =~= Seq::<P>::empty());
        }

        // rank best first, stably
        crate::ranking::rank_by_fitness(&mut scored);
        let ghost ranked = rank_sort(scored_with(shuffled, fits));

        // keep the lambda best: the survivors
        let lam = self.reproduction_rate as usize;
        scored.truncate(lam);
        let ghost survivors = ranked.take(min(lam as int, ranked.len() as int));
        proof {
            assert(scored@ =~= survivors);
        }

        // clone the mu best survivors and mutate the clones
        let mu_n = self.elite_rate as usize;
        let elite_n = if mu_n < scored.len() {
            mu_n
        } else {
            scored.len()
        };
        let mut mutants: Vec<P> = Vec::new();
        let mut k: usize = 0;
        while k < elite_n
            invariant
                mutants@.len() == k,
                k <= elite_n,
                elite_n == min(mu_n as int, scored@.len() as int),
                scored@ == survivors,
                forall|j: int|
                    0 <= j < k ==> is_mutated_clone(survivors[j].organism, #[trigger] mutants@[j]),
            decreases elite_n - k,
        {
            let mut c = scored[k].organism.clone();
            let ghost fresh_clone = c;
            c.mutate();
            proof {
                assert(vstd::pervasive::cloned::<P>(survivors[k as int].organism, fresh_clone));
                assert(is_mutated_clone(survivors[k as int].organism, c));
            }
            mutants.push(c);
            k = k + 1;
        }
        let ghost mutated = mutants@;

        // reassemble: survivors first, mutated elite clones appended
        proof {
            assert(self.population@ + organisms_of(scored@) =~= organisms_of(survivors));
        }
        while scored.len() > 0
            invariant
                self.generation == old(self).generation + 1,
                self.elite_rate == old(self).elite_rate,
                self.reproduction_rate == old(self).reproduction_rate,
                self.population@ + organisms_of(scored@) == organisms_of(survivors),
            decreases scored@.len(),
        {
            let s = scored.remove(0);
            self.population.push(s.organism);
            proof {
                assert(self.population@ + organisms_of(scored@) =~= organisms_of(survivors));
            }
        }
        self.population.append(&mut mutants);

        proof {
            crate::ranking::lemma_rank_sort_len(scored_with(shuffled, fits));
            assert(self.population@ =~= organisms_of(survivors) + mutated) by {
                assert(organisms_of(Seq::<Scored<P>>::empty()) =~= Seq::<P>::empty());
            }
            assert(ranked.len() == old(self).population@.len());
            assert(self.population@.len() == survivors.len() + mutated.len());
            assert(is_step_instance(
                old(self).population@,
                old(self).elite_rate as int,
                old(self).reproduction_rate as int,
                shuffled,
                fits,
                mutated,
                self.population@,
            ));
        }
    }
}

/// The member reports of the line, in order: `[<member>](<fitness>)  ` for
/// each rendered member beside its measure.
pub open spec fn spec_report_entries(shown: Seq<Seq<char>>, measures: Seq<FitnessMeasure>) -> Seq<
    char,
>
    decreases shown.len(),
{
    if shown.len() == 0 {
        Seq::empty()
    } else {
        spec_report_entries(shown.drop_last(), measures.drop_last()) + "["@ + shown.last() + "]("@
            + measures.last().spec_shown() + ")  "@
    }
}

/// The views of a sequence of rendered strings.
pub open spec fn views_of(rendered: Seq<String>) -> Seq<Seq<char>> {
    rendered.map_values(|r: String| r@)
}

/// The whole report line: the generation, a separator, then the entries.
pub open spec fn spec_report_line(
    generation: int,
    shown: Seq<Seq<char>>,
    measures: Seq<FitnessMeasure>,
) -> Seq<char> {
    crate::text::spec_signed_decimal(generation) + ": "@ + spec_report_entries(shown, measures)
}

impl<P: Fitness + CanMutate + Default + Clone + CanDisplay> MuLambdaEvolution<P> {
    /// Build the report line: the generation, then `[<member>](<fitness>)  `
    /// for every member in order, where `<member>` is what the member's
    /// `display` returned and `<fitness>` renders what its `evaluate`
    /// returned.
    pub fn report_line(&self) -> (s: String)
        ensures
            exists|displayed: Seq<String>, measures: Seq<FitnessMeasure>|
                #![trigger spec_report_line(self.generation as int, views_of(displayed), measures)]
                {
                    &&& displayed.len() == self.population@.len()
                    &&& measures.len() == self.population@.len()
                    &&& forall|i: int|
                        0 <= i < displayed.len() ==> call_ensures(
                            P::display,
                            (&self.population@[i],),
                            #[trigger] displayed[i],
                        )
                    &&& forall|i: int|
                        0 <= i < measures.len() ==> #[trigger] call_ensures(
                            P::evaluate,
                            (&self.population@[i],),
                            measures[i],
                        )
                    &&& s@ == spec_report_line(
                        self.generation as int,
                        views_of(displayed),
                        measures,
                    )
                },
    {
        proof {
            reveal_strlit(": ");
        }
        let mut line = crate::text::signed_decimal_string(self.generation as i64);
        line.append(": ");
        let ghost mut displayed = Seq::<String>::empty();
        let ghost mut measures = Seq::<FitnessMeasure>::empty();
        proof {
            assert(views_of(displayed) =~= Seq::<Seq<char>>::empty());
            assert(line@ =~= spec_report_line(self.generation as int, views_of(displayed), measures));
        }
        let mut i: usize = 0;
        while i < self.population.len()
            invariant
                i <= self.population@.len(),
                displayed.len() == i,
                measures.len() == i,
                forall|k: int|
                    0 <= k < displayed.len() ==> call_ensures(
                        P::display,
                        (&self.population@[k],),
                        #[trigger] displayed[k],
                    ),
                forall|k: int|
                    0 <= k < measures.len() ==> #[trigger] call_ensures(
                        P::evaluate,
                        (&self.population@[k],),
                        measures[k],
                    ),
                line@ == spec_report_line(self.generation as int, views_of(displayed), measures),
            decreases self.population@.len() - i,
        {
            line.append("[");
            let member_shown = self.population[i].display();
            line.append(member_shown.as_str());
            line.append("](");
            let measured = self.population[i].evaluate();
            let measure_shown = measured.display();
            line.append(measure_shown.as_str());
            line.append(")  ");
            proof {
                let prior = views_of(displayed);
                let prior_measures = measures;
                displayed = displayed.push(member_shown);
                measures = measures.push(measured);
                assert(views_of(displayed) =~= prior.push(member_shown@));
                assert(views_of(displayed).drop_last() =~= prior);
                assert(measures.drop_last() =~= prior_measures);
                assert(line@ =~= spec_report_line(
                    self.generation as int,
                    views_of(displayed),
                    measures,
                ));
            }
            i = i + 1;
        }
        proof {
            assert(line@ == spec_report_line(self.generation as int, views_of(displayed), measures));
        }
        line
    }

    /// Report the generation and every member with its fitness, one line:
    /// `<generation>: [<member>](<fitness>)  ` for each member.
    pub fn print(&self) {
        let line = self.report_line();
        emit_line(line.as_str());
    }

    /// Run generation transitions until the predicate accepts some member of
    /// the freshly produced population, tested right after each transition.
    ///
    /// The predicate is the only stopping rule the engine has; with one that
    /// never accepts, the loop runs the generation counter all the way up and
    /// gives up only when incrementing it further would overflow.
    pub fn evolve_until<F: Fn(i32, &P) -> bool>(&mut self, success: F, debug_print: bool)
        requires
            old(self).generation < i32::MAX,
            forall|g: i32, p: &P| #[trigger] call_requires(success, (g, p)),
        ensures
            final(self).elite_rate == old(self).elite_rate,
            final(self).reproduction_rate == old(self).reproduction_rate,
            final(self).generation > old(self).generation,
            final(self).generation == i32::MAX || exists|i: int|
                0 <= i < final(self).population@.len() && call_ensures(
                    success,
                    (final(self).generation, &final(self).population@[i]),
                    true,
                ),
            exists|stages: Seq<Seq<P>>|
                {
                    &&& stages.len() == final(self).generation - old(self).generation
                    &&& stages.last() == final(self).population@
                    &&& is_rejected_run(
                        success,
                        old(self).population@,
                        old(self).generation as int,
                        old(self).elite_rate as int,
                        old(self).reproduction_rate as int,
                        stages,
                    )
                },
            forall|bound: i32|
                #[trigger] accepts_from(success, bound) && old(self).reproduction_rate >= 1 && old(
                    self,
                ).population@.len() >= 1 ==> final(self).generation == if bound > old(
                    self,
                ).generation + 1 {
                    bound as int
                } else {
                    old(self).generation + 1
                },
    {
        let ghost g0 = old(self).generation;
        let ghost mut stages = Seq::<Seq<P>>::empty();
        let mut done = false;
        while !done
            invariant
                self.elite_rate == old(self).elite_rate,
                self.reproduction_rate == old(self).reproduction_rate,
                g0 == old(self).generation,
                g0 <= self.generation <= i32::MAX,
                forall|g: i32, p: &P| #[trigger] call_requires(success, (g, p)),
                !done ==> self.generation < i32::MAX,
                done ==> self.generation > g0,
                stages.len() == self.generation - g0,
                stages.len() > 0 ==> stages.last() == self.population@,
                stages.len() == 0 ==> self.population@ == old(self).population@,
                forall|m: int|
                    0 <= m < stages.len() ==> step_outcome(
                        if m == 0 {
                            old(self).population@
                        } else {
                            stages[m - 1]
                        },
                        old(self).elite_rate as int,
                        old(self).reproduction_rate as int,
                        #[trigger] stages[m],
                    ),
                forall|m: int, i: int|
                    0 <= m < stages.len() - 1 && 0 <= i < stages[m].len() ==> #[trigger] call_ensures(
                        success,
                        (((g0 + 1 + m) as i32), &stages[m][i]),
                        false,
                    ),
                !done ==> forall|m: int, i: int|
                    0 <= m < stages.len() && 0 <= i < stages[m].len() ==> #[trigger] call_ensures(
                        success,
                        (((g0 + 1 + m) as i32), &stages[m][i]),
                        false,
                    ),
                done ==> self.generation == i32::MAX || exists|i: int|
                    0 <= i < self.population@.len() && call_ensures(
                        success,
                        (self.generation, &self.population@[i]),
                        true,
                    ),
                self.reproduction_rate >= 1 && old(self).population@.len() >= 1
                    ==> self.population@.len() >= 1,
                forall|bound: i32|
                    #[trigger] accepts_from(success, bound) && self.reproduction_rate >= 1 && old(
                        self,
                    ).population@.len() >= 1 ==> if done {
                        self.generation == if bound > g0 + 1 {
                            bound as int
                        } else {
                            g0 + 1
                        }
                    } else {
                        self.generation == g0 || self.generation < bound
                    },
            decreases i32::MAX - self.generation,
        {
            if debug_print {
                self.print();
            }
            let ghost previous = self.population@;
            self.evolve_step();
            proof {
                stages = stages.push(self.population@);
                assert(stages[stages.len() - 1] == self.population@);
                assert(stages.drop_last() =~= stages.take(stages.len() - 1));
            }
            let mut any = false;
            let mut i: usize = 0;
            let n = self.population.len();
            while i < n
                invariant
                    n == self.population@.len(),
                    i <= n,
                    forall|g: i32, p: &P| #[trigger] call_requires(success, (g, p)),
                    any ==> exists|j: int|
                        0 <= j < i && call_ensures(
                            success,
                            (self.generation, &self.population@[j]),
                            true,
                        ),
                    !any ==> forall|j: int|
                        0 <= j < i ==> #[trigger] call_ensures(
                            success,
                            (self.generation, &self.population@[j]),
                            false,
                        ),
                    forall|bound: i32| #[trigger]
                        accepts_from(success, bound) ==> (any <==> (i > 0 && self.generation
                            >= bound)),
                decreases n - i,
            {
                let verdict = success(self.generation, &self.population[i]);
                proof {
                    assert forall|bound: i32| #[trigger]
                        accepts_from(success, bound) implies (verdict <==> self.generation
                        >= bound) by {
                        assert(call_ensures(
                            success,
                            (self.generation, &self.population@[i as int]),
                            verdict,
                        ));
                    }
                }
                any = any || verdict;
                i = i + 1;
            }
            done = any || self.generation == i32::MAX;
            proof {
                if !any {
                    let ghost m_new = stages.len() - 1;
                    assert forall|i: int| 0 <= i < stages[m_new].len() implies call_ensures(
                        success,
                        (((g0 + 1 + m_new) as i32), &stages[m_new][i]),
                        false,
                    ) by {
                        assert((g0 + 1 + m_new) as i32 == self.generation);
                        assert(stages[m_new] == self.population@);
                        assert(call_ensures(success, (self.generation, &self.population@[i]), false));
                    }
                }
            }
        }
        proof {
            assert(is_rejected_run(
                success,
                old(self).population@,
                g0 as int,
                old(self).elite_rate as int,
                old(self).reproduction_rate as int,
                stages,
            ));
        }
    }
}

} // verus!
