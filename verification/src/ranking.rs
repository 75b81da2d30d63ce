//! Best-first stable ranking of organisms paired with their fitness.
//!
//! The ranking is an insertion sort, specified by the recursive functions
//! [`rank_insert`] and [`rank_sort`] and implemented by [`rank_by_fitness`].
//! An element being inserted scans from the right end of the already ranked
//! prefix and passes exactly the elements that are strictly worse than it, so
//! elements whose scores tie (equal rank, or either score incomparable) keep
//! their relative order: the sort is stable, and an incomparable score never
//! moves at all.

use vstd::prelude::*;
use crate::fitness::FitnessMeasure;

verus! {

/// An organism paired with the fitness it is ranked by.
pub struct Scored<P> {
    pub organism: P,
    pub fitness: FitnessMeasure,
}

/// Insert `x` into a ranked sequence: `x` passes every element that is
/// strictly worse than it and stops at the first that is not.
pub open spec fn rank_insert<P>(s: Seq<Scored<P>>, x: Scored<P>) -> Seq<Scored<P>>
    decreases s.len(),
{
    if s.len() == 0 {
        seq![x]
    } else if s.last().fitness.spec_outranked_by(x.fitness) {
        rank_insert(s.drop_last(), x).push(s.last())
    } else {
        s.push(x)
    }
}

/// Best-first stable ranking: insert each element in order.
pub open spec fn rank_sort<P>(s: Seq<Scored<P>>) -> Seq<Scored<P>>
    decreases s.len(),
{
    if s.len() == 0 {
        Seq::empty()
    } else {
        rank_insert(rank_sort(s.drop_last()), s.last())
    }
}

/// No element is directly followed by one that strictly outranks it.
pub open spec fn is_ranked<P>(s: Seq<Scored<P>>) -> bool {
    forall|i: int|
        0 <= i < s.len() - 1 ==> !(#[trigger] s[i].fitness).spec_outranked_by(s[i + 1].fitness)
}

proof fn lemma_rank_insert_len<P>(s: Seq<Scored<P>>, x: Scored<P>)
    ensures
        rank_insert(s, x).len() == s.len() + 1,
    decreases s.len(),
{
    if s.len() > 0 && s.last().fitness.spec_outranked_by(x.fitness) {
        lemma_rank_insert_len(s.drop_last(), x);
    }
}

pub proof fn lemma_rank_sort_len<P>(s: Seq<Scored<P>>)
    ensures
        rank_sort(s).len() == s.len(),
    decreases s.len(),
{
    if s.len() > 0 {
        lemma_rank_sort_len(s.drop_last());
        lemma_rank_insert_len(rank_sort(s.drop_last()), s.last());
    }
}

proof fn lemma_rank_insert_multiset<P>(s: Seq<Scored<P>>, x: Scored<P>)
    ensures
        rank_insert(s, x).to_multiset() == s.to_multiset().insert(x),
    decreases s.len(),
{
    broadcast use vstd::seq_lib::group_to_multiset_ensures;

    if s.len() == 0 {
        assert(seq![x] =~= Seq::<Scored<P>>::empty().push(x));
    } else if s.last().fitness.spec_outranked_by(x.fitness) {
        lemma_rank_insert_multiset(s.drop_last(), x);
        assert(s =~= s.drop_last().push(s.last()));
        assert(rank_insert(s, x).to_multiset() =~= s.to_multiset().insert(x));
    }
}

/// Ranking a population rearranges it and does nothing else: the ranked
/// sequence holds exactly the elements of the input, multiplicities included.
pub proof fn lemma_rank_sort_permutes<P>(s: Seq<Scored<P>>)
    ensures
        rank_sort(s).to_multiset() == s.to_multiset(),
    decreases s.len(),
{
    broadcast use vstd::seq_lib::group_to_multiset_ensures;

    if s.len() > 0 {
        lemma_rank_sort_permutes(s.drop_last());
        lemma_rank_insert_multiset(rank_sort(s.drop_last()), s.last());
        assert(s =~= s.drop_last().push(s.last()));
    }
}

/// The subsequence of elements whose fitness is exactly `f`, in order.
pub open spec fn keep_fitness<P>(s: Seq<Scored<P>>, f: FitnessMeasure) -> Seq<Scored<P>>
    decreases s.len(),
{
    if s.len() == 0 {
        Seq::empty()
    } else if s.last().fitness == f {
        keep_fitness(s.drop_last(), f).push(s.last())
    } else {
        keep_fitness(s.drop_last(), f)
    }
}

proof fn lemma_keep_fitness_push<P>(s: Seq<Scored<P>>, x: Scored<P>, f: FitnessMeasure)
    ensures
        keep_fitness(s.push(x), f) == if x.fitness == f {
            keep_fitness(s, f).push(x)
        } else {
            keep_fitness(s, f)
        },
{
    assert(s.push(x).drop_last() =~= s);
}

proof fn lemma_rank_insert_keep_fitness<P>(s: Seq<Scored<P>>, x: Scored<P>, f: FitnessMeasure)
    ensures
        keep_fitness(rank_insert(s, x), f) == if x.fitness == f {
            keep_fitness(s, f).push(x)
        } else {
            keep_fitness(s, f)
        },
    decreases s.len(),
{
    if s.len() == 0 {
        assert(seq![x] =~= Seq::<Scored<P>>::empty().push(x));
        lemma_keep_fitness_push(Seq::<Scored<P>>::empty(), x, f);
    } else if s.last().fitness.spec_outranked_by(x.fitness) {
        // An element never passes one of equal fitness: were both of fitness
        // `f`, one could not strictly outrank the other.
        lemma_rank_insert_keep_fitness(s.drop_last(), x, f);
        lemma_keep_fitness_push(rank_insert(s.drop_last(), x), s.last(), f);
        assert(s =~= s.drop_last().push(s.last()));
        lemma_keep_fitness_push(s.drop_last(), s.last(), f);
    } else {
        lemma_keep_fitness_push(s, x, f);
    }
}

/// Stability: ranking preserves the relative order of elements with any one
/// fitness value, the incomparable ones included.
pub proof fn lemma_rank_sort_stable<P>(s: Seq<Scored<P>>, f: FitnessMeasure)
    ensures
        keep_fitness(rank_sort(s), f) == keep_fitness(s, f),
    decreases s.len(),
{
    if s.len() > 0 {
        lemma_rank_sort_stable(s.drop_last(), f);
        lemma_rank_insert_keep_fitness(rank_sort(s.drop_last()), s.last(), f);
        lemma_keep_fitness_push(s.drop_last(), s.last(), f);
        assert(s =~= s.drop_last().push(s.last()));
    }
}

proof fn lemma_rank_insert_incomparable<P>(s: Seq<Scored<P>>, x: Scored<P>)
    ensures
        forall|i: int|
            0 <= i < s.len() && !(#[trigger] s[i].fitness).ordered ==> rank_insert(s, x)[i]
                == s[i],
        !x.fitness.ordered ==> rank_insert(s, x) == s.push(x),
    decreases s.len(),
{
    lemma_rank_insert_len(s, x);
    if s.len() > 0 && s.last().fitness.spec_outranked_by(x.fitness) {
        lemma_rank_insert_incomparable(s.drop_last(), x);
        lemma_rank_insert_len(s.drop_last(), x);
        assert forall|i: int|
            0 <= i < s.len() && !(#[trigger] s[i].fitness).ordered implies rank_insert(s, x)[i]
            == s[i] by {
            // the last element is strictly outranked, hence comparable, so
            // only positions inside the shortened prefix can be incomparable
            assert(s.drop_last()[i] == s[i]);
            assert(rank_insert(s.drop_last(), x)[i] == s[i]);
        }
    }
}

/// An organism with an incomparable score ties with every neighbour, so
/// ranking leaves it exactly where it stood.
pub proof fn lemma_rank_sort_incomparable<P>(s: Seq<Scored<P>>)
    ensures
        forall|i: int|
            0 <= i < s.len() && !(#[trigger] s[i].fitness).ordered ==> rank_sort(s)[i] == s[i],
    decreases s.len(),
{
    if s.len() > 0 {
        lemma_rank_sort_incomparable(s.drop_last());
        lemma_rank_sort_len(s.drop_last());
        lemma_rank_insert_incomparable(rank_sort(s.drop_last()), s.last());
        lemma_rank_insert_len(rank_sort(s.drop_last()), s.last());
        assert forall|i: int|
            0 <= i < s.len() && !(#[trigger] s[i].fitness).ordered implies rank_sort(s)[i]
            == s[i] by {
            if i < s.len() - 1 {
                assert(s.drop_last()[i] == s[i]);
                assert(rank_sort(s.drop_last())[i] == s[i]);
            } else {
                assert(rank_sort(s) == rank_sort(s.drop_last()).push(s.last()));
            }
        }
    }
}

proof fn lemma_rank_insert_ranked<P>(s: Seq<Scored<P>>, x: Scored<P>)
    requires
        is_ranked(s),
    ensures
        is_ranked(rank_insert(s, x)),
    decreases s.len(),
{
    lemma_rank_insert_len(s, x);
    if s.len() == 0 {
    } else if s.last().fitness.spec_outranked_by(x.fitness) {
        assert(is_ranked(s.drop_last()));
        lemma_rank_insert_ranked(s.drop_last(), x);
        lemma_rank_insert_len(s.drop_last(), x);
        let r = rank_insert(s.drop_last(), x);
        // the new last pair: whatever now ends the inserted prefix, it is not
        // strictly outranked by the old last element
        assert(!r.last().fitness.spec_outranked_by(s.last().fitness)) by {
            if s.drop_last().len() > 0 {
                lemma_rank_insert_last(s.drop_last(), x);
                if r.last() == s.drop_last().last() {
                    assert(!s[s.len() - 2].fitness.spec_outranked_by(s[s.len() - 1].fitness));
                }
            } else {
                assert(r =~= seq![x]);
            }
        }
        assert forall|i: int| 0 <= i < rank_insert(s, x).len() - 1 implies !(#[trigger] rank_insert(
            s,
            x,
        )[i].fitness).spec_outranked_by(rank_insert(s, x)[i + 1].fitness) by {
            if i < r.len() - 1 {
                assert(rank_insert(s, x)[i] == r[i]);
                assert(rank_insert(s, x)[i + 1] == r[i + 1]);
            }
        }
    } else {
    }
}

proof fn lemma_rank_insert_last<P>(s: Seq<Scored<P>>, x: Scored<P>)
    requires
        s.len() > 0,
    ensures
        rank_insert(s, x).last() == x || rank_insert(s, x).last() == s.last(),
    decreases s.len(),
{
}

/// The ranking is best first: no element is directly followed by a strictly
/// better one.
pub proof fn lemma_rank_sort_ranked<P>(s: Seq<Scored<P>>)
    ensures
        is_ranked(rank_sort(s)),
    decreases s.len(),
{
    if s.len() > 0 {
        lemma_rank_sort_ranked(s.drop_last());
        lemma_rank_insert_ranked(rank_sort(s.drop_last()), s.last());
    }
}

proof fn lemma_ranked_chain<P>(r: Seq<Scored<P>>, i: int, j: int)
    requires
        is_ranked(r),
        forall|k: int| 0 <= k < r.len() ==> (#[trigger] r[k].fitness).ordered,
        0 <= i <= j < r.len(),
    ensures
        r[i].fitness.rank >= r[j].fitness.rank,
    decreases j - i,
{
    if i < j {
        lemma_ranked_chain(r, i + 1, j);
        assert(!r[i].fitness.spec_outranked_by(r[i + 1].fitness));
    }
}

/// When every score is comparable, the ranking is descending outright: each
/// element's rank is at least that of everything after it.
pub proof fn lemma_rank_sort_descending<P>(s: Seq<Scored<P>>)
    requires
        forall|k: int| 0 <= k < s.len() ==> (#[trigger] s[k].fitness).ordered,
    ensures
        forall|i: int, j: int|
            0 <= i <= j < rank_sort(s).len() ==> (#[trigger] rank_sort(s)[i].fitness).rank >= (
            #[trigger] rank_sort(s)[j].fitness).rank,
{
    broadcast use vstd::seq_lib::group_to_multiset_ensures;

    let r = rank_sort(s);
    lemma_rank_sort_ranked(s);
    lemma_rank_sort_permutes(s);
    assert forall|k: int| 0 <= k < r.len() implies (#[trigger] r[k].fitness).ordered by {
        assert(r.contains(r[k]));
        assert(r.to_multiset().count(r[k]) > 0);
        assert(s.to_multiset().count(r[k]) > 0);
        assert(s.contains(r[k]));
        let m = choose|m: int| 0 <= m < s.len() && s[m] == r[k];
        assert(s[m].fitness.ordered);
    }
    assert forall|i: int, j: int| 0 <= i <= j < r.len() implies (#[trigger] r[i].fitness).rank >= (
    #[trigger] r[j].fitness).rank by {
        lemma_ranked_chain(r, i, j);
    }
}

/// Where the scan of the exec sort stops is exactly where `rank_insert`
/// places the element: before the scanned suffix, whose members it all
/// outranks, and after the stop position, which it does not outrank.
proof fn lemma_rank_insert_at<P>(s: Seq<Scored<P>>, x: Scored<P>, pos: int)
    requires
        0 <= pos <= s.len(),
        forall|k: int| pos <= k < s.len() ==> (#[trigger] s[k].fitness).spec_outranked_by(x.fitness),
        pos > 0 ==> !s[pos - 1].fitness.spec_outranked_by(x.fitness),
    ensures
        rank_insert(s, x) == s.take(pos) + seq![x] + s.skip(pos),
    decreases s.len(),
{
    if s.len() == 0 {
        assert(rank_insert(s, x) =~= s.take(pos) + seq![x] + s.skip(pos));
    } else if pos == s.len() {
        assert(rank_insert(s, x) =~= s.take(pos) + seq![x] + s.skip(pos));
    } else {
        lemma_rank_insert_at(s.drop_last(), x, pos);
        assert(rank_insert(s, x) =~= s.take(pos) + seq![x] + s.skip(pos)) by {
            assert(s.drop_last().take(pos) =~= s.take(pos));
            assert(s.drop_last().skip(pos).push(s.last()) =~= s.skip(pos));
        }
    }
}

/// Rank a scored population in place, best first, stably: the result is
/// exactly [`rank_sort`] of the input.
pub fn rank_by_fitness<P>(v: &mut Vec<Scored<P>>)
    ensures
        final(v)@ == rank_sort(old(v)@),
{
    let n = v.len();
    let mut i: usize = 0;
    assert(v@ =~= rank_sort(old(v)@.take(0)) + old(v)@.skip(0)) by {
        assert(old(v)@.take(0) =~= Seq::<Scored<P>>::empty());
        assert(old(v)@.skip(0) =~= old(v)@);
    }
    while i < n
        invariant
            0 <= i <= n == v.len(),
            old(v)@.len() == n,
            v@ == rank_sort(old(v)@.take(i as int)) + old(v)@.skip(i as int),
        decreases n - i,
    {
        proof {
            lemma_rank_sort_len(old(v)@.take(i as int));
        }
        let xf = v[i].fitness;
        assert(v@[i as int] == old(v)@[i as int]);
        let mut j: usize = i;
        while j > 0 && v[j - 1].fitness.outranked_by(&xf)
            invariant
                0 <= j <= i < v.len(),
                xf == v@[i as int].fitness,
                forall|k: int| j <= k < i ==> (#[trigger] v@[k].fitness).spec_outranked_by(xf),
            decreases j,
        {
            j -= 1;
        }
        let ghost ranked_prefix = rank_sort(old(v)@.take(i as int));
        let ghost v_before = v@;
        let x = v.remove(i);
        v.insert(j, x);
        proof {
            assert forall|k: int| j <= k < i implies (#[trigger] ranked_prefix[k].fitness).spec_outranked_by(
                x.fitness,
            ) by {
                assert(ranked_prefix[k] == v_before[k]);
            }
            if j > 0 {
                assert(ranked_prefix[j - 1] == v_before[j - 1]);
            }
            lemma_rank_insert_at(ranked_prefix, x, j as int);
            assert(v_before.remove(i as int).take(j as int) =~= ranked_prefix.take(j as int));
            assert(v@ =~= rank_insert(ranked_prefix, x) + old(v)@.skip(i + 1)) by {
                assert(v_before.remove(i as int) =~= ranked_prefix.take(j as int) + ranked_prefix.skip(
                    j as int,
                ) + old(v)@.skip(i + 1));
                assert(v@ =~= ranked_prefix.take(j as int) + seq![x] + ranked_prefix.skip(j as int)
                    + old(v)@.skip(i + 1));
            }
            assert(old(v)@.take(i + 1).drop_last() =~= old(v)@.take(i as int));
            assert(old(v)@.take(i + 1).last() == x);
        }
        i += 1;
    }
    proof {
        assert(old(v)@.take(n as int) =~= old(v)@);
        assert(old(v)@.skip(n as int) =~= Seq::<Scored<P>>::empty());
        assert(v@ =~= rank_sort(old(v)@));
    }
}

} // verus!
