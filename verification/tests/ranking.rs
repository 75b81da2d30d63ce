use mu_lambda::fitness::FitnessMeasure;
use mu_lambda::probe::ProbeOrganism;
use mu_lambda::ranking::{rank_by_fitness, Scored};

fn scored(tag: i64, rank: i64) -> Scored<ProbeOrganism> {
    Scored {
        organism: ProbeOrganism { value: tag, step: 0, comparable: true },
        fitness: FitnessMeasure::comparable(rank),
    }
}

fn tags(v: &Vec<Scored<ProbeOrganism>>) -> Vec<i64> {
    v.iter().map(|s| s.organism.value).collect()
}

#[test]
fn ranking_is_best_first() {
    let mut v = vec![scored(1, 10), scored(2, 40), scored(3, 20), scored(4, 30)];
    rank_by_fitness(&mut v);
    assert_eq!(tags(&v), vec![2, 4, 3, 1]);
}

#[test]
fn ranking_is_stable_for_equal_fitness() {
    // tags distinguish organisms; ranks tie in two groups
    let mut v = vec![scored(1, 5), scored(2, 3), scored(3, 5), scored(4, 3)];
    rank_by_fitness(&mut v);
    assert_eq!(tags(&v), vec![1, 3, 2, 4]);
}

#[test]
fn an_incomparable_score_keeps_its_position() {
    let mut v = vec![scored(1, 5), scored(2, 0), scored(3, 7)];
    v[1].fitness = FitnessMeasure::incomparable();
    rank_by_fitness(&mut v);
    // the incomparable element ties with both neighbours, so nothing crosses
    // it and it stays at its slot
    assert_eq!(tags(&v), vec![1, 2, 3]);
    assert!(!v[1].fitness.ordered);
}

#[test]
fn incomparable_scores_do_not_stop_ranking_around_them() {
    let mut v = vec![scored(1, 1), scored(2, 9), scored(3, 0), scored(4, 2), scored(5, 8)];
    v[2].fitness = FitnessMeasure::incomparable();
    rank_by_fitness(&mut v);
    // each run between incomparable scores is ranked on its own
    assert_eq!(tags(&v), vec![2, 1, 3, 5, 4]);
}

#[test]
fn measures_order_as_their_ranks() {
    let low = FitnessMeasure::comparable(-3);
    let high = FitnessMeasure::comparable(4);
    assert!(low.outranked_by(&high));
    assert!(!high.outranked_by(&low));
    assert!(!low.outranked_by(&low));
    let nan = FitnessMeasure::incomparable();
    assert!(!nan.outranked_by(&high));
    assert!(!low.outranked_by(&nan));
}
