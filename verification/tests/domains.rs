use mu_lambda::creature::Creature;
use mu_lambda::evolution::{CanDisplay, CanMutate, CanReproduce, Fitness};
use mu_lambda::linecraft::{LinecraftMap, LinecraftTile};
use mu_lambda::text::signed_decimal_string;
use mu_lambda::fitness::FitnessMeasure;

#[test]
fn creature_fitness_formula() {
    let c = Creature { power: 3, toughness: 4, speed: 2 };
    let m = c.evaluate();
    assert!(m.ordered);
    assert_eq!(m.rank, 3 * 4 + 2 * 4);
    assert_eq!(m.rank, 20);
}

#[test]
fn creature_fitness_can_be_negative() {
    let c = Creature { power: -3, toughness: 5, speed: 1 };
    assert_eq!(c.evaluate().rank, -15 + 5);
}

#[test]
fn creature_mutation_stays_within_the_step_window() {
    let mut c = Creature { power: 10, toughness: 20, speed: 30 };
    c.mutate();
    assert!((8..=11).contains(&c.power));
    assert!((18..=21).contains(&c.toughness));
    assert!((28..=31).contains(&c.speed));
}

#[test]
fn fresh_creatures_have_small_positive_genes() {
    for _ in 0..50 {
        let c = Creature::default();
        assert!((1..=9).contains(&c.power));
        assert!((1..=9).contains(&c.toughness));
        assert!((1..=9).contains(&c.speed));
    }
}

#[test]
fn creature_display_line() {
    let c = Creature { power: 3, toughness: -4, speed: 120 };
    assert_eq!(c.display(), "P:3 T:-4 S:120");
}

#[test]
fn tile_generation_table() {
    assert_eq!(LinecraftTile::gen(0), LinecraftTile::FriendlyBase);
    assert_eq!(LinecraftTile::gen(1), LinecraftTile::EnemyBase);
    for seed in 2..=8 {
        assert_eq!(LinecraftTile::gen(seed), LinecraftTile::Empty);
    }
    for seed in 9..=13 {
        assert_eq!(LinecraftTile::gen(seed), LinecraftTile::Minerals);
    }
    for seed in 14..=17 {
        assert_eq!(LinecraftTile::gen(seed), LinecraftTile::Gas);
    }
    for seed in 18..=20 {
        assert_eq!(LinecraftTile::gen(seed), LinecraftTile::Obstacle);
    }
    assert_eq!(LinecraftTile::gen(21), LinecraftTile::Empty);
}

fn map_of(tiles: Vec<LinecraftTile>) -> LinecraftMap {
    LinecraftMap::with_tiles(tiles)
}

#[test]
fn map_counts() {
    let m = map_of(vec![LinecraftTile::Empty, LinecraftTile::Minerals, LinecraftTile::Empty, LinecraftTile::FriendlyBase, LinecraftTile::Gas, LinecraftTile::Empty, LinecraftTile::EnemyBase, LinecraftTile::Obstacle]);
    assert_eq!(m.count_empty(), 3);
    assert_eq!(m.count_friendly_base(), 1);
    assert_eq!(m.count_enemy_base(), 1);
}

#[test]
fn distance_between_bases_uses_first_occurrences() {
    let m = map_of(vec![LinecraftTile::Empty, LinecraftTile::FriendlyBase, LinecraftTile::Empty, LinecraftTile::Empty, LinecraftTile::EnemyBase, LinecraftTile::EnemyBase]);
    assert_eq!(m.minimal_distance_between_bases(), 3);
    let swapped = map_of(vec![LinecraftTile::EnemyBase, LinecraftTile::Empty, LinecraftTile::FriendlyBase]);
    assert_eq!(swapped.minimal_distance_between_bases(), 2);
}

#[test]
fn distance_is_zero_without_both_bases() {
    assert_eq!(map_of(vec![LinecraftTile::Empty, LinecraftTile::Minerals, LinecraftTile::Gas]).minimal_distance_between_bases(), 0);
    assert_eq!(map_of(vec![LinecraftTile::Empty, LinecraftTile::FriendlyBase]).minimal_distance_between_bases(), 0);
    assert_eq!(map_of(vec![LinecraftTile::EnemyBase, LinecraftTile::Empty]).minimal_distance_between_bases(), 0);
}

#[test]
fn map_display_uses_one_glyph_per_tile() {
    let m = map_of(vec![LinecraftTile::FriendlyBase, LinecraftTile::EnemyBase, LinecraftTile::Empty, LinecraftTile::Minerals, LinecraftTile::Gas, LinecraftTile::Obstacle]);
    assert_eq!(m.display(), "12_*$x");
}

#[test]
fn fresh_maps_have_nine_tiles() {
    for _ in 0..20 {
        assert_eq!(LinecraftMap::default().len(), 9);
    }
}

#[test]
fn mutation_keeps_the_map_length() {
    for _ in 0..20 {
        let mut m = LinecraftMap::default();
        m.mutate();
        assert_eq!(m.len(), 9);
    }
}

#[test]
fn mutation_rerolls_fewer_than_half_the_cells() {
    for _ in 0..20 {
        let tiles = vec![LinecraftTile::Gas; 10];
        let mut m = map_of(tiles);
        m.mutate();
        let changed = (0..m.len()).filter(|&i| m.tile_at(i) != LinecraftTile::Gas).count();
        assert!(changed < 5);
    }
}

#[test]
fn mutation_leaves_a_short_map_unchanged() {
    let mut m = map_of(vec![LinecraftTile::FriendlyBase, LinecraftTile::EnemyBase, LinecraftTile::Gas]);
    m.mutate();
    assert_eq!(m.display(), "12$");
}

#[test]
fn reproduction_keeps_a_base_facing_empty_ground() {
    let a = map_of(vec![LinecraftTile::FriendlyBase, LinecraftTile::Empty, LinecraftTile::Empty]);
    let b = map_of(vec![LinecraftTile::Empty, LinecraftTile::EnemyBase, LinecraftTile::Empty]);
    let child = a.reproduce(&b);
    assert_eq!(child.len(), 3);
    assert_eq!(child.tile_at(0), LinecraftTile::FriendlyBase);
    assert_eq!(child.tile_at(1), LinecraftTile::EnemyBase);
}

#[test]
fn reproduction_trims_to_the_shorter_parent() {
    let a = map_of(vec![LinecraftTile::Gas, LinecraftTile::Gas, LinecraftTile::Gas, LinecraftTile::Gas]);
    let b = map_of(vec![LinecraftTile::Minerals, LinecraftTile::Minerals]);
    assert_eq!(a.reproduce(&b).len(), 2);
}

#[test]
fn decimal_rendering() {
    assert_eq!(signed_decimal_string(0), "0");
    assert_eq!(signed_decimal_string(7), "7");
    assert_eq!(signed_decimal_string(-123), "-123");
    assert_eq!(signed_decimal_string(1203), "1203");
    assert_eq!(signed_decimal_string(i64::MAX), "9223372036854775807");
    assert_eq!(signed_decimal_string(i64::MIN), "-9223372036854775808");
}

#[test]
fn fitness_measure_rendering() {
    assert_eq!(FitnessMeasure::comparable(-5).display(), "-5");
    assert_eq!(FitnessMeasure::incomparable().display(), "NaN");
}
