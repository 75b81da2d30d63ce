//! A one-dimensional strategy-map layout, the second domain the engine
//! optimizes: a fixed-length line of tiles holding the two bases, resources
//! and obstacles. The integer-valued structure of a map — tile counts and
//! base positions — lives here; its real-valued scoring is built on these by
//! the caller that owns the floating-point arithmetic.

use vstd::prelude::*;
use crate::evolution::{CanDisplay, CanMutate, CanReproduce};
use crate::random::{chance, coin, pick_below, shuffle};

verus! {

/// One map cell.
#[derive(Debug, Clone, Copy, PartialEq, Eq, Structural)]
pub enum LinecraftTile {
    FriendlyBase,
    EnemyBase,
    Empty,
    Minerals,
    Gas,
    Obstacle,
}

/// The tile that a draw of `seed` (below 20) produces: one slot for each
/// base, seven empty, five minerals, four gas, three obstacles.
pub open spec fn spec_gen(seed: u8) -> LinecraftTile {
    if seed == 0 {
        LinecraftTile::FriendlyBase
    } else if seed == 1 {
        LinecraftTile::EnemyBase
    } else if seed <= 8 {
        LinecraftTile::Empty
    } else if seed <= 13 {
        LinecraftTile::Minerals
    } else if seed <= 17 {
        LinecraftTile::Gas
    } else if seed <= 20 {
        LinecraftTile::Obstacle
    } else {
        LinecraftTile::Empty
    }
}

/// `r` is a tile that a random draw can produce.
pub open spec fn is_random_tile(r: LinecraftTile) -> bool {
    exists|seed: u8| seed < 20 && r == #[trigger] spec_gen(seed)
}

impl LinecraftTile {
    /// Map a draw to its tile.
    pub fn gen(seed: u8) -> (r: LinecraftTile)
        ensures
            r == spec_gen(seed),
    {
        match seed {
            0 => LinecraftTile::FriendlyBase,
            1 => LinecraftTile::EnemyBase,
            2..=8 => LinecraftTile::Empty,
            9..=13 => LinecraftTile::Minerals,
            14..=17 => LinecraftTile::Gas,
            18..=20 => LinecraftTile::Obstacle,
            _ => LinecraftTile::Empty,
        }
    }

    /// Draw a random tile.
    pub fn random() -> (r: LinecraftTile)
        ensures
            is_random_tile(r),
    {
        let seed = pick_below(20) as u8;
        let r = Self::gen(seed);
        proof {
            assert(seed < 20 && r == spec_gen(seed));
        }
        r
    }

    /// The resource worth of one tile: empty ground counts one, each
    /// resource three, an obstacle minus one, and the bases nothing.
    pub open spec fn spec_resource_weight(self) -> int {
        match self {
            LinecraftTile::FriendlyBase => 0,
            LinecraftTile::EnemyBase => 0,
            LinecraftTile::Empty => 1,
            LinecraftTile::Minerals => 3,
            LinecraftTile::Gas => 3,
            LinecraftTile::Obstacle => -1,
        }
    }

    /// The tile's resource worth.
    pub fn resource_weight(&self) -> (w: i64)
        ensures
            w == self.spec_resource_weight(),
    {
        match self {
            LinecraftTile::FriendlyBase => 0,
            LinecraftTile::EnemyBase => 0,
            LinecraftTile::Empty => 1,
            LinecraftTile::Minerals => 3,
            LinecraftTile::Gas => 3,
            LinecraftTile::Obstacle => -1,
        }
    }

    /// The one-character rendering of the tile.
    pub open spec fn spec_glyph(self) -> Seq<char> {
        match self {
            LinecraftTile::FriendlyBase => "1"@,
            LinecraftTile::EnemyBase => "2"@,
            LinecraftTile::Empty => "_"@,
            LinecraftTile::Minerals => "*"@,
            LinecraftTile::Gas => "$"@,
            LinecraftTile::Obstacle => "x"@,
        }
    }

    /// Render the tile as its one-character glyph.
    pub fn glyph(&self) -> (s: &'static str)
        ensures
            s@ == self.spec_glyph(),
    {
        match self {
            LinecraftTile::FriendlyBase => "1",
            LinecraftTile::EnemyBase => "2",
            LinecraftTile::Empty => "_",
            LinecraftTile::Minerals => "*",
            LinecraftTile::Gas => "$",
            LinecraftTile::Obstacle => "x",
        }
    }
}

/// How many members of `s` are the tile `t`.
pub open spec fn tile_count(s: Seq<LinecraftTile>, t: LinecraftTile) -> nat
    decreases s.len(),
{
    if s.len() == 0 {
        0
    } else {
        tile_count(s.drop_last(), t) + if s.last() == t {
            1nat
        } else {
            0nat
        }
    }
}

/// Some member of `s` is the tile `t`.
pub open spec fn has_tile(s: Seq<LinecraftTile>, t: LinecraftTile) -> bool {
    exists|i: int| 0 <= i < s.len() && s[i] == t
}

/// `i` is the first position of `t` in `s`.
pub open spec fn is_first_at(s: Seq<LinecraftTile>, t: LinecraftTile, i: int) -> bool {
    0 <= i < s.len() && s[i] == t && forall|k: int| 0 <= k < i ==> s[k] != t
}

/// The first position of `t` in `s` (meaningful only when `has_tile`).
pub open spec fn first_at(s: Seq<LinecraftTile>, t: LinecraftTile) -> int {
    choose|i: int| is_first_at(s, t, i)
}

proof fn lemma_first_at_unique(s: Seq<LinecraftTile>, t: LinecraftTile, i: int, j: int)
    requires
        is_first_at(s, t, i),
        is_first_at(s, t, j),
    ensures
        i == j,
{
    if i < j {
        assert(s[i] != t);
    }
    if j < i {
        assert(s[j] != t);
    }
}

/// `after` relates to `before` as one merged line of tiles: position by
/// position, a base next to empty ground wins, and any other pairing keeps
/// one of the two parents' tiles or re-rolls the cell.
pub open spec fn spec_merged_tile(a: LinecraftTile, b: LinecraftTile, r: LinecraftTile) -> bool {
    if (a == LinecraftTile::FriendlyBase && b == LinecraftTile::Empty) || (a == LinecraftTile::Empty
        && b == LinecraftTile::FriendlyBase) {
        r == LinecraftTile::FriendlyBase
    } else if (a == LinecraftTile::EnemyBase && b == LinecraftTile::Empty) || (a
        == LinecraftTile::Empty && b == LinecraftTile::EnemyBase) {
        r == LinecraftTile::EnemyBase
    } else {
        r == a || r == b || is_random_tile(r)
    }
}

/// A strategy-map layout: a line of tiles.
#[derive(Debug, Clone)]
pub struct LinecraftMap {
    tiles: Vec<LinecraftTile>,
}

impl LinecraftMap {
    /// The tiles as a sequence, for specification.
    pub closed spec fn view(&self) -> Seq<LinecraftTile> {
        self.tiles@
    }

    /// Build a map from the given line of tiles.
    pub fn with_tiles(tiles: Vec<LinecraftTile>) -> (m: Self)
        ensures
            m@ == tiles@,
    {
        LinecraftMap { tiles }
    }

    /// The tile at `i`.
    pub fn tile_at(&self, i: usize) -> (t: LinecraftTile)
        requires
            i < self@.len(),
        ensures
            t == self@[i as int],
    {
        self.tiles[i]
    }

    /// How many tiles the map holds.
    pub fn len(&self) -> (n: usize)
        ensures
            n == self@.len(),
    {
        self.tiles.len()
    }

    fn count_matching(&self, t: LinecraftTile) -> (n: usize)
        ensures
            n == tile_count(self@, t),
    {
        let mut n: usize = 0;
        let mut i: usize = 0;
        while i < self.tiles.len()
            invariant
                i <= self.tiles@.len(),
                n == tile_count(self.tiles@.take(i as int), t),
                n <= i,
            decreases self.tiles@.len() - i,
        {
            if self.tiles[i] == t {
                n = n + 1;
            }
            proof {
                assert(self.tiles@.take(i + 1).drop_last() =~= self.tiles@.take(i as int));
                assert(self.tiles@.take(i + 1).last() == self.tiles@[i as int]);
            }
            i = i + 1;
        }
        proof {
            assert(self.tiles@.take(self.tiles@.len() as int) =~= self.tiles@);
        }
        n
    }

    /// How many tiles are empty ground.
    pub fn count_empty(&self) -> (n: usize)
        ensures
            n == tile_count(self@, LinecraftTile::Empty),
    {
        self.count_matching(LinecraftTile::Empty)
    }

    /// How many tiles are the friendly base.
    pub fn count_friendly_base(&self) -> (n: usize)
        ensures
            n == tile_count(self@, LinecraftTile::FriendlyBase),
    {
        self.count_matching(LinecraftTile::FriendlyBase)
    }

    /// How many tiles are the enemy base.
    pub fn count_enemy_base(&self) -> (n: usize)
        ensures
            n == tile_count(self@, LinecraftTile::EnemyBase),
    {
        self.count_matching(LinecraftTile::EnemyBase)
    }

    fn find_tile(&self, t: LinecraftTile) -> (r: Option<usize>)
        ensures
            match r {
                Some(i) => is_first_at(self@, t, i as int),
                None => !has_tile(self@, t),
            },
    {
        let mut i: usize = 0;
        while i < self.tiles.len()
            invariant
                i <= self.tiles@.len(),
                forall|k: int| 0 <= k < i ==> self.tiles@[k] != t,
            decreases self.tiles@.len() - i,
        {
            if self.tiles[i] == t {
                return Some(i);
            }
            i = i + 1;
        }
        None
    }

    /// The distance between the first friendly and the first enemy base, or
    /// zero when either base is missing.
    pub fn minimal_distance_between_bases(&self) -> (d: usize)
        ensures
            has_tile(self@, LinecraftTile::FriendlyBase) && has_tile(self@, LinecraftTile::EnemyBase)
                ==> d == vstd::math::abs(
                first_at(self@, LinecraftTile::FriendlyBase) - first_at(
                    self@,
                    LinecraftTile::EnemyBase,
                ),
            ),
            !(has_tile(self@, LinecraftTile::FriendlyBase) && has_tile(
                self@,
                LinecraftTile::EnemyBase,
            )) ==> d == 0,
    {
        let friendly = self.find_tile(LinecraftTile::FriendlyBase);
        let enemy = self.find_tile(LinecraftTile::EnemyBase);
        match (friendly, enemy) {
            (Some(fi), Some(ei)) => {
                proof {
                    lemma_first_at_unique(
                        self@,
                        LinecraftTile::FriendlyBase,
                        fi as int,
                        first_at(self@, LinecraftTile::FriendlyBase),
                    );
                    lemma_first_at_unique(
                        self@,
                        LinecraftTile::EnemyBase,
                        ei as int,
                        first_at(self@, LinecraftTile::EnemyBase),
                    );
                }
                if fi >= ei {
                    fi - ei
                } else {
                    ei - fi
                }
            },
            _ => 0,
        }
    }

    /// The summed resource worth of a line of tiles.
    pub open spec fn spec_resource_total(s: Seq<LinecraftTile>) -> int
        decreases s.len(),
    {
        if s.len() == 0 {
            0
        } else {
            Self::spec_resource_total(s.drop_last()) + s.last().spec_resource_weight()
        }
    }

    /// The map's total resource worth.
    pub fn resource_total(&self) -> (t: i64)
        requires
            3 * self@.len() <= i64::MAX,
        ensures
            t == Self::spec_resource_total(self@),
    {
        let mut t: i64 = 0;
        let mut i: usize = 0;
        while i < self.tiles.len()
            invariant
                i <= self.tiles@.len(),
                3 * self.tiles@.len() <= i64::MAX,
                t == Self::spec_resource_total(self.tiles@.take(i as int)),
                -(i as int) <= t <= 3 * i,
            decreases self.tiles@.len() - i,
        {
            t = t + self.tiles[i].resource_weight();
            proof {
                assert(self.tiles@.take(i + 1).drop_last() =~= self.tiles@.take(i as int));
                assert(self.tiles@.take(i + 1).last() == self.tiles@[i as int]);
            }
            i = i + 1;
        }
        proof {
            assert(self.tiles@.take(self.tiles@.len() as int) =~= self.tiles@);
        }
        t
    }

    /// Whether the share of empty ground sits in the balanced band: more than
    /// a quarter and less than three quarters of the map.
    pub fn has_balanced_occupancy(&self) -> (r: bool)
        requires
            3 * self@.len() <= usize::MAX,
        ensures
            r == (tile_count(self@, LinecraftTile::Empty) > self@.len() as int / 4 && tile_count(
                self@,
                LinecraftTile::Empty,
            ) < self@.len() as int * 3 / 4),
    {
        let count_empty = self.count_empty();
        let len = self.tiles.len();
        count_empty > len / 4 && count_empty < len * 3 / 4
    }

    /// The one-line rendering of the map: each tile's glyph in order.
    pub open spec fn spec_glyphs(s: Seq<LinecraftTile>) -> Seq<char>
        decreases s.len(),
    {
        if s.len() == 0 {
            Seq::empty()
        } else {
            Self::spec_glyphs(s.drop_last()) + s.last().spec_glyph()
        }
    }
}

impl Default for LinecraftMap {
    /// A fresh map is nine tiles drawn at random.
    fn default() -> (m: Self)
        ensures
            m@.len() == 9,
            forall|i: int| 0 <= i < m@.len() ==> is_random_tile(#[trigger] m@[i]),
    {
        let mut tiles: Vec<LinecraftTile> = Vec::new();
        let mut made: usize = 0;
        while made < 9
            invariant
                tiles@.len() == made,
                made <= 9,
                forall|i: int| 0 <= i < made ==> is_random_tile(#[trigger] tiles@[i]),
            decreases 9 - made,
        {
            tiles.push(LinecraftTile::random());
            made = made + 1;
        }
        LinecraftMap { tiles }
    }
}

impl CanMutate for LinecraftMap {
    /// The length is kept; a set of at least two but fewer than half the
    /// cells, at distinct positions, is re-rolled and every other cell is
    /// untouched. A map too short for that choice (fewer than six tiles) is
    /// left unchanged.
    open spec fn mutation_of(pre: Self, post: Self) -> bool {
        &&& post@.len() == pre@.len()
        &&& forall|i: int|
            0 <= i < post@.len() ==> post@[i] == pre@[i] || is_random_tile(#[trigger] post@[i])
        &&& if pre@.len() / 2 > 2 {
            exists|chosen: Seq<usize>|
                {
                    &&& #[trigger] chosen.no_duplicates()
                    &&& 2 <= chosen.len() < pre@.len() / 2
                    &&& forall|i: int|
                        0 <= i < pre@.len() && !chosen.contains(i as usize) ==> post@[i] == pre@[i]
                }
        } else {
            post == pre
        }
    }

    /// Re-roll a random selection of cells: between two and half the map,
    /// at random distinct positions. A map too short to choose that many
    /// cells (fewer than six tiles) is left unchanged rather than rejected.
    fn mutate(&mut self) {
        let len = self.tiles.len();
        let half = len / 2;
        if half <= 2 {
            return ;
        }
        let count_changes = 2 + pick_below(half - 2);

        let mut indices: Vec<usize> = Vec::new();
        let mut made: usize = 0;
        while made < len
            invariant
                indices@.len() == made,
                made <= len,
                forall|k: int| 0 <= k < made ==> indices@[k] == k,
            decreases len - made,
        {
            indices.push(made);
            made = made + 1;
        }
        let ghost ordered = indices@;
        shuffle(&mut indices);
        proof {
            broadcast use vstd::seq_lib::group_to_multiset_ensures;

            assert forall|x: usize| indices@.contains(x) implies x < len by {
                assert(indices@.to_multiset().count(x) > 0);
                assert(ordered.to_multiset().count(x) > 0);
                assert(ordered.contains(x));
                let k = choose|k: int| 0 <= k < ordered.len() && ordered[k] == x;
                assert(ordered[k] == k);
            }
            assert(indices@.no_duplicates()) by {
                ordered.lemma_multiset_has_no_duplicates();
                indices@.lemma_multiset_has_no_duplicates_conv();
            }
        }

        let mut j: usize = 0;
        while j < count_changes
            invariant
                j <= count_changes,
                2 <= count_changes < half == len / 2,
                len == self.tiles@.len() == old(self)@.len() == indices@.len(),
                indices@.no_duplicates(),
                forall|x: usize| indices@.contains(x) ==> x < self.tiles@.len(),
                forall|i: int|
                    0 <= i < self.tiles@.len() ==> self.tiles@[i] == old(self)@[i]
                        || is_random_tile(#[trigger] self.tiles@[i]),
                forall|i: int|
                    0 <= i < self.tiles@.len() && !indices@.take(j as int).contains(i as usize)
                        ==> self.tiles@[i] == old(self)@[i],
            decreases count_changes - j,
        {
            let idx = indices[j];
            proof {
                assert(indices@.contains(indices@[j as int]));
            }
            let ghost before = self.tiles@;
            self.tiles[idx] = LinecraftTile::random();
            proof {
                assert forall|i: int|
                    0 <= i < self.tiles@.len() && !indices@.take(j + 1).contains(i as usize) implies self.tiles@[i]
                    == old(self)@[i] by {
                    assert(indices@.take(j + 1)[j as int] == idx);
                    if !indices@.take(j as int).contains(i as usize) && i != idx {
                        assert(self.tiles@[i] == before[i]);
                    } else if indices@.take(j as int).contains(i as usize) {
                        let m = choose|m: int|
                            0 <= m < j && indices@.take(j as int)[m] == i as usize;
                        assert(indices@.take(j + 1)[m] == i as usize);
                    }
                }
            }
            j = j + 1;
        }
        proof {
            let chosen = indices@.take(count_changes as int);
            assert(chosen.no_duplicates()) by {
                assert forall|a: int, b: int|
                    0 <= a < chosen.len() && 0 <= b < chosen.len() && a != b implies chosen[a]
                    != chosen[b] by {
                    assert(indices@[a] != indices@[b]);
                }
            }
            assert(2 <= chosen.len() < old(self)@.len() / 2);
        }
    }
}

impl CanReproduce for LinecraftMap {
    /// Merge with a partner cell by cell: a base paired with empty ground is
    /// kept; any other pairing keeps one parent's tile (usually) or re-rolls
    /// the cell (rarely).
    fn reproduce(&self, partner: &Self) -> (child: Self)
        ensures
            child@.len() == vstd::math::min(self@.len() as int, partner@.len() as int),
            forall|i: int|
                0 <= i < child@.len() ==> spec_merged_tile(
                    self@[i],
                    partner@[i],
                    #[trigger] child@[i],
                ),
    {
        let shorter = if self.tiles.len() < partner.tiles.len() {
            self.tiles.len()
        } else {
            partner.tiles.len()
        };
        let mut tiles: Vec<LinecraftTile> = Vec::new();
        let mut i: usize = 0;
        while i < shorter
            invariant
                shorter == vstd::math::min(self@.len() as int, partner@.len() as int),
                i <= shorter,
                tiles@.len() == i,
                forall|k: int|
                    0 <= k < i ==> spec_merged_tile(self@[k], partner@[k], #[trigger] tiles@[k]),
            decreases shorter - i,
        {
            let a = self.tiles[i];
            let b = partner.tiles[i];
            let merged = merge_tiles(a, b);
            tiles.push(merged);
            i = i + 1;
        }
        LinecraftMap { tiles }
    }
}

fn merge_tiles(a: LinecraftTile, b: LinecraftTile) -> (r: LinecraftTile)
    ensures
        spec_merged_tile(a, b, r),
{
    if (a == LinecraftTile::FriendlyBase && b == LinecraftTile::Empty) || (a == LinecraftTile::Empty
        && b == LinecraftTile::FriendlyBase) {
        LinecraftTile::FriendlyBase
    } else if (a == LinecraftTile::EnemyBase && b == LinecraftTile::Empty) || (a
        == LinecraftTile::Empty && b == LinecraftTile::EnemyBase) {
        LinecraftTile::EnemyBase
    } else if chance(92, 100) {
        if coin() {
            a
        } else {
            b
        }
    } else {
        LinecraftTile::random()
    }
}

impl CanDisplay for LinecraftMap {
    /// Render the map as one glyph per tile.
    fn display(&self) -> (s: String)
        ensures
            s@ == Self::spec_glyphs(self@),
    {
        let mut s = String::new();
        let mut i: usize = 0;
        while i < self.tiles.len()
            invariant
                i <= self.tiles@.len(),
                s@ == Self::spec_glyphs(self.tiles@.take(i as int)),
            decreases self.tiles@.len() - i,
        {
            s.append(self.tiles[i].glyph());
            proof {
                assert(self.tiles@.take(i + 1).drop_last() =~= self.tiles@.take(i as int));
                assert(self.tiles@.take(i + 1).last() == self.tiles@[i as int]);
            }
            i = i + 1;
        }
        proof {
            assert(self.tiles@.take(self.tiles@.len() as int) =~= self.tiles@);
        }
        s
    }
}

} // verus!
