//! Treasure sites and rewards: sites are scattered uniformly over the
//! map from the seed stream, and each site carries a weighted-random
//! reward bundle of stat boons or, rarely, an elemental summon.
//!
//! The host draws the raw boon-count sample (a Poisson draw whose
//! floating-point distribution cannot enter verified code) immediately
//! before each reward, so the random stream is consumed in the fixed
//! order the seed stream depends on: boon count, then boons, then the
//! summon override, then the slot affinity.

use vstd::prelude::*;

use crate::rng::{rng_new, rng_range_u32, rng_ratio};

verus! {

/// Base score for finding any treasure.
pub const BASE_SCORE: u16 = 100;

/// Score added by each additive boon.
pub const ADD_SCORE: u16 = 20;

/// Score added by each multiplicative boon.
pub const MULTIPLY_SCORE: u16 = 60;

/// Score of a summon reward (base plus the flat summon bonus).
pub const SUMMON_SCORE: u16 = 300;

/// How many unit slots exist; slot 0 is the defense army.
pub const SLOT_COUNT: u8 = 8;

/// The stat a boon modifies.
#[derive(Debug, Clone, Copy, PartialEq, Eq, Structural)]
pub enum BoonType {
    Health,
    Visibility,
    OverworldSpeed,
    ExcavationSpeed,
    BattleSpeed,
    Damage,
    Members,
}

/// How a boon modifies its stat.
#[derive(Debug, Clone, Copy, PartialEq, Eq, Structural)]
pub enum BoonOperation {
    Add,
    Multiply,
}

/// One stat modifier carried by a treasure reward.
#[derive(Debug, Clone, Copy, PartialEq, Eq, Structural)]
pub struct Boon {
    pub category: BoonType,
    pub operation: BoonOperation,
    pub value: u8,
}

/// The rare creature ally a summon reward grants.
#[derive(Debug, Clone, Copy, PartialEq, Eq, Structural)]
pub enum SummonType {
    FireElemental,
    WaterElemental,
    EarthElemental,
    AirElemental,
    GravityElemental,
}

/// One treasure reward: either a non-empty bundle of boons, or a
/// summon with no boons. The score mirrors the contents.
#[derive(Debug, Clone)]
pub struct Treasure {
    pub score: u16,
    pub boons: Vec<Boon>,
    pub summon: Option<SummonType>,
    pub slot: u8,
}

/// The half-open magnitude range of an additive boon per category.
pub open spec fn spec_range_add(c: BoonType) -> (u8, u8) {
    match c {
        BoonType::Health => (20, 100),
        BoonType::Visibility => (1, 10),
        BoonType::OverworldSpeed => (1, 10),
        BoonType::ExcavationSpeed => (1, 5),
        BoonType::BattleSpeed => (1, 10),
        BoonType::Damage => (1, 20),
        BoonType::Members => (1, 4),
    }
}

/// The half-open magnitude range of a multiplicative boon per category.
pub open spec fn spec_range_multiply(c: BoonType) -> (u8, u8) {
    match c {
        BoonType::Health => (2, 4),
        BoonType::Visibility => (2, 3),
        BoonType::OverworldSpeed => (2, 3),
        BoonType::ExcavationSpeed => (2, 3),
        BoonType::BattleSpeed => (2, 4),
        BoonType::Damage => (2, 4),
        BoonType::Members => (2, 4),
    }
}

impl BoonType {
    /// The additive magnitude range of this category, exact against
    /// `spec_range_add`.
    pub fn range_add(&self) -> (r: (u8, u8))
        ensures
            r == spec_range_add(*self),
    {
        match self {
            BoonType::Health => (20, 100),
            BoonType::Visibility => (1, 10),
            BoonType::OverworldSpeed => (1, 10),
            BoonType::ExcavationSpeed => (1, 5),
            BoonType::BattleSpeed => (1, 10),
            BoonType::Damage => (1, 20),
            BoonType::Members => (1, 4),
        }
    }

    /// The multiplicative magnitude range of this category, exact
    /// against `spec_range_multiply`.
    pub fn range_multiply(&self) -> (r: (u8, u8))
        ensures
            r == spec_range_multiply(*self),
    {
        match self {
            BoonType::Health => (2, 4),
            BoonType::Visibility => (2, 3),
            BoonType::OverworldSpeed => (2, 3),
            BoonType::ExcavationSpeed => (2, 3),
            BoonType::BattleSpeed => (2, 4),
            BoonType::Damage => (2, 4),
            BoonType::Members => (2, 4),
        }
    }

    /// The category's display name.
    pub fn name(&self) -> (r: &'static str) {
        match self {
            BoonType::Health => "Health",
            BoonType::Visibility => "Visibility",
            BoonType::OverworldSpeed => "Overworld Speed",
            BoonType::ExcavationSpeed => "Excavation Speed",
            BoonType::BattleSpeed => "Battle Speed",
            BoonType::Damage => "Damage",
            BoonType::Members => "Members",
        }
    }
}

impl BoonOperation {
    /// The operation's display sign.
    pub fn sign(&self) -> (r: &'static str) {
        match self {
            BoonOperation::Add => "+",
            BoonOperation::Multiply => "x",
        }
    }
}

/// A boon's magnitude lies in its category's range for its operation.
pub open spec fn boon_value_ok(b: Boon) -> bool {
    match b.operation {
        BoonOperation::Add => spec_range_add(b.category).0 <= b.value < spec_range_add(
            b.category,
        ).1,
        BoonOperation::Multiply => spec_range_multiply(b.category).0 <= b.value
            < spec_range_multiply(b.category).1,
    }
}

/// Total score contributed by a bundle of boons.
pub open spec fn boon_score(bs: Seq<Boon>) -> int
    decreases bs.len(),
{
    if bs.len() == 0 {
        0
    } else {
        boon_score(bs.drop_last()) + (if bs.last().operation is Add {
            ADD_SCORE as int
        } else {
            MULTIPLY_SCORE as int
        })
    }
}

/// How many boons of a bundle are additive.
pub open spec fn add_count(bs: Seq<Boon>) -> int
    decreases bs.len(),
{
    if bs.len() == 0 {
        0
    } else {
        add_count(bs.drop_last()) + (if bs.last().operation is Add {
            1int
        } else {
            0int
        })
    }
}

/// How many boons of a bundle are multiplicative.
pub open spec fn multiply_count(bs: Seq<Boon>) -> int
    decreases bs.len(),
{
    if bs.len() == 0 {
        0
    } else {
        multiply_count(bs.drop_last()) + (if bs.last().operation is Multiply {
            1int
        } else {
            0int
        })
    }
}

/// A well-formed reward: the slot affinity names a real slot; either a
/// summon with no boons and the flat summon score, or one to six boons
/// whose kinds and magnitudes are in range, with the score mirroring
/// the bundle.
pub open spec fn reward_wf(t: Treasure) -> bool {
    &&& t.slot < SLOT_COUNT
    &&& (match t.summon {
        Some(_) => t.boons@.len() == 0 && t.score == SUMMON_SCORE,
        None => 1 <= t.boons@.len() <= 6 && t.score == BASE_SCORE + boon_score(t.boons@),
    })
    &&& forall|i: int| 0 <= i < t.boons@.len() ==> boon_value_ok(#[trigger] t.boons@[i])
}

/// The score law: a reward's score is the base value plus 20 per
/// additive boon and 60 per multiplicative boon, or the flat summon
/// score with no boons at all.
pub proof fn lemma_reward_score_formula(t: Treasure)
    requires
        reward_wf(t),
    ensures
        t.score >= BASE_SCORE,
        t.summon is None ==> t.score == BASE_SCORE + ADD_SCORE * add_count(t.boons@)
            + MULTIPLY_SCORE * multiply_count(t.boons@),
        t.summon is Some ==> t.score == SUMMON_SCORE && t.boons@.len() == 0,
{
    lemma_boon_score_counts(t.boons@);
    if t.summon is None {
        lemma_boon_score_nonneg(t.boons@);
    }
}

proof fn lemma_boon_score_counts(bs: Seq<Boon>)
    ensures
        boon_score(bs) == ADD_SCORE * add_count(bs) + MULTIPLY_SCORE * multiply_count(bs),
    decreases bs.len(),
{
    if bs.len() > 0 {
        lemma_boon_score_counts(bs.drop_last());
        let a = add_count(bs.drop_last());
        let m = multiply_count(bs.drop_last());
        assert(ADD_SCORE * (a + 1) == ADD_SCORE * a + ADD_SCORE) by {
            vstd::arithmetic::mul::lemma_mul_is_distributive_add(ADD_SCORE as int, a, 1);
        }
        assert(MULTIPLY_SCORE * (m + 1) == MULTIPLY_SCORE * m + MULTIPLY_SCORE) by {
            vstd::arithmetic::mul::lemma_mul_is_distributive_add(MULTIPLY_SCORE as int, m, 1);
        }
    }
}

proof fn lemma_boon_score_nonneg(bs: Seq<Boon>)
    ensures
        0 <= boon_score(bs) <= bs.len() * (MULTIPLY_SCORE as int),
    decreases bs.len(),
{
    if bs.len() > 0 {
        lemma_boon_score_nonneg(bs.drop_last());
        let n = bs.len() as int;
        assert((n - 1) * (MULTIPLY_SCORE as int) + MULTIPLY_SCORE == n * (MULTIPLY_SCORE as int))
            by {
            vstd::arithmetic::mul::lemma_mul_is_distributive_sub_other_way(
                MULTIPLY_SCORE as int,
                n,
                1,
            );
        }
    }
}

/// The boon category at a uniform index.
pub open spec fn spec_boon_type_at(i: int) -> BoonType {
    if i == 0 {
        BoonType::Health
    } else if i == 1 {
        BoonType::Visibility
    } else if i == 2 {
        BoonType::OverworldSpeed
    } else if i == 3 {
        BoonType::ExcavationSpeed
    } else if i == 4 {
        BoonType::BattleSpeed
    } else if i == 5 {
        BoonType::Damage
    } else {
        BoonType::Members
    }
}

fn boon_type_at(i: u32) -> (r: BoonType)
    requires
        i < 7,
    ensures
        r == spec_boon_type_at(i as int),
{
    if i == 0 {
        BoonType::Health
    } else if i == 1 {
        BoonType::Visibility
    } else if i == 2 {
        BoonType::OverworldSpeed
    } else if i == 3 {
        BoonType::ExcavationSpeed
    } else if i == 4 {
        BoonType::BattleSpeed
    } else if i == 5 {
        BoonType::Damage
    } else {
        BoonType::Members
    }
}

/// The summon kind at a uniform index.
pub open spec fn spec_summon_at(i: int) -> SummonType {
    if i == 0 {
        SummonType::FireElemental
    } else if i == 1 {
        SummonType::WaterElemental
    } else if i == 2 {
        SummonType::EarthElemental
    } else if i == 3 {
        SummonType::AirElemental
    } else {
        SummonType::GravityElemental
    }
}

fn summon_at(i: u32) -> (r: SummonType)
    requires
        i < 5,
    ensures
        r == spec_summon_at(i as int),
{
    if i == 0 {
        SummonType::FireElemental
    } else if i == 1 {
        SummonType::WaterElemental
    } else if i == 2 {
        SummonType::EarthElemental
    } else if i == 3 {
        SummonType::AirElemental
    } else {
        SummonType::GravityElemental
    }
}

/// Clamp a raw boon-count sample into `[1, 6]`.
pub open spec fn spec_clamp_boon_count(raw: u64) -> u8 {
    if raw < 1 {
        1
    } else if raw > 6 {
        6
    } else {
        raw as u8
    }
}

/// Generate one treasure reward from the seed stream.
///
/// `raw_boon_count` is the host's raw Poisson sample for this reward,
/// drawn from the same stream just before this call; it is clamped
/// into `[1, 6]` here. The result is always a well-formed reward: its
/// score mirrors its boons, or is the flat summon score when the 5%
/// override wiped them.
pub fn generate_reward(rng: &mut wyrand::WyRand, raw_boon_count: u64) -> (t: Treasure)
    ensures
        reward_wf(t),
        t.summon is None ==> t.boons@.len() == spec_clamp_boon_count(raw_boon_count),
{
    let boon_count: u8 = if raw_boon_count < 1 {
        1
    } else if raw_boon_count > 6 {
        6
    } else {
        raw_boon_count as u8
    };
    let mut score: u16 = BASE_SCORE;
    let mut boons: Vec<Boon> = Vec::new();
    let mut i: u8 = 0;
    while i < boon_count
        invariant
            0 <= i <= boon_count,
            1 <= boon_count <= 6,
            boons@.len() == i,
            score == BASE_SCORE + boon_score(boons@),
            score <= BASE_SCORE + (i as int) * (MULTIPLY_SCORE as int),
            forall|j: int| 0 <= j < boons@.len() ==> boon_value_ok(#[trigger] boons@[j]),
        decreases boon_count - i,
    {
        let category = boon_type_at(rng_range_u32(rng, 0, 7));
        let is_add = rng_ratio(rng, 9, 10);
        let operation = if is_add {
            BoonOperation::Add
        } else {
            BoonOperation::Multiply
        };
        proof {
            assert((i as int) * (MULTIPLY_SCORE as int) <= 6 * (MULTIPLY_SCORE as int)) by {
                vstd::arithmetic::mul::lemma_mul_inequality(i as int, 6, MULTIPLY_SCORE as int);
            }
            assert((i + 1) as int * (MULTIPLY_SCORE as int) == (i as int) * (MULTIPLY_SCORE as int)
                + MULTIPLY_SCORE) by {
                vstd::arithmetic::mul::lemma_mul_is_distributive_add_other_way(
                    MULTIPLY_SCORE as int,
                    i as int,
                    1,
                );
            }
        }
        let (lo, hi) = if is_add {
            score = score + ADD_SCORE;
            category.range_add()
        } else {
            score = score + MULTIPLY_SCORE;
            category.range_multiply()
        };
        let value = rng_range_u32(rng, lo as u32, hi as u32) as u8;
        let b = Boon { category, operation, value };
        let ghost prev = boons@;
        boons.push(b);
        proof {
            assert(boons@.drop_last() =~= prev);
            assert(boons@.last() == b);
        }
        i = i + 1;
    }
    // The 5% summon override: it wipes the boons and replaces the
    // score with the flat summon value, then the slot is drawn either
    // way.
    let is_summon = rng_ratio(rng, 1, 20);
    if is_summon {
        let kind = summon_at(rng_range_u32(rng, 0, 5));
        let slot = rng_range_u32(rng, 0, SLOT_COUNT as u32) as u8;
        Treasure { score: SUMMON_SCORE, boons: Vec::new(), summon: Some(kind), slot }
    } else {
        let slot = rng_range_u32(rng, 0, SLOT_COUNT as u32) as u8;
        Treasure { score, boons, summon: None, slot }
    }
}

/// The registry of not-yet-excavated treasure sites: positions and
/// rewards paired index by index. It only ever shrinks, as sites are
/// dug up; the rewards move to the found log.
pub struct TreasureLocs {
    pub locs: Vec<(u32, u32)>,
    pub treasures: Vec<Treasure>,
}

/// Index of the first site at `tile`, or the length when none is
/// there.
pub open spec fn first_site_index(locs: Seq<(u32, u32)>, tile: (u32, u32)) -> int
    decreases locs.len(),
{
    if locs.len() == 0 {
        0
    } else if locs.first() == tile {
        0
    } else {
        1 + first_site_index(locs.skip(1), tile)
    }
}

/// Whether any remaining site sits at `tile`.
pub open spec fn has_site_at(locs: Seq<(u32, u32)>, tile: (u32, u32)) -> bool {
    first_site_index(locs, tile) < locs.len()
}

pub proof fn lemma_first_site_index(locs: Seq<(u32, u32)>, tile: (u32, u32))
    ensures
        0 <= first_site_index(locs, tile) <= locs.len(),
        first_site_index(locs, tile) < locs.len() ==> locs[first_site_index(locs, tile)] == tile,
        forall|j: int| 0 <= j < first_site_index(locs, tile) ==> locs[j] != tile,
    decreases locs.len(),
{
    if locs.len() > 0 && locs.first() != tile {
        lemma_first_site_index(locs.skip(1), tile);
        let k = first_site_index(locs.skip(1), tile);
        assert(forall|j: int| 0 <= j < k ==> locs.skip(1)[j] != tile);
        assert(forall|j: int| 1 <= j < k + 1 ==> locs[j] == locs.skip(1)[j - 1]);
    }
}

/// The registry after every site at `tile` is removed, first
/// occurrence first, positions and rewards dropped in step.
pub open spec fn spec_remove_all(
    locs: Seq<(u32, u32)>,
    ts: Seq<Treasure>,
    tile: (u32, u32),
) -> (Seq<(u32, u32)>, Seq<Treasure>)
    decreases locs.len(),
    via spec_remove_all_decreases
{
    if !has_site_at(locs, tile) {
        (locs, ts)
    } else {
        let i = first_site_index(locs, tile);
        spec_remove_all(locs.remove(i), ts.remove(i), tile)
    }
}

#[via_fn]
proof fn spec_remove_all_decreases(locs: Seq<(u32, u32)>, ts: Seq<Treasure>, tile: (u32, u32)) {
    if has_site_at(locs, tile) {
        lemma_first_site_index(locs, tile);
        let i = first_site_index(locs, tile);
        assert(locs.remove(i).len() == locs.len() - 1);
    }
}

impl TreasureLocs {
    /// Positions and rewards pair up, and every reward is well formed.
    pub open spec fn wf(&self) -> bool {
        &&& self.locs@.len() == self.treasures@.len()
        &&& forall|i: int| 0 <= i < self.treasures@.len() ==> reward_wf(#[trigger] self.treasures@[i])
    }

    /// Number of sites still in the ground.
    pub fn remaining(&self) -> (n: usize)
        ensures
            n == self.locs@.len(),
    {
        self.locs.len()
    }

    /// Whether a not-yet-excavated site sits at `(x, y)`.
    pub fn contains_site(&self, x: u32, y: u32) -> (r: bool)
        ensures
            r == has_site_at(self.locs@, (x, y)),
    {
        proof {
            lemma_first_site_index(self.locs@, (x, y));
        }
        let n = self.locs.len();
        let mut i: usize = 0;
        while i < n
            invariant
                0 <= i <= n,
                n == self.locs@.len(),
                forall|j: int| 0 <= j < i ==> self.locs@[j] != (x, y),
            decreases n - i,
        {
            let c = self.locs[i];
            if c.0 == x && c.1 == y {
                proof {
                    lemma_first_site_index(self.locs@, (x, y));
                    assert(self.locs@[i as int] == (x, y));
                }
                return true;
            }
            i = i + 1;
        }
        proof {
            lemma_first_site_index(self.locs@, (x, y));
            if has_site_at(self.locs@, (x, y)) {
                let k = first_site_index(self.locs@, (x, y));
                assert(self.locs@[k] == (x, y));
            }
        }
        false
    }

    /// Index of the first site at `(x, y)`, or `None` when no site
    /// remains there.
    pub fn find_site(&self, x: u32, y: u32) -> (r: Option<usize>)
        ensures
            r matches Some(i) ==> i == first_site_index(self.locs@, (x, y)) && i < self.locs@.len(),
            r is None ==> !has_site_at(self.locs@, (x, y)),
    {
        proof {
            lemma_first_site_index(self.locs@, (x, y));
        }
        let n = self.locs.len();
        let mut i: usize = 0;
        while i < n
            invariant
                0 <= i <= n,
                n == self.locs@.len(),
                forall|j: int| 0 <= j < i ==> self.locs@[j] != (x, y),
            decreases n - i,
        {
            let c = self.locs[i];
            if c.0 == x && c.1 == y {
                proof {
                    lemma_first_site_index(self.locs@, (x, y));
                    let k = first_site_index(self.locs@, (x, y));
                    assert(self.locs@[i as int] == (x, y));
                    assert(!(k < i as int)) by {
                        if k < i as int {
                            assert(self.locs@[k] != (x, y));
                        }
                    }
                    assert(!((i as int) < k)) by {
                        if (i as int) < k {
                            assert(self.locs@[i as int] != (x, y));
                        }
                    }
                }
                return Some(i);
            }
            i = i + 1;
        }
        proof {
            lemma_first_site_index(self.locs@, (x, y));
            if has_site_at(self.locs@, (x, y)) {
                let k = first_site_index(self.locs@, (x, y));
                assert(self.locs@[k] == (x, y));
            }
        }
        None
    }

    /// Take the reward of the first site at `(x, y)` out of the
    /// registry, dropping its position with it.
    pub fn take_first_site(&mut self, x: u32, y: u32) -> (t: Option<Treasure>)
        requires
            old(self).wf(),
        ensures
            final(self).wf(),
            !has_site_at(old(self).locs@, (x, y)) ==> t is None && *final(self) == *old(self),
            has_site_at(old(self).locs@, (x, y)) ==> ({
                let i = first_site_index(old(self).locs@, (x, y));
                &&& t == Some(old(self).treasures@[i])
                &&& final(self).locs@ == old(self).locs@.remove(i)
                &&& final(self).treasures@ == old(self).treasures@.remove(i)
            }),
    {
        proof {
            lemma_first_site_index(self.locs@, (x, y));
        }
        match self.find_site(x, y) {
            Some(i) => {
                proof {
                    self.locs@.remove_ensures(i as int);
                    self.treasures@.remove_ensures(i as int);
                }
                self.locs.remove(i);
                let t = self.treasures.remove(i);
                Some(t)
            },
            None => None,
        }
    }

    /// Remove every site at `(x, y)`, positions and rewards dropped in
    /// step, exact against `spec_remove_all`; afterwards no site
    /// remains there, so the tile cannot be dug again.
    pub fn remove_sites_at(&mut self, x: u32, y: u32)
        requires
            old(self).wf(),
        ensures
            final(self).wf(),
            (final(self).locs@, final(self).treasures@) == spec_remove_all(
                old(self).locs@,
                old(self).treasures@,
                (x, y),
            ),
            final(self).locs@.len() <= old(self).locs@.len(),
            !has_site_at(final(self).locs@, (x, y)),
    {
        let ghost l0 = self.locs@;
        let ghost t0 = self.treasures@;
        while self.contains_site(x, y)
            invariant
                self.wf(),
                self.locs@.len() <= l0.len(),
                spec_remove_all(l0, t0, (x, y)) == spec_remove_all(
                    self.locs@,
                    self.treasures@,
                    (x, y),
                ),
            decreases self.locs@.len(),
        {
            proof {
                lemma_first_site_index(self.locs@, (x, y));
            }
            let i = match self.find_site(x, y) {
                Some(i) => i,
                None => {
                    proof {
                        assert(false);
                    }
                    0
                },
            };
            proof {
                self.locs@.remove_ensures(i as int);
                self.treasures@.remove_ensures(i as int);
            }
            self.locs.remove(i);
            self.treasures.remove(i);
        }
    }
}

/// Scatter treasure sites over the map: between 200 and 500 positions
/// drawn uniformly and independently from the full extent, duplicates
/// permitted.
pub fn create_treasure_spots(seed: u32, width: u32, height: u32) -> (locs: Vec<(u32, u32)>)
    requires
        1 <= width,
        1 <= height,
    ensures
        200 <= locs@.len() < 500,
        forall|i: int|
            0 <= i < locs@.len() ==> (#[trigger] locs@[i]).0 < width && locs@[i].1 < height,
{
    let mut rng = rng_new(seed as u64);
    let count = rng_range_u32(&mut rng, 200, 500);
    let mut locs: Vec<(u32, u32)> = Vec::new();
    let mut i: u32 = 0;
    while i < count
        invariant
            0 <= i <= count,
            200 <= count < 500,
            1 <= width,
            1 <= height,
            locs@.len() == i,
            forall|j: int|
                0 <= j < locs@.len() ==> (#[trigger] locs@[j]).0 < width && locs@[j].1 < height,
        decreases count - i,
    {
        let x = rng_range_u32(&mut rng, 0, width);
        let y = rng_range_u32(&mut rng, 0, height);
        locs.push((x, y));
        i = i + 1;
    }
    locs
}

} // verus!
