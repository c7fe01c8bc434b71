//! Units and their stat bookkeeping: the three unit kinds, the boon
//! application rules that rewards drive, and the per-slot accumulator
//! of every boon ever earned.

use vstd::prelude::*;

use crate::treasure::{Boon, BoonOperation, BoonType};

verus! {

/// Marker: the unit stands on an unexcavated treasure site and may dig.
#[derive(Debug, Clone, Copy, PartialEq, Eq, Structural)]
pub struct CanDig;

/// Marker: the unit was confirmed but its visual members are not yet
/// spawned; the presentation layer consumes it once.
#[derive(Debug, Clone, Copy, PartialEq, Eq, Structural)]
pub struct UnitUninitialized;

/// Marker carried by each spawned visual member of a unit.
#[derive(Debug, Clone, Copy, PartialEq, Eq, Structural)]
pub struct UnitVisual;

/// What a deployment slot holds.
#[derive(Debug, Clone, Copy, PartialEq, Eq, Structural)]
pub enum UnitEntry {
    Unavailable,
    Available,
    Summoned(u64),
}

/// The three unit kinds.
#[derive(Debug, Clone, Copy, PartialEq, Eq, Structural)]
pub enum UnitType {
    Scout,
    Excavation,
    Attack,
}

impl UnitType {
    /// The sprite-sheet index of this kind's member sprite.
    pub fn index(&self) -> (r: usize)
        ensures
            r == spec_unit_type_index(*self),
    {
        match self {
            UnitType::Scout => 8,
            UnitType::Excavation => 9,
            UnitType::Attack => 10,
        }
    }

    /// The kind's display name.
    pub fn name(&self) -> (r: &'static str) {
        match self {
            UnitType::Scout => "Scout",
            UnitType::Excavation => "Excavation",
            UnitType::Attack => "Attack",
        }
    }
}

/// The sprite-sheet index per unit kind.
pub open spec fn spec_unit_type_index(t: UnitType) -> usize {
    match t {
        UnitType::Scout => 8usize,
        UnitType::Excavation => 9usize,
        UnitType::Attack => 10usize,
    }
}

/// Largest total health a unit can reach (255 members of 255 health).
pub const MAX_TOTAL_HEALTH: u32 = 65_025;

/// One deployed unit's mutable stats.
#[derive(Debug, Clone, Copy, PartialEq, Eq, Structural)]
pub struct Unit {
    pub unit_type: UnitType,
    pub health_per_member: u8,
    pub overworld_speed: u8,
    pub excavation_speed: u8,
    pub battle_speed: u8,
    pub members: u8,
    pub visibility: u8,
    pub total_health: u32,
    pub current_health: u32,
    pub damage: u8,
}

impl Unit {
    /// A unit never holds more current health than total health, and
    /// total health stays within what members can carry.
    pub open spec fn wf(&self) -> bool {
        &&& self.current_health <= self.total_health
        &&& self.total_health <= MAX_TOTAL_HEALTH
    }

    /// The scout template: fast, far-seeing, weak.
    pub fn scout() -> (u: Unit)
        ensures
            u == spec_scout(),
            u.wf(),
    {
        Unit {
            unit_type: UnitType::Scout,
            members: 5,
            health_per_member: 50,
            total_health: 250,
            current_health: 250,
            overworld_speed: 20,
            excavation_speed: 6,
            battle_speed: 10,
            visibility: 8,
            damage: 4,
        }
    }

    /// The excavation template: slow, blind, digs fast.
    pub fn excavation() -> (u: Unit)
        ensures
            u == spec_excavation(),
            u.wf(),
    {
        Unit {
            unit_type: UnitType::Excavation,
            members: 7,
            health_per_member: 75,
            total_health: 525,
            current_health: 525,
            overworld_speed: 8,
            excavation_speed: 20,
            battle_speed: 4,
            visibility: 3,
            damage: 8,
        }
    }

    /// The attack template: many members, heavy damage.
    pub fn attack() -> (u: Unit)
        ensures
            u == spec_attack(),
            u.wf(),
    {
        Unit {
            unit_type: UnitType::Attack,
            members: 20,
            health_per_member: 60,
            total_health: 1200,
            current_health: 1200,
            overworld_speed: 10,
            excavation_speed: 2,
            battle_speed: 10,
            visibility: 5,
            damage: 15,
        }
    }
}

pub open spec fn spec_scout() -> Unit {
    Unit {
        unit_type: UnitType::Scout,
        members: 5,
        health_per_member: 50,
        total_health: 250,
        current_health: 250,
        overworld_speed: 20,
        excavation_speed: 6,
        battle_speed: 10,
        visibility: 8,
        damage: 4,
    }
}

pub open spec fn spec_excavation() -> Unit {
    Unit {
        unit_type: UnitType::Excavation,
        members: 7,
        health_per_member: 75,
        total_health: 525,
        current_health: 525,
        overworld_speed: 8,
        excavation_speed: 20,
        battle_speed: 4,
        visibility: 3,
        damage: 8,
    }
}

pub open spec fn spec_attack() -> Unit {
    Unit {
        unit_type: UnitType::Attack,
        members: 20,
        health_per_member: 60,
        total_health: 1200,
        current_health: 1200,
        overworld_speed: 10,
        excavation_speed: 2,
        battle_speed: 10,
        visibility: 5,
        damage: 15,
    }
}

/// Addition on a byte stat, saturating at its storage width.
///
/// Saturation is a deliberate total choice for boon arithmetic: plain
/// byte arithmetic would abort on overflow and wrapping would shrink
/// a stat a reward was meant to raise, so a stat that hits its
/// storage width stays pinned there instead.
pub open spec fn sat_add_u8(a: int, b: int) -> u8 {
    if a + b > 255 {
        255u8
    } else {
        (a + b) as u8
    }
}

/// Multiplication on a byte stat, saturating at its storage width,
/// under the same deliberate total choice as `sat_add_u8`.
pub open spec fn sat_mul_u8(a: int, b: int) -> u8 {
    if a * b > 255 {
        255u8
    } else {
        (a * b) as u8
    }
}

fn sat_add_u8_exec(a: u8, b: u8) -> (r: u8)
    ensures
        r == sat_add_u8(a as int, b as int),
{
    let s: u32 = a as u32 + b as u32;
    if s > 255 {
        255
    } else {
        s as u8
    }
}

fn sat_mul_u8_exec(a: u8, b: u8) -> (r: u8)
    ensures
        r == sat_mul_u8(a as int, b as int),
{
    proof {
        lemma_byte_product_bound(a as int, b as int);
    }
    let s: u32 = a as u32 * b as u32;
    if s > 255 {
        255
    } else {
        s as u8
    }
}

proof fn lemma_byte_product_bound(a: int, b: int)
    requires
        0 <= a <= 255,
        0 <= b <= 255,
    ensures
        0 <= a * b <= 65_025,
{
    vstd::arithmetic::mul::lemma_mul_upper_bound(a, 255, b, 255);
    vstd::arithmetic::mul::lemma_mul_nonnegative(a, b);
}

/// A stat after one boon lands on it.
pub open spec fn spec_boon_stat(stat: u8, op: BoonOperation, value: u8) -> u8 {
    match op {
        BoonOperation::Add => sat_add_u8(stat as int, value as int),
        BoonOperation::Multiply => sat_mul_u8(stat as int, value as int),
    }
}

/// The unit after one boon is applied to its live stats.
///
/// Health and Members re-establish `total_health == members *
/// health_per_member`. A multiplicative Health boon fully heals; every
/// other health-touching boon preserves the existing health deficit
/// and extends current health by the gained delta.
pub open spec fn spec_apply_boon(u: Unit, b: Boon) -> Unit {
    match b.category {
        BoonType::Health => {
            let hpm = spec_boon_stat(u.health_per_member, b.operation, b.value);
            let total = (u.members as int * hpm as int) as u32;
            if b.operation is Multiply {
                Unit { health_per_member: hpm, total_health: total, current_health: total, ..u }
            } else {
                let grown = (u.current_health as int + (total as int - u.total_health as int));
                let current = if grown >= 0 {
                    grown as u32
                } else {
                    0u32
                };
                Unit { health_per_member: hpm, total_health: total, current_health: current, ..u }
            }
        },
        BoonType::Visibility => Unit {
            visibility: spec_boon_stat(u.visibility, b.operation, b.value),
            ..u
        },
        BoonType::OverworldSpeed => Unit {
            overworld_speed: spec_boon_stat(u.overworld_speed, b.operation, b.value),
            ..u
        },
        BoonType::ExcavationSpeed => Unit {
            excavation_speed: spec_boon_stat(u.excavation_speed, b.operation, b.value),
            ..u
        },
        BoonType::BattleSpeed => Unit {
            battle_speed: spec_boon_stat(u.battle_speed, b.operation, b.value),
            ..u
        },
        BoonType::Damage => Unit { damage: spec_boon_stat(u.damage, b.operation, b.value), ..u },
        BoonType::Members => {
            let members = spec_boon_stat(u.members, b.operation, b.value);
            let total = (members as int * u.health_per_member as int) as u32;
            let grown = (u.current_health as int + (total as int - u.total_health as int));
            let current = if grown >= 0 {
                grown as u32
            } else {
                0u32
            };
            Unit { members, total_health: total, current_health: current, ..u }
        },
    }
}

/// The unit after a whole bundle of boons, applied in order.
pub open spec fn spec_apply_boons(u: Unit, bs: Seq<Boon>) -> Unit
    decreases bs.len(),
{
    if bs.len() == 0 {
        u
    } else {
        spec_apply_boons(spec_apply_boon(u, bs.first()), bs.skip(1))
    }
}

/// Apply one boon to the unit's live stats, exact against
/// `spec_apply_boon`; reports whether it was a Members boon, which
/// re-triggers the uninitialized deployment state so the new members
/// get spawned.
pub fn apply_boon(u: &mut Unit, b: &Boon) -> (respawn: bool)
    ensures
        *final(u) == spec_apply_boon(*old(u), *b),
        respawn == (b.category is Members),
        old(u).wf() ==> final(u).wf(),
{
    match b.category {
        BoonType::Health => {
            let hpm = boon_stat(u.health_per_member, b.operation, b.value);
            proof {
                lemma_byte_product_bound(u.members as int, hpm as int);
            }
            let total: u32 = (u.members as u32) * (hpm as u32);
            if matches!(b.operation, BoonOperation::Multiply) {
                u.health_per_member = hpm;
                u.total_health = total;
                u.current_health = total;
            } else {
                let grown: i64 = u.current_health as i64 + (total as i64 - u.total_health as i64);
                let current: u32 = if grown >= 0 {
                    grown as u32
                } else {
                    0
                };
                u.health_per_member = hpm;
                u.total_health = total;
                u.current_health = current;
            }
            false
        },
        BoonType::Visibility => {
            u.visibility = boon_stat(u.visibility, b.operation, b.value);
            false
        },
        BoonType::OverworldSpeed => {
            u.overworld_speed = boon_stat(u.overworld_speed, b.operation, b.value);
            false
        },
        BoonType::ExcavationSpeed => {
            u.excavation_speed = boon_stat(u.excavation_speed, b.operation, b.value);
            false
        },
        BoonType::BattleSpeed => {
            u.battle_speed = boon_stat(u.battle_speed, b.operation, b.value);
            false
        },
        BoonType::Damage => {
            u.damage = boon_stat(u.damage, b.operation, b.value);
            false
        },
        BoonType::Members => {
            let members = boon_stat(u.members, b.operation, b.value);
            proof {
                lemma_byte_product_bound(members as int, u.health_per_member as int);
            }
            let total: u32 = (members as u32) * (u.health_per_member as u32);
            let grown: i64 = u.current_health as i64 + (total as i64 - u.total_health as i64);
            let current: u32 = if grown >= 0 {
                grown as u32
            } else {
                0
            };
            u.members = members;
            u.total_health = total;
            u.current_health = current;
            true
        },
    }
}

fn boon_stat(stat: u8, op: BoonOperation, value: u8) -> (r: u8)
    ensures
        r == spec_boon_stat(stat, op, value),
{
    match op {
        BoonOperation::Add => sat_add_u8_exec(stat, value),
        BoonOperation::Multiply => sat_mul_u8_exec(stat, value),
    }
}

/// Apply a whole reward bundle in order, exact against
/// `spec_apply_boons`; reports whether any boon asked for a member
/// respawn.
pub fn apply_boons(u: &mut Unit, boons: &Vec<Boon>) -> (respawn: bool)
    ensures
        *final(u) == spec_apply_boons(*old(u), boons@),
        respawn == (exists|i: int| 0 <= i < boons@.len() && (#[trigger] boons@[i]).category is Members),
        old(u).wf() ==> final(u).wf(),
{
    let ghost u0 = *u;
    let mut respawn = false;
    let n = boons.len();
    let mut i: usize = 0;
    proof {
        assert(boons@.skip(0) =~= boons@);
    }
    while i < n
        invariant
            0 <= i <= n,
            n == boons@.len(),
            spec_apply_boons(u0, boons@) == spec_apply_boons(*u, boons@.skip(i as int)),
            respawn == (exists|j: int|
                0 <= j < i && (#[trigger] boons@[j]).category is Members),
            u0.wf() ==> u.wf(),
        decreases n - i,
    {
        proof {
            let rest = boons@.skip(i as int);
            assert(rest.first() == boons@[i as int]);
            assert(rest.skip(1) =~= boons@.skip(i as int + 1));
        }
        let r = apply_boon(u, &boons[i]);
        respawn = respawn || r;
        i = i + 1;
    }
    proof {
        assert(boons@.skip(n as int) =~= Seq::<Boon>::empty());
    }
    respawn
}

/// Every boon ever earned for one slot, bucketed by stat category.
/// Append-only; never cleared within a session.
#[derive(Debug, Clone)]
pub struct BoonAccumulator {
    pub health: Vec<(BoonOperation, u8)>,
    pub visibility: Vec<(BoonOperation, u8)>,
    pub overworld_speed: Vec<(BoonOperation, u8)>,
    pub excavation_speed: Vec<(BoonOperation, u8)>,
    pub battle_speed: Vec<(BoonOperation, u8)>,
    pub damage: Vec<(BoonOperation, u8)>,
    pub members: Vec<(BoonOperation, u8)>,
}

impl BoonAccumulator {
    pub open spec fn is_empty_spec(&self) -> bool {
        &&& self.health@.len() == 0
        &&& self.visibility@.len() == 0
        &&& self.overworld_speed@.len() == 0
        &&& self.excavation_speed@.len() == 0
        &&& self.battle_speed@.len() == 0
        &&& self.damage@.len() == 0
        &&& self.members@.len() == 0
    }

    /// A fresh accumulator with no boons recorded.
    pub fn new() -> (acc: BoonAccumulator)
        ensures
            acc.is_empty_spec(),
    {
        BoonAccumulator {
            health: Vec::new(),
            visibility: Vec::new(),
            overworld_speed: Vec::new(),
            excavation_speed: Vec::new(),
            battle_speed: Vec::new(),
            damage: Vec::new(),
            members: Vec::new(),
        }
    }

    /// Record one boon in its category's bucket: that bucket grows by
    /// exactly the boon's operation and magnitude, every other bucket
    /// is untouched.
    pub fn record(&mut self, b: &Boon)
        ensures
            bucket(*final(self), b.category) == bucket(*old(self), b.category).push(
                (b.operation, b.value),
            ),
            forall|c: BoonType|
                c != b.category ==> #[trigger] bucket(*final(self), c) == bucket(*old(self), c),
    {
        match b.category {
            BoonType::Health => self.health.push((b.operation, b.value)),
            BoonType::Visibility => self.visibility.push((b.operation, b.value)),
            BoonType::OverworldSpeed => self.overworld_speed.push((b.operation, b.value)),
            BoonType::ExcavationSpeed => self.excavation_speed.push((b.operation, b.value)),
            BoonType::BattleSpeed => self.battle_speed.push((b.operation, b.value)),
            BoonType::Damage => self.damage.push((b.operation, b.value)),
            BoonType::Members => self.members.push((b.operation, b.value)),
        }
    }
}

/// The bucket of one category in an accumulator.
pub open spec fn bucket(acc: BoonAccumulator, c: BoonType) -> Seq<(BoonOperation, u8)> {
    match c {
        BoonType::Health => acc.health@,
        BoonType::Visibility => acc.visibility@,
        BoonType::OverworldSpeed => acc.overworld_speed@,
        BoonType::ExcavationSpeed => acc.excavation_speed@,
        BoonType::BattleSpeed => acc.battle_speed@,
        BoonType::Damage => acc.damage@,
        BoonType::Members => acc.members@,
    }
}

/// A bucket after a bundle of boons is recorded in order: each boon of
/// the bucket's category appends its operation and magnitude.
pub open spec fn spec_record_list(
    acc: Seq<(BoonOperation, u8)>,
    bs: Seq<Boon>,
    c: BoonType,
) -> Seq<(BoonOperation, u8)>
    decreases bs.len(),
{
    if bs.len() == 0 {
        acc
    } else {
        let next = if bs.first().category == c {
            acc.push((bs.first().operation, bs.first().value))
        } else {
            acc
        };
        spec_record_list(next, bs.skip(1), c)
    }
}

/// Record a whole reward bundle for one slot.
///
/// Per-slot isolation: every other slot's accumulator is left exactly
/// as it was, so rewards recorded for different slots can never
/// cross-contaminate; within the slot, each bucket receives exactly
/// the bundle's boons of its category, in order.
pub fn record_boons(accs: &mut Vec<BoonAccumulator>, slot: usize, boons: &Vec<Boon>)
    requires
        slot < old(accs)@.len(),
    ensures
        final(accs)@.len() == old(accs)@.len(),
        forall|j: int| 0 <= j < old(accs)@.len() && j != slot ==> final(accs)@[j] == old(accs)@[j],
        forall|c: BoonType| #[trigger]
            bucket(final(accs)@[slot as int], c) == spec_record_list(
                bucket(old(accs)@[slot as int], c),
                boons@,
                c,
            ),
{
    let n = boons.len();
    let mut i: usize = 0;
    proof {
        assert(boons@.skip(0) =~= boons@);
    }
    while i < n
        invariant
            0 <= i <= n,
            n == boons@.len(),
            slot < accs@.len(),
            accs@.len() == old(accs)@.len(),
            forall|j: int|
                0 <= j < old(accs)@.len() && j != slot ==> accs@[j] == old(accs)@[j],
            forall|c: BoonType| #[trigger]
                spec_record_list(bucket(old(accs)@[slot as int], c), boons@, c)
                    == spec_record_list(bucket(accs@[slot as int], c), boons@.skip(i as int), c),
        decreases n - i,
    {
        proof {
            let rest = boons@.skip(i as int);
            assert(rest.first() == boons@[i as int]);
            assert(rest.skip(1) =~= boons@.skip(i as int + 1));
        }
        let b = boons[i];
        let acc = &mut accs[slot];
        acc.record(&b);
        i = i + 1;
    }
    proof {
        assert(boons@.skip(n as int) =~= Seq::<Boon>::empty());
    }
}

/// The derived health invariant: total health is exactly what the
/// members carry.
pub open spec fn health_derived_invariant(u: Unit) -> bool {
    u.total_health == u.members as int * u.health_per_member as int
}

/// Each unit template establishes the derived health invariant.
pub proof fn lemma_templates_health_invariant()
    ensures
        health_derived_invariant(spec_scout()),
        health_derived_invariant(spec_excavation()),
        health_derived_invariant(spec_attack()),
{
}

/// One boon re-establishes the derived health invariant: a Health or
/// Members boon recomputes the total outright, and every other boon
/// leaves members, per-member health and the total untouched.
pub proof fn lemma_boon_keeps_health_invariant(u: Unit, b: Boon)
    requires
        health_derived_invariant(u) || b.category is Health || b.category is Members,
    ensures
        health_derived_invariant(spec_apply_boon(u, b)),
{
    match b.category {
        BoonType::Health => {
            let hpm = spec_boon_stat(u.health_per_member, b.operation, b.value);
            lemma_byte_product_bound(u.members as int, hpm as int);
        },
        BoonType::Members => {
            let members = spec_boon_stat(u.members, b.operation, b.value);
            lemma_byte_product_bound(members as int, u.health_per_member as int);
        },
        _ => {},
    }
}

/// A whole bundle re-establishes the derived health invariant after
/// every application, as the data model demands.
pub proof fn lemma_boons_keep_health_invariant(u: Unit, bs: Seq<Boon>)
    requires
        health_derived_invariant(u),
    ensures
        health_derived_invariant(spec_apply_boons(u, bs)),
    decreases bs.len(),
{
    if bs.len() > 0 {
        lemma_boon_keeps_health_invariant(u, bs.first());
        lemma_boons_keep_health_invariant(spec_apply_boon(u, bs.first()), bs.skip(1));
    }
}

/// Bookkeeping isolation: recording the same reward bundle for two
/// different slots leaves each slot holding exactly its own record and
/// every other slot untouched — per-slot accumulators can never
/// cross-contaminate.
pub proof fn lemma_boon_bookkeeping_isolated(
    before: Seq<BoonAccumulator>,
    mid: Seq<BoonAccumulator>,
    after: Seq<BoonAccumulator>,
    s1: int,
    s2: int,
    bs: Seq<Boon>,
)
    requires
        0 <= s1 < before.len(),
        0 <= s2 < before.len(),
        s1 != s2,
        mid.len() == before.len(),
        after.len() == mid.len(),
        forall|j: int| 0 <= j < before.len() && j != s1 ==> mid[j] == before[j],
        forall|c: BoonType| #[trigger]
            bucket(mid[s1], c) == spec_record_list(bucket(before[s1], c), bs, c),
        forall|j: int| 0 <= j < mid.len() && j != s2 ==> after[j] == mid[j],
        forall|c: BoonType| #[trigger]
            bucket(after[s2], c) == spec_record_list(bucket(mid[s2], c), bs, c),
    ensures
        forall|c: BoonType| #[trigger]
            bucket(after[s1], c) == spec_record_list(bucket(before[s1], c), bs, c),
        forall|c: BoonType| #[trigger]
            bucket(after[s2], c) == spec_record_list(bucket(before[s2], c), bs, c),
        forall|j: int| 0 <= j < before.len() && j != s1 && j != s2 ==> after[j] == before[j],
{
}

} // verus!
