//! The per-tick unit simulation: movement toward a destination, tile
//! resynchronisation, dig progress, and the dig-to-loot resolution that
//! feeds the boon accumulators.
//!
//! World positions are milli-pixel integers (one 32-pixel tile is
//! `TILE_MILLI` units), so movement integration is exact and
//! reproducible.

use vstd::prelude::*;

use crate::treasure::{
    first_site_index, has_site_at, lemma_first_site_index, reward_wf, spec_remove_all, BoonType,
    Treasure, TreasureLocs,
};
use crate::units::{
    apply_boons, bucket, record_boons, spec_apply_boons, spec_record_list, BoonAccumulator,
    CanDig, Unit, UnitEntry, UnitUninitialized,
};

verus! {

/// Overworld speed scale: a unit covers `speed * 20` pixels per second.
pub const MOVEMENT_SPEED_SCALE: u64 = 20;

/// One 32-pixel tile in milli-pixel units.
pub const TILE_MILLI: i64 = 32_000;

/// Largest world coordinate magnitude the simulation accepts.
pub const SIM_POS_LIMIT: i64 = 1_000_000_000_000;

/// Longest tick the simulation accepts (one minute).
pub const MAX_TICK_MS: u64 = 60_000;

/// The farthest one movement tick can carry a unit
/// (`255 * MOVEMENT_SPEED_SCALE * MAX_TICK_MS` milli-pixels).
pub const MOVE_STEP_MAX: i64 = 306_000_000;

/// Dig progress that completes an excavation: excavation speed times
/// milliseconds, five seconds at speed 20.
pub const DIG_COMPLETE: u64 = 100_000;

/// Progress of one excavation in speed-milliseconds.
#[derive(Debug, Clone, Copy, PartialEq, Eq, Structural)]
pub struct Digging {
    pub progress: u64,
}

impl Digging {
    /// A dig that has just started.
    pub fn new() -> (d: Digging)
        ensures
            d.progress == 0,
    {
        Digging { progress: 0 }
    }
}

/// A movement order: the milli-normalised direction of travel,
/// re-aimed every tick, and the fixed destination.
#[derive(Debug, Clone, Copy, PartialEq)]
pub struct UnitDirection {
    pub direction: (i64, i64),
    pub destination: (i64, i64),
    pub destination_tile: (u32, u32),
}

/// A move order from the host: a world position and the tile it lies
/// on.
#[derive(Debug, Clone, Copy, PartialEq)]
pub struct MoveOrder {
    pub world: (i64, i64),
    pub tile: (u32, u32),
}

/// `r` is the integer square root of `n`.
pub open spec fn is_sqrt(n: int, r: int) -> bool {
    &&& 0 <= r
    &&& r * r <= n
    &&& (r + 1) * (r + 1) > n
}

/// The integer square root, as the unique root the property pins down.
pub open spec fn spec_isqrt(n: int) -> int {
    choose|r: int| is_sqrt(n, r)
}

/// Magnitude of a bounded signed value.
fn abs_u64(v: i64) -> (r: u64)
    requires
        v > i64::MIN,
    ensures
        r as int == (if v >= 0 {
            v as int
        } else {
            -(v as int)
        }),
{
    if v >= 0 {
        v as u64
    } else {
        (-v) as u64
    }
}

pub proof fn lemma_isqrt_unique(n: int, r1: int, r2: int)
    requires
        is_sqrt(n, r1),
        is_sqrt(n, r2),
    ensures
        r1 == r2,
{
    assert(r1 == r2) by (nonlinear_arith)
        requires
            0 <= r1,
            0 <= r2,
            r1 * r1 <= n,
            (r1 + 1) * (r1 + 1) > n,
            r2 * r2 <= n,
            (r2 + 1) * (r2 + 1) > n,
    ;
}

/// The integer square root by bisection, exact against `spec_isqrt`.
pub fn isqrt(n: u128) -> (r: u64)
    ensures
        is_sqrt(n as int, r as int),
        r as int == spec_isqrt(n as int),
{
    let mut lo: u128 = 0;
    let mut hi: u128 = 0x1_0000_0000_0000_0000;
    proof {
        let b: int = 0x1_0000_0000_0000_0000u128 as int;
        assert(b * b > 0xffff_ffff_ffff_ffff_ffff_ffff_ffff_ffffu128 as int) by (nonlinear_arith)
            requires
                b == 0x1_0000_0000_0000_0000u128 as int,
        ;
        assert(n as int <= 0xffff_ffff_ffff_ffff_ffff_ffff_ffff_ffffu128 as int);
    }
    while lo + 1 < hi
        invariant
            0 <= lo < hi <= 0x1_0000_0000_0000_0000,
            (lo as int) * (lo as int) <= n as int,
            (hi as int) * (hi as int) > n as int,
        decreases hi - lo,
    {
        let mid = lo + (hi - lo) / 2;
        proof {
            assert(lo < mid < hi);
            assert((mid as int) * (mid as int)
                <= 0xffff_ffff_ffff_ffff_ffff_ffff_ffff_ffffu128 as int) by (nonlinear_arith)
                requires
                    0 <= mid as int,
                    mid as int <= 0xffff_ffff_ffff_ffffu64 as int,
            ;
        }
        if mid * mid <= n {
            lo = mid;
        } else {
            hi = mid;
        }
    }
    proof {
        assert(hi == lo + 1);
        assert(is_sqrt(n as int, lo as int));
        assert(lo <= 0xffff_ffff_ffff_ffffu64);
        let w = spec_isqrt(n as int);
        assert(is_sqrt(n as int, w)) by {
            assert(exists|r: int| is_sqrt(n as int, r));
        }
        lemma_isqrt_unique(n as int, lo as int, w);
    }
    lo as u64
}

/// One component of a direction vector, milli-normalised by the
/// distance and rounded towards zero; zero when the points coincide.
pub open spec fn spec_norm_component(d: int, dist: int) -> int {
    if dist <= 0 {
        0
    } else if d >= 0 {
        d * 1000 / dist
    } else {
        -((-d) * 1000 / dist)
    }
}

/// Euclidean distance between two points, rounded down.
pub open spec fn spec_distance(ax: int, ay: int, bx: int, by: int) -> int {
    spec_isqrt((bx - ax) * (bx - ax) + (by - ay) * (by - ay))
}

/// The milli-normalised direction from `pos` towards `dest`.
pub open spec fn spec_direction(pos: (i64, i64), dest: (i64, i64)) -> (int, int) {
    let dist = spec_distance(pos.0 as int, pos.1 as int, dest.0 as int, dest.1 as int);
    (
        spec_norm_component(dest.0 - pos.0, dist),
        spec_norm_component(dest.1 - pos.1, dist),
    )
}

proof fn lemma_component_le_distance(dx: int, dy: int, dist: int)
    requires
        is_sqrt(dx * dx + dy * dy, dist),
    ensures
        dist >= 0,
        dx >= 0 ==> dx <= dist,
        dx < 0 ==> -dx <= dist,
        dy >= 0 ==> dy <= dist,
        dy < 0 ==> -dy <= dist,
{
    assert((dist >= 0) && (dx >= 0 ==> dx <= dist) && (dx < 0 ==> -dx <= dist) && (dy >= 0 ==> dy
        <= dist) && (dy < 0 ==> -dy <= dist)) by (nonlinear_arith)
        requires
            0 <= dist,
            dist * dist <= dx * dx + dy * dy,
            (dist + 1) * (dist + 1) > dx * dx + dy * dy,
    ;
}

/// The direction from `pos` towards `dest`, exact against
/// `spec_direction`; each milli-normalised component stays within
/// `[-1000, 1000]`.
pub fn direction_toward(pos: (i64, i64), dest: (i64, i64)) -> (r: (i64, i64))
    requires
        -SIM_POS_LIMIT <= pos.0 <= SIM_POS_LIMIT,
        -SIM_POS_LIMIT <= pos.1 <= SIM_POS_LIMIT,
        -SIM_POS_LIMIT <= dest.0 <= SIM_POS_LIMIT,
        -SIM_POS_LIMIT <= dest.1 <= SIM_POS_LIMIT,
    ensures
        (r.0 as int, r.1 as int) == spec_direction(pos, dest),
        -1000 <= r.0 <= 1000,
        -1000 <= r.1 <= 1000,
{
    let dx: i64 = dest.0 - pos.0;
    let dy: i64 = dest.1 - pos.1;
    let adx: u64 = abs_u64(dx);
    let ady: u64 = abs_u64(dy);
    proof {
        assert((adx as int) * (adx as int) + (ady as int) * (ady as int)
            <= 0xffff_ffff_ffff_ffff_ffff_ffff_ffff_ffffu128 as int) by (nonlinear_arith)
            requires
                0 <= adx as int <= 2_000_000_000_001,
                0 <= ady as int <= 2_000_000_000_001,
        ;
    }
    let sq: u128 = (adx as u128) * (adx as u128) + (ady as u128) * (ady as u128);
    let dist: u64 = isqrt(sq);
    proof {
        assert(sq as int == (dx as int) * (dx as int) + (dy as int) * (dy as int))
            by (nonlinear_arith)
            requires
                adx as int == (if dx >= 0 { dx as int } else { -(dx as int) }),
                ady as int == (if dy >= 0 { dy as int } else { -(dy as int) }),
                sq as int == (adx as int) * (adx as int) + (ady as int) * (ady as int),
        ;
        lemma_component_le_distance(dx as int, dy as int, dist as int);
    }
    if dist == 0 {
        (0, 0)
    } else {
        let cx: u64 = (adx * 1000) / dist;
        let cy: u64 = (ady * 1000) / dist;
        proof {
            lemma_norm_component_bound(adx as int, dist as int);
            lemma_norm_component_bound(ady as int, dist as int);
        }
        let rx: i64 = if dx >= 0 {
            cx as i64
        } else {
            -(cx as i64)
        };
        let ry: i64 = if dy >= 0 {
            cy as i64
        } else {
            -(cy as i64)
        };
        (rx, ry)
    }
}

/// A component no longer than the distance normalises to at most 1000.
proof fn lemma_norm_component_bound(a: int, dist: int)
    requires
        0 <= a <= dist,
        0 < dist,
    ensures
        0 <= a * 1000 / dist <= 1000,
{
    vstd::arithmetic::mul::lemma_mul_inequality(a, dist, 1000);
    vstd::arithmetic::mul::lemma_mul_is_commutative(a, 1000);
    vstd::arithmetic::mul::lemma_mul_is_commutative(dist, 1000);
    vstd::arithmetic::div_mod::lemma_div_is_ordered(a * 1000, dist * 1000, dist);
    assert(dist * 1000 / dist == 1000) by {
        vstd::arithmetic::div_mod::lemma_div_multiples_vanish(1000, dist);
    }
    vstd::arithmetic::mul::lemma_mul_nonnegative(a, 1000);
    vstd::arithmetic::div_mod::lemma_div_pos_is_pos(a * 1000, dist);
}

/// The position after one movement tick towards `dest`: each axis
/// advances by its share of `speed * MOVEMENT_SPEED_SCALE * dt` milli-
/// pixels, rounded towards zero; a unit already at its destination
/// point does not move.
pub open spec fn spec_integrate(
    pos: (i64, i64),
    dest: (i64, i64),
    speed: u8,
    dt_ms: u64,
) -> (int, int) {
    let dx = dest.0 - pos.0;
    let dy = dest.1 - pos.1;
    let dist = spec_isqrt(dx * dx + dy * dy);
    let step = speed * (MOVEMENT_SPEED_SCALE as int) * dt_ms;
    if dist <= 0 {
        (pos.0 as int, pos.1 as int)
    } else {
        (
            pos.0 + (if dx >= 0 {
                dx * step / dist
            } else {
                -((-dx) * step / dist)
            }),
            pos.1 + (if dy >= 0 {
                dy * step / dist
            } else {
                -((-dy) * step / dist)
            }),
        )
    }
}

/// One movement tick, exact against `spec_integrate`; the unit moves
/// at most `MOVE_STEP_MAX` on each axis.
pub fn integrate_movement(pos: (i64, i64), dest: (i64, i64), speed: u8, dt_ms: u64) -> (r: (
    i64,
    i64,
))
    requires
        -SIM_POS_LIMIT <= pos.0 <= SIM_POS_LIMIT,
        -SIM_POS_LIMIT <= pos.1 <= SIM_POS_LIMIT,
        -SIM_POS_LIMIT <= dest.0 <= SIM_POS_LIMIT,
        -SIM_POS_LIMIT <= dest.1 <= SIM_POS_LIMIT,
        dt_ms <= MAX_TICK_MS,
    ensures
        (r.0 as int, r.1 as int) == spec_integrate(pos, dest, speed, dt_ms),
        pos.0 - MOVE_STEP_MAX <= r.0 <= pos.0 + MOVE_STEP_MAX,
        pos.1 - MOVE_STEP_MAX <= r.1 <= pos.1 + MOVE_STEP_MAX,
        dest.0 >= pos.0 ==> pos.0 <= r.0 <= dest.0 + MOVE_STEP_MAX,
        dest.0 < pos.0 ==> dest.0 - MOVE_STEP_MAX <= r.0 <= pos.0,
        dest.1 >= pos.1 ==> pos.1 <= r.1 <= dest.1 + MOVE_STEP_MAX,
        dest.1 < pos.1 ==> dest.1 - MOVE_STEP_MAX <= r.1 <= pos.1,
{
    let dx: i64 = dest.0 - pos.0;
    let dy: i64 = dest.1 - pos.1;
    let adx: u64 = abs_u64(dx);
    let ady: u64 = abs_u64(dy);
    proof {
        assert((adx as int) * (adx as int) + (ady as int) * (ady as int)
            <= 0xffff_ffff_ffff_ffff_ffff_ffff_ffff_ffffu128 as int) by (nonlinear_arith)
            requires
                0 <= adx as int <= 2_000_000_000_001,
                0 <= ady as int <= 2_000_000_000_001,
        ;
    }
    let sq: u128 = (adx as u128) * (adx as u128) + (ady as u128) * (ady as u128);
    let dist: u64 = isqrt(sq);
    proof {
        assert(sq as int == (dx as int) * (dx as int) + (dy as int) * (dy as int))
            by (nonlinear_arith)
            requires
                adx as int == (if dx >= 0 { dx as int } else { -(dx as int) }),
                ady as int == (if dy >= 0 { dy as int } else { -(dy as int) }),
                sq as int == (adx as int) * (adx as int) + (ady as int) * (ady as int),
        ;
        lemma_component_le_distance(dx as int, dy as int, dist as int);
    }
    if dist == 0 {
        pos
    } else {
        proof {
            assert((speed as int) * 20 * (dt_ms as int) <= 306_000_000) by (nonlinear_arith)
                requires
                    0 <= speed as int <= 255,
                    0 <= dt_ms as int <= 60_000,
            ;
        }
        let step: u64 = (speed as u64) * MOVEMENT_SPEED_SCALE * dt_ms;
        proof {
            assert((adx as int) * (step as int)
                <= 0xffff_ffff_ffff_ffff_ffff_ffff_ffff_ffffu128 as int) by (nonlinear_arith)
                requires
                    0 <= adx as int <= 0xffff_ffff_ffff_ffffu64 as int,
                    0 <= step as int <= 0xffff_ffff_ffff_ffffu64 as int,
            ;
            assert((ady as int) * (step as int)
                <= 0xffff_ffff_ffff_ffff_ffff_ffff_ffff_ffffu128 as int) by (nonlinear_arith)
                requires
                    0 <= ady as int <= 0xffff_ffff_ffff_ffffu64 as int,
                    0 <= step as int <= 0xffff_ffff_ffff_ffffu64 as int,
            ;
        }
        let mxq: u128 = ((adx as u128) * (step as u128)) / (dist as u128);
        let myq: u128 = ((ady as u128) * (step as u128)) / (dist as u128);
        proof {
            lemma_share_le_step(adx as int, step as int, dist as int);
            lemma_share_le_step(ady as int, step as int, dist as int);
        }
        let mx: u64 = mxq as u64;
        let my: u64 = myq as u64;
        let rx: i64 = if dx >= 0 {
            pos.0 + mx as i64
        } else {
            pos.0 - mx as i64
        };
        let ry: i64 = if dy >= 0 {
            pos.1 + my as i64
        } else {
            pos.1 - my as i64
        };
        (rx, ry)
    }
}

/// An axis's share of the step never exceeds the step itself, because
/// no component exceeds the distance.
proof fn lemma_share_le_step(a: int, step: int, dist: int)
    requires
        0 <= a <= dist,
        0 < dist,
        0 <= step,
    ensures
        0 <= a * step / dist <= step,
{
    vstd::arithmetic::mul::lemma_mul_inequality(a, dist, step);
    vstd::arithmetic::mul::lemma_mul_is_commutative(a, step);
    vstd::arithmetic::mul::lemma_mul_is_commutative(dist, step);
    vstd::arithmetic::div_mod::lemma_div_is_ordered(a * step, dist * step, dist);
    assert(dist * step / dist == step) by {
        vstd::arithmetic::div_mod::lemma_div_multiples_vanish(step, dist);
    }
    vstd::arithmetic::mul::lemma_mul_nonnegative(a, step);
    vstd::arithmetic::div_mod::lemma_div_pos_is_pos(a * step, dist);
}

/// The tile a world position falls on, or `None` off the map.
pub open spec fn spec_tile_of(pos: (i64, i64), width: int, height: int) -> Option<(u32, u32)> {
    if pos.0 < 0 || pos.1 < 0 {
        None
    } else {
        let tx = (pos.0 as int) / (TILE_MILLI as int);
        let ty = (pos.1 as int) / (TILE_MILLI as int);
        if tx < width && ty < height {
            Some((tx as u32, ty as u32))
        } else {
            None
        }
    }
}

/// The tile under a world position, exact against `spec_tile_of`;
/// an off-map position is a non-fatal miss.
pub fn tile_of_position(pos: (i64, i64), width: usize, height: usize) -> (r: Option<(u32, u32)>)
    requires
        width <= 0x1_0000_0000,
        height <= 0x1_0000_0000,
    ensures
        r == spec_tile_of(pos, width as int, height as int),
{
    if pos.0 < 0 || pos.1 < 0 {
        None
    } else {
        let tx: u64 = (pos.0 as u64) / (TILE_MILLI as u64);
        let ty: u64 = (pos.1 as u64) / (TILE_MILLI as u64);
        if tx < width as u64 && ty < height as u64 {
            Some((tx as u32, ty as u32))
        } else {
            None
        }
    }
}

/// Resynchronise a unit's tile from its world position; an off-map
/// position keeps the previous tile rather than failing mid-tick.
pub fn sync_tile(pos: (i64, i64), tile: (u32, u32), width: usize, height: usize) -> (r: (
    u32,
    u32,
))
    requires
        width <= 0x1_0000_0000,
        height <= 0x1_0000_0000,
    ensures
        spec_tile_of(pos, width as int, height as int) matches Some(t) ==> r == t,
        spec_tile_of(pos, width as int, height as int) is None ==> r == tile,
{
    match tile_of_position(pos, width, height) {
        Some(t) => t,
        None => tile,
    }
}

/// Take a move order for a unit: accepted only when the unit's slot is
/// the currently selected one, in which case the unit aims at the
/// order's destination; otherwise the order is silently ignored.
pub fn order_move(
    selected: Option<u8>,
    slot: u8,
    pos: (i64, i64),
    order: MoveOrder,
) -> (r: Option<UnitDirection>)
    requires
        -SIM_POS_LIMIT <= pos.0 <= SIM_POS_LIMIT,
        -SIM_POS_LIMIT <= pos.1 <= SIM_POS_LIMIT,
        -SIM_POS_LIMIT <= order.world.0 <= SIM_POS_LIMIT,
        -SIM_POS_LIMIT <= order.world.1 <= SIM_POS_LIMIT,
    ensures
        (r is Some) <==> selected == Some(slot),
        r matches Some(ud) ==> ({
            &&& (ud.direction.0 as int, ud.direction.1 as int) == spec_direction(pos, order.world)
            &&& ud.destination == order.world
            &&& ud.destination_tile == order.tile
        }),
{
    match selected {
        Some(s) if s == slot => {
            let direction = direction_toward(pos, order.world);
            Some(
                UnitDirection {
                    direction,
                    destination: order.world,
                    destination_tile: order.tile,
                },
            )
        },
        _ => None,
    }
}

/// Whether a unit may dig: it stands on a not-yet-excavated site and
/// is not already digging. Recomputed every tick from tile occupancy.
pub fn dig_eligibility(sites: &TreasureLocs, tile: (u32, u32), digging: bool) -> (r: Option<
    CanDig,
>)
    ensures
        (r is Some) <==> (has_site_at(sites.locs@, tile) && !digging),
{
    if !digging && sites.contains_site(tile.0, tile.1) {
        Some(CanDig)
    } else {
        None
    }
}

/// One tick of digging: progress grows by `excavation_speed * dt`, and
/// the dig completes exactly when the accumulated progress reaches
/// `DIG_COMPLETE` (at least, not strictly more).
pub fn dig_tick(digging: &mut Digging, excavation_speed: u8, dt_ms: u64) -> (done: bool)
    requires
        old(digging).progress <= DIG_COMPLETE,
        dt_ms <= MAX_TICK_MS,
    ensures
        final(digging).progress == old(digging).progress + excavation_speed * dt_ms,
        done <==> final(digging).progress >= DIG_COMPLETE,
{
    proof {
        assert((excavation_speed as int) * (dt_ms as int) <= 255 * 60_000) by (nonlinear_arith)
            requires
                0 <= excavation_speed as int <= 255,
                0 <= dt_ms as int <= 60_000,
        ;
    }
    let add: u64 = (excavation_speed as u64) * dt_ms;
    digging.progress = digging.progress + add;
    digging.progress >= DIG_COMPLETE
}

/// Horizontal spacing below which two visual members push apart.
pub const COLLISION_WIDTH: i64 = 7_000;

/// Vertical spacing below which two visual members push apart.
pub const COLLISION_HEIGHT: i64 = 17_000;

/// How far one collision nudge moves a visual member.
pub const COLLISION_NUDGE: i64 = 100;

/// Most visual members one collision pass accepts.
pub const MAX_VISUALS: usize = 4_096;

/// The second member of a colliding pair after one nudge: pushed apart
/// on each axis that is too close, in the direction the identity
/// hashes pick, so a given pair always separates the same way.
pub open spec fn spec_separate(a: (i64, i64), b: (i64, i64), ha: u64, hb: u64) -> (int, int) {
    let nudge = if ha > hb {
        -(COLLISION_NUDGE as int)
    } else {
        COLLISION_NUDGE as int
    };
    (
        if -COLLISION_WIDTH < a.0 - b.0 < COLLISION_WIDTH {
            b.0 + nudge
        } else {
            b.0 as int
        },
        if -COLLISION_HEIGHT < a.1 - b.1 < COLLISION_HEIGHT {
            b.1 + nudge
        } else {
            b.1 as int
        },
    )
}

/// Nudge the second of two visual members apart from the first, exact
/// against `spec_separate` over the members' identity hashes.
pub fn separate_pair(a: (i64, i64), a_id: u64, b: (i64, i64), b_id: u64) -> (nb: (i64, i64))
    requires
        -2 * SIM_POS_LIMIT <= a.0 <= 2 * SIM_POS_LIMIT,
        -2 * SIM_POS_LIMIT <= a.1 <= 2 * SIM_POS_LIMIT,
        -2 * SIM_POS_LIMIT <= b.0 <= 2 * SIM_POS_LIMIT,
        -2 * SIM_POS_LIMIT <= b.1 <= 2 * SIM_POS_LIMIT,
    ensures
        (nb.0 as int, nb.1 as int) == spec_separate(
            a,
            b,
            crate::rng::xxh3_of(crate::rng::u64_le_bytes(a_id)),
            crate::rng::xxh3_of(crate::rng::u64_le_bytes(b_id)),
        ),
        b.0 - COLLISION_NUDGE <= nb.0 <= b.0 + COLLISION_NUDGE,
        b.1 - COLLISION_NUDGE <= nb.1 <= b.1 + COLLISION_NUDGE,
{
    let ha = crate::rng::entity_hash(a_id);
    let hb = crate::rng::entity_hash(b_id);
    let nudge: i64 = if ha > hb {
        -COLLISION_NUDGE
    } else {
        COLLISION_NUDGE
    };
    let dx: i64 = a.0 - b.0;
    let dy: i64 = a.1 - b.1;
    let nx: i64 = if -COLLISION_WIDTH < dx && dx < COLLISION_WIDTH {
        b.0 + nudge
    } else {
        b.0
    };
    let ny: i64 = if -COLLISION_HEIGHT < dy && dy < COLLISION_HEIGHT {
        b.1 + nudge
    } else {
        b.1
    };
    (nx, ny)
}

/// The positions after one inner collision sweep: member `i` pushes
/// every later member `j` in turn, each step reading the positions as
/// the steps before left them.
pub open spec fn spec_collide_inner(
    ps: Seq<(i64, i64)>,
    ids: Seq<u64>,
    i: int,
    j: int,
) -> Seq<(i64, i64)>
    decreases ps.len() - j,
{
    if j < 0 || j >= ps.len() || i < 0 || i >= ps.len() {
        ps
    } else {
        let nb = spec_separate(
            ps[i],
            ps[j],
            crate::rng::xxh3_of(crate::rng::u64_le_bytes(ids[i])),
            crate::rng::xxh3_of(crate::rng::u64_le_bytes(ids[j])),
        );
        spec_collide_inner(ps.update(j, (nb.0 as i64, nb.1 as i64)), ids, i, j + 1)
    }
}

/// The positions after a whole collision pass: every unordered pair,
/// first member fixed, second member nudged.
pub open spec fn spec_collide_pass(ps: Seq<(i64, i64)>, ids: Seq<u64>, i: int) -> Seq<(i64, i64)>
    decreases ps.len() - i,
    via spec_collide_pass_decreases
{
    if i < 0 || i >= ps.len() {
        ps
    } else {
        spec_collide_pass(spec_collide_inner(ps, ids, i, i + 1), ids, i + 1)
    }
}

/// An inner sweep only updates elements, so it keeps the length.
pub proof fn lemma_collide_inner_len(ps: Seq<(i64, i64)>, ids: Seq<u64>, i: int, j: int)
    ensures
        spec_collide_inner(ps, ids, i, j).len() == ps.len(),
    decreases ps.len() - j,
{
    if !(j < 0 || j >= ps.len() || i < 0 || i >= ps.len()) {
        let nb = spec_separate(
            ps[i],
            ps[j],
            crate::rng::xxh3_of(crate::rng::u64_le_bytes(ids[i])),
            crate::rng::xxh3_of(crate::rng::u64_le_bytes(ids[j])),
        );
        lemma_collide_inner_len(ps.update(j, (nb.0 as i64, nb.1 as i64)), ids, i, j + 1);
    }
}

#[via_fn]
proof fn spec_collide_pass_decreases(ps: Seq<(i64, i64)>, ids: Seq<u64>, i: int) {
    if !(i < 0 || i >= ps.len()) {
        lemma_collide_inner_len(ps, ids, i, i + 1);
    }
}

/// One collision pass over all visual members, exact against
/// `spec_collide_pass`: every unordered pair, in index order, pushes
/// its second member apart when too close. The nudge direction comes
/// from the members' identity hashes, so a colliding pair separates
/// the same way on every tick instead of jittering.
pub fn prevent_collision(positions: &mut Vec<(i64, i64)>, ids: &Vec<u64>)
    requires
        old(positions)@.len() == ids@.len(),
        old(positions)@.len() <= MAX_VISUALS,
        forall|k: int|
            0 <= k < old(positions)@.len() ==> -SIM_POS_LIMIT <= (#[trigger] old(
                positions,
            )@[k]).0 <= SIM_POS_LIMIT && -SIM_POS_LIMIT <= old(positions)@[k].1 <= SIM_POS_LIMIT,
    ensures
        final(positions)@ == spec_collide_pass(old(positions)@, ids@, 0),
        final(positions)@.len() == old(positions)@.len(),
        forall|k: int|
            0 <= k < final(positions)@.len() ==> -SIM_POS_LIMIT - 100 * (MAX_VISUALS as int) <= (
            #[trigger] final(positions)@[k]).0 <= SIM_POS_LIMIT + 100 * (MAX_VISUALS as int)
                && -SIM_POS_LIMIT - 100 * (MAX_VISUALS as int) <= final(positions)@[k].1
                <= SIM_POS_LIMIT + 100 * (MAX_VISUALS as int),
{
    let ghost ps0 = positions@;
    let n = positions.len();
    let mut i: usize = 0;
    while i < n
        invariant
            0 <= i <= n,
            n == positions@.len(),
            n == ids@.len(),
            n <= MAX_VISUALS,
            spec_collide_pass(ps0, ids@, 0) == spec_collide_pass(positions@, ids@, i as int),
            forall|k: int|
                0 <= k < n ==> -SIM_POS_LIMIT - 100 * (i as int) <= (#[trigger] positions@[k]).0
                    <= SIM_POS_LIMIT + 100 * (i as int) && -SIM_POS_LIMIT - 100 * (i as int)
                    <= positions@[k].1 <= SIM_POS_LIMIT + 100 * (i as int),
        decreases n - i,
    {
        let mut j: usize = i + 1;
        while j < n
            invariant
                i < j <= n,
                i < n,
                n == positions@.len(),
                n == ids@.len(),
                n <= MAX_VISUALS,
                spec_collide_pass(ps0, ids@, 0) == spec_collide_pass(
                    spec_collide_inner(positions@, ids@, i as int, j as int),
                    ids@,
                    i as int + 1,
                ),
                forall|k: int|
                    0 <= k < n && (k <= i || k >= j) ==> -SIM_POS_LIMIT - 100 * (i as int) <= (
                    #[trigger] positions@[k]).0 <= SIM_POS_LIMIT + 100 * (i as int)
                        && -SIM_POS_LIMIT - 100 * (i as int) <= positions@[k].1 <= SIM_POS_LIMIT
                        + 100 * (i as int),
                forall|k: int|
                    i < k < j ==> -SIM_POS_LIMIT - 100 * (i as int + 1) <= (
                    #[trigger] positions@[k]).0 <= SIM_POS_LIMIT + 100 * (i as int + 1)
                        && -SIM_POS_LIMIT - 100 * (i as int + 1) <= positions@[k].1
                        <= SIM_POS_LIMIT + 100 * (i as int + 1),
            decreases n - j,
        {
            let a = positions[i];
            let b = positions[j];
            let nb = separate_pair(a, ids[i], b, ids[j]);
            positions.set(j, nb);
            j = j + 1;
        }
        i = i + 1;
    }
    proof {
        assert(spec_collide_pass(positions@, ids@, n as int) == positions@);
    }
}

/// How far one jitter step moves a visual member.
pub const JITTER_STEP: i64 = 150;

/// Visual members idle-wander no farther than this from their unit's
/// centre.
pub const JITTER_RANGE: i64 = 20_000;

/// One idle-jitter tick for a visual member: each axis takes a small
/// random step, except that a member too far from the centre is walked
/// straight back towards it.
pub fn jitter_visual(rng: &mut wyrand::WyRand, pos: (i64, i64)) -> (np: (i64, i64))
    requires
        -2 * SIM_POS_LIMIT <= pos.0 <= 2 * SIM_POS_LIMIT,
        -2 * SIM_POS_LIMIT <= pos.1 <= 2 * SIM_POS_LIMIT,
    ensures
        pos.0 > JITTER_RANGE ==> np.0 == pos.0 - JITTER_STEP,
        pos.0 < -JITTER_RANGE ==> np.0 == pos.0 + JITTER_STEP,
        -JITTER_RANGE <= pos.0 <= JITTER_RANGE ==> pos.0 - JITTER_STEP <= np.0 < pos.0
            + JITTER_STEP,
        pos.1 > JITTER_RANGE ==> np.1 == pos.1 - JITTER_STEP,
        pos.1 < -JITTER_RANGE ==> np.1 == pos.1 + JITTER_STEP,
        -JITTER_RANGE <= pos.1 <= JITTER_RANGE ==> pos.1 - JITTER_STEP <= np.1 < pos.1
            + JITTER_STEP,
{
    let mut dx = crate::rng::rng_range_i64(rng, -JITTER_STEP, JITTER_STEP);
    let mut dy = crate::rng::rng_range_i64(rng, -JITTER_STEP, JITTER_STEP);
    if pos.0 > JITTER_RANGE {
        dx = -JITTER_STEP;
    } else if pos.0 < -JITTER_RANGE {
        dx = JITTER_STEP;
    }
    if pos.1 > JITTER_RANGE {
        dy = -JITTER_STEP;
    } else if pos.1 < -JITTER_RANGE {
        dy = JITTER_STEP;
    }
    (pos.0 + dx, pos.1 + dy)
}

/// One movement tick for a unit under a movement order: the direction
/// re-aims at the fixed destination; a unit whose tile has reached the
/// destination tile stops and drops the order; any other unit advances
/// one integration step.
pub fn move_unit(
    pos: (i64, i64),
    tile: (u32, u32),
    ud: &UnitDirection,
    speed: u8,
    dt_ms: u64,
) -> (r: ((i64, i64), Option<UnitDirection>))
    requires
        -SIM_POS_LIMIT <= pos.0 <= SIM_POS_LIMIT,
        -SIM_POS_LIMIT <= pos.1 <= SIM_POS_LIMIT,
        -SIM_POS_LIMIT + MOVE_STEP_MAX <= ud.destination.0 <= SIM_POS_LIMIT - MOVE_STEP_MAX,
        -SIM_POS_LIMIT + MOVE_STEP_MAX <= ud.destination.1 <= SIM_POS_LIMIT - MOVE_STEP_MAX,
        dt_ms <= MAX_TICK_MS,
    ensures
        tile == ud.destination_tile ==> r == ((pos, Option::<UnitDirection>::None)),
        tile != ud.destination_tile ==> ({
            &&& (r.0.0 as int, r.0.1 as int) == spec_integrate(pos, ud.destination, speed, dt_ms)
            &&& r.1 matches Some(nd) && (nd.direction.0 as int, nd.direction.1 as int)
                == spec_direction(pos, ud.destination) && nd.destination == ud.destination
                && nd.destination_tile == ud.destination_tile
        }),
        -SIM_POS_LIMIT <= r.0.0 <= SIM_POS_LIMIT,
        -SIM_POS_LIMIT <= r.0.1 <= SIM_POS_LIMIT,
{
    let direction = direction_toward(pos, ud.destination);
    if tile.0 == ud.destination_tile.0 && tile.1 == ud.destination_tile.1 {
        proof {
            assert(tile == ud.destination_tile);
        }
        (pos, None)
    } else {
        let np = integrate_movement(pos, ud.destination, speed, dt_ms);
        (
            np,
            Some(
                UnitDirection {
                    direction,
                    destination: ud.destination,
                    destination_tile: ud.destination_tile,
                },
            ),
        )
    }
}

/// How many treasures may still have their slot affinity overridden:
/// the first three found in a session always land on the defense army.
pub const EARLY_TREASURE_COUNT: usize = 3;

/// Room kept free below `u64::MAX` so one resolution can add a score.
pub const SCORE_HEADROOM: u64 = 100_000;

/// Game-wide mutable state the simulation drives.
pub struct GameState {
    pub player_tower_location: (u32, u32),
    pub enemy_tower_locations: Vec<(u32, u32)>,
    pub score: u64,
    pub units: Vec<UnitEntry>,
    pub treasures_found: Vec<Treasure>,
    pub unit_boons: Vec<BoonAccumulator>,
}

impl GameState {
    /// Seven deployment bays, eight boon slots (slot 0 is the defense
    /// army), and a well-formed found log.
    pub open spec fn wf(&self) -> bool {
        &&& self.units@.len() == 7
        &&& self.unit_boons@.len() == crate::treasure::SLOT_COUNT
        &&& forall|i: int|
            0 <= i < self.treasures_found@.len() ==> reward_wf(#[trigger] self.treasures_found@[i])
    }

    /// A fresh session: no score, nothing found, one deployment bay
    /// available and the rest locked, no boons yet.
    pub fn new() -> (s: GameState)
        ensures
            s.wf(),
            s.score == 0,
            s.treasures_found@.len() == 0,
            s.units@[0] == UnitEntry::Available,
            forall|i: int| 1 <= i < 7 ==> s.units@[i] == UnitEntry::Unavailable,
            forall|i: int|
                0 <= i < s.unit_boons@.len() ==> (#[trigger] s.unit_boons@[i]).is_empty_spec(),
            s.player_tower_location == (0u32, 0u32),
            s.enemy_tower_locations@.len() == 0,
    {
        let mut units: Vec<UnitEntry> = Vec::new();
        units.push(UnitEntry::Available);
        let mut i: usize = 1;
        while i < 7
            invariant
                1 <= i <= 7,
                units@.len() == i,
                units@[0] == UnitEntry::Available,
                forall|j: int| 1 <= j < i ==> units@[j] == UnitEntry::Unavailable,
            decreases 7 - i,
        {
            units.push(UnitEntry::Unavailable);
            i = i + 1;
        }
        let mut unit_boons: Vec<BoonAccumulator> = Vec::new();
        let mut k: usize = 0;
        while k < 8
            invariant
                0 <= k <= 8,
                unit_boons@.len() == k,
                forall|j: int|
                    0 <= j < k ==> (#[trigger] unit_boons@[j]).is_empty_spec(),
            decreases 8 - k,
        {
            unit_boons.push(BoonAccumulator::new());
            k = k + 1;
        }
        GameState {
            player_tower_location: (0, 0),
            enemy_tower_locations: Vec::new(),
            score: 0,
            units,
            treasures_found: Vec::new(),
            unit_boons,
        }
    }
}

/// What resolving a completed dig yielded.
#[derive(Debug, Clone, Copy, PartialEq, Eq, Structural)]
pub enum DigOutcome {
    /// No treasure remained under the unit; the dig fizzles as a
    /// harmless no-op.
    NoTreasure,
    /// A treasure was claimed for the given slot; `respawn_members` is
    /// set when the digging unit itself took a Members boon and needs
    /// its new members spawned.
    Claimed { slot: u8, score: u16, respawn_members: bool },
}

/// The slot a newly found treasure lands on: the first
/// `EARLY_TREASURE_COUNT` treasures of a session are forced onto the
/// defense army, later ones keep their generated affinity.
pub open spec fn spec_claim_slot(found_before: int, generated: u8) -> u8 {
    if found_before + 1 <= EARLY_TREASURE_COUNT {
        0u8
    } else {
        generated
    }
}

/// Resolve a completed dig at `tile` by the unit in `unit_slot`.
///
/// When a treasure remains there it moves to the found log (with its
/// slot affinity possibly overridden for the early game), its score
/// joins the running total, its site leaves the registry for good, its
/// boons are recorded for the claimed slot, and a unit occupying that
/// very slot takes every boon immediately. With no treasure under the
/// unit nothing changes at all.
pub fn resolve_dig(
    state: &mut GameState,
    sites: &mut TreasureLocs,
    unit: &mut Unit,
    unit_slot: u8,
    tile: (u32, u32),
) -> (out: DigOutcome)
    requires
        old(state).wf(),
        old(sites).wf(),
        old(state).score <= u64::MAX - SCORE_HEADROOM,
    ensures
        final(state).wf(),
        final(sites).wf(),
        final(sites).locs@.len() <= old(sites).locs@.len(),
        !has_site_at(old(sites).locs@, tile) ==> out == DigOutcome::NoTreasure && *final(state)
            == *old(state) && *final(sites) == *old(sites) && *final(unit) == *old(unit),
        has_site_at(old(sites).locs@, tile) ==> ({
            let i = first_site_index(old(sites).locs@, tile);
            let t = old(sites).treasures@[i];
            let slot = spec_claim_slot(old(state).treasures_found@.len() as int, t.slot);
            &&& final(state).treasures_found@ == old(state).treasures_found@.push(
                (Treasure { slot, ..t }),
            )
            &&& final(state).score == old(state).score + t.score
            &&& (final(sites).locs@, final(sites).treasures@) == spec_remove_all(
                old(sites).locs@,
                old(sites).treasures@,
                tile,
            )
            &&& !has_site_at(final(sites).locs@, tile)
            &&& forall|j: int|
                0 <= j < old(state).unit_boons@.len() && j != slot
                    ==> final(state).unit_boons@[j] == old(state).unit_boons@[j]
            &&& forall|c: BoonType| #[trigger]
                bucket(final(state).unit_boons@[slot as int], c) == spec_record_list(
                    bucket(old(state).unit_boons@[slot as int], c),
                    t.boons@,
                    c,
                )
            &&& (unit_slot == slot ==> *final(unit) == spec_apply_boons(*old(unit), t.boons@))
            &&& (unit_slot != slot ==> *final(unit) == *old(unit))
            &&& (old(unit).wf() ==> final(unit).wf())
            &&& out == (DigOutcome::Claimed {
                slot,
                score: t.score,
                respawn_members: unit_slot == slot && exists|k: int|
                    0 <= k < t.boons@.len() && (#[trigger] t.boons@[k]).category is Members,
            })
            &&& final(state).player_tower_location == old(state).player_tower_location
            &&& final(state).enemy_tower_locations == old(state).enemy_tower_locations
            &&& final(state).units == old(state).units
        }),
{
    let found = sites.take_first_site(tile.0, tile.1);
    match found {
        None => DigOutcome::NoTreasure,
        Some(t) => {
            // Clear any duplicate sites at the same tile so it cannot
            // be dug twice.
            sites.remove_sites_at(tile.0, tile.1);
            proof {
                lemma_first_site_index(old(sites).locs@, tile);
            }
            let slot: u8 = if state.treasures_found.len() < EARLY_TREASURE_COUNT {
                0
            } else {
                t.slot
            };
            state.score = state.score + t.score as u64;
            record_boons(&mut state.unit_boons, slot as usize, &t.boons);
            let mut respawn = false;
            if unit_slot == slot {
                respawn = apply_boons(unit, &t.boons);
            }
            let score = t.score;
            let logged = Treasure { slot, ..t };
            state.treasures_found.push(logged);
            DigOutcome::Claimed { slot, score, respawn_members: respawn }
        },
    }
}

/// One deployed unit as the simulation drives it: the stats, the
/// continuous position with its tile shadow, and the optional movement,
/// digging, eligibility and deployment sub-states.
#[derive(Debug, Clone, Copy)]
pub struct ActiveUnit {
    pub id: u64,
    pub slot: u8,
    pub unit: Unit,
    pub pos: (i64, i64),
    pub tile: (u32, u32),
    pub movement: Option<UnitDirection>,
    pub digging: Option<Digging>,
    pub can_dig: Option<CanDig>,
    pub uninitialized: Option<UnitUninitialized>,
}

impl ActiveUnit {
    /// A position the simulation can integrate, a destination it can
    /// reach without escaping, dig progress below completion, and a
    /// healthy unit.
    pub open spec fn wf(&self) -> bool {
        &&& -SIM_POS_LIMIT <= self.pos.0 <= SIM_POS_LIMIT
        &&& -SIM_POS_LIMIT <= self.pos.1 <= SIM_POS_LIMIT
        &&& (self.movement matches Some(ud) ==> -SIM_POS_LIMIT + MOVE_STEP_MAX <= ud.destination.0
            <= SIM_POS_LIMIT - MOVE_STEP_MAX && -SIM_POS_LIMIT + MOVE_STEP_MAX <= ud.destination.1
            <= SIM_POS_LIMIT - MOVE_STEP_MAX)
        &&& (self.digging matches Some(d) ==> d.progress < DIG_COMPLETE)
        &&& self.unit.wf()
    }

    /// Deploy a fresh unit into a slot at a world position: visual
    /// members not yet spawned, idle, not digging.
    pub fn deploy(id: u64, slot: u8, unit: Unit, pos: (i64, i64), tile: (u32, u32)) -> (u:
        ActiveUnit)
        requires
            -SIM_POS_LIMIT <= pos.0 <= SIM_POS_LIMIT,
            -SIM_POS_LIMIT <= pos.1 <= SIM_POS_LIMIT,
            unit.wf(),
        ensures
            u.wf(),
            u.id == id,
            u.slot == slot,
            u.unit == unit,
            u.pos == pos,
            u.tile == tile,
            u.movement is None,
            u.digging is None,
            u.can_dig is None,
            u.uninitialized is Some,
    {
        ActiveUnit {
            id,
            slot,
            unit,
            pos,
            tile,
            movement: None,
            digging: None,
            can_dig: None,
            uninitialized: Some(UnitUninitialized),
        }
    }

    /// The presentation layer reports the unit's visual members as
    /// spawned: the one-way transition out of the uninitialized
    /// deployment state, consumed exactly once.
    pub fn complete_spawn(&mut self)
        requires
            old(self).wf(),
        ensures
            final(self).wf(),
            *final(self) == (ActiveUnit { uninitialized: None, ..*old(self) }),
    {
        self.uninitialized = None;
    }

    /// Start digging: takes effect only when the unit may dig and is
    /// not digging already; a stray command is a silent no-op, keeping
    /// the tick loop live.
    pub fn start_dig(&mut self)
        requires
            old(self).wf(),
        ensures
            final(self).wf(),
            old(self).can_dig is Some && old(self).digging is None ==> *final(self) == (ActiveUnit {
                digging: Some(Digging { progress: 0 }),
                ..*old(self)
            }),
            !(old(self).can_dig is Some && old(self).digging is None) ==> *final(self) == *old(
                self,
            ),
    {
        if self.can_dig.is_some() && self.digging.is_none() {
            self.digging = Some(Digging::new());
        }
    }
}

/// One idle-jitter tick over all visual members, in order; each member
/// obeys the per-member jitter contract against its own old position.
pub fn jitter_units(rng: &mut wyrand::WyRand, positions: &mut Vec<(i64, i64)>)
    requires
        forall|k: int|
            0 <= k < old(positions)@.len() ==> -2 * SIM_POS_LIMIT <= (#[trigger] old(
                positions,
            )@[k]).0 <= 2 * SIM_POS_LIMIT && -2 * SIM_POS_LIMIT <= old(positions)@[k].1 <= 2
                * SIM_POS_LIMIT,
    ensures
        final(positions)@.len() == old(positions)@.len(),
        forall|k: int|
            0 <= k < old(positions)@.len() ==> ({
                let p = old(positions)@[k];
                let q = #[trigger] final(positions)@[k];
                &&& (p.0 > JITTER_RANGE ==> q.0 == p.0 - JITTER_STEP)
                &&& (p.0 < -JITTER_RANGE ==> q.0 == p.0 + JITTER_STEP)
                &&& (-JITTER_RANGE <= p.0 <= JITTER_RANGE ==> p.0 - JITTER_STEP <= q.0 < p.0
                    + JITTER_STEP)
                &&& (p.1 > JITTER_RANGE ==> q.1 == p.1 - JITTER_STEP)
                &&& (p.1 < -JITTER_RANGE ==> q.1 == p.1 + JITTER_STEP)
                &&& (-JITTER_RANGE <= p.1 <= JITTER_RANGE ==> p.1 - JITTER_STEP <= q.1 < p.1
                    + JITTER_STEP)
            }),
{
    let n = positions.len();
    let mut i: usize = 0;
    while i < n
        invariant
            0 <= i <= n,
            n == positions@.len(),
            positions@.len() == old(positions)@.len(),
            forall|k: int|
                i <= k < n ==> #[trigger] positions@[k] == old(positions)@[k],
            forall|k: int|
                0 <= k < old(positions)@.len() ==> -2 * SIM_POS_LIMIT <= (#[trigger] old(
                    positions,
                )@[k]).0 <= 2 * SIM_POS_LIMIT && -2 * SIM_POS_LIMIT <= old(positions)@[k].1 <= 2
                    * SIM_POS_LIMIT,
            forall|k: int|
                0 <= k < i ==> ({
                    let p = old(positions)@[k];
                    let q = #[trigger] positions@[k];
                    &&& (p.0 > JITTER_RANGE ==> q.0 == p.0 - JITTER_STEP)
                    &&& (p.0 < -JITTER_RANGE ==> q.0 == p.0 + JITTER_STEP)
                    &&& (-JITTER_RANGE <= p.0 <= JITTER_RANGE ==> p.0 - JITTER_STEP <= q.0 < p.0
                        + JITTER_STEP)
                    &&& (p.1 > JITTER_RANGE ==> q.1 == p.1 - JITTER_STEP)
                    &&& (p.1 < -JITTER_RANGE ==> q.1 == p.1 + JITTER_STEP)
                    &&& (-JITTER_RANGE <= p.1 <= JITTER_RANGE ==> p.1 - JITTER_STEP <= q.1 < p.1
                        + JITTER_STEP)
                }),
        decreases n - i,
    {
        let p = positions[i];
        let q = jitter_visual(rng, p);
        positions.set(i, q);
        i = i + 1;
    }
}

/// The tile a fresh deployment spawns on: one tile below the player
/// tower, held on the bottom row when the tower already sits there.
pub open spec fn spec_spawn_tile(tower: (u32, u32)) -> (u32, u32) {
    (tower.0, if tower.1 > 0 {
        (tower.1 - 1) as u32
    } else {
        0u32
    })
}

/// The world position at a tile's centre, in milli-pixels.
pub open spec fn spec_tile_center(tile: (u32, u32)) -> (int, int) {
    (
        tile.0 as int * (TILE_MILLI as int) + (TILE_MILLI as int) / 2,
        tile.1 as int * (TILE_MILLI as int) + (TILE_MILLI as int) / 2,
    )
}

/// Confirm a deployment into a bay: the bay is marked summoned, and
/// the new unit appears centred one tile below the player tower with
/// its visual members still to spawn. A bay index past the bar is a
/// silent no-op, keeping the loop lenient to malformed commands.
pub fn confirm_deploy(state: &mut GameState, slot: u8, unit: Unit, id: u64) -> (r: Option<
    ActiveUnit,
>)
    requires
        old(state).wf(),
        unit.wf(),
        old(state).player_tower_location.0 < 0x100_0000,
        old(state).player_tower_location.1 < 0x100_0000,
    ensures
        final(state).wf(),
        slot >= 7 ==> r is None && *final(state) == *old(state),
        slot < 7 ==> ({
            &&& final(state).units@ == old(state).units@.update(
                slot as int,
                UnitEntry::Summoned(id),
            )
            &&& r matches Some(u) && u.wf() && u.slot == slot && u.unit == unit && u.id == id
                && u.uninitialized is Some && u.movement is None && u.digging is None && u.tile
                == spec_spawn_tile(old(state).player_tower_location) && (
            u.pos.0 as int,
            u.pos.1 as int,
            ) == spec_tile_center(u.tile)
            &&& final(state).score == old(state).score
            &&& final(state).treasures_found == old(state).treasures_found
            &&& final(state).unit_boons == old(state).unit_boons
            &&& final(state).player_tower_location == old(state).player_tower_location
            &&& final(state).enemy_tower_locations == old(state).enemy_tower_locations
        }),
{
    if slot >= 7 {
        return None;
    }
    let (tx, ty) = state.player_tower_location;
    // One tile below the tower, centred on the tile.
    let by: u32 = if ty > 0 {
        ty - 1
    } else {
        0
    };
    let px: i64 = (tx as i64) * TILE_MILLI + TILE_MILLI / 2;
    let py: i64 = (by as i64) * TILE_MILLI + TILE_MILLI / 2;
    let tile: (u32, u32) = (tx, by);
    state.units.set(slot as usize, UnitEntry::Summoned(id));
    let u = ActiveUnit::deploy(id, slot, unit, (px, py), tile);
    Some(u)
}

/// How many visual members still need spawning to match the unit's
/// member count; zero when members were lost, never an underflow.
pub fn members_to_spawn(members: u8, existing: usize) -> (n: usize)
    ensures
        n == (if members as int > existing as int {
            members - existing
        } else {
            0int
        }),
{
    if (members as usize) > existing {
        members as usize - existing
    } else {
        0
    }
}

/// Ceiling on the running score accepted into one tick, leaving room
/// for every unit to claim a treasure.
pub const TICK_SCORE_CAP: u64 = 0xffff_ffff_0000_0000;

/// Where a pending move order lands: on the selected slot's unit it
/// replaces the movement order; every other unit keeps its own.
pub open spec fn spec_order_landing(
    u: ActiveUnit,
    selected: Option<u8>,
    order: Option<MoveOrder>,
) -> Option<UnitDirection> {
    match order {
        Some(o) => if selected == Some(u.slot) {
            Some(
                UnitDirection {
                    direction: (
                        spec_direction(u.pos, o.world).0 as i64,
                        spec_direction(u.pos, o.world).1 as i64,
                    ),
                    destination: o.world,
                    destination_tile: o.tile,
                },
            )
        } else {
            u.movement
        },
        None => u.movement,
    }
}

/// A unit's movement phase of one tick: the pending order lands, a
/// unit already on its destination tile stops and drops the order,
/// any other moving unit advances one integration step with its
/// direction re-aimed, and the tile resynchronises from the new
/// position. Only `pos`, `movement` and `tile` change here.
pub open spec fn spec_tick_move(
    u: ActiveUnit,
    selected: Option<u8>,
    order: Option<MoveOrder>,
    dt_ms: u64,
    w: int,
    h: int,
) -> ActiveUnit {
    let landed = spec_order_landing(u, selected, order);
    let moved = match landed {
        Some(ud) => if u.tile == ud.destination_tile {
            ActiveUnit { movement: None, ..u }
        } else {
            ActiveUnit {
                pos: (
                    spec_integrate(u.pos, ud.destination, u.unit.overworld_speed, dt_ms).0 as i64,
                    spec_integrate(u.pos, ud.destination, u.unit.overworld_speed, dt_ms).1 as i64,
                ),
                movement: Some(
                    UnitDirection {
                        direction: (
                            spec_direction(u.pos, ud.destination).0 as i64,
                            spec_direction(u.pos, ud.destination).1 as i64,
                        ),
                        destination: ud.destination,
                        destination_tile: ud.destination_tile,
                    },
                ),
                ..u
            }
        },
        None => ActiveUnit { movement: None, ..u },
    };
    match spec_tile_of(moved.pos, w, h) {
        Some(t) => ActiveUnit { tile: t, ..moved },
        None => moved,
    }
}

/// Whether a unit's dig completes within one tick of `dt_ms`.
pub open spec fn spec_dig_completes(u: ActiveUnit, dt_ms: u64) -> bool {
    match u.digging {
        Some(d) => d.progress + u.unit.excavation_speed * dt_ms >= DIG_COMPLETE,
        None => false,
    }
}

/// A unit's digging state after one tick: progress grows by
/// `excavation_speed * dt`, and the marker leaves the moment the dig
/// completes (digs only start on the host's explicit command).
pub open spec fn spec_tick_digging(u: ActiveUnit, dt_ms: u64) -> Option<Digging> {
    match u.digging {
        Some(d) => if d.progress + u.unit.excavation_speed * dt_ms >= DIG_COMPLETE {
            None
        } else {
            Some(Digging { progress: (d.progress + u.unit.excavation_speed * dt_ms) as u64 })
        },
        None => None,
    }
}

/// The fog after each unit in turn reveals around its final tile with
/// its final visibility radius.
pub open spec fn spec_reveal_all(s: Seq<bool>, w: int, us: Seq<ActiveUnit>) -> Seq<bool>
    decreases us.len(),
{
    if us.len() == 0 {
        s
    } else {
        spec_reveal_all(
            crate::fog::spec_reveal(
                s,
                w,
                us.first().tile.0 as int,
                us.first().tile.1 as int,
                us.first().unit.visibility as int,
            ),
            w,
            us.skip(1),
        )
    }
}

proof fn lemma_reveal_all_push(s: Seq<bool>, w: int, us: Seq<ActiveUnit>, u: ActiveUnit)
    ensures
        spec_reveal_all(s, w, us.push(u)) == crate::fog::spec_reveal(
            spec_reveal_all(s, w, us),
            w,
            u.tile.0 as int,
            u.tile.1 as int,
            u.unit.visibility as int,
        ),
    decreases us.len(),
{
    let stepped = crate::fog::spec_reveal(
        s,
        w,
        us.push(u).first().tile.0 as int,
        us.push(u).first().tile.1 as int,
        us.push(u).first().unit.visibility as int,
    );
    assert(spec_reveal_all(s, w, us.push(u)) == spec_reveal_all(stepped, w, us.push(u).skip(1)));
    if us.len() == 0 {
        assert(us.push(u).first() == u);
        assert(us.push(u).skip(1) =~= Seq::<ActiveUnit>::empty());
        assert(spec_reveal_all(stepped, w, us.push(u).skip(1)) == stepped);
        assert(spec_reveal_all(s, w, us) == s);
    } else {
        assert(us.push(u).first() == us.first());
        assert(us.push(u).skip(1) =~= us.skip(1).push(u));
        lemma_reveal_all_push(stepped, w, us.skip(1), u);
        assert(spec_reveal_all(s, w, us) == spec_reveal_all(stepped, w, us.skip(1)));
    }
}

/// One simulation tick, in the fixed sub-step order the state flow
/// demands: collision separation, movement direction intake, movement
/// integration, tile resynchronisation, dig eligibility, dig progress
/// and resolution, and finally fog reveal.
///
/// The contract states what a tick does, not only what it never
/// breaks: the visual members end exactly as the collision pass
/// leaves them; every unit's position, movement order and tile end
/// exactly at its movement phase's result; every unit's dig progress
/// grows by `excavation_speed * dt` and the marker leaves exactly on
/// completion; on a tick where no dig completes, the game state, the
/// site registry and every unit's stats are untouched and dig
/// eligibility is recomputed exactly from tile occupancy; and the fog
/// ends exactly as the per-unit reveals in order leave it. Across the
/// whole tick, fog only ever gains visible tiles, the score never
/// drops, the registry never grows and the found log never shrinks.
#[verifier::rlimit(100)]
pub fn simulation_tick(
    state: &mut GameState,
    sites: &mut TreasureLocs,
    fog: &mut crate::fog::FogGrid,
    units: &mut Vec<ActiveUnit>,
    visual_positions: &mut Vec<(i64, i64)>,
    visual_ids: &Vec<u64>,
    selected: Option<u8>,
    order: Option<MoveOrder>,
    map_width: usize,
    map_height: usize,
    dt_ms: u64,
)
    requires
        old(state).wf(),
        old(sites).wf(),
        old(fog).wf(),
        old(state).score <= TICK_SCORE_CAP,
        old(units)@.len() <= MAX_VISUALS,
        forall|i: int| 0 <= i < old(units)@.len() ==> (#[trigger] old(units)@[i]).wf(),
        old(visual_positions)@.len() == visual_ids@.len(),
        old(visual_positions)@.len() <= MAX_VISUALS,
        forall|k: int|
            0 <= k < old(visual_positions)@.len() ==> -SIM_POS_LIMIT <= (#[trigger] old(
                visual_positions,
            )@[k]).0 <= SIM_POS_LIMIT && -SIM_POS_LIMIT <= old(visual_positions)@[k].1
                <= SIM_POS_LIMIT,
        order matches Some(o) ==> -SIM_POS_LIMIT + MOVE_STEP_MAX <= o.world.0 <= SIM_POS_LIMIT
            - MOVE_STEP_MAX && -SIM_POS_LIMIT + MOVE_STEP_MAX <= o.world.1 <= SIM_POS_LIMIT
            - MOVE_STEP_MAX,
        map_width <= 0x1_0000_0000,
        map_height <= 0x1_0000_0000,
        dt_ms <= MAX_TICK_MS,
    ensures
        final(state).wf(),
        final(sites).wf(),
        final(fog).wf(),
        final(fog)@.len() == old(fog)@.len(),
        forall|k: int| 0 <= k < old(fog)@.len() && old(fog)@[k] ==> final(fog)@[k],
        final(state).score >= old(state).score,
        final(sites).locs@.len() <= old(sites).locs@.len(),
        final(state).treasures_found@.len() >= old(state).treasures_found@.len(),
        final(units)@.len() == old(units)@.len(),
        forall|i: int| 0 <= i < final(units)@.len() ==> (#[trigger] final(units)@[i]).wf(),
        forall|i: int|
            0 <= i < final(units)@.len() ==> (#[trigger] final(units)@[i]).id == old(units)@[i].id
                && final(units)@[i].slot == old(units)@[i].slot,
        // The collision pass's exact outcome, with the drift bound a
        // host needs to keep its own positions in hand.
        final(visual_positions)@ == spec_collide_pass(old(visual_positions)@, visual_ids@, 0),
        final(visual_positions)@.len() == old(visual_positions)@.len(),
        forall|k: int|
            0 <= k < final(visual_positions)@.len() ==> -SIM_POS_LIMIT - 100 * (MAX_VISUALS
                as int) <= (#[trigger] final(visual_positions)@[k]).0 <= SIM_POS_LIMIT + 100 * (
            MAX_VISUALS as int) && -SIM_POS_LIMIT - 100 * (MAX_VISUALS as int)
                <= final(visual_positions)@[k].1 <= SIM_POS_LIMIT + 100 * (MAX_VISUALS as int),
        // Every unit's movement phase lands exactly where its spec
        // says: order intake, integration or arrival, tile resync.
        forall|i: int|
            0 <= i < final(units)@.len() ==> ({
                let m = spec_tick_move(
                    old(units)@[i],
                    selected,
                    order,
                    dt_ms,
                    map_width as int,
                    map_height as int,
                );
                (#[trigger] final(units)@[i]).pos == m.pos && final(units)@[i].movement
                    == m.movement && final(units)@[i].tile == m.tile
            }),
        // Every unit's dig progress advances exactly one tick.
        forall|i: int|
            0 <= i < final(units)@.len() ==> (#[trigger] final(units)@[i]).digging
                == spec_tick_digging(old(units)@[i], dt_ms),
        // A unit whose dig does not complete keeps its stats and its
        // deployment state.
        forall|i: int|
            0 <= i < final(units)@.len() && !spec_dig_completes(old(units)@[i], dt_ms) ==> (
            #[trigger] final(units)@[i]).unit == old(units)@[i].unit
                && final(units)@[i].uninitialized == old(units)@[i].uninitialized,
        // A tick where no dig completes leaves the game state and the
        // registry exactly as they were, and recomputes each unit's
        // dig eligibility exactly from tile occupancy.
        (forall|i: int| 0 <= i < old(units)@.len() ==> !spec_dig_completes(
            #[trigger] old(units)@[i],
            dt_ms,
        )) ==> *final(state) == *old(state) && *final(sites) == *old(sites) && (forall|i: int|
            0 <= i < final(units)@.len() ==> ((#[trigger] final(units)@[i]).can_dig is Some <==> (
            has_site_at(old(sites).locs@, final(units)@[i].tile)
                && old(units)@[i].digging is None))),
        // The fog ends exactly as the per-unit reveals leave it.
        final(fog)@ == spec_reveal_all(old(fog)@, old(fog).spec_width(), final(units)@),
        forall|i: int|
            0 <= i < final(units)@.len() && (#[trigger] final(units)@[i]).tile.0
                < final(fog).spec_width() && final(units)@[i].tile.1 < final(fog).spec_height()
                ==> final(fog).spec_at(
                final(units)@[i].tile.0 as int,
                final(units)@[i].tile.1 as int,
            ),
{
    prevent_collision(visual_positions, visual_ids);
    let ghost fog0 = fog@;
    let ghost w0 = fog.spec_width();
    let n = units.len();
    let mut i: usize = 0;
    proof {
        assert(units@.take(0) =~= Seq::<ActiveUnit>::empty());
    }
    while i < n
        invariant
            0 <= i <= n,
            n == units@.len(),
            n <= MAX_VISUALS,
            state.wf(),
            sites.wf(),
            fog.wf(),
            fog@.len() == old(fog)@.len(),
            fog0 == old(fog)@,
            w0 == old(fog).spec_width(),
            forall|k: int| 0 <= k < old(fog)@.len() && old(fog)@[k] ==> fog@[k],
            state.score >= old(state).score,
            state.score <= old(state).score + (i as int) * 0x1_0000,
            old(state).score <= TICK_SCORE_CAP,
            sites.locs@.len() <= old(sites).locs@.len(),
            state.treasures_found@.len() >= old(state).treasures_found@.len(),
            forall|j: int| 0 <= j < n ==> (#[trigger] units@[j]).wf(),
            forall|j: int| i <= j < n ==> #[trigger] units@[j] == old(units)@[j],
            forall|j: int|
                0 <= j < n ==> (#[trigger] units@[j]).id == old(units)@[j].id && units@[j].slot
                    == old(units)@[j].slot,
            fog.spec_width() == old(fog).spec_width(),
            fog.spec_height() == old(fog).spec_height(),
            forall|j: int|
                0 <= j < i ==> ({
                    let m = spec_tick_move(
                        old(units)@[j],
                        selected,
                        order,
                        dt_ms,
                        map_width as int,
                        map_height as int,
                    );
                    (#[trigger] units@[j]).pos == m.pos && units@[j].movement == m.movement
                        && units@[j].tile == m.tile
                }),
            forall|j: int|
                0 <= j < i ==> (#[trigger] units@[j]).digging == spec_tick_digging(
                    old(units)@[j],
                    dt_ms,
                ),
            forall|j: int|
                0 <= j < i && !spec_dig_completes(old(units)@[j], dt_ms) ==> (
                #[trigger] units@[j]).unit == old(units)@[j].unit && units@[j].uninitialized
                    == old(units)@[j].uninitialized,
            (forall|j: int| 0 <= j < n ==> !spec_dig_completes(#[trigger] old(units)@[j], dt_ms))
                ==> *state == *old(state) && *sites == *old(sites) && (forall|j: int|
                0 <= j < i ==> ((#[trigger] units@[j]).can_dig is Some <==> (has_site_at(
                    old(sites).locs@,
                    units@[j].tile,
                ) && old(units)@[j].digging is None))),
            fog@ == spec_reveal_all(fog0, w0, units@.take(i as int)),
            forall|j: int|
                0 <= j < i && (#[trigger] units@[j]).tile.0 < fog.spec_width()
                    && units@[j].tile.1 < fog.spec_height() ==> fog.spec_at(
                    units@[j].tile.0 as int,
                    units@[j].tile.1 as int,
                ),
            order matches Some(o) ==> -SIM_POS_LIMIT + MOVE_STEP_MAX <= o.world.0 <= SIM_POS_LIMIT
                - MOVE_STEP_MAX && -SIM_POS_LIMIT + MOVE_STEP_MAX <= o.world.1 <= SIM_POS_LIMIT
                - MOVE_STEP_MAX,
            map_width <= 0x1_0000_0000,
            map_height <= 0x1_0000_0000,
            dt_ms <= MAX_TICK_MS,
            visual_positions@.len() == old(visual_positions)@.len(),
            visual_positions@ == spec_collide_pass(old(visual_positions)@, visual_ids@, 0),
            forall|k: int|
                0 <= k < visual_positions@.len() ==> -SIM_POS_LIMIT - 100 * (MAX_VISUALS as int)
                    <= (#[trigger] visual_positions@[k]).0 <= SIM_POS_LIMIT + 100 * (MAX_VISUALS
                    as int) && -SIM_POS_LIMIT - 100 * (MAX_VISUALS as int)
                    <= visual_positions@[k].1 <= SIM_POS_LIMIT + 100 * (MAX_VISUALS as int),
        decreases n - i,
    {
        let mut u = units[i];
        let ghost u0 = old(units)@[i as int];
        proof {
            assert(u == u0);
        }
        let ghost m = spec_tick_move(
            u0,
            selected,
            order,
            dt_ms,
            map_width as int,
            map_height as int,
        );
        // Movement direction intake: a move order lands only on the
        // currently selected slot's unit.
        match order {
            Some(o) => {
                match order_move(selected, u.slot, u.pos, o) {
                    Some(nd) => {
                        u.movement = Some(nd);
                    },
                    None => {},
                }
            },
            None => {},
        }
        proof {
            assert(u.movement == spec_order_landing(u0, selected, order));
        }
        // Movement integration and arrival.
        match u.movement {
            Some(ud) => {
                let stepped = move_unit(u.pos, u.tile, &ud, u.unit.overworld_speed, dt_ms);
                u.pos = stepped.0;
                u.movement = stepped.1;
            },
            None => {},
        }
        // Tile resynchronisation from the fresh position.
        u.tile = sync_tile(u.pos, u.tile, map_width, map_height);
        proof {
            assert(u.pos == m.pos && u.movement == m.movement && u.tile == m.tile);
        }
        // Dig eligibility from the fresh tile.
        u.can_dig = dig_eligibility(sites, u.tile, u.digging.is_some());
        // Dig progress, and resolution the moment it completes.
        match u.digging {
            Some(d0) => {
                let mut d = d0;
                let done = dig_tick(&mut d, u.unit.excavation_speed, dt_ms);
                if done {
                    u.digging = None;
                    let out = resolve_dig(state, sites, &mut u.unit, u.slot, u.tile);
                    match out {
                        DigOutcome::Claimed { slot: _, score: _, respawn_members } => {
                            if respawn_members {
                                u.uninitialized = Some(UnitUninitialized);
                            }
                        },
                        DigOutcome::NoTreasure => {},
                    }
                } else {
                    u.digging = Some(d);
                }
            },
            None => {},
        }
        proof {
            assert(u.digging == spec_tick_digging(u0, dt_ms));
        }
        let ghost prefix = units@.take(i as int);
        units.set(i, u);
        proof {
            assert(units@.take(i as int) =~= prefix);
            assert(units@.take(i as int + 1) =~= prefix.push(u));
        }
        // Fog reveal around the unit's tile.
        let ghost fog_before = fog@;
        fog.reveal_square(u.tile.0, u.tile.1, u.unit.visibility as u32);
        proof {
            assert(fog_before == spec_reveal_all(fog0, w0, prefix));
            assert(u.unit.visibility as u32 as int == u.unit.visibility as int);
            assert(fog@ == crate::fog::spec_reveal(
                fog_before,
                w0,
                u.tile.0 as int,
                u.tile.1 as int,
                u.unit.visibility as int,
            ));
            lemma_reveal_all_push(fog0, w0, prefix, u);
            assert(fog@ == spec_reveal_all(fog0, w0, units@.take(i as int + 1)));
            let w = fog.spec_width();
            let h = fog.spec_height();
            assert forall|j: int|
                0 <= j < i + 1 && (#[trigger] units@[j]).tile.0 < w && units@[j].tile.1
                    < h implies fog.spec_at(
                units@[j].tile.0 as int,
                units@[j].tile.1 as int,
            ) by {
                let tx = units@[j].tile.0 as int;
                let ty = units@[j].tile.1 as int;
                assert(0 <= ty * w + tx < w * h) by (nonlinear_arith)
                    requires
                        0 <= tx < w,
                        0 <= ty < h,
                ;
            }
        }
        i = i + 1;
    }
    proof {
        assert(units@.take(n as int) =~= units@);
    }
}

} // verus!
