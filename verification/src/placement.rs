//! Base placement: the player base and a band of rival bases are drawn
//! by rejection sampling against habitability predicates on the height
//! field. Every retry loop is bounded, so a map with no habitable
//! cell reports failure instead of hanging the loop forever.

use vstd::prelude::*;

use crate::rng::{derive_placement_seed, rng_new, rng_range_u32, u32_le_bytes, xxh3_of};
use crate::terrain::HeightField;

verus! {

/// Lowest height either base kind tolerates (0.1, exclusive).
pub const HABITABLE_MIN: u32 = 100_000;

/// Highest height the player base tolerates (0.7, exclusive).
pub const PLAYER_MAX: u32 = 700_000;

/// How many candidate cells one base may reject before placement gives
/// up.
pub const MAX_PLACEMENT_TRIES: u32 = 10_000;

/// Fewest rival bases a world receives.
pub const MIN_RIVALS: u32 = 10;

/// Most rival bases a world receives (exclusive).
pub const MAX_RIVALS: u32 = 20;

/// One player base plus the rival bases, chosen once at generation and
/// never moved.
pub struct BaseLocations {
    pub player: (u32, u32),
    pub rivals: Vec<(u32, u32)>,
}

/// Why placement failed.
#[derive(Debug, PartialEq, Eq, Clone, Copy)]
pub enum PlacementError {
    /// No habitable cell turned up within the retry bound.
    NoValidPlacement,
}

/// The player base tolerates heights strictly between 0.1 and 0.7.
pub open spec fn player_spot_ok(field: HeightField, x: int, y: int) -> bool {
    HABITABLE_MIN < field.spec_at(x, y) < PLAYER_MAX
}

/// A rival base tolerates any height strictly above 0.1.
pub open spec fn rival_spot_ok(field: HeightField, x: int, y: int) -> bool {
    field.spec_at(x, y) > HABITABLE_MIN
}

/// The inner sampling window: one fifth of the extent in from each
/// edge. The player base and every rival retry are drawn from it.
pub open spec fn in_inner_window(field: HeightField, x: int, y: int) -> bool {
    &&& field.spec_width() / 5 <= x < field.spec_width() - field.spec_width() / 5
    &&& field.spec_height() / 5 <= y < field.spec_height() - field.spec_height() / 5
}

/// The outer sampling window: one tenth of the extent in from each
/// edge. Each rival's first candidate is drawn from it, while retries
/// fall back to the inner window; the asymmetry is deliberate and
/// observable in where rivals land.
pub open spec fn in_outer_window(field: HeightField, x: int, y: int) -> bool {
    &&& field.spec_width() / 10 <= x < field.spec_width() - field.spec_width() / 10
    &&& field.spec_height() / 10 <= y < field.spec_height() - field.spec_height() / 10
}

/// A placed world: the player base sits in the inner window on
/// habitable middle ground; every rival sits in one of the two windows
/// on ground above the waterline.
pub open spec fn placement_ok(field: HeightField, b: BaseLocations) -> bool {
    &&& in_inner_window(field, b.player.0 as int, b.player.1 as int)
    &&& player_spot_ok(field, b.player.0 as int, b.player.1 as int)
    &&& MIN_RIVALS <= b.rivals@.len() < MAX_RIVALS
    &&& forall|i: int|
        0 <= i < b.rivals@.len() ==> rival_spot_ok(
            field,
            (#[trigger] b.rivals@[i]).0 as int,
            b.rivals@[i].1 as int,
        )
    &&& forall|i: int|
        0 <= i < b.rivals@.len() ==> in_outer_window(
            field,
            (#[trigger] b.rivals@[i]).0 as int,
            b.rivals@[i].1 as int,
        ) || in_inner_window(field, b.rivals@[i].0 as int, b.rivals@[i].1 as int)
}

/// Every cell of the inner sampling window is habitable middle
/// ground for the player base. On such a field no candidate can be
/// rejected, so placement is owed success whatever the draws.
pub open spec fn inner_window_player_ok(cells: Seq<u32>, w: int, h: int) -> bool {
    forall|x: int, y: int|
        w / 5 <= x < w - w / 5 && h / 5 <= y < h - h / 5 ==> HABITABLE_MIN < #[trigger] cells[y
            * w + x] < PLAYER_MAX
}

proof fn lemma_window_nonempty(n: int, frac: int)
    requires
        10 <= n,
        frac == 5 || frac == 10,
    ensures
        0 <= n / frac,
        2 * (n / frac) < n,
{
    vstd::arithmetic::div_mod::lemma_fundamental_div_mod(n, frac);
    vstd::arithmetic::div_mod::lemma_mod_bound(n, frac);
    vstd::arithmetic::div_mod::lemma_div_pos_is_pos(n, frac);
    let q = n / frac;
    assert(n == frac * q + n % frac);
    if frac == 5 {
        assert(q >= 2) by {
            vstd::arithmetic::div_mod::lemma_div_is_ordered(10, n, 5);
        }
    } else {
        assert(q >= 1) by {
            vstd::arithmetic::div_mod::lemma_div_is_ordered(10, n, 10);
        }
    }
    assert(2 * q < frac * q + n % frac) by (nonlinear_arith)
        requires
            frac == 5 && q >= 2 || frac == 10 && q >= 1,
            0 <= n % frac,
    ;
}

/// One sampled candidate from the window `[lo_frac .. extent - lo_frac)`
/// of each axis.
fn sample_candidate(
    rng: &mut wyrand::WyRand,
    width: usize,
    height: usize,
    frac: u32,
) -> (c: (u32, u32))
    requires
        10 <= width <= 0xff_ffff,
        10 <= height <= 0xff_ffff,
        frac == 5 || frac == 10,
    ensures
        width as int / frac as int <= c.0 < width - width as int / frac as int,
        height as int / frac as int <= c.1 < height - height as int / frac as int,
{
    proof {
        lemma_window_nonempty(width as int, frac as int);
        lemma_window_nonempty(height as int, frac as int);
    }
    let wlo: u32 = (width as u32) / frac;
    let whi: u32 = (width as u32) - wlo;
    let hlo: u32 = (height as u32) / frac;
    let hhi: u32 = (height as u32) - hlo;
    let x = rng_range_u32(rng, wlo, whi);
    let y = rng_range_u32(rng, hlo, hhi);
    (x, y)
}

/// Place the player base and the rival bases on the height field,
/// seeded by hashing the world seed.
///
/// On success the returned locations satisfy `placement_ok`: the player
/// base height lies strictly between 0.1 and 0.7 and every rival base
/// height lies strictly above 0.1. Placement fails only when a base
/// rejected `MAX_PLACEMENT_TRIES` candidates in a row, as it must on a
/// map without habitable cells; on a field whose whole inner window is
/// habitable middle ground it always succeeds, since every candidate
/// the retry loops can draw passes its test.
pub fn place_towers(field: &HeightField, seed: u32) -> (r: Result<BaseLocations, PlacementError>)
    requires
        field.wf(),
        10 <= field.spec_width(),
        10 <= field.spec_height(),
    ensures
        r matches Ok(b) ==> placement_ok(*field, b),
        r is Err ==> r == Result::<BaseLocations, PlacementError>::Err(
            PlacementError::NoValidPlacement,
        ),
        inner_window_player_ok(field@, field.spec_width(), field.spec_height()) ==> r is Ok,
{
    let seed64 = derive_placement_seed(seed);
    let mut rng = rng_new(seed64);
    let width = field.width();
    let height = field.height();
    proof {
        assert(width <= 0xff_ffff && height <= 0xff_ffff) by (nonlinear_arith)
            requires
                10 <= width,
                10 <= height,
                width * height <= crate::terrain::MAX_CELLS,
                crate::terrain::MAX_CELLS == 0x100_0000,
        ;
    }

    // Player base: rejection-sample the inner window.
    let mut player: Option<(u32, u32)> = None;
    let mut tries: u32 = 0;
    while tries < MAX_PLACEMENT_TRIES && player.is_none()
        invariant
            field.wf(),
            10 <= width <= 0xff_ffff,
            10 <= height <= 0xff_ffff,
            width == field.spec_width(),
            height == field.spec_height(),
            player matches Some(p) ==> in_inner_window(*field, p.0 as int, p.1 as int)
                && player_spot_ok(*field, p.0 as int, p.1 as int),
            inner_window_player_ok(field@, width as int, height as int) && tries >= 1
                ==> player is Some,
        decreases MAX_PLACEMENT_TRIES - tries,
    {
        let c = sample_candidate(&mut rng, width, height, 5);
        let v = field.at(c.0 as usize, c.1 as usize);
        proof {
            if inner_window_player_ok(field@, width as int, height as int) {
                assert(HABITABLE_MIN < field@[(c.1 as int) * (width as int) + (c.0 as int)]
                    < PLAYER_MAX);
            }
        }
        if HABITABLE_MIN < v && v < PLAYER_MAX {
            player = Some(c);
        }
        tries = tries + 1;
    }
    let player = match player {
        Some(p) => p,
        None => {
            return Err(PlacementError::NoValidPlacement);
        },
    };

    // Rival bases: the first candidate comes from the outer window,
    // retries from the inner one.
    let rival_count = rng_range_u32(&mut rng, MIN_RIVALS, MAX_RIVALS);
    let mut rivals: Vec<(u32, u32)> = Vec::new();
    let mut n: u32 = 0;
    while n < rival_count
        invariant
            field.wf(),
            10 <= width <= 0xff_ffff,
            10 <= height <= 0xff_ffff,
            width == field.spec_width(),
            height == field.spec_height(),
            MIN_RIVALS <= rival_count < MAX_RIVALS,
            n <= rival_count,
            rivals@.len() == n,
            forall|i: int|
                0 <= i < rivals@.len() ==> rival_spot_ok(
                    *field,
                    (#[trigger] rivals@[i]).0 as int,
                    rivals@[i].1 as int,
                ),
            forall|i: int|
                0 <= i < rivals@.len() ==> in_outer_window(
                    *field,
                    (#[trigger] rivals@[i]).0 as int,
                    rivals@[i].1 as int,
                ) || in_inner_window(*field, rivals@[i].0 as int, rivals@[i].1 as int),
            in_inner_window(*field, player.0 as int, player.1 as int),
            player_spot_ok(*field, player.0 as int, player.1 as int),
        decreases rival_count - n,
    {
        let first = sample_candidate(&mut rng, width, height, 10);
        let mut spot: Option<(u32, u32)> = None;
        if field.at(first.0 as usize, first.1 as usize) > HABITABLE_MIN {
            spot = Some(first);
        }
        let mut tries: u32 = 0;
        while tries < MAX_PLACEMENT_TRIES && spot.is_none()
            invariant
                field.wf(),
                10 <= width <= 0xff_ffff,
                10 <= height <= 0xff_ffff,
                width == field.spec_width(),
                height == field.spec_height(),
                spot matches Some(p) ==> rival_spot_ok(*field, p.0 as int, p.1 as int) && (
                in_outer_window(*field, p.0 as int, p.1 as int) || in_inner_window(
                    *field,
                    p.0 as int,
                    p.1 as int,
                )),
                inner_window_player_ok(field@, width as int, height as int) && tries >= 1
                    ==> spot is Some,
            decreases MAX_PLACEMENT_TRIES - tries,
        {
            let c = sample_candidate(&mut rng, width, height, 5);
            proof {
                if inner_window_player_ok(field@, width as int, height as int) {
                    assert(HABITABLE_MIN < field@[(c.1 as int) * (width as int) + (c.0 as int)]
                        < PLAYER_MAX);
                }
            }
            if field.at(c.0 as usize, c.1 as usize) > HABITABLE_MIN {
                spot = Some(c);
            }
            tries = tries + 1;
        }
        match spot {
            Some(p) => {
                rivals.push(p);
            },
            None => {
                return Err(PlacementError::NoValidPlacement);
            },
        }
        n = n + 1;
    }
    Ok(BaseLocations { player, rivals })
}

} // verus!
