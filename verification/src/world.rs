//! World assembly: terrain generation, base placement, the initial
//! fog layer with the player base revealed, and the scattered treasure
//! sites, built once from a single seed before the simulation starts.
//! No partial world is ever exposed: assembly either succeeds whole or
//! reports why it failed.

use vstd::prelude::*;

use crate::fog::{
    lemma_square_visible_monotone, square_visible, FogGrid, BASE_REVEAL_RADIUS,
};
use crate::placement::{
    inner_window_player_ok, place_towers, placement_ok, BaseLocations, PlacementError,
};
use crate::terrain::{
    generate, noise_grid, noise_in_domain, spec_decode_grid, spec_generate_cells, HeightField,
    WorldGenError, MAX_CELLS,
};
use crate::treasure::create_treasure_spots;

verus! {

/// The world seed; a fresh process starts from the fixed default.
pub struct GameConfig {
    pub seed: u32,
}

/// The seed a fresh process starts with.
pub const DEFAULT_SEED: u32 = 442;

impl Default for GameConfig {
    fn default() -> (c: GameConfig)
        ensures
            c.seed == DEFAULT_SEED,
    {
        GameConfig { seed: DEFAULT_SEED }
    }
}

/// Default map extent: 1000 by 1000 tiles.
pub const DEFAULT_MAP_EXTENT: usize = 1_000;

/// Default number of erosion rounds.
pub const DEFAULT_EROSION_ROUNDS: u32 = 2;

/// Default rainfall per erosion round (0.01).
pub const DEFAULT_RAINFALL: u32 = 10_000;

/// Why world assembly failed.
#[derive(Debug, PartialEq, Eq, Clone, Copy)]
pub enum WorldBuildError {
    /// Terrain generation rejected the noise source's output.
    Generation(WorldGenError),
    /// No habitable base location turned up within the retry bound.
    Placement(PlacementError),
}

/// A fully assembled world, ready for the simulation loop.
pub struct World {
    pub map: HeightField,
    pub bases: BaseLocations,
    pub fog: FogGrid,
    pub treasure_spots: Vec<(u32, u32)>,
}

/// A well-assembled world: sound terrain, bases on habitable ground,
/// fog covering the whole map, and every treasure spot on the map.
pub open spec fn world_wf(w: World) -> bool {
    &&& w.map.wf()
    &&& placement_ok(w.map, w.bases)
    &&& w.fog.wf()
    &&& w.fog.spec_width() == w.map.spec_width()
    &&& w.fog.spec_height() == w.map.spec_height()
    &&& 200 <= w.treasure_spots@.len() < 500
    &&& forall|i: int|
        0 <= i < w.treasure_spots@.len() ==> (#[trigger] w.treasure_spots@[i]).0
            < w.map.spec_width() && w.treasure_spots@[i].1 < w.map.spec_height()
}

/// Assemble a world from one seed: generate and erode the terrain,
/// place the player and rival bases, open the fog once around every
/// base, and scatter the treasure sites.
///
/// Succeeds exactly when terrain generation accepts the noise output
/// and placement finds habitable ground within its retry bound; the
/// error says which stage refused, and when the generated terrain's
/// whole inner sampling window is habitable middle ground, assembly is
/// owed success. The terrain is a pure function of the seed and
/// parameters, so the same seed rebuilds the identical world.
pub fn build_world(seed: u32, extent: usize, rain: u32, rounds: u32) -> (r: Result<
    World,
    WorldBuildError,
>)
    requires
        10 <= extent,
        extent * extent <= MAX_CELLS,
        rain <= crate::erosion::MAX_RAIN,
        rounds <= crate::erosion::MAX_ROUNDS,
    ensures
        r matches Ok(w) ==> ({
            &&& world_wf(w)
            &&& w.map.spec_width() == extent
            &&& w.map.spec_height() == extent
            &&& w.map@ == spec_generate_cells(
                spec_decode_grid(noise_grid(seed, extent, extent)),
                extent as int,
                extent as int,
                rain as int,
                rounds as nat,
            )
            &&& square_visible(
                w.fog,
                w.bases.player.0 as int,
                w.bases.player.1 as int,
                BASE_REVEAL_RADIUS as int,
            )
            &&& forall|i: int|
                0 <= i < w.bases.rivals@.len() ==> square_visible(
                    w.fog,
                    (#[trigger] w.bases.rivals@[i]).0 as int,
                    w.bases.rivals@[i].1 as int,
                    BASE_REVEAL_RADIUS as int,
                )
        }),
        r matches Err(e) ==> (e matches WorldBuildError::Generation(_) && !noise_in_domain(
            spec_decode_grid(noise_grid(seed, extent, extent)),
        ) || e matches WorldBuildError::Placement(_)),
        noise_in_domain(spec_decode_grid(noise_grid(seed, extent, extent)))
            && inner_window_player_ok(
            spec_generate_cells(
                spec_decode_grid(noise_grid(seed, extent, extent)),
                extent as int,
                extent as int,
                rain as int,
                rounds as nat,
            ),
            extent as int,
            extent as int,
        ) ==> r is Ok,
{
    proof {
        assert(extent < 32_767) by (nonlinear_arith)
            requires
                10 <= extent,
                extent * extent <= MAX_CELLS,
                MAX_CELLS == 0x100_0000,
        ;
    }
    let map = match generate(seed, extent, extent, rain, rounds) {
        Ok(m) => m,
        Err(e) => {
            return Err(WorldBuildError::Generation(e));
        },
    };
    let bases = match place_towers(&map, seed) {
        Ok(b) => b,
        Err(e) => {
            return Err(WorldBuildError::Placement(e));
        },
    };
    let mut fog = FogGrid::new_hidden(extent, extent);
    // The fog opens once per base, player and rivals alike; earlier
    // reveals survive the later ones, since reveals only add.
    fog.reveal_square(bases.player.0, bases.player.1, BASE_REVEAL_RADIUS);
    let rival_count = bases.rivals.len();
    let mut i: usize = 0;
    while i < rival_count
        invariant
            0 <= i <= rival_count,
            rival_count == bases.rivals@.len(),
            fog.wf(),
            fog.spec_width() == extent,
            fog.spec_height() == extent,
            square_visible(
                fog,
                bases.player.0 as int,
                bases.player.1 as int,
                BASE_REVEAL_RADIUS as int,
            ),
            forall|j: int|
                0 <= j < i ==> square_visible(
                    fog,
                    (#[trigger] bases.rivals@[j]).0 as int,
                    bases.rivals@[j].1 as int,
                    BASE_REVEAL_RADIUS as int,
                ),
        decreases rival_count - i,
    {
        let (rx, ry) = bases.rivals[i];
        let ghost fpre = fog;
        fog.reveal_square(rx, ry, BASE_REVEAL_RADIUS);
        proof {
            lemma_square_visible_monotone(
                fpre,
                fog,
                bases.player.0 as int,
                bases.player.1 as int,
                BASE_REVEAL_RADIUS as int,
            );
            assert forall|j: int| 0 <= j < i + 1 implies square_visible(
                fog,
                (#[trigger] bases.rivals@[j]).0 as int,
                bases.rivals@[j].1 as int,
                BASE_REVEAL_RADIUS as int,
            ) by {
                if j < i {
                    lemma_square_visible_monotone(
                        fpre,
                        fog,
                        bases.rivals@[j].0 as int,
                        bases.rivals@[j].1 as int,
                        BASE_REVEAL_RADIUS as int,
                    );
                }
            }
        }
        i = i + 1;
    }
    proof {
        assert(extent as u32 as int == extent as int) by (nonlinear_arith)
            requires
                10 <= extent,
                extent * extent <= MAX_CELLS,
                MAX_CELLS == 0x100_0000,
        ;
    }
    let treasure_spots = create_treasure_spots(seed, extent as u32, extent as u32);
    Ok(World { map, bases, fog, treasure_spots })
}

} // verus!
