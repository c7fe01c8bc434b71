use ldjam55::placement::{place_towers, PlacementError};
use ldjam55::terrain::HeightField;
use ldjam55::world::{build_world, GameConfig, WorldBuildError, DEFAULT_SEED};

#[test]
fn default_config_seed() {
    let c = GameConfig::default();
    assert_eq!(c.seed, DEFAULT_SEED);
    assert_eq!(DEFAULT_SEED, 442);
}

#[test]
fn placement_respects_the_habitability_bands() {
    let world = build_world(442, 64, 10_000, 2).expect("world builds");
    let map = &world.map;
    let (px, py) = world.bases.player;
    let ph = map.at(px as usize, py as usize);
    assert!(
        ph > 100_000 && ph < 700_000,
        "player base height strictly between 0.1 and 0.7, got {ph}"
    );
    // The player base sits in the inner window: a fifth of the extent
    // in from each edge.
    assert!((12..52).contains(&px) && (12..52).contains(&py));
    assert!(world.bases.rivals.len() >= 10 && world.bases.rivals.len() < 20);
    for &(rx, ry) in world.bases.rivals.iter() {
        let rh = map.at(rx as usize, ry as usize);
        assert!(rh > 100_000, "rival base height strictly above 0.1, got {rh}");
        assert!((6..58).contains(&rx) && (6..58).contains(&ry));
    }
}

#[test]
fn placement_fails_without_habitable_ground() {
    // An all-ocean map rejects every candidate; placement must report
    // failure instead of hanging.
    let flat = HeightField::new(16, 16, vec![0u32; 256]);
    assert!(matches!(
        place_towers(&flat, 442),
        Err(PlacementError::NoValidPlacement)
    ));
}

#[test]
fn placement_succeeds_on_a_fully_habitable_window() {
    // Every cell is habitable middle ground, so placement is owed
    // success whatever the seed draws.
    let mid = HeightField::new(32, 32, vec![400_000u32; 1024]);
    for seed in [0u32, 1, 442, 31337] {
        let b = place_towers(&mid, seed).expect("success owed on an all-valid window");
        assert!(b.rivals.len() >= 10 && b.rivals.len() < 20);
    }
}

#[test]
fn assembled_world_is_consistent() {
    let world = build_world(7, 128, 10_000, 2).expect("world builds");
    assert_eq!(world.map.width(), 128);
    assert_eq!(world.map.height(), 128);
    assert_eq!(world.fog.width(), 128);
    assert_eq!(world.fog.height(), 128);
    assert!(world.treasure_spots.len() >= 200 && world.treasure_spots.len() < 500);
    for &(x, y) in world.treasure_spots.iter() {
        assert!(x < 128 && y < 128);
    }
    // The fog opened once around every base.
    let (px, py) = world.bases.player;
    assert_eq!(world.fog.visible_at(px, py), Some(true));
    assert_eq!(world.fog.visible_at(px - 6, py), Some(true));
    for &(rx, ry) in world.bases.rivals.iter() {
        assert_eq!(world.fog.visible_at(rx, ry), Some(true));
    }
    // The corners stay hidden: every base sits at least a tenth of
    // the extent in from each edge, beyond the reveal radius.
    assert_eq!(world.fog.visible_at(0, 0), Some(false));
    assert_eq!(world.fog.visible_at(127, 127), Some(false));
}

#[test]
fn world_building_reports_the_failing_stage() {
    // A 10x10 world generated from real noise still has to place 10
    // rival bases inside an 8x8 inner window; depending on terrain it
    // either builds whole or names the stage that refused. Either way
    // it never hands out a partial world.
    match build_world(442, 10, 10_000, 2) {
        Ok(w) => {
            assert_eq!(w.map.width(), 10);
            assert!(w.treasure_spots.len() >= 200);
        }
        Err(WorldBuildError::Placement(e)) => {
            assert_eq!(e, PlacementError::NoValidPlacement);
        }
        Err(WorldBuildError::Generation(e)) => {
            panic!("the noise source stays in domain: {e:?}");
        }
    }
}
