use ldjam55::fog::FogGrid;
use ldjam55::sim::{
    confirm_deploy, dig_eligibility, dig_tick, integrate_movement, isqrt, jitter_units,
    members_to_spawn, move_unit, order_move, prevent_collision, resolve_dig, separate_pair,
    simulation_tick, sync_tile, tile_of_position, ActiveUnit, DigOutcome, Digging, GameState,
    MoveOrder,
};
use ldjam55::treasure::{Boon, BoonOperation, BoonType, Treasure, TreasureLocs};
use ldjam55::units::{Unit, UnitEntry};

fn reward(slot: u8) -> Treasure {
    Treasure {
        score: 120,
        boons: vec![Boon { category: BoonType::Health, operation: BoonOperation::Add, value: 30 }],
        summon: None,
        slot,
    }
}

#[test]
fn isqrt_exact_values() {
    assert_eq!(isqrt(0), 0);
    assert_eq!(isqrt(1), 1);
    assert_eq!(isqrt(16), 4);
    assert_eq!(isqrt(24), 4);
    assert_eq!(isqrt(25), 5);
    assert_eq!(isqrt(u64::MAX as u128), 4_294_967_295);
}

#[test]
fn dig_completes_on_the_exact_tick() {
    // Excavation speed 20, five one-second ticks: progress reaches
    // exactly 100 and resolution triggers on that tick, not after.
    let mut d = Digging::new();
    for tick in 1..=5u64 {
        let done = dig_tick(&mut d, 20, 1000);
        assert_eq!(d.progress, 20_000 * tick);
        if tick < 5 {
            assert!(!done, "tick {tick} must not complete");
        } else {
            assert!(done, "the fifth tick completes at exactly 100");
        }
    }
    assert_eq!(d.progress, 100_000);
}

#[test]
fn early_treasures_land_on_the_defense_army() {
    // The first three treasures found are forced onto slot 0; the
    // fourth keeps its generated affinity.
    let mut state = GameState::new();
    let mut sites = TreasureLocs {
        locs: vec![(1, 1), (2, 2), (3, 3), (4, 4)],
        treasures: vec![reward(5), reward(5), reward(5), reward(5)],
    };
    let mut unit = Unit::scout();
    for (i, tile) in [(1, 1), (2, 2), (3, 3), (4, 4)].into_iter().enumerate() {
        let out = resolve_dig(&mut state, &mut sites, &mut unit, 7, tile);
        let expected_slot = if i < 3 { 0 } else { 5 };
        assert_eq!(
            out,
            DigOutcome::Claimed { slot: expected_slot, score: 120, respawn_members: false }
        );
        assert_eq!(state.treasures_found[i].slot, expected_slot);
    }
    assert_eq!(state.score, 4 * 120);
    assert_eq!(sites.remaining(), 0);
    // The boons landed in the claimed slots' accumulators only.
    assert_eq!(state.unit_boons[0].health.len(), 3);
    assert_eq!(state.unit_boons[5].health.len(), 1);
    for i in [1, 2, 3, 4, 6, 7] {
        assert_eq!(state.unit_boons[i].health.len(), 0);
    }
}

#[test]
fn dig_on_an_empty_tile_is_a_no_op() {
    let mut state = GameState::new();
    let mut sites = TreasureLocs { locs: vec![], treasures: vec![] };
    let mut unit = Unit::scout();
    let before = unit;
    let out = resolve_dig(&mut state, &mut sites, &mut unit, 0, (5, 5));
    assert_eq!(out, DigOutcome::NoTreasure);
    assert_eq!(state.score, 0);
    assert!(state.treasures_found.is_empty());
    assert_eq!(unit, before);
}

#[test]
fn digging_unit_in_the_claimed_slot_takes_the_boons() {
    let mut state = GameState::new();
    let mut sites =
        TreasureLocs { locs: vec![(1, 1)], treasures: vec![reward(3)] };
    let mut unit = Unit::scout();
    let hpm_before = unit.health_per_member;
    // First find is forced onto slot 0, and the digging unit sits in
    // slot 0, so the Health boon applies immediately.
    let out = resolve_dig(&mut state, &mut sites, &mut unit, 0, (1, 1));
    assert_eq!(out, DigOutcome::Claimed { slot: 0, score: 120, respawn_members: false });
    assert_eq!(unit.health_per_member, hpm_before + 30);
    assert_eq!(unit.total_health, unit.members as u32 * unit.health_per_member as u32);
}

#[test]
fn movement_advances_towards_the_destination() {
    // 10 tiles to the east, speed 10, one second: 10 * 20 * 1000
    // milli-pixels of travel along x.
    let pos = (0i64, 0i64);
    let dest = (320_000i64, 0i64);
    let np = integrate_movement(pos, dest, 10, 1000);
    assert_eq!(np, (200_000, 0));
    // A diagonal splits the step between the axes.
    let np = integrate_movement((0, 0), (300_000, 400_000), 10, 1000);
    assert_eq!(np.0, 300_000 * 200_000 / 500_000);
    assert_eq!(np.1, 400_000 * 200_000 / 500_000);
    // Already at the destination point: no movement.
    assert_eq!(integrate_movement((7, 9), (7, 9), 10, 1000), (7, 9));
}

#[test]
fn movement_order_lifecycle() {
    // Orders land only on the selected slot.
    let order = MoveOrder { world: (320_000, 0), tile: (10, 0) };
    assert!(order_move(Some(2), 3, (0, 0), order).is_none());
    assert!(order_move(None, 3, (0, 0), order).is_none());
    let ud = order_move(Some(3), 3, (0, 0), order).expect("selected slot takes the order");
    assert_eq!(ud.destination, (320_000, 0));
    assert_eq!(ud.destination_tile, (10, 0));
    assert_eq!(ud.direction, (1000, 0));

    // Under way: the unit moves and keeps the order.
    let (np, nm) = move_unit((0, 0), (0, 0), &ud, 10, 1000);
    assert_eq!(np, (200_000, 0));
    assert!(nm.is_some());

    // On reaching the destination tile the order is dropped.
    let (fp, done) = move_unit(np, (10, 0), &nm.unwrap(), 10, 1000);
    assert_eq!(fp, np, "an arrived unit stays put");
    assert!(done.is_none());
}

#[test]
fn tile_synchronisation() {
    assert_eq!(tile_of_position((0, 0), 100, 100), Some((0, 0)));
    assert_eq!(tile_of_position((200_000, 65_000), 100, 100), Some((6, 2)));
    assert_eq!(tile_of_position((-1, 0), 100, 100), None);
    assert_eq!(tile_of_position((3_200_000, 0), 100, 100), None);
    // Off-map positions keep the previous tile.
    assert_eq!(sync_tile((-5, -5), (3, 4), 100, 100), (3, 4));
    assert_eq!(sync_tile((32_000, 0), (3, 4), 100, 100), (1, 0));
}

#[test]
fn collision_separation_is_stable() {
    let a = (0i64, 0i64);
    let b = (3_000i64, 5_000i64);
    let n1 = separate_pair(a, 11, b, 22);
    let n2 = separate_pair(a, 11, b, 22);
    assert_eq!(n1, n2, "the same pair separates the same way every tick");
    assert_eq!((n1.0 - b.0).abs(), 100, "x axis nudged");
    assert_eq!((n1.1 - b.1).abs(), 100, "y axis nudged");
    // Far apart: untouched.
    assert_eq!(separate_pair(a, 11, (50_000, 50_000), 22), (50_000, 50_000));
    // Only the too-close axis moves.
    let n3 = separate_pair(a, 11, (3_000, 40_000), 22);
    assert_eq!((n3.0 - 3_000).abs(), 100);
    assert_eq!(n3.1, 40_000);

    let mut positions = vec![(0i64, 0i64), (3_000i64, 5_000i64), (50_000i64, 50_000i64)];
    let ids = vec![11u64, 22, 33];
    prevent_collision(&mut positions, &ids);
    assert_eq!(positions.len(), 3);
    assert_eq!(positions[0], (0, 0), "the first of a pair never moves");
    assert_eq!(positions[2], (50_000, 50_000), "distant members untouched");
    assert_eq!(positions[1], n1);
}

#[test]
fn jitter_walks_strays_back() {
    let mut rng = wyrand::WyRand::new(99);
    let mut positions = vec![(30_000i64, -30_000i64), (0i64, 0i64)];
    jitter_units(&mut rng, &mut positions);
    assert_eq!(positions[0], (29_850, -29_850), "strays walk straight back");
    assert!((positions[1].0).abs() <= 150 && (positions[1].1).abs() <= 150);
}

#[test]
fn deploy_bookkeeping() {
    let mut state = GameState::new();
    state.player_tower_location = (10, 10);
    let mut u = confirm_deploy(&mut state, 0, Unit::scout(), 77).expect("bay 0 exists");
    assert_eq!(state.units[0], UnitEntry::Summoned(77));
    assert_eq!(u.tile, (10, 9), "one tile below the tower");
    assert_eq!(u.pos, (10 * 32_000 + 16_000, 9 * 32_000 + 16_000));
    assert!(u.uninitialized.is_some());
    assert_eq!(members_to_spawn(u.unit.members, 0), 5);
    // The spawn-complete signal is consumed once.
    u.complete_spawn();
    assert!(u.uninitialized.is_none());
    // A bay index past the bar is silently ignored.
    assert!(confirm_deploy(&mut state, 9, Unit::scout(), 78).is_none());

    assert_eq!(members_to_spawn(5, 0), 5);
    assert_eq!(members_to_spawn(5, 3), 2);
    assert_eq!(members_to_spawn(5, 7), 0);
}

#[test]
fn a_full_tick_digs_and_reveals() {
    let mut state = GameState::new();
    let mut sites = TreasureLocs { locs: vec![(1, 0)], treasures: vec![reward(2)] };
    let mut fog = FogGrid::new_hidden(32, 32);
    let mut unit = ActiveUnit::deploy(1, 0, Unit::excavation(), (48_000, 8_000), (1, 0));
    // Standing on the site makes the unit eligible; start the dig.
    unit.can_dig = dig_eligibility(&sites, unit.tile, unit.digging.is_some());
    assert!(unit.can_dig.is_some());
    unit.start_dig();
    assert!(unit.digging.is_some());
    let mut units = vec![unit];
    let mut visuals: Vec<(i64, i64)> = vec![];
    let ids: Vec<u64> = vec![];
    // Excavation speed 20: five one-second ticks complete the dig.
    for _ in 0..5 {
        simulation_tick(
            &mut state, &mut sites, &mut fog, &mut units, &mut visuals, &ids, None, None, 32, 32,
            1000,
        );
    }
    assert_eq!(state.score, 120, "the treasure was claimed");
    assert_eq!(state.treasures_found.len(), 1);
    assert_eq!(sites.remaining(), 0);
    assert!(units[0].digging.is_none());
    // Fog opened around the unit (excavation visibility 3).
    assert_eq!(fog.visible_at(1, 0), Some(true));
    assert_eq!(fog.visible_at(4, 3), Some(true));
    assert_eq!(fog.visible_at(20, 20), Some(false));
    // Once visible, tiles stay visible through later ticks.
    simulation_tick(
        &mut state, &mut sites, &mut fog, &mut units, &mut visuals, &ids, None, None, 32, 32,
        1000,
    );
    assert_eq!(fog.visible_at(1, 0), Some(true));
}

#[test]
fn fog_reveals_are_monotone() {
    let mut fog = FogGrid::new_hidden(16, 16);
    assert_eq!(fog.visible_at(5, 5), Some(false));
    fog.reveal_square(5, 5, 2);
    assert_eq!(fog.visible_at(5, 5), Some(true));
    assert_eq!(fog.visible_at(3, 3), Some(true));
    assert_eq!(fog.visible_at(7, 7), Some(true));
    assert_eq!(fog.visible_at(2, 3), Some(false), "outside the square");
    assert_eq!(fog.visible_at(20, 3), None, "off the map");
    // A later reveal elsewhere never hides what was seen.
    fog.reveal_square(12, 12, 1);
    assert_eq!(fog.visible_at(5, 5), Some(true));
    assert_eq!(fog.visible_at(3, 3), Some(true));
    // Reveals near the edge skip out-of-bounds tiles silently.
    fog.reveal_square(0, 0, 3);
    assert_eq!(fog.visible_at(0, 0), Some(true));
}

#[test]
fn movement_in_a_tick_reaims_every_step() {
    let mut state = GameState::new();
    let mut sites = TreasureLocs { locs: vec![], treasures: vec![] };
    let mut fog = FogGrid::new_hidden(32, 32);
    let unit = ActiveUnit::deploy(1, 3, Unit::scout(), (0, 0), (0, 0));
    let mut units = vec![unit];
    let mut visuals: Vec<(i64, i64)> = vec![];
    let ids: Vec<u64> = vec![];
    let order = MoveOrder { world: (160_000, 0), tile: (5, 0) };
    // The order lands only when slot 3 is selected.
    simulation_tick(
        &mut state, &mut sites, &mut fog, &mut units, &mut visuals, &ids, Some(2), Some(order),
        32, 32, 1000,
    );
    assert!(units[0].movement.is_none());
    assert_eq!(units[0].pos, (0, 0));
    simulation_tick(
        &mut state, &mut sites, &mut fog, &mut units, &mut visuals, &ids, Some(3), Some(order),
        32, 32, 1000,
    );
    // Scout speed 20: 400 milli-pixels... 20 * 20 * 1000 = 400_000,
    // which overshoots the 160_000 destination in one tick.
    assert_eq!(units[0].pos.0, 400_000);
    assert_eq!(units[0].tile, (12, 0));
    // Next tick the unit turns back towards the destination.
    simulation_tick(
        &mut state, &mut sites, &mut fog, &mut units, &mut visuals, &ids, None, None, 32, 32,
        1000,
    );
    assert_eq!(units[0].pos.0, 0, "overshoot swings back");
    // Eventually a tick lands it on the destination tile and the
    // order is dropped.
    let mut dropped = false;
    for _ in 0..10 {
        simulation_tick(
            &mut state, &mut sites, &mut fog, &mut units, &mut visuals, &ids, None, None, 32, 32,
            200,
        );
        if units[0].movement.is_none() {
            dropped = true;
            break;
        }
    }
    assert!(dropped, "the unit reaches tile (5, 0) and goes idle");
    assert_eq!(units[0].tile, (5, 0));
}
