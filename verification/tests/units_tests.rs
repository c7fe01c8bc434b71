use ldjam55::treasure::{Boon, BoonOperation, BoonType};
use ldjam55::units::{
    apply_boon, apply_boons, record_boons, BoonAccumulator, Unit, UnitType,
};

#[test]
fn unit_templates() {
    let s = Unit::scout();
    assert_eq!(s.members, 5);
    assert_eq!(s.health_per_member, 50);
    assert_eq!(s.overworld_speed, 20);
    assert_eq!(s.excavation_speed, 6);
    assert_eq!(s.visibility, 8);
    assert_eq!(s.total_health, 250, "members times per-member health");
    assert_eq!(s.current_health, 250);
    let e = Unit::excavation();
    assert_eq!(e.members, 7);
    assert_eq!(e.excavation_speed, 20);
    assert_eq!(e.total_health, 525);
    let a = Unit::attack();
    assert_eq!(a.members, 20);
    assert_eq!(a.damage, 15);
    assert_eq!(a.total_health, 1200);
}

#[test]
fn unit_type_sprite_indices() {
    assert_eq!(UnitType::Scout.index(), 8);
    assert_eq!(UnitType::Excavation.index(), 9);
    assert_eq!(UnitType::Attack.index(), 10);
}

fn test_unit() -> Unit {
    Unit {
        unit_type: UnitType::Scout,
        health_per_member: 50,
        overworld_speed: 20,
        excavation_speed: 6,
        battle_speed: 10,
        members: 2,
        visibility: 8,
        total_health: 100,
        current_health: 60,
        damage: 4,
    }
}

#[test]
fn health_multiply_boon_fully_heals() {
    // A unit at 60 of 100 health takes a x3 Health boon: per-member
    // health 150, total 300, and a full heal to 300.
    let mut u = test_unit();
    let respawn = apply_boon(
        &mut u,
        &Boon { category: BoonType::Health, operation: BoonOperation::Multiply, value: 3 },
    );
    assert!(!respawn);
    assert_eq!(u.health_per_member, 150);
    assert_eq!(u.total_health, 300);
    assert_eq!(u.current_health, 300);
}

#[test]
fn health_add_boon_preserves_the_deficit() {
    let mut u = test_unit();
    let respawn = apply_boon(
        &mut u,
        &Boon { category: BoonType::Health, operation: BoonOperation::Add, value: 10 },
    );
    assert!(!respawn);
    assert_eq!(u.health_per_member, 60);
    assert_eq!(u.total_health, 120);
    // The 40-point deficit survives: 60 + (120 - 100) = 80.
    assert_eq!(u.current_health, 80);
}

#[test]
fn members_boon_requests_a_respawn() {
    let mut u = test_unit();
    let respawn = apply_boon(
        &mut u,
        &Boon { category: BoonType::Members, operation: BoonOperation::Add, value: 3 },
    );
    assert!(respawn, "new members need their sprites spawned");
    assert_eq!(u.members, 5);
    assert_eq!(u.total_health, 250);
    assert_eq!(u.current_health, 60 + (250 - 100));
}

#[test]
fn stat_boons_saturate_at_the_storage_width() {
    let mut u = test_unit();
    u.damage = 200;
    apply_boon(
        &mut u,
        &Boon { category: BoonType::Damage, operation: BoonOperation::Multiply, value: 2 },
    );
    assert_eq!(u.damage, 255, "saturates instead of wrapping");
    apply_boon(
        &mut u,
        &Boon { category: BoonType::Visibility, operation: BoonOperation::Add, value: 9 },
    );
    assert_eq!(u.visibility, 17);
}

#[test]
fn templates_keep_the_derived_health_invariant() {
    // A reward that touches neither Health nor Members leaves the
    // derived invariant total == members * per-member intact on every
    // template.
    for mut u in [Unit::scout(), Unit::excavation(), Unit::attack()] {
        assert_eq!(u.total_health, u.members as u32 * u.health_per_member as u32);
        apply_boon(
            &mut u,
            &Boon { category: BoonType::Damage, operation: BoonOperation::Add, value: 5 },
        );
        assert_eq!(u.total_health, u.members as u32 * u.health_per_member as u32);
    }
}

#[test]
fn boon_bundles_apply_in_order() {
    let mut u = test_unit();
    let boons = vec![
        Boon { category: BoonType::OverworldSpeed, operation: BoonOperation::Add, value: 5 },
        Boon { category: BoonType::OverworldSpeed, operation: BoonOperation::Multiply, value: 2 },
    ];
    let respawn = apply_boons(&mut u, &boons);
    assert!(!respawn);
    assert_eq!(u.overworld_speed, 50, "(20 + 5) * 2");
}

#[test]
fn accumulator_slots_stay_isolated() {
    // Recording the same reward for two different slots touches only
    // those slots' buckets: no cross-contamination.
    let mut accs: Vec<BoonAccumulator> = (0..8).map(|_| BoonAccumulator::new()).collect();
    let bundle = vec![
        Boon { category: BoonType::Health, operation: BoonOperation::Add, value: 30 },
        Boon { category: BoonType::Damage, operation: BoonOperation::Multiply, value: 2 },
    ];
    record_boons(&mut accs, 2, &bundle);
    record_boons(&mut accs, 5, &bundle);
    for (i, acc) in accs.iter().enumerate() {
        let total = acc.health.len()
            + acc.visibility.len()
            + acc.overworld_speed.len()
            + acc.excavation_speed.len()
            + acc.battle_speed.len()
            + acc.damage.len()
            + acc.members.len();
        if i == 2 || i == 5 {
            assert_eq!(acc.health, vec![(BoonOperation::Add, 30)]);
            assert_eq!(acc.damage, vec![(BoonOperation::Multiply, 2)]);
            assert_eq!(total, 2);
        } else {
            assert_eq!(total, 0, "slot {i} untouched");
        }
    }
    // Recording twice for one slot appends in order.
    record_boons(&mut accs, 2, &bundle);
    assert_eq!(
        accs[2].health,
        vec![(BoonOperation::Add, 30), (BoonOperation::Add, 30)]
    );
}
