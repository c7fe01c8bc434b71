use ldjam55::rng::{derive_placement_seed, entity_hash, session_seed};
use ldjam55::treasure::{
    create_treasure_spots, generate_reward, Boon, BoonOperation, BoonType, Treasure, TreasureLocs,
};
use rand_distr::Distribution;

fn check_reward(t: &Treasure, raw: u64) {
    assert!(t.slot < 8);
    match t.summon {
        Some(_) => {
            assert!(t.boons.is_empty());
            assert_eq!(t.score, 300);
        }
        None => {
            let clamped = raw.clamp(1, 6) as usize;
            assert_eq!(t.boons.len(), clamped);
            let mut expected: u16 = 100;
            for b in t.boons.iter() {
                let (lo, hi) = match b.operation {
                    BoonOperation::Add => {
                        expected += 20;
                        b.category.range_add()
                    }
                    BoonOperation::Multiply => {
                        expected += 60;
                        b.category.range_multiply()
                    }
                };
                assert!(lo <= b.value && b.value < hi, "magnitude in range");
            }
            assert_eq!(t.score, expected, "score mirrors the boons");
            assert!(t.score >= 100);
        }
    }
}

#[test]
fn rewards_satisfy_the_score_law() {
    let mut rng = wyrand::WyRand::new(12345);
    for raw in [0u64, 1, 2, 3, 6, 7, 100] {
        let t = generate_reward(&mut rng, raw);
        check_reward(&t, raw);
    }
}

#[test]
fn rewards_from_the_poisson_stream() {
    // The host's flow: one Poisson draw from the shared stream right
    // before each reward.
    let mut rng = wyrand::WyRand::new(session_seed(442));
    let dist = rand_distr::Poisson::new(1.4f32).expect("positive mean");
    let mut saw_summon = false;
    let mut saw_multiply = false;
    for _ in 0..300 {
        let raw = dist.sample(&mut rng) as u64;
        let t = generate_reward(&mut rng, raw);
        check_reward(&t, raw);
        saw_summon = saw_summon || t.summon.is_some();
        saw_multiply =
            saw_multiply || t.boons.iter().any(|b| b.operation == BoonOperation::Multiply);
    }
    assert!(saw_summon, "about 15 of 300 rewards summon");
    assert!(saw_multiply, "about a tenth of boons multiply");
}

#[test]
fn reward_generation_is_deterministic() {
    let mut rng1 = wyrand::WyRand::new(7);
    let mut rng2 = wyrand::WyRand::new(7);
    for raw in 0..20u64 {
        let a = generate_reward(&mut rng1, raw);
        let b = generate_reward(&mut rng2, raw);
        assert_eq!(a.score, b.score);
        assert_eq!(a.slot, b.slot);
        assert_eq!(a.boons.len(), b.boons.len());
        assert_eq!(a.summon.is_some(), b.summon.is_some());
    }
}

#[test]
fn treasure_spots_cover_the_map() {
    let locs = create_treasure_spots(442, 1000, 1000);
    assert!(locs.len() >= 200 && locs.len() < 500);
    for &(x, y) in locs.iter() {
        assert!(x < 1000 && y < 1000);
    }
    // Seeded: the same seed scatters the same sites.
    assert_eq!(locs, create_treasure_spots(442, 1000, 1000));
}

fn small_reward(slot: u8) -> Treasure {
    Treasure {
        score: 120,
        boons: vec![Boon { category: BoonType::Health, operation: BoonOperation::Add, value: 30 }],
        summon: None,
        slot,
    }
}

#[test]
fn registry_lookup_and_removal() {
    let mut sites = TreasureLocs {
        locs: vec![(1, 1), (2, 2), (1, 1)],
        treasures: vec![small_reward(1), small_reward(2), small_reward(3)],
    };
    assert_eq!(sites.remaining(), 3);
    assert!(sites.contains_site(1, 1));
    assert!(sites.contains_site(2, 2));
    assert!(!sites.contains_site(3, 3));
    assert_eq!(sites.find_site(1, 1), Some(0));
    assert_eq!(sites.find_site(2, 2), Some(1));
    assert_eq!(sites.find_site(9, 9), None);

    // Taking the first site at a tile removes exactly that pair.
    let t = sites.take_first_site(1, 1).expect("site exists");
    assert_eq!(t.slot, 1);
    assert_eq!(sites.remaining(), 2);
    assert!(sites.contains_site(1, 1), "the duplicate remains");

    // Removing all sites at the tile clears the duplicate too, in
    // step with its reward.
    sites.remove_sites_at(1, 1);
    assert_eq!(sites.remaining(), 1);
    assert!(!sites.contains_site(1, 1));
    assert_eq!(sites.find_site(2, 2), Some(0));
    assert_eq!(sites.treasures[0].slot, 2, "rewards stayed paired");
}

#[test]
fn placement_seed_is_the_xxh3_digest() {
    // The library's sub-seed derivation equals the hash crate run
    // directly over the same bytes.
    for seed in [0u32, 1, 442, u32::MAX] {
        assert_eq!(
            derive_placement_seed(seed),
            xxhash_rust::xxh3::xxh3_64(&seed.to_le_bytes())
        );
    }
}

#[test]
fn entity_hash_is_the_xxh3_digest() {
    for id in [0u64, 5, 442, u64::MAX] {
        assert_eq!(entity_hash(id), xxhash_rust::xxh3::xxh3_64(&id.to_le_bytes()));
    }
}

#[test]
fn session_seed_packs_both_halves() {
    assert_eq!(session_seed(442), 442u64 | (442u64 << 32));
    assert_eq!(session_seed(0), 0);
    assert_eq!(session_seed(u32::MAX), u64::MAX);
}
