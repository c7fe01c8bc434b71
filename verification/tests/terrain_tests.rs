use ldjam55::erosion::{erode, hydraulic_erosion, settle_rivers};
use ldjam55::fixed::sigmoid;
use ldjam55::terrain::{
    decode_micro, generate, generate_from_noise, mean_height, recenter_heights, squash_heights,
    tile_texture_index, WorldGenError,
};
use noise::utils::NoiseMapBuilder;

#[test]
fn sigmoid_midpoint_and_symmetry() {
    assert_eq!(sigmoid(0), 500_000);
    for v in [1, 5, 123_456, 1_000_000, 5_000_000, 40_000_000i64] {
        let pos = sigmoid(v);
        let neg = sigmoid(-v);
        assert_eq!(pos + neg, 1_000_000, "logistic symmetry at {v}");
        assert!(pos >= 500_000 && pos <= 1_000_000);
        assert!(neg >= 0 && neg <= 500_000);
    }
    // Monotone spot checks.
    assert!(sigmoid(100_000) > sigmoid(0));
    assert!(sigmoid(2_000_000) > sigmoid(1_000_000));
}

#[test]
fn decode_micro_reads_double_bits() {
    assert_eq!(decode_micro(0.5f64.to_bits()), 500_000);
    assert_eq!(decode_micro((-0.5f64).to_bits()), -500_000);
    assert_eq!(decode_micro(1.0f64.to_bits()), 1_000_000);
    assert_eq!(decode_micro(0.0f64.to_bits()), 0);
    assert_eq!(decode_micro(0.123456f64.to_bits()), 123_455); // rounded towards zero
    assert_eq!(decode_micro(1000.0f64.to_bits()), 32_000_000); // out-of-domain marker
    assert_eq!(decode_micro((-1000.0f64).to_bits()), -32_000_000);
}

#[test]
fn mean_and_recenter() {
    let cells: Vec<i64> = vec![0, 0, 0, 0];
    assert_eq!(mean_height(&cells), 0);
    // Mean far below the band: every cell shifts by exactly 0.5.
    let shifted = recenter_heights(cells);
    assert_eq!(shifted, vec![500_000, 500_000, 500_000, 500_000]);

    // Mean already in the band: untouched.
    let cells: Vec<i64> = vec![400_000, 600_000];
    let same = recenter_heights(cells.clone());
    assert_eq!(same, cells);

    let cells: Vec<i64> = vec![100_000, 200_000, 350_000];
    assert_eq!(mean_height(&cells), 216_666);
}

#[test]
fn squash_keeps_in_range_cells_and_corrects_the_rest() {
    let out = squash_heights(vec![-5_000_000, 0, 500_000, 1_000_000, 2_000_000]);
    assert_eq!(out[1], 0);
    assert_eq!(out[2], 500_000);
    assert_eq!(out[3], 1_000_000);
    for &v in out.iter() {
        assert!(v <= 1_000_000, "range invariant after squashing");
    }
    // Out-of-range cells went through the logistic, not a clamp.
    assert!(out[0] > 0 || out[0] == 0); // sigmoid(-5) ~ 0.0067
    assert_eq!(out[0] as i64, sigmoid(-5_000_000));
    assert_eq!(out[4] as i64, sigmoid(2_000_000));
    assert!(out[4] < 1_000_000);
}

#[test]
fn erosion_flat_field_converges_to_half_average() {
    // A flat field of 0.5, one round, rainfall 0.01: every cell becomes
    // ((0.5 + 0.01) + 0.5) / 2 = 0.505.
    let cells: Vec<u32> = vec![500_000; 64];
    let eroded = erode(cells, 8, 8, 10_000, 1);
    for &v in eroded.iter() {
        assert_eq!(v, 505_000);
    }
    // The settling pass leaves an all-equal field untouched.
    let settled = settle_rivers(eroded, 8, 8);
    for &v in settled.iter() {
        assert_eq!(v, 505_000);
    }
    // And the combined pass agrees.
    let combined = hydraulic_erosion(vec![500_000; 64], 8, 8, 10_000, 1);
    assert_eq!(combined, vec![505_000; 64]);
}

#[test]
fn erosion_pulls_towards_lowest_neighbour() {
    // A single low cell drains its neighbours.
    let mut cells: Vec<u32> = vec![600_000; 9];
    cells[4] = 100_000; // centre of the 3x3
    let eroded = erode(cells, 3, 3, 0, 1);
    // Every border cell averages with the low centre.
    for (k, &v) in eroded.iter().enumerate() {
        if k != 4 {
            assert_eq!(v, (600_000 + 100_000) / 2);
        }
    }
}

#[test]
fn generation_is_deterministic_and_matches_the_noise_source() {
    let a = generate(442, 24, 24, 10_000, 2).expect("generation succeeds");
    let b = generate(442, 24, 24, 10_000, 2).expect("generation succeeds");
    assert_eq!(a.width(), 24);
    assert_eq!(a.height(), 24);
    let mut all_equal_across_seeds = true;
    let c = generate(443, 24, 24, 10_000, 2).expect("generation succeeds");
    for y in 0..24 {
        for x in 0..24 {
            assert_eq!(a.at(x, y), b.at(x, y), "determinism at ({x},{y})");
            if a.at(x, y) != c.at(x, y) {
                all_equal_across_seeds = false;
            }
        }
    }
    assert!(!all_equal_across_seeds, "different seeds give different terrain");

    // The same field falls out of feeding the raw noise bits through
    // the public pipeline entry: the trusted sampler adds nothing.
    let fbm = noise::Fbm::<noise::Value>::new(442);
    let map = noise::utils::PlaneMapBuilder::<_, 3>::new(fbm).set_size(24, 24).build();
    let mut grid: Vec<i64> = Vec::new();
    for y in 0..24 {
        for x in 0..24 {
            grid.push(decode_micro(map.get_value(x, y).to_bits()));
        }
    }
    let d = generate_from_noise(grid, 24, 24, 10_000, 2).expect("generation succeeds");
    for y in 0..24 {
        for x in 0..24 {
            assert_eq!(a.at(x, y), d.at(x, y), "sampler agreement at ({x},{y})");
        }
    }
}

#[test]
fn generated_cells_respect_mean_and_range_invariants() {
    for seed in [1u32, 7, 442, 99999] {
        let grid_side = 32;
        let hf = generate(seed, grid_side, grid_side, 10_000, 2).expect("generation succeeds");
        let mut sum: u64 = 0;
        for y in 0..grid_side {
            for x in 0..grid_side {
                let v = hf.at(x, y);
                // Post-squash cells were in [0, 1]; two erosion rounds
                // of 0.01 rainfall can add at most 0.02.
                assert!(v <= 1_020_000, "range invariant, seed {seed}");
                sum += v as u64;
            }
        }
        let mean = sum / (grid_side * grid_side) as u64;
        // The mean sat in [0.3, 0.7] after recentering; erosion only
        // nudges it by rainfall.
        assert!(
            (280_000..=740_000).contains(&mean),
            "mean invariant, seed {seed}, mean {mean}"
        );
    }
}

#[test]
fn generation_rejects_out_of_domain_noise() {
    let grid: Vec<i64> = vec![0, 17_000_000, 0, 0];
    assert!(matches!(
        generate_from_noise(grid, 2, 2, 10_000, 2),
        Err(WorldGenError::NoiseOutOfDomain)
    ));
    let grid: Vec<i64> = vec![0, -17_000_000, 0, 0];
    assert!(matches!(
        generate_from_noise(grid, 2, 2, 10_000, 2),
        Err(WorldGenError::NoiseOutOfDomain)
    ));
    // The boundary value itself is accepted.
    let grid: Vec<i64> = vec![0, 16_000_000, -16_000_000, 0];
    assert!(generate_from_noise(grid, 2, 2, 10_000, 2).is_ok());
}

#[test]
fn tile_classifier_bands() {
    assert_eq!(tile_texture_index(0), 0);
    assert_eq!(tile_texture_index(29_999), 0);
    assert_eq!(tile_texture_index(30_000), 1);
    assert_eq!(tile_texture_index(79_999), 1);
    assert_eq!(tile_texture_index(80_000), 2);
    assert_eq!(tile_texture_index(99_999), 2);
    assert_eq!(tile_texture_index(100_000), 3);
    assert_eq!(tile_texture_index(199_999), 3);
    assert_eq!(tile_texture_index(200_000), 4);
    assert_eq!(tile_texture_index(599_999), 4);
    assert_eq!(tile_texture_index(600_000), 5);
    assert_eq!(tile_texture_index(700_000), 5);
    assert_eq!(tile_texture_index(1_000_000), 5);
    // The classifier is total: values above 1.0 class as mountains
    // instead of aborting.
    assert_eq!(tile_texture_index(2_000_000), 5);
    assert_eq!(tile_texture_index(u32::MAX), 5);
}
