use rand::SeedableRng;
use rand_xoshiro::Xoshiro256PlusPlus;
use raytracer::perlin::{
    fade, gradient, lattice_index, next_lattice_index, PerlinNoise, PERMUTATION_TABLE_SIZE,
};

const FLOAT_EPSILON: f64 = 0.000_001;

fn assert_float_relative_eq(lhs: f64, rhs: f64) {
    let diff = (lhs - rhs).abs();
    let largest = lhs.abs().max(rhs.abs());
    assert!(
        lhs == rhs || diff <= FLOAT_EPSILON || diff <= largest * FLOAT_EPSILON,
        "{lhs} is not approximately {rhs}"
    );
}

/// The triple lookups `p[p[p[x]]]` for every x: a permutation whenever the
/// table is one.
fn triple_lookups(p: &PerlinNoise) -> Vec<u8> {
    (0..PERMUTATION_TABLE_SIZE).map(|x| p.corner_hashes(x, 0, 0)[0]).collect()
}

#[test]
fn create_perlin_noise() {
    let mut rng = Xoshiro256PlusPlus::seed_from_u64(1651);

    let p = PerlinNoise::new(&mut rng);

    // The table repeats itself: a lookup at x and at x + 256 agree.
    for i in 0..PERMUTATION_TABLE_SIZE {
        assert_eq!(p.hash(i, 0, 0), p.hash(i + PERMUTATION_TABLE_SIZE, 0, 0));
    }
}

#[test]
fn fade_produces_expected_values() {
    assert_float_relative_eq(fade(0.0), 0.0);
    assert_float_relative_eq(fade(1.0), 1.0);

    assert_float_relative_eq(fade(0.2), 0.057_92);
    assert_float_relative_eq(fade(0.5), 0.5);
    assert_float_relative_eq(fade(0.68), 0.809_474);
}

#[test]
fn gradient_produces_expected_values() {
    let g = |hash| gradient(hash, 1.0, 2.0, 3.0);

    assert_float_relative_eq(g(0), 3.0);
    assert_float_relative_eq(g(12), 3.0);
    assert_float_relative_eq(g(16), 3.0);
    assert_float_relative_eq(g(44), 3.0);

    assert_float_relative_eq(g(1), 1.0);
    assert_float_relative_eq(g(13), 1.0);
    assert_float_relative_eq(g(17), 1.0);
    assert_float_relative_eq(g(30), 1.0);

    assert_float_relative_eq(g(2), -1.0);
    assert_float_relative_eq(g(18), -1.0);

    assert_float_relative_eq(g(3), -3.0);
    assert_float_relative_eq(g(35), -3.0);

    assert_float_relative_eq(g(4), 4.0);
    assert_float_relative_eq(g(5), 2.0);
    assert_float_relative_eq(g(6), -2.0);
    assert_float_relative_eq(g(7), -4.0);
    assert_float_relative_eq(g(8), 5.0);

    assert_float_relative_eq(g(9), 1.0);
    assert_float_relative_eq(g(14), 1.0);

    assert_float_relative_eq(g(10), -1.0);

    assert_float_relative_eq(g(11), -5.0);
    assert_float_relative_eq(g(15), -5.0);
}

#[test]
fn perlin_noises_are_approximately_equal() {
    let mut rng = Xoshiro256PlusPlus::seed_from_u64(621);
    let p1 = PerlinNoise::new(&mut rng);
    let mut rng = Xoshiro256PlusPlus::seed_from_u64(621);
    let p2 = PerlinNoise::new(&mut rng);
    let p3 = PerlinNoise::new(&mut rng);

    assert!(p1.abs_diff_eq(&p2));
    assert!(!p1.abs_diff_eq(&p3));

    assert!(p1.relative_eq(&p2));
    assert!(!p1.relative_eq(&p3));

    assert!(p1.ulps_eq(&p2));
    assert!(!p1.ulps_eq(&p3));
}

#[test]
fn gradient_on_integers() {
    assert_eq!(gradient(0u8, 1i64, 2, 3), 3);
    assert_eq!(gradient(1u8, 1i64, 2, 3), 1);
    assert_eq!(gradient(7u8, 1i64, 2, 3), -4);
    assert_eq!(gradient(11u8, 1i64, 2, 3), -5);
    assert_eq!(gradient(255u8, 1i64, 2, 3), -5);
}

#[test]
fn fade_on_integers_at_the_ends() {
    assert_eq!(fade(0i64), 0);
    assert_eq!(fade(1i64), 1);
}

#[test]
fn identity_permutation_builds_a_repeated_table() {
    let values: Vec<u8> = (0..=255).collect();
    let p = PerlinNoise::from_permutation(&values).unwrap();
    // With the identity table, p[p[p[x] + y] + z] = x + y + z.
    assert_eq!(p.hash(3, 4, 5), 12);
    assert_eq!(p.hash(255, 255, 0), 254);
    assert_eq!(p.hash(200, 100, 50), 94);
    assert_eq!(triple_lookups(&p), values);
}

#[test]
fn reversed_permutation_hashes() {
    let values: Vec<u8> = (0..=255).rev().collect();
    let p = PerlinNoise::from_permutation(&values).unwrap();
    // p[x] = 255 - x
    assert_eq!(p.hash(0, 0, 0), 255 - (255 - 255));
    assert_eq!(p.hash(10, 0, 0), 255 - (255 - (255 - 10)));
}

#[test]
fn tables_with_repeated_or_missing_values_are_refused() {
    let mut values: Vec<u8> = (0..=255).collect();
    values[7] = 8;
    assert!(PerlinNoise::from_permutation(&values).is_none());

    let short: Vec<u8> = (0..=254).collect();
    assert!(PerlinNoise::from_permutation(&short).is_none());

    let mut long: Vec<u8> = (0..=255).collect();
    long.push(0);
    assert!(PerlinNoise::from_permutation(&long).is_none());
}

#[test]
fn shuffled_table_holds_every_byte_once() {
    let mut rng = Xoshiro256PlusPlus::seed_from_u64(42);
    let p = PerlinNoise::new(&mut rng);
    let mut table = triple_lookups(&p);
    table.sort();
    let expected: Vec<u8> = (0..=255).collect();
    assert_eq!(table, expected);
}

#[test]
fn lattice_indices_wrap() {
    assert_eq!(lattice_index(0), 0);
    assert_eq!(lattice_index(255), 255);
    assert_eq!(lattice_index(256), 0);
    assert_eq!(lattice_index(300), 44);
    assert_eq!(lattice_index(-1), 255);
    assert_eq!(lattice_index(-256), 0);
    assert_eq!(lattice_index(-257), 255);
    assert_eq!(next_lattice_index(0), 1);
    assert_eq!(next_lattice_index(255), 0);
}

#[test]
fn corner_hashes_follow_the_corners() {
    let values: Vec<u8> = (0..=255).collect();
    let p = PerlinNoise::from_permutation(&values).unwrap();
    let c = p.corner_hashes(255, 1, 2);
    // Identity table: hash = x + y + z modulo the table, with x + 1 wrapping to 0.
    assert_eq!(c, [2, 3, 3, 4, 3, 4, 4, 5]);
}

#[test]
fn noise_in_a_cell_blends_the_corner_gradients() {
    let hashes = [0u8, 1, 2, 3, 4, 5, 6, 7];
    // With zero weights only the lowest corner counts: gradient 0 is x + y.
    assert_eq!(raytracer::perlin::noise_in_cell(hashes, 3i64, 4, 5, 0, 0, 0, 1), 7);
    // With unit weights only the highest corner counts: gradient 7 is
    // -(x - 1) - (z - 1).
    assert_eq!(raytracer::perlin::noise_in_cell(hashes, 3i64, 4, 5, 1, 1, 1, 1), -6);
    // Halfway between two values in floating point.
    let v = raytracer::perlin::noise_in_cell([8u8; 8], 0.25, 0.5, 0.75, 0.5, 0.5, 0.5, 1.0);
    assert_float_relative_eq(v, 0.25);
}
