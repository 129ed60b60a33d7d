use noise::{NoiseFn, OpenSimplex, Seedable};
use terrain_map::biome::{Biome, Rgb};
use terrain_map::field::FieldError;
use terrain_map::fixed::ONE;
use terrain_map::map::{biome_map, raster, MapGenerator};

fn rgb(r: u8, g: u8, b: u8) -> Rgb {
    Rgb { r, g, b }
}

fn to_fixed(v: f64) -> i32 {
    let x = (v * ONE as f64).round();
    x.max(-(ONE as f64)).min(ONE as f64) as i32
}

fn sample_field(noise: &OpenSimplex, xs: &[u128], ys: &[u128], width: u32, height: u32, octaves: u16) -> Vec<i32> {
    let oct = octaves as usize;
    let mut out = Vec::new();
    for y in 0..height as usize {
        for x in 0..width as usize {
            for k in 0..oct {
                let sx = xs[x * oct + k] as f64 / ONE as f64;
                let sy = ys[y * oct + k] as f64 / ONE as f64;
                out.push(to_fixed(noise.get([sx, sy])));
            }
        }
    }
    out
}

/// Runs the whole pipeline and returns both fields and the biome grid.
fn generate(seed: u32, width: u32, height: u32, persistence: u32, lacunarity: u32, octaves: u16) -> (Vec<i64>, Vec<i64>, Vec<Biome>) {
    let mut generator = MapGenerator::new(seed, width, height);
    let (se, sm) = generator.noise_seeds();
    let xs = MapGenerator::axis_coordinates(width, lacunarity, octaves).unwrap();
    let ys = MapGenerator::axis_coordinates(height, lacunarity, octaves).unwrap();
    let e = sample_field(&OpenSimplex::new().set_seed(se), &xs, &ys, width, height, octaves);
    let m = sample_field(&OpenSimplex::new().set_seed(sm), &xs, &ys, width, height, octaves);
    let biomes = generator.generateMap(persistence, octaves, &e, &m).unwrap();
    (generator.height_map, generator.heat_map, biomes)
}

#[test]
fn new_generator_has_zero_fields() {
    let g = MapGenerator::new(7, 3, 2);
    assert_eq!(g.seed, 7);
    assert_eq!(g.map_width, 3);
    assert_eq!(g.map_height, 2);
    assert_eq!(g.height_map, vec![0; 6]);
    assert_eq!(g.heat_map, vec![0; 6]);
}

#[test]
fn noise_seeds_are_the_first_two_draws() {
    let g = MapGenerator::new(0, 4, 4);
    assert_eq!(g.noise_seeds(), (3442241407, 3140108210));
    let mut rng: rand::rngs::StdRng = rand::SeedableRng::seed_from_u64(0);
    let first = rand::RngCore::next_u32(&mut rng);
    let second = rand::RngCore::next_u32(&mut rng);
    assert_eq!(g.noise_seeds(), (first, second));
}

#[test]
fn noise_seeds_depend_on_seed() {
    let a = MapGenerator::new(0, 1, 1).noise_seeds();
    let b = MapGenerator::new(0, 9, 9).noise_seeds();
    let c = MapGenerator::new(1, 1, 1).noise_seeds();
    assert_eq!(a, b);
    assert_ne!(a, c);
    assert_ne!(a.0, a.1);
}

#[test]
fn axis_coordinates_per_pixel_and_octave() {
    let v = MapGenerator::axis_coordinates(4, 2_000_000, 3).unwrap();
    assert_eq!(v, vec![0, 0, 0, 1_000_000, 2_000_000, 4_000_000, 2_000_000, 4_000_000, 8_000_000, 3_000_000, 6_000_000, 12_000_000]);
}

#[test]
fn axis_coordinates_overflow() {
    assert_eq!(MapGenerator::axis_coordinates(4, u32::MAX, 10), Err(FieldError::SeriesOverflow));
}

#[test]
fn generate_map_two_cells() {
    let mut g = MapGenerator::new(0, 2, 1);
    let e = vec![0, 500_000];
    let m = vec![0, 1_000_000];
    let biomes = g.generateMap(500_000, 1, &e, &m).unwrap();
    assert_eq!(g.height_map, vec![ONE, -ONE / 2]);
    assert_eq!(g.heat_map, vec![ONE, 0]);
    assert_eq!(biomes, vec![Biome::Snow(rgb(194, 255, 255)), Biome::DeepOcean(rgb(0, 12, 37))]);
    assert_eq!(raster(&biomes), vec![rgb(194, 255, 255), rgb(0, 12, 37)]);
}

#[test]
fn generate_map_overflow_keeps_generator() {
    let mut g = MapGenerator::new(0, 1, 1);
    let s = vec![0; 5];
    assert_eq!(g.generateMap(u32::MAX, 5, &s, &s), Err(FieldError::SeriesOverflow));
    assert_eq!(g.height_map, vec![0]);
    assert_eq!(g.heat_map, vec![0]);
}

#[test]
fn biome_map_cell_by_cell() {
    let b = biome_map(&vec![-500_000, 600_000], &vec![0, 600_000]);
    assert_eq!(b, vec![Biome::DeepOcean(rgb(0, 12, 37)), Biome::Taiga(rgb(145, 212, 214))]);
}

#[test]
fn generation_is_deterministic() {
    let a = generate(42, 8, 6, 500_000, 2_000_000, 10);
    let b = generate(42, 8, 6, 500_000, 2_000_000, 10);
    assert_eq!(a, b);
    assert_eq!(raster(&a.2), raster(&b.2));
}

#[test]
fn generated_fields_stay_in_range() {
    let (h, m, biomes) = generate(3, 16, 16, 500_000, 2_000_000, 10);
    assert!(h.iter().all(|v| -ONE / 2 <= *v && *v <= ONE));
    assert!(m.iter().all(|v| 0 <= *v && *v <= ONE));
    assert!(biomes.iter().all(|b| !b.is_error()));
}

#[test]
fn golden_four_by_four() {
    let (h, m, _) = generate(0, 4, 4, 500_000, 2_000_000, 10);
    assert_eq!(
        h,
        vec![
            1000000, 376374, -81440, 269560, 230416, -500000, -382965, 391564, -404360, 250292, 55227,
            82086, 56144, 213, 99298, 174738,
        ]
    );
    assert_eq!(
        m,
        vec![
            1000000, 0, 165138, 166851, 637350, 43855, 623220, 370887, 602055, 153240, 57826, 368209,
            595475, 801865, 365885, 116167,
        ]
    );
}
