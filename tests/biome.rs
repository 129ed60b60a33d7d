use terrain_map::biome::{classify, scale_array, Biome, Rgb};
use terrain_map::fixed::ONE;

fn rgb(r: u8, g: u8, b: u8) -> Rgb {
    Rgb { r, g, b }
}

#[test]
fn scale_array_halves_each_channel() {
    assert_eq!(scale_array(rgb(100, 200, 51), 1, 2), rgb(50, 100, 25));
}

#[test]
fn scale_array_leaves_zero_and_large_factors_alone() {
    assert_eq!(scale_array(rgb(100, 200, 51), 0, 2), rgb(100, 200, 51));
    assert_eq!(scale_array(rgb(100, 200, 51), 3, 2), rgb(100, 200, 51));
    assert_eq!(scale_array(rgb(100, 200, 51), 2, 2), rgb(100, 200, 51));
}

#[test]
fn taiga_in_third_band() {
    // elevation 0.6, moisture 0.6: factor 0.6 / 0.75 + 0.125 = 0.925
    assert_eq!(classify(600_000, 600_000), Biome::Taiga(rgb(145, 212, 214)));
}

#[test]
fn third_band_moisture_point_three_is_deciduous_forest() {
    // moisture 0.3 is at most 0.5, so the second row of the band matches
    assert_eq!(classify(600_000, 300_000), Biome::TemperateDeciduousForest(rgb(24, 74, 15)));
}

#[test]
fn deep_ocean_at_minus_half() {
    // factor 1 / (0.5 / 0.1 + 0.5) = 1 / 5.5
    assert_eq!(classify(-500_000, 123_456), Biome::DeepOcean(rgb(0, 12, 37)));
}

#[test]
fn deep_ocean_at_minus_five_hundredths_keeps_base() {
    // factor 1 / (0.05 / 0.1 + 0.5) = 1: the colour is not scaled
    assert_eq!(classify(-50_000, 0), Biome::DeepOcean(rgb(2, 69, 204)));
    assert_eq!(classify(-50_000, ONE), Biome::DeepOcean(rgb(2, 69, 204)));
}

#[test]
fn elevation_quarter_is_in_second_band() {
    assert_eq!(classify(250_000, 100_000), Biome::Grassland(rgb(92, 118, 81)));
}

#[test]
fn moisture_quarter_takes_first_row() {
    assert_eq!(classify(100_000, 250_000), Biome::SubtropicalDesert(rgb(178, 171, 92)));
    assert_eq!(classify(600_000, 250_000), Biome::TropicalSeasonalForest(rgb(5, 104, 32)));
    assert_eq!(classify(800_000, 250_000), Biome::TropicalRainForest(rgb(2, 138, 61)));
}

#[test]
fn every_row_of_the_table() {
    assert_eq!(classify(0, 500_000), Biome::TemperateDesert(rgb(93, 91, 66)));
    assert_eq!(classify(50_000, 900_000), Biome::ScorchedLand(rgb(162, 144, 128)));
    assert_eq!(classify(300_000, 600_000), Biome::Shrubland(rgb(100, 117, 46)));
    assert_eq!(classify(300_000, 900_000), Biome::BareLand(rgb(117, 79, 29)));
    assert_eq!(classify(600_000, 900_000), Biome::Tundra(rgb(130, 190, 233)));
    assert_eq!(classify(800_000, 400_000), Biome::TemperateRainForest(rgb(0, 113, 48)));
    assert_eq!(classify(800_000, 600_000), Biome::Taiga(rgb(145, 212, 214)));
    assert_eq!(classify(800_000, 900_000), Biome::Snow(rgb(179, 235, 235)));
    assert_eq!(classify(ONE, ONE), Biome::Snow(rgb(194, 255, 255)));
}

#[test]
fn moisture_above_one_is_an_error() {
    let b = classify(100_000, ONE + 1);
    assert_eq!(b, Biome::Error(rgb(252, 0, 0)));
    assert!(b.is_error());
    assert_eq!(b.color(), rgb(252, 0, 0));
}

#[test]
fn dense_grid_has_no_error() {
    let mut e: i64 = -ONE;
    while e <= ONE {
        let mut m: i64 = 0;
        while m <= ONE {
            assert!(!classify(e, m).is_error(), "e = {}, m = {}", e, m);
            m += 5_000;
        }
        e += 5_000;
    }
}

#[test]
fn deeper_ocean_is_darker() {
    let shallow = classify(-200_000, 0).color();
    let deep = classify(-500_000, 0).color();
    assert_eq!(shallow, rgb(0, 27, 81));
    assert!(deep.r <= shallow.r && deep.g <= shallow.g && deep.b <= shallow.b);
    let mut prev = classify(-1, 0).color();
    let mut e: i64 = -1_000;
    while e >= -2 * ONE {
        let c = classify(e, 0).color();
        assert!(c.r <= prev.r && c.g <= prev.g && c.b <= prev.b);
        prev = c;
        e -= 1_000;
    }
}
