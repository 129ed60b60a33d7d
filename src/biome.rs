//! The biome table: from an (elevation, moisture) pair to a biome and its
//! shaded colour.
use vstd::prelude::*;

use crate::fixed::ONE;

verus! {

/// An 8-bit RGB colour.
#[derive(Clone, Copy, Debug, PartialEq, Eq, Structural)]
pub struct Rgb {
    pub r: u8,
    pub g: u8,
    pub b: u8,
}

/// One channel scaled by `num / den`, rounded down; left as it is when the
/// factor is zero or above one.
pub open spec fn scaled_channel(c: u8, num: int, den: int) -> u8 {
    if num == 0 || num > den {
        c
    } else {
        ((c as int * num) / den) as u8
    }
}

/// A colour scaled channel by channel.
pub open spec fn scaled(c: Rgb, num: int, den: int) -> Rgb {
    Rgb {
        r: scaled_channel(c.r, num, den),
        g: scaled_channel(c.g, num, den),
        b: scaled_channel(c.b, num, den),
    }
}

proof fn lemma_scaled_channel_le(c: u8, num: int, den: int)
    requires
        0 <= num <= den,
        0 < den,
    ensures
        (c as int * num) / den <= c as int,
        0 <= (c as int * num) / den,
{
    assert(c as int * num <= c as int * den) by (nonlinear_arith)
        requires 0 <= num <= den, 0 <= c;
    assert(0 <= c as int * num) by (nonlinear_arith)
        requires 0 <= num, 0 <= c;
    vstd::arithmetic::div_mod::lemma_div_is_ordered(c as int * num, c as int * den, den);
    vstd::arithmetic::div_mod::lemma_div_by_multiple(c as int, den);
    vstd::arithmetic::div_mod::lemma_div_pos_is_pos(c as int * num, den);
}

fn scale_channel(c: u8, num: u128, den: u128) -> (r: u8)
    requires
        0 < den,
        den <= u128::MAX / 256,
    ensures
        r == scaled_channel(c, num as int, den as int),
{
    if num == 0 || num > den {
        c
    } else {
        proof {
            lemma_scaled_channel_le(c, num as int, den as int);
            assert(c as int * num as int <= 255 * den as int) by (nonlinear_arith)
                requires c <= 255, num <= den, 0 <= num;
        }
        let p: u128 = (c as u128) * num;
        (p / den) as u8
    }
}

/// Scales each channel of `array` by the factor `num / den`, rounding down.
/// The colour is returned unchanged when the factor is zero or exceeds one.
pub fn scale_array(array: Rgb, num: u128, den: u128) -> (r: Rgb)
    requires
        0 < den,
        den <= u128::MAX / 256,
    ensures
        r == scaled(array, num as int, den as int),
{
    Rgb {
        r: scale_channel(array.r, num, den),
        g: scale_channel(array.g, num, den),
        b: scale_channel(array.b, num, den),
    }
}


/// A terrain class of the map, carrying its shaded colour. `Error` marks a
/// cell that no row of the table matched.
#[derive(Clone, Copy, Debug, PartialEq, Eq, Structural)]
pub enum Biome {
    SubtropicalDesert(Rgb),
    TemperateDesert(Rgb),
    ScorchedLand(Rgb),
    Grassland(Rgb),
    Shrubland(Rgb),
    BareLand(Rgb),
    TropicalSeasonalForest(Rgb),
    TemperateDeciduousForest(Rgb),
    Taiga(Rgb),
    Tundra(Rgb),
    TropicalRainForest(Rgb),
    TemperateRainForest(Rgb),
    Snow(Rgb),
    Error(Rgb),
    DeepOcean(Rgb),
}

pub open spec fn rgb(r: u8, g: u8, b: u8) -> Rgb {
    Rgb { r, g, b }
}

/// The colour that marks a cell no row of the table matched.
pub open spec fn alarm_color() -> Rgb {
    rgb(252, 0, 0)
}

/// The colour of deep ocean at elevation `e` (below zero): the base colour
/// scaled by `1 / (|e| / 0.1 + 0.5)`.
pub open spec fn ocean_color(e: int) -> Rgb {
    scaled(rgb(2, 69, 204), 2 * ONE, 20 * (-e) + ONE)
}

/// The biome of a cell with elevation `e` and moisture `m`, both in units
/// of `1 / ONE`.
///
/// Elevation picks a band (below 0, then steps of 0.25, the last one open);
/// moisture picks the first row of the band whose upper bound it does not
/// exceed. The band's shading factor depends on the elevation alone.
pub open spec fn classify_spec(e: int, m: int) -> Biome {
    let one = ONE as int;
    if e < 0 {
        Biome::DeepOcean(ocean_color(e))
    } else if 4 * e < one {
        // 0.1 + e / 0.1 + 0.3
        let n = 4 * one + 100 * e;
        let d = 10 * one;
        if 4 * m <= one {
            Biome::SubtropicalDesert(scaled(rgb(178, 171, 92), n, d))
        } else if 4 * m <= 3 * one {
            Biome::TemperateDesert(scaled(rgb(234, 228, 166), n, d))
        } else if m <= one {
            Biome::ScorchedLand(scaled(rgb(181, 160, 143), n, d))
        } else {
            Biome::Error(alarm_color())
        }
    } else if 2 * e < one {
        // e / 0.5 + 0.1
        let n = 20 * e + one;
        let d = 10 * one;
        if 2 * m <= one {
            Biome::Grassland(scaled(rgb(154, 198, 135), n, d))
        } else if 4 * m <= 3 * one {
            Biome::Shrubland(scaled(rgb(144, 168, 67), n, d))
        } else if m <= one {
            Biome::BareLand(scaled(rgb(168, 114, 42), n, d))
        } else {
            Biome::Error(alarm_color())
        }
    } else if 4 * e < 3 * one {
        // e / 0.75, and e / 0.75 + 0.125 for the two cold rows
        if 4 * m <= one {
            Biome::TropicalSeasonalForest(scaled(rgb(7, 130, 40), 4 * e, 3 * one))
        } else if 2 * m <= one {
            Biome::TemperateDeciduousForest(scaled(rgb(30, 93, 19), 4 * e, 3 * one))
        } else if 4 * m <= 3 * one {
            Biome::Taiga(scaled(rgb(157, 230, 232), 32 * e + 3 * one, 24 * one))
        } else if m <= one {
            Biome::Tundra(scaled(rgb(141, 206, 252), 32 * e + 3 * one, 24 * one))
        } else {
            Biome::Error(alarm_color())
        }
    } else {
        // e / 1.0, and e / 1.0 + 0.125 for the two cold rows
        if 4 * m <= one {
            Biome::TropicalRainForest(scaled(rgb(3, 173, 77), e, one))
        } else if 2 * m <= one {
            Biome::TemperateRainForest(scaled(rgb(0, 142, 61), e, one))
        } else if 4 * m <= 3 * one {
            Biome::Taiga(scaled(rgb(157, 230, 232), 8 * e + one, 8 * one))
        } else {
            Biome::Snow(scaled(rgb(194, 255, 255), 8 * e + one, 8 * one))
        }
    }
}

/// The colour a biome carries.
pub open spec fn color_of(b: Biome) -> Rgb {
    match b {
        Biome::SubtropicalDesert(c) => c,
        Biome::TemperateDesert(c) => c,
        Biome::ScorchedLand(c) => c,
        Biome::Grassland(c) => c,
        Biome::Shrubland(c) => c,
        Biome::BareLand(c) => c,
        Biome::TropicalSeasonalForest(c) => c,
        Biome::TemperateDeciduousForest(c) => c,
        Biome::Taiga(c) => c,
        Biome::Tundra(c) => c,
        Biome::TropicalRainForest(c) => c,
        Biome::TemperateRainForest(c) => c,
        Biome::Snow(c) => c,
        Biome::Error(c) => c,
        Biome::DeepOcean(c) => c,
    }
}

impl Biome {
    /// The colour this biome carries.
    pub fn color(&self) -> (r: Rgb)
        ensures
            r == color_of(*self),
    {
        match self {
            Biome::SubtropicalDesert(c) => *c,
            Biome::TemperateDesert(c) => *c,
            Biome::ScorchedLand(c) => *c,
            Biome::Grassland(c) => *c,
            Biome::Shrubland(c) => *c,
            Biome::BareLand(c) => *c,
            Biome::TropicalSeasonalForest(c) => *c,
            Biome::TemperateDeciduousForest(c) => *c,
            Biome::Taiga(c) => *c,
            Biome::Tundra(c) => *c,
            Biome::TropicalRainForest(c) => *c,
            Biome::TemperateRainForest(c) => *c,
            Biome::Snow(c) => *c,
            Biome::Error(c) => *c,
            Biome::DeepOcean(c) => *c,
        }
    }

    /// Whether this is the marker of a cell that no row matched.
    pub fn is_error(&self) -> (r: bool)
        ensures
            r == (*self is Error),
    {
        match self {
            Biome::Error(_) => true,
            _ => false,
        }
    }
}

/// Classifies one cell: elevation and moisture in units of `1 / ONE`.
pub fn classify(elevation: i64, moisture: i64) -> (r: Biome)
    ensures
        r == classify_spec(elevation as int, moisture as int),
{
    let one: i128 = ONE as i128;
    let e: i128 = elevation as i128;
    let m: i128 = moisture as i128;
    if e < 0 {
        let den: u128 = (20 * (0 - e) + one) as u128;
        Biome::DeepOcean(scale_array(Rgb { r: 2, g: 69, b: 204 }, (2 * one) as u128, den))
    } else if 4 * e < one {
        let n: u128 = (4 * one + 100 * e) as u128;
        let d: u128 = (10 * one) as u128;
        if 4 * m <= one {
            Biome::SubtropicalDesert(scale_array(Rgb { r: 178, g: 171, b: 92 }, n, d))
        } else if 4 * m <= 3 * one {
            Biome::TemperateDesert(scale_array(Rgb { r: 234, g: 228, b: 166 }, n, d))
        } else if m <= one {
            Biome::ScorchedLand(scale_array(Rgb { r: 181, g: 160, b: 143 }, n, d))
        } else {
            Biome::Error(Rgb { r: 252, g: 0, b: 0 })
        }
    } else if 2 * e < one {
        let n: u128 = (20 * e + one) as u128;
        let d: u128 = (10 * one) as u128;
        if 2 * m <= one {
            Biome::Grassland(scale_array(Rgb { r: 154, g: 198, b: 135 }, n, d))
        } else if 4 * m <= 3 * one {
            Biome::Shrubland(scale_array(Rgb { r: 144, g: 168, b: 67 }, n, d))
        } else if m <= one {
            Biome::BareLand(scale_array(Rgb { r: 168, g: 114, b: 42 }, n, d))
        } else {
            Biome::Error(Rgb { r: 252, g: 0, b: 0 })
        }
    } else if 4 * e < 3 * one {
        let n: u128 = (4 * e) as u128;
        let d: u128 = (3 * one) as u128;
        let cold_n: u128 = (32 * e + 3 * one) as u128;
        let cold_d: u128 = (24 * one) as u128;
        if 4 * m <= one {
            Biome::TropicalSeasonalForest(scale_array(Rgb { r: 7, g: 130, b: 40 }, n, d))
        } else if 2 * m <= one {
            Biome::TemperateDeciduousForest(scale_array(Rgb { r: 30, g: 93, b: 19 }, n, d))
        } else if 4 * m <= 3 * one {
            Biome::Taiga(scale_array(Rgb { r: 157, g: 230, b: 232 }, cold_n, cold_d))
        } else if m <= one {
            Biome::Tundra(scale_array(Rgb { r: 141, g: 206, b: 252 }, cold_n, cold_d))
        } else {
            Biome::Error(Rgb { r: 252, g: 0, b: 0 })
        }
    } else {
        let n: u128 = e as u128;
        let d: u128 = one as u128;
        let cold_n: u128 = (8 * e + one) as u128;
        let cold_d: u128 = (8 * one) as u128;
        if 4 * m <= one {
            Biome::TropicalRainForest(scale_array(Rgb { r: 3, g: 173, b: 77 }, n, d))
        } else if 2 * m <= one {
            Biome::TemperateRainForest(scale_array(Rgb { r: 0, g: 142, b: 61 }, n, d))
        } else if 4 * m <= 3 * one {
            Biome::Taiga(scale_array(Rgb { r: 157, g: 230, b: 232 }, cold_n, cold_d))
        } else {
            Biome::Snow(scale_array(Rgb { r: 194, g: 255, b: 255 }, cold_n, cold_d))
        }
    }
}

/// No cell whose moisture is at most 1.0 is left unclassified, whatever its
/// elevation.
pub proof fn lemma_classification_covers(e: int, m: int)
    requires
        m <= ONE,
    ensures
        !(classify_spec(e, m) is Error),
{
}

/// Deeper ocean is never lighter: for two elevations below zero, the lower
/// one has no channel brighter than the higher one.
pub proof fn lemma_ocean_darkens_with_depth(e1: int, e2: int)
    requires
        e1 < e2 < 0,
    ensures
        ocean_color(e1).r <= ocean_color(e2).r,
        ocean_color(e1).g <= ocean_color(e2).g,
        ocean_color(e1).b <= ocean_color(e2).b,
{
    lemma_channel_darkens(2, e1, e2);
    lemma_channel_darkens(69, e1, e2);
    lemma_channel_darkens(204, e1, e2);
}

proof fn lemma_channel_darkens(c: u8, e1: int, e2: int)
    requires
        e1 < e2 < 0,
    ensures
        scaled_channel(c, 2 * ONE, 20 * (-e1) + ONE) <= scaled_channel(c, 2 * ONE, 20 * (-e2) + ONE),
{
    let n = 2 * ONE as int;
    let d1 = 20 * (-e1) + ONE;
    let d2 = 20 * (-e2) + ONE;
    if n <= d1 {
        lemma_scaled_channel_le(c, n, d1);
        if n <= d2 {
            lemma_scaled_channel_le(c, n, d2);
            assert(0 <= c as int * n) by (nonlinear_arith)
                requires 0 <= c, 0 <= n;
            vstd::arithmetic::div_mod::lemma_div_is_ordered_by_denominator(c as int * n, d2, d1);
        }
    }
}

} // verus!
