//! The map generator: seeds, sample points, the two fields, the biome grid
//! and the pixel buffer.
use vstd::prelude::*;

use crate::biome::{classify, classify_spec, color_of, Biome, Rgb};
use crate::field::{
    field_spec, geometric, geometric_series, noiseGen, sample_coord, sample_coord_spec,
    samples_bounded, series_fits, FieldError,
};
use crate::fixed::ONE;

verus! {

/// The first two numbers that rand's `StdRng` yields when seeded with `seed`.
pub uninterp spec fn std_rng_first_draws(seed: u64) -> (u32, u32);

/// Relies on rand's `StdRng::seed_from_u64` and `RngCore::next_u32`: a
/// generator seeded from a number is reproducible, so the two draws depend on
/// the seed alone.
#[verifier::external_body]
fn first_two_draws(seed: u64) -> (r: (u32, u32))
    ensures
        r == std_rng_first_draws(seed),
{
    let mut rng: rand::rngs::StdRng = rand::SeedableRng::seed_from_u64(seed);
    let a = rand::RngCore::next_u32(&mut rng);
    let b = rand::RngCore::next_u32(&mut rng);
    (a, b)
}

/// The sample coordinates of one axis of `dim` pixels, `octaves` per pixel:
/// entry `i` belongs to pixel `i / octaves` and octave `i % octaves`.
pub open spec fn axis_spec(dim: nat, lacunarity: nat, octaves: nat) -> Seq<int> {
    Seq::new(
        dim * octaves,
        |i: int|
            sample_coord_spec(
                (i / octaves as int) as nat,
                dim,
                geometric((ONE / 2) as nat, lacunarity, (i % octaves as int) as nat),
            ) as int,
    )
}

/// The biome of every cell, from the two fields cell by cell.
pub open spec fn biomes_spec(elevation: Seq<i64>, moisture: Seq<i64>) -> Seq<Biome> {
    Seq::new(elevation.len(), |i: int| classify_spec(elevation[i] as int, moisture[i] as int))
}

/// What a successful generation leaves: an elevation field rescaled onto
/// [-0.5, 1.0], a moisture field rescaled onto [0.0, 1.0], both of `cells`
/// cells, and the biome of every cell.
pub open spec fn generated(
    cells: nat,
    persistence: nat,
    octaves: nat,
    elevation_samples: Seq<i32>,
    moisture_samples: Seq<i32>,
    height: Seq<i64>,
    heat: Seq<i64>,
    biomes: Seq<Biome>,
) -> bool {
    &&& height.len() == cells
    &&& heat.len() == cells
    &&& forall|i: int|
        0 <= i < cells ==> height[i] == #[trigger] field_spec(
            elevation_samples,
            persistence,
            octaves,
            cells,
            -ONE / 2,
            ONE as int,
        )[i]
    &&& forall|i: int|
        0 <= i < cells ==> heat[i] == #[trigger] field_spec(
            moisture_samples,
            persistence,
            octaves,
            cells,
            0,
            ONE as int,
        )[i]
    &&& biomes == biomes_spec(height, heat)
}

/// Generation is deterministic: two runs on the same size, persistence,
/// octave count and noise samples leave the same elevation field, the same
/// moisture field and the same biome grid.
pub proof fn lemma_generation_deterministic(
    cells: nat,
    persistence: nat,
    octaves: nat,
    elevation_samples: Seq<i32>,
    moisture_samples: Seq<i32>,
    height1: Seq<i64>,
    heat1: Seq<i64>,
    biomes1: Seq<Biome>,
    height2: Seq<i64>,
    heat2: Seq<i64>,
    biomes2: Seq<Biome>,
)
    requires
        generated(cells, persistence, octaves, elevation_samples, moisture_samples, height1, heat1, biomes1),
        generated(cells, persistence, octaves, elevation_samples, moisture_samples, height2, heat2, biomes2),
    ensures
        height1 == height2,
        heat1 == heat2,
        biomes1 == biomes2,
{
    let fe = field_spec(elevation_samples, persistence, octaves, cells, -ONE / 2, ONE as int);
    let fm = field_spec(moisture_samples, persistence, octaves, cells, 0, ONE as int);
    assert forall|i: int| 0 <= i < cells implies height1[i] == height2[i] && heat1[i] == heat2[i] by {
        assert(height1[i] == fe[i] && height2[i] == fe[i]);
        assert(heat1[i] == fm[i] && heat2[i] == fm[i]);
    }
    assert(height1 =~= height2);
    assert(heat1 =~= heat2);
}

/// Classifies every cell of two fields of equal size.
pub fn biome_map(elevation: &Vec<i64>, moisture: &Vec<i64>) -> (r: Vec<Biome>)
    requires
        elevation@.len() == moisture@.len(),
    ensures
        r@ == biomes_spec(elevation@, moisture@),
{
    let mut out: Vec<Biome> = Vec::new();
    let mut i: usize = 0;
    while i < elevation.len()
        invariant
            i <= elevation@.len(),
            elevation@.len() == moisture@.len(),
            out@.len() == i,
            forall|j: int| 0 <= j < i ==> out@[j] == classify_spec(elevation@[j] as int, moisture@[j] as int),
        decreases elevation@.len() - i,
    {
        out.push(classify(elevation[i], moisture[i]));
        i = i + 1;
    }
    assert(out@ =~= biomes_spec(elevation@, moisture@));
    out
}

/// The pixel buffer of a biome grid: each cell's colour, in the same order.
pub fn raster(biomes: &Vec<Biome>) -> (r: Vec<Rgb>)
    ensures
        r@.len() == biomes@.len(),
        forall|i: int| 0 <= i < biomes@.len() ==> r@[i] == color_of(#[trigger] biomes@[i]),
{
    let mut out: Vec<Rgb> = Vec::new();
    let mut i: usize = 0;
    while i < biomes.len()
        invariant
            i <= biomes@.len(),
            out@.len() == i,
            forall|j: int| 0 <= j < i ==> out@[j] == color_of(#[trigger] biomes@[j]),
        decreases biomes@.len() - i,
    {
        out.push(biomes[i].color());
        i = i + 1;
    }
    out
}

/// The map's seed, its size and its two fields, elevation and moisture,
/// each stored row-major in units of `1 / ONE`.
pub struct MapGenerator {
    pub seed: u32,
    pub map_width: u32,
    pub map_height: u32,
    pub height_map: Vec<i64>,
    pub heat_map: Vec<i64>,
}

impl MapGenerator {
    /// A generator for a `map_width` by `map_height` map whose fields are
    /// all zero until generated.
    pub fn new(seed: u32, map_width: u32, map_height: u32) -> (r: Self)
        requires
            map_width * map_height <= usize::MAX,
        ensures
            r.seed == seed,
            r.map_width == map_width,
            r.map_height == map_height,
            r.height_map@ == Seq::new((map_width * map_height) as nat, |i: int| 0i64),
            r.heat_map@ == Seq::new((map_width * map_height) as nat, |i: int| 0i64),
    {
        let cells: usize = (map_width as usize) * (map_height as usize);
        let mut map: Vec<i64> = Vec::new();
        let mut i: usize = 0;
        while i < cells
            invariant
                i <= cells,
                map@ == Seq::new(i as nat, |j: int| 0i64),
            decreases cells - i,
        {
            map.push(0);
            i = i + 1;
            assert(map@ =~= Seq::new(i as nat, |j: int| 0i64));
        }
        let heat_map = map.clone();
        assert(heat_map@ =~= map@);
        MapGenerator { seed, map_width, map_height, height_map: map, heat_map }
    }

    /// The seeds of the two noise sources, elevation first: the first two
    /// draws of a generator seeded with the map's seed.
    pub fn noise_seeds(&self) -> (r: (u32, u32))
        ensures
            r == std_rng_first_draws(self.seed as u64),
    {
        first_two_draws(self.seed as u64)
    }

    /// Where the noise is sampled along one axis of `dim` pixels: the
    /// frequency starts at 0.5 and is multiplied by `lacunarity` (in units of
    /// `1 / ONE`) per octave. Fails when a frequency does not fit in 64 bits.
    pub fn axis_coordinates(dim: u32, lacunarity: u32, octaves: u16) -> (r: Result<Vec<u128>, FieldError>)
        requires
            dim * octaves <= usize::MAX,
        ensures
            r is Ok <==> series_fits((ONE / 2) as nat, lacunarity as nat, octaves as nat),
            r matches Ok(v) ==> v@.len() == dim * octaves && forall|i: int|
                0 <= i < dim * octaves ==> v@[i] == #[trigger] axis_spec(dim as nat, lacunarity as nat, octaves as nat)[i],
    {
        let freqs = match geometric_series((ONE / 2) as u64, lacunarity, octaves) {
            Ok(f) => f,
            Err(e) => return Err(e),
        };
        let oct: usize = octaves as usize;
        let n: usize = (dim as usize) * oct;
        let mut out: Vec<u128> = Vec::new();
        let mut i: usize = 0;
        while i < n
            invariant
                i <= n,
                n == dim * oct,
                oct == octaves,
                freqs@.len() == oct,
                forall|k: int| 0 <= k < oct ==> freqs@[k] == geometric((ONE / 2) as nat, lacunarity as nat, k as nat),
                out@.len() == i,
                forall|j: int| 0 <= j < i ==> out@[j] == #[trigger] axis_spec(dim as nat, lacunarity as nat, octaves as nat)[j],
            decreases n - i,
        {
            proof {
                vstd::arithmetic::div_mod::lemma_div_pos_is_pos(i as int, oct as int);
                assert(oct * dim == dim * oct) by (nonlinear_arith);
                vstd::arithmetic::div_mod::lemma_multiply_divide_lt(i as int, oct as int, dim as int);
                vstd::arithmetic::div_mod::lemma_mod_bound(i as int, oct as int);
            }
            let p: usize = i / oct;
            let k: usize = i % oct;
            out.push(sample_coord(p as u32, dim, freqs[k]));
            i = i + 1;
        }
        Ok(out)
    }

    /// Generates both fields from their noise samples and classifies every
    /// cell.
    ///
    /// Each sample vector holds `octaves` samples per cell, cells in row-major
    /// order. Elevation is rescaled onto [-0.5, 1.0], moisture onto
    /// [0.0, 1.0]. Fails, leaving the generator as it was, when an amplitude
    /// does not fit in 64 bits.
    pub fn generateMap(
        &mut self,
        persistence: u32,
        octaves: u16,
        elevation_samples: &Vec<i32>,
        moisture_samples: &Vec<i32>,
    ) -> (r: Result<Vec<Biome>, FieldError>)
        requires
            old(self).map_width * old(self).map_height <= usize::MAX,
            elevation_samples@.len() == old(self).map_width * old(self).map_height * octaves,
            moisture_samples@.len() == old(self).map_width * old(self).map_height * octaves,
            samples_bounded(elevation_samples@),
            samples_bounded(moisture_samples@),
        ensures
            final(self).seed == old(self).seed,
            final(self).map_width == old(self).map_width,
            final(self).map_height == old(self).map_height,
            r is Ok <==> series_fits(ONE as nat, persistence as nat, octaves as nat),
            r is Err ==> *final(self) == *old(self),
            r matches Ok(b) ==> generated(
                (old(self).map_width * old(self).map_height) as nat,
                persistence as nat,
                octaves as nat,
                elevation_samples@,
                moisture_samples@,
                final(self).height_map@,
                final(self).heat_map@,
                b@,
            ),
            r is Ok ==> forall|i: int|
                0 <= i < final(self).height_map@.len() ==> -ONE / 2 <= #[trigger] final(self).height_map@[i] <= ONE,
            r is Ok ==> forall|i: int|
                0 <= i < final(self).heat_map@.len() ==> 0 <= #[trigger] final(self).heat_map@[i] <= ONE,
    {
        let w: usize = self.map_width as usize;
        let h: usize = self.map_height as usize;
        let mut height_map: Vec<i64> = Vec::new();
        let mut heat_map: Vec<i64> = Vec::new();
        match noiseGen(&mut height_map, h, elevation_samples, w, persistence, octaves, (-ONE / 2, ONE)) {
            Ok(()) => {},
            Err(e) => return Err(e),
        }
        match noiseGen(&mut heat_map, h, moisture_samples, w, persistence, octaves, (0, ONE)) {
            Ok(()) => {},
            Err(e) => return Err(e),
        }
        let biomes = biome_map(&height_map, &heat_map);
        self.height_map = height_map;
        self.heat_map = heat_map;
        Ok(biomes)
    }
}

} // verus!
