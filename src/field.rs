//! Fractal noise fields: octave weights, per-cell accumulation of noise
//! samples, and the rescaling of a whole field to a target interval.
use vstd::prelude::*;

use crate::fixed::ONE;

verus! {

/// Why a field could not be generated.
#[derive(Clone, Copy, Debug, PartialEq, Eq, Structural)]
pub enum FieldError {
    /// An octave weight (amplitude or frequency) does not fit in 64 bits.
    SeriesOverflow,
}

/// The `k`-th term of a fixed-point geometric series: it starts at `start`
/// and each term is the previous one times `ratio / ONE`, rounded down.
pub open spec fn geometric(start: nat, ratio: nat, k: nat) -> nat
    decreases k,
{
    if k == 0 {
        start
    } else {
        geometric(start, ratio, (k - 1) as nat) * ratio / (ONE as nat)
    }
}

/// Whether the first `count` terms of the series all fit in 64 bits.
pub open spec fn series_fits(start: nat, ratio: nat, count: nat) -> bool {
    forall|k: nat| k < count ==> geometric(start, ratio, k) <= u64::MAX
}

/// The first `count` terms of the geometric series from `start` with the
/// fixed-point ratio `ratio` (in units of `1 / ONE`).
pub fn geometric_series(start: u64, ratio: u32, count: u16) -> (r: Result<Vec<u64>, FieldError>)
    ensures
        r is Ok <==> series_fits(start as nat, ratio as nat, count as nat),
        r matches Ok(v) ==> v@.len() == count && forall|k: int|
            0 <= k < count ==> v@[k] == geometric(start as nat, ratio as nat, k as nat),
{
    let mut v: Vec<u64> = Vec::new();
    let mut cur: u128 = start as u128;
    let mut k: u16 = 0;
    while k < count
        invariant
            k <= count,
            cur == geometric(start as nat, ratio as nat, k as nat),
            series_fits(start as nat, ratio as nat, k as nat),
            v@.len() == k,
            forall|j: int| 0 <= j < k ==> v@[j] == geometric(start as nat, ratio as nat, j as nat),
        decreases count - k,
    {
        if cur > u64::MAX as u128 {
            return Err(FieldError::SeriesOverflow);
        }
        v.push(cur as u64);
        proof {
            assert(cur * ratio <= u64::MAX * u32::MAX) by (nonlinear_arith)
                requires cur <= u64::MAX, ratio <= u32::MAX;
            assert forall|j: nat| j < k + 1 implies geometric(start as nat, ratio as nat, j) <= u64::MAX by {
                if j < k {
                }
            }
        }
        cur = cur * (ratio as u128) / (ONE as u128);
        k = k + 1;
    }
    Ok(v)
}

/// The point, in units of `1 / ONE`, at which a pixel is sampled along one
/// axis for an octave of the given frequency: `pixel * (8 / dim) * frequency`.
pub open spec fn sample_coord_spec(pixel: nat, dim: nat, frequency: nat) -> nat {
    pixel * 8 * frequency / dim
}

/// The sample coordinate of `pixel` on an axis of `dim` pixels.
pub fn sample_coord(pixel: u32, dim: u32, frequency: u64) -> (r: u128)
    requires
        dim > 0,
    ensures
        r == sample_coord_spec(pixel as nat, dim as nat, frequency as nat),
{
    proof {
        assert(pixel * 8 * frequency <= u32::MAX * 8 * u64::MAX) by (nonlinear_arith)
            requires pixel <= u32::MAX, frequency <= u64::MAX;
    }
    (pixel as u128) * 8 * (frequency as u128) / (dim as u128)
}

pub open spec fn abs(x: int) -> int {
    if x < 0 { -x } else { x }
}

/// Whether every noise sample lies in [-1, 1].
pub open spec fn samples_bounded(samples: Seq<i32>) -> bool {
    forall|i: int| 0 <= i < samples.len() ==> -ONE <= #[trigger] samples[i] <= ONE
}

/// The weighted sum of `1 - |sample|` over the first `k` octaves of a cell
/// whose samples begin at `start`.
pub open spec fn weighted_sum(samples: Seq<i32>, start: int, amps: Seq<u64>, k: int) -> int
    decreases k,
{
    if k <= 0 {
        0
    } else {
        weighted_sum(samples, start, amps, k - 1) + amps[k - 1] * (ONE - abs(
            samples[start + k - 1] as int,
        ))
    }
}

/// The sum of the first `k` amplitudes.
pub open spec fn amp_total(amps: Seq<u64>, k: int) -> int
    decreases k,
{
    if k <= 0 {
        0
    } else {
        amp_total(amps, k - 1) + amps[k - 1]
    }
}

/// The raw value of one cell: the weighted mean of `1 - |sample|` over its
/// octaves, squared. Zero when all weights are zero.
pub open spec fn cell_spec(samples: Seq<i32>, start: int, amps: Seq<u64>) -> int {
    let t = amp_total(amps, amps.len() as int);
    if t == 0 {
        0
    } else {
        let n = weighted_sum(samples, start, amps, amps.len() as int) / t;
        n * n / (ONE as int)
    }
}

proof fn lemma_sums_bounded(samples: Seq<i32>, start: int, amps: Seq<u64>, k: int)
    requires
        0 <= k <= amps.len(),
        0 <= start,
        start + k <= samples.len(),
        samples_bounded(samples),
    ensures
        0 <= weighted_sum(samples, start, amps, k) <= ONE * amp_total(amps, k),
        0 <= amp_total(amps, k) <= k * u64::MAX,
    decreases k,
{
    if k > 0 {
        lemma_sums_bounded(samples, start, amps, k - 1);
        let s = samples[start + k - 1] as int;
        assert(-ONE <= s <= ONE);
        let a = amps[k - 1] as int;
        assert(0 <= a * (ONE - abs(s)) <= ONE * a) by (nonlinear_arith)
            requires 0 <= a, 0 <= ONE - abs(s) <= ONE;
    }
}

/// Accumulates the octaves of the cell whose samples begin at `start`.
pub fn cell_value(samples: &Vec<i32>, start: usize, amps: &Vec<u64>) -> (r: i64)
    requires
        amps@.len() <= u16::MAX,
        start + amps@.len() <= samples@.len(),
        samples_bounded(samples@),
    ensures
        r == cell_spec(samples@, start as int, amps@),
        0 <= r <= ONE,
{
    let mut w: u128 = 0;
    let mut t: u128 = 0;
    let mut j: usize = 0;
    let total_len: usize = samples.len();
    while j < amps.len()
        invariant
            total_len == samples@.len(),
            j <= amps@.len(),
            amps@.len() <= u16::MAX,
            start + amps@.len() <= samples@.len(),
            samples_bounded(samples@),
            w == weighted_sum(samples@, start as int, amps@, j as int),
            t == amp_total(amps@, j as int),
        decreases amps@.len() - j,
    {
        proof {
            lemma_sums_bounded(samples@, start as int, amps@, j as int);
            lemma_sums_bounded(samples@, start as int, amps@, j + 1);
            assert(ONE * (j * u64::MAX) <= ONE * (u16::MAX * u64::MAX)) by (nonlinear_arith)
                requires j <= u16::MAX;
            assert(ONE * amp_total(amps@, j + 1) <= ONE * ((j + 1) * u64::MAX)) by (nonlinear_arith)
                requires amp_total(amps@, j + 1) <= (j + 1) * u64::MAX;
            assert(ONE * ((j + 1) * u64::MAX) <= ONE * (u16::MAX * u64::MAX)) by (nonlinear_arith)
                requires j + 1 <= u16::MAX;
        }
        let s: i32 = samples[start + j];
        let mag: i64 = if s < 0 { 0 - (s as i64) } else { s as i64 };
        let a: u64 = amps[j];
        w = w + (a as u128) * ((ONE - mag) as u128);
        t = t + a as u128;
        j = j + 1;
    }
    proof {
        lemma_sums_bounded(samples@, start as int, amps@, amps@.len() as int);
    }
    if t == 0 {
        return 0;
    }
    proof {
        vstd::arithmetic::div_mod::lemma_div_is_ordered(w as int, ONE * t, t as int);
        assert(ONE * t == ONE as int * t as int);
        vstd::arithmetic::div_mod::lemma_div_by_multiple(ONE as int, t as int);
        vstd::arithmetic::div_mod::lemma_div_pos_is_pos(w as int, t as int);
    }
    let n: u128 = w / t;
    proof {
        assert(n * n <= ONE * ONE) by (nonlinear_arith)
            requires 0 <= n <= ONE;
        vstd::arithmetic::div_mod::lemma_div_is_ordered(n * n, ONE * ONE, ONE as int);
        vstd::arithmetic::div_mod::lemma_div_by_multiple(ONE as int, ONE as int);
        vstd::arithmetic::div_mod::lemma_div_pos_is_pos(n * n, ONE as int);
    }
    (n * n / (ONE as u128)) as i64
}


/// Linear map of `v` from `[mn, mx]` onto `[lo, hi]`, rounded down:
/// `(lo * (mx - v) + hi * (v - mn)) / (mx - mn)`. A degenerate interval
/// (`mn == mx`) maps everything to `lo`.
pub open spec fn lerp_spec(mn: int, mx: int, v: int, lo: int, hi: int) -> int {
    if mx == mn {
        lo
    } else {
        (lo * (mx - v) + hi * (v - mn)) / (mx - mn)
    }
}

proof fn lemma_lerp_bounds(mn: int, mx: int, v: int, lo: int, hi: int)
    requires
        mn <= v <= mx,
    ensures
        lo <= hi ==> lo <= lerp_spec(mn, mx, v, lo, hi) <= hi,
        hi < lo ==> hi <= lerp_spec(mn, mx, v, lo, hi) <= lo,
        lo <= hi && mn < mx ==> lerp_spec(mn, mx, v, lo, hi) == lo + (hi - lo) * (v - mn) / (mx - mn),
        hi < lo && mn < mx ==> lerp_spec(mn, mx, v, lo, hi) == hi + (lo - hi) * (mx - v) / (mx - mn),
{
    if mn < mx {
        let d = mx - mn;
        if lo <= hi {
            let b = (hi - lo) * (v - mn);
            assert(lo * (mx - v) + hi * (v - mn) == b + lo * d) by (nonlinear_arith)
                requires b == (hi - lo) * (v - mn), d == mx - mn;
            vstd::arithmetic::div_mod::lemma_hoist_over_denominator(b, lo, d as nat);
            assert(0 <= b <= (hi - lo) * d) by (nonlinear_arith)
                requires b == (hi - lo) * (v - mn), d == mx - mn, mn <= v <= mx, lo <= hi;
            vstd::arithmetic::div_mod::lemma_div_is_ordered(b, (hi - lo) * d, d);
            vstd::arithmetic::div_mod::lemma_div_by_multiple(hi - lo, d);
            vstd::arithmetic::div_mod::lemma_div_pos_is_pos(b, d);
        } else {
            let b = (lo - hi) * (mx - v);
            assert(lo * (mx - v) + hi * (v - mn) == b + hi * d) by (nonlinear_arith)
                requires b == (lo - hi) * (mx - v), d == mx - mn;
            vstd::arithmetic::div_mod::lemma_hoist_over_denominator(b, hi, d as nat);
            assert(0 <= b <= (lo - hi) * d) by (nonlinear_arith)
                requires b == (lo - hi) * (mx - v), d == mx - mn, mn <= v <= mx, hi < lo;
            vstd::arithmetic::div_mod::lemma_div_is_ordered(b, (lo - hi) * d, d);
            vstd::arithmetic::div_mod::lemma_div_by_multiple(lo - hi, d);
            vstd::arithmetic::div_mod::lemma_div_pos_is_pos(b, d);
        }
    }
}

/// Rescales `scaled_value` from `[min_value, max_value]` onto the interval
/// `val`. The result always lies between the two ends of `val`.
pub fn lerp(min_value: i64, max_value: i64, scaled_value: i64, val: (i64, i64)) -> (r: i64)
    requires
        min_value <= scaled_value <= max_value,
    ensures
        r == lerp_spec(min_value as int, max_value as int, scaled_value as int, val.0 as int, val.1 as int),
        val.0 <= val.1 ==> val.0 <= r <= val.1,
        val.1 < val.0 ==> val.1 <= r <= val.0,
{
    let (lo, hi) = val;
    proof {
        lemma_lerp_bounds(min_value as int, max_value as int, scaled_value as int, lo as int, hi as int);
    }
    if max_value == min_value {
        return lo;
    }
    let d: u128 = (max_value as i128 - min_value as i128) as u128;
    if lo <= hi {
        let span: u128 = (hi as i128 - lo as i128) as u128;
        let off: u128 = (scaled_value as i128 - min_value as i128) as u128;
        proof {
            assert(span * off <= u64::MAX * u64::MAX) by (nonlinear_arith)
                requires span <= u64::MAX, off <= u64::MAX;
        }
        let q: u128 = span * off / d;
        (lo as i128 + q as i128) as i64
    } else {
        let span: u128 = (lo as i128 - hi as i128) as u128;
        let off: u128 = (max_value as i128 - scaled_value as i128) as u128;
        proof {
            assert(span * off <= u64::MAX * u64::MAX) by (nonlinear_arith)
                requires span <= u64::MAX, off <= u64::MAX;
        }
        let q: u128 = span * off / d;
        (hi as i128 + q as i128) as i64
    }
}

/// The least value of a non-empty sequence (zero for an empty one).
pub open spec fn seq_min(s: Seq<int>) -> int
    decreases s.len(),
{
    if s.len() == 0 {
        0
    } else if s.len() == 1 {
        s[0]
    } else {
        let m = seq_min(s.drop_last());
        if s.last() < m { s.last() } else { m }
    }
}

/// The greatest value of a non-empty sequence (zero for an empty one).
pub open spec fn seq_max(s: Seq<int>) -> int
    decreases s.len(),
{
    if s.len() == 0 {
        0
    } else if s.len() == 1 {
        s[0]
    } else {
        let m = seq_max(s.drop_last());
        if s.last() > m { s.last() } else { m }
    }
}

proof fn lemma_min_max_bound(s: Seq<int>)
    ensures
        forall|i: int| 0 <= i < s.len() ==> seq_min(s) <= #[trigger] s[i] <= seq_max(s),
    decreases s.len(),
{
    if s.len() > 1 {
        lemma_min_max_bound(s.drop_last());
        assert forall|i: int| 0 <= i < s.len() implies seq_min(s) <= #[trigger] s[i] <= seq_max(s) by {
            if i < s.len() - 1 {
                assert(s.drop_last()[i] == s[i]);
            }
        }
    }
}

/// Every cell rescaled linearly from the field's own least and greatest
/// values onto `[lo, hi]`.
pub open spec fn rescale(raw: Seq<int>, lo: int, hi: int) -> Seq<int> {
    Seq::new(raw.len(), |i: int| lerp_spec(seq_min(raw), seq_max(raw), raw[i], lo, hi))
}

/// The octave amplitudes: 1.0, then each the previous times `persistence`.
pub open spec fn amplitudes(persistence: nat, octaves: nat) -> Seq<u64> {
    Seq::new(octaves, |k: int| geometric(ONE as nat, persistence, k as nat) as u64)
}

/// The raw values of `cells` cells, each with `amps.len()` consecutive samples.
pub open spec fn raw_field(samples: Seq<i32>, amps: Seq<u64>, cells: nat) -> Seq<int> {
    Seq::new(cells, |c: int| cell_spec(samples, c * amps.len(), amps))
}

/// The finished field: raw cell values rescaled onto `[lo, hi]`.
pub open spec fn field_spec(
    samples: Seq<i32>,
    persistence: nat,
    octaves: nat,
    cells: nat,
    lo: int,
    hi: int,
) -> Seq<int> {
    rescale(raw_field(samples, amplitudes(persistence, octaves), cells), lo, hi)
}

/// After rescaling onto `[lo, hi]`, every cell of any field lies in that
/// interval.
pub proof fn lemma_rescaled_in_range(raw: Seq<int>, lo: int, hi: int)
    requires
        lo <= hi,
    ensures
        forall|i: int| 0 <= i < raw.len() ==> lo <= #[trigger] rescale(raw, lo, hi)[i] <= hi,
{
    lemma_min_max_bound(raw);
    assert forall|i: int| 0 <= i < raw.len() implies lo <= #[trigger] rescale(raw, lo, hi)[i] <= hi by {
        lemma_lerp_bounds(seq_min(raw), seq_max(raw), raw[i], lo, hi);
    }
}


/// Generates one field of `map_width * map_height` cells, row-major.
///
/// Cell `c` reads the `octaves` noise samples that begin at `c * octaves`,
/// weighs them with amplitudes that start at 1.0 and shrink (or grow) by
/// `persistence` per octave, and the whole field is then rescaled onto
/// `range`. Fails, leaving `map` as it was, when an amplitude does not fit
/// in 64 bits.
pub fn noiseGen(
    map: &mut Vec<i64>,
    map_height: usize,
    samples: &Vec<i32>,
    map_width: usize,
    persistence: u32,
    octaves: u16,
    range: (i64, i64),
) -> (r: Result<(), FieldError>)
    requires
        map_width * map_height <= usize::MAX,
        samples@.len() == map_width * map_height * octaves,
        samples_bounded(samples@),
    ensures
        r is Ok <==> series_fits(ONE as nat, persistence as nat, octaves as nat),
        r is Err ==> final(map)@ == old(map)@,
        r is Ok ==> final(map)@.len() == map_width * map_height,
        r is Ok ==> forall|i: int|
            0 <= i < map_width * map_height ==> final(map)@[i] == #[trigger] field_spec(
                samples@,
                persistence as nat,
                octaves as nat,
                (map_width * map_height) as nat,
                range.0 as int,
                range.1 as int,
            )[i],
        r is Ok && range.0 <= range.1 ==> forall|i: int|
            0 <= i < map_width * map_height ==> range.0 <= #[trigger] final(map)@[i] <= range.1,
{
    let amps = match geometric_series(ONE as u64, persistence, octaves) {
        Ok(a) => a,
        Err(e) => return Err(e),
    };
    assert(amps@ =~= amplitudes(persistence as nat, octaves as nat));
    let cells: usize = map_width * map_height;
    let oct: usize = octaves as usize;
    let ghost raw = raw_field(samples@, amps@, cells as nat);
    let mut vals: Vec<i64> = Vec::new();
    let mut mn: i64 = 0;
    let mut mx: i64 = 0;
    let mut c: usize = 0;
    let slen: usize = samples.len();
    while c < cells
        invariant
            slen == samples@.len(),
            c <= cells,
            cells == map_width * map_height,
            oct == octaves,
            samples@.len() == cells * oct,
            amps@.len() == oct,
            samples_bounded(samples@),
            raw == raw_field(samples@, amps@, cells as nat),
            vals@.len() == c,
            forall|i: int| 0 <= i < c ==> vals@[i] == raw[i],
            c > 0 ==> mn == seq_min(raw.take(c as int)) && mx == seq_max(raw.take(c as int)),
        decreases cells - c,
    {
        proof {
            assert(c * oct + oct <= cells * oct) by (nonlinear_arith)
                requires c < cells;
        }
        let v = cell_value(samples, c * oct, &amps);
        let ghost prev = raw.take(c as int);
        proof {
            assert(raw.take(c + 1).drop_last() =~= prev);
        }
        if c == 0 {
            mn = v;
            mx = v;
        } else {
            if v < mn {
                mn = v;
            }
            if v > mx {
                mx = v;
            }
        }
        vals.push(v);
        c = c + 1;
    }
    proof {
        assert(raw.take(cells as int) =~= raw);
        lemma_min_max_bound(raw);
    }
    let mut out: Vec<i64> = Vec::new();
    let mut i: usize = 0;
    while i < cells
        invariant
            i <= cells,
            vals@.len() == cells,
            raw.len() == cells,
            forall|j: int| 0 <= j < cells ==> vals@[j] == raw[j],
            cells > 0 ==> mn == seq_min(raw) && mx == seq_max(raw),
            forall|j: int| 0 <= j < raw.len() ==> seq_min(raw) <= #[trigger] raw[j] <= seq_max(raw),
            out@.len() == i,
            forall|j: int| 0 <= j < i ==> out@[j] == #[trigger] rescale(raw, range.0 as int, range.1 as int)[j],
        decreases cells - i,
    {
        proof {
            assert(vals@[i as int] == raw[i as int]);
            assert(seq_min(raw) <= raw[i as int] <= seq_max(raw));
        }
        let x = lerp(mn, mx, vals[i], range);
        out.push(x);
        i = i + 1;
    }
    proof {
        if range.0 <= range.1 {
            lemma_rescaled_in_range(raw, range.0 as int, range.1 as int);
            assert forall|j: int| 0 <= j < cells implies range.0 <= #[trigger] out@[j] <= range.1 by {
                assert(out@[j] == rescale(raw, range.0 as int, range.1 as int)[j]);
            }
        }
    }
    *map = out;
    Ok(())
}

} // verus!
