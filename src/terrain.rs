//! Terrain synthesis: noise seeding, fault-line displacement, smoothing,
//! normalization and classification of an elevation grid.
use vstd::prelude::*;
use crate::grid::{col_of, row_of, lemma_index_split};
use vstd::arithmetic::div_mod::{lemma_multiply_divide_lt, lemma_div_pos_is_pos, lemma_mod_bound};

verus! {

/// Classification label of a cell, derived from its normalized elevation.
/// The discriminants are the bytes written to the heightmap file.
#[derive(Debug, Clone, Copy, PartialEq, Eq, Structural)]
pub enum TerrainLayer {
    Water,
    Land,
    PineMountain,
    RockMountain,
}

/// The byte under which a label is stored.
pub open spec fn layer_code(l: TerrainLayer) -> u8 {
    match l {
        TerrainLayer::Water => 0,
        TerrainLayer::Land => 1,
        TerrainLayer::PineMountain => 2,
        TerrainLayer::RockMountain => 3,
    }
}

/// The classification table over normalized elevation bytes.
pub open spec fn layer_of(h: u8) -> TerrainLayer {
    if h <= 79 {
        TerrainLayer::Water
    } else if h <= 159 {
        TerrainLayer::Land
    } else if h <= 219 {
        TerrainLayer::PineMountain
    } else {
        TerrainLayer::RockMountain
    }
}

impl TerrainLayer {
    /// The byte under which this label is stored.
    pub fn code(&self) -> (r: u8)
        ensures
            r == layer_code(*self),
    {
        match self {
            TerrainLayer::Water => 0,
            TerrainLayer::Land => 1,
            TerrainLayer::PineMountain => 2,
            TerrainLayer::RockMountain => 3,
        }
    }
}

/// Classifies a normalized elevation byte.
pub fn classify_terrain_layer(height_value: u8) -> (r: TerrainLayer)
    ensures
        r == layer_of(height_value),
{
    if height_value <= 79 {
        TerrainLayer::Water
    } else if height_value <= 159 {
        TerrainLayer::Land
    } else if height_value <= 219 {
        TerrainLayer::PineMountain
    } else {
        TerrainLayer::RockMountain
    }
}

/// Per-grid salt mixed into every noise sample.
pub open spec fn domain_seed(seed: u64, width: u32, height: u32) -> u32 {
    ((seed % 0x1_0000_0000) as u32) ^ width.wrapping_mul(0x9E3779B1) ^ height.wrapping_mul(
        0x85EBCA77,
    )
}

/// Integer bit-mixer over a cell's coordinates and the grid salt.
pub open spec fn mix_cell(x: u32, y: u32, salt: u32) -> u32 {
    let h0 = x.wrapping_mul(374761393) ^ y.wrapping_mul(668265263) ^ salt;
    let h1 = (h0 ^ (h0 >> 13u32)).wrapping_mul(1274126177);
    h1 ^ (h1 >> 16u32)
}

/// The micro-noise added to the cell at column `x`, row `y`: a value in
/// `[-amplitude, amplitude]`, or nothing when the amplitude is not positive.
pub open spec fn noise_at(x: u32, y: u32, seed: u64, width: u32, height: u32, amplitude: i32) -> int {
    if amplitude <= 0 {
        0
    } else {
        ((mix_cell(x, y, domain_seed(seed, width, height)) & 0xFFFFu32) as int) % (2 * amplitude
            + 1) - amplitude
    }
}

/// The noise of the cell at row-major index `i`.
pub open spec fn noise_of_cell(i: int, seed: u64, width: u32, height: u32, amplitude: i32) -> int {
    noise_at(col_of(i, width as int) as u32, row_of(i, width as int) as u32, seed, width, height, amplitude)
}

proof fn lemma_noise_bound(i: int, seed: u64, width: u32, height: u32, amplitude: i32)
    ensures
        -vstd::math::max(amplitude as int, 0) <= noise_of_cell(i, seed, width, height, amplitude)
            <= vstd::math::max(amplitude as int, 0),
{
    if amplitude > 0 {
        let m = (mix_cell(
            col_of(i, width as int) as u32,
            row_of(i, width as int) as u32,
            domain_seed(seed, width, height),
        ) & 0xFFFFu32) as int;
        lemma_mod_bound(m, 2 * amplitude + 1);
    }
}

/// Largest amplitude for which `2 * amplitude + 1` fits an `i32`.
pub const MAX_NOISE_AMPLITUDE: i32 = 0x3FFF_FFFF;

/// The noise sample of one cell, from its coordinates and the grid salt.
fn noise_sample(x: u32, y: u32, salt: u32, amplitude: i32) -> (r: i32)
    requires
        0 < amplitude <= MAX_NOISE_AMPLITUDE,
    ensures
        r == ((mix_cell(x, y, salt) & 0xFFFFu32) as int) % (2 * amplitude + 1) - amplitude,
        -amplitude <= r <= amplitude,
{
    let mut h: u32 = x.wrapping_mul(374761393);
    h = h ^ y.wrapping_mul(668265263);
    h = h ^ salt;
    h = (h ^ (h >> 13u32)).wrapping_mul(1274126177);
    h = h ^ (h >> 16u32);
    assert(h == mix_cell(x, y, salt));
    let low: u32 = h & 0xFFFFu32;
    assert(low <= 0xFFFFu32) by (bit_vector)
        requires low == h & 0xFFFFu32;
    let modulus: i32 = amplitude * 2 + 1;
    let rem: i32 = (low as i32) % modulus;
    rem - amplitude
}

/// Adds hash-based micro-noise to every cell. Each sample depends on the
/// cell's coordinates, the seed and the grid size alone.
pub fn seed_height_noise(values: &mut Vec<i32>, width: u32, height: u32, seed: u64, amplitude: i32)
    requires
        old(values).len() == width as int * height as int,
        amplitude <= MAX_NOISE_AMPLITUDE,
        forall|i: int|
            0 <= i < old(values).len() ==> i32::MIN + amplitude <= #[trigger] old(values)[i]
                <= i32::MAX - amplitude,
    ensures
        final(values).len() == old(values).len(),
        forall|i: int|
            0 <= i < final(values).len() ==> #[trigger] final(values)[i] == old(values)[i]
                + noise_of_cell(i, seed, width, height, amplitude),
{
    if amplitude <= 0 {
        return;
    }
    let salt: u32 = ((seed % 0x1_0000_0000u64) as u32) ^ width.wrapping_mul(0x9E3779B1)
        ^ height.wrapping_mul(0x85EBCA77);
    let n = values.len();
    let w = width as usize;
    let mut i: usize = 0;
    while i < n
        invariant
            n == values.len(),
            n == width as int * height as int,
            w == width,
            0 < amplitude <= MAX_NOISE_AMPLITUDE,
            salt == domain_seed(seed, width, height),
            i <= n,
            forall|j: int|
                0 <= j < i ==> #[trigger] values[j] == old(values)[j] + noise_of_cell(
                    j,
                    seed,
                    width,
                    height,
                    amplitude,
                ),
            forall|j: int| i <= j < n ==> #[trigger] values[j] == old(values)[j],
            forall|j: int|
                0 <= j < n ==> i32::MIN + amplitude <= #[trigger] old(values)[j] <= i32::MAX
                    - amplitude,
        decreases n - i,
    {
        proof {
            lemma_index_split(i as int, width as int, height as int);
        }
        let x: u32 = (i % w) as u32;
        let y: u32 = (i / w) as u32;
        let noise = noise_sample(x, y, salt, amplitude);
        assert(noise == noise_of_cell(i as int, seed, width, height, amplitude));
        values.set(i, values[i] + noise);
        i = i + 1;
    }
}

/// Height added on the raised side of a fault line and taken from the other.
pub const FAULT_DISPLACEMENT: i32 = 2;

/// The view of one fault iteration: which cells lie on the raised side, or
/// nothing for a degenerate line.
pub open spec fn fault_view(fault: Option<Vec<bool>>) -> Option<Seq<bool>> {
    match fault {
        Some(sides) => Some(sides@),
        None => None,
    }
}

/// The accumulator after one fault iteration.
pub open spec fn fault_step(s: Seq<i32>, fault: Option<Seq<bool>>) -> Seq<i32> {
    match fault {
        None => s,
        Some(sides) => Seq::new(
            s.len(),
            |i: int|
                (if sides[i] {
                    s[i] + FAULT_DISPLACEMENT
                } else {
                    s[i] - FAULT_DISPLACEMENT
                }) as i32,
        ),
    }
}

/// Applies one fault iteration: cells on the raised side gain the
/// displacement, the others lose it; a degenerate line changes nothing.
pub fn apply_fault_line(values: &mut Vec<i32>, fault: &Option<Vec<bool>>)
    requires
        match fault {
            Some(sides) => sides.len() == old(values).len(),
            None => true,
        },
        forall|i: int|
            0 <= i < old(values).len() ==> i32::MIN + FAULT_DISPLACEMENT <= #[trigger] old(
                values,
            )[i] <= i32::MAX - FAULT_DISPLACEMENT,
    ensures
        final(values)@ == fault_step(old(values)@, fault_view(*fault)),
{
    match fault {
        None => {},
        Some(sides) => {
            let n = values.len();
            let mut i: usize = 0;
            while i < n
                invariant
                    n == values.len(),
                    n == old(values).len(),
                    sides.len() == n,
                    i <= n,
                    forall|j: int|
                        0 <= j < i ==> #[trigger] values[j] == fault_step(
                            old(values)@,
                            Some(sides@),
                        )[j],
                    forall|j: int| i <= j < n ==> #[trigger] values[j] == old(values)[j],
                    forall|j: int|
                        0 <= j < n ==> i32::MIN + FAULT_DISPLACEMENT <= #[trigger] old(values)[j]
                            <= i32::MAX - FAULT_DISPLACEMENT,
                decreases n - i,
            {
                if sides[i] {
                    values.set(i, values[i] + FAULT_DISPLACEMENT);
                } else {
                    values.set(i, values[i] - FAULT_DISPLACEMENT);
                }
                i = i + 1;
            }
            assert(values@ =~= fault_step(old(values)@, Some(sides@)));
        },
    }
}

/// Whether the cell at index `i` lies off the grid border.
pub open spec fn is_interior(i: int, width: int, height: int) -> bool {
    1 <= col_of(i, width) < width - 1 && 1 <= row_of(i, width) < height - 1
}

/// The sum of a cell and its eight neighbours.
pub open spec fn box_sum(s: Seq<i32>, i: int, width: int) -> int {
    s[i - width - 1] + s[i - width] + s[i - width + 1] + s[i - 1] + s[i] + s[i + 1] + s[i + width
        - 1] + s[i + width] + s[i + width + 1]
}

/// Division by nine, truncated toward zero.
pub open spec fn div9_toward_zero(v: int) -> int {
    if v >= 0 {
        v / 9
    } else {
        -((-v) / 9)
    }
}

/// One smoothing pass: each interior cell becomes the truncated mean of its
/// 3x3 box in `s`; border cells keep their value.
pub open spec fn smooth_pass(s: Seq<i32>, width: int, height: int) -> Seq<i32> {
    Seq::new(
        s.len(),
        |i: int|
            if is_interior(i, width, height) {
                div9_toward_zero(box_sum(s, i, width)) as i32
            } else {
                s[i]
            },
    )
}

/// `passes` smoothing passes, each over the result of the previous one.
pub open spec fn smooth_passes(s: Seq<i32>, width: int, height: int, passes: nat) -> Seq<i32>
    decreases passes,
{
    if passes == 0 {
        s
    } else {
        smooth_pass(smooth_passes(s, width, height, (passes - 1) as nat), width, height)
    }
}

proof fn lemma_interior_neighbours(i: int, width: int, height: int)
    requires
        0 <= i < width * height,
        width > 0,
        is_interior(i, width, height),
    ensures
        i - width - 1 >= 0,
        i + width + 1 < width * height,
{
    lemma_index_split(i, width, height);
    let x = col_of(i, width);
    let y = row_of(i, width);
    assert((y - 1) * width + (x - 1) >= 0) by (nonlinear_arith)
        requires y >= 1, x >= 1, width > 0;
    assert((y + 1) * width + (x + 1) < width * height) by (nonlinear_arith)
        requires y + 1 <= height - 1, x + 1 <= width - 1, width > 0;
    assert(i == y * width + x);
    assert((y - 1) * width == y * width - width) by (nonlinear_arith);
    assert((y + 1) * width == y * width + width) by (nonlinear_arith);
}

fn mean_of_box(values: &Vec<i32>, i: usize, w: usize) -> (r: i32)
    requires
        w <= i,
        i - w - 1 >= 0,
        i + w + 1 < values.len(),
    ensures
        r == div9_toward_zero(box_sum(values@, i as int, w as int)),
{
    let sum: i64 = values[i - w - 1] as i64 + values[i - w] as i64 + values[i - w + 1] as i64
        + values[i - 1] as i64 + values[i] as i64 + values[i + 1] as i64 + values[i + w - 1] as i64
        + values[i + w] as i64 + values[i + w + 1] as i64;
    if sum >= 0 {
        assert(sum / 9 <= i32::MAX) by (nonlinear_arith)
            requires 0 <= sum <= 9 * i32::MAX;
        (sum / 9) as i32
    } else {
        let neg: i64 = -sum;
        assert(neg / 9 <= 0x8000_0000) by (nonlinear_arith)
            requires 0 < neg <= 9 * 0x8000_0000;
        (-(neg / 9)) as i32
    }
}

fn smooth_once(values: &Vec<i32>, width: u32, height: u32) -> (r: Vec<i32>)
    requires
        values.len() == width as int * height as int,
        width > 0,
    ensures
        r@ == smooth_pass(values@, width as int, height as int),
{
    let n = values.len();
    let w = width as usize;
    let h = height as usize;
    let mut out: Vec<i32> = Vec::with_capacity(n);
    let mut i: usize = 0;
    while i < n
        invariant
            n == values.len(),
            n == width as int * height as int,
            w == width,
            h == height,
            w > 0,
            i <= n,
            out.len() == i,
            forall|j: int|
                0 <= j < i ==> #[trigger] out[j] == smooth_pass(
                    values@,
                    width as int,
                    height as int,
                )[j],
        decreases n - i,
    {
        proof {
            lemma_index_split(i as int, w as int, h as int);
        }
        let x = i % w;
        let y = i / w;
        if x >= 1 && x + 1 < w && y >= 1 && y + 1 < h {
            proof {
                lemma_interior_neighbours(i as int, w as int, h as int);
            }
            let m = mean_of_box(values, i, w);
            out.push(m);
        } else {
            out.push(values[i]);
        }
        i = i + 1;
    }
    assert(out@ =~= smooth_pass(values@, width as int, height as int));
    out
}

/// Box smoothing, `passes` times. Every pass reads the complete result of the
/// previous one.
pub fn smooth_heightmap_box(values: &mut Vec<i32>, width: u32, height: u32, passes: u32)
    requires
        old(values).len() == width as int * height as int,
        width > 0,
    ensures
        final(values)@ == smooth_passes(old(values)@, width as int, height as int, passes as nat),
{
    let mut k: u32 = 0;
    while k < passes
        invariant
            k <= passes,
            width > 0,
            values.len() == width as int * height as int,
            values@ == smooth_passes(old(values)@, width as int, height as int, k as nat),
        decreases passes - k,
    {
        let next = smooth_once(values, width, height);
        *values = next;
        k = k + 1;
    }
}

/// The smallest value of a non-empty sequence.
pub open spec fn seq_min(s: Seq<i32>) -> int
    decreases s.len(),
{
    if s.len() <= 1 {
        if s.len() == 0 { 0 } else { s[0] as int }
    } else {
        vstd::math::min(seq_min(s.drop_last()), s.last() as int)
    }
}

/// The largest value of a non-empty sequence.
pub open spec fn seq_max(s: Seq<i32>) -> int
    decreases s.len(),
{
    if s.len() <= 1 {
        if s.len() == 0 { 0 } else { s[0] as int }
    } else {
        vstd::math::max(seq_max(s.drop_last()), s.last() as int)
    }
}

/// Elevation byte of value `v` in the range `[lo, hi]`: `128` for a flat
/// range, else `(v - lo) / (hi - lo) * 255` rounded to the nearest integer,
/// halves away from zero.
pub open spec fn scale_to_byte(v: int, lo: int, hi: int) -> int {
    if lo == hi {
        128
    } else {
        (510 * (v - lo) + (hi - lo)) / (2 * (hi - lo))
    }
}

/// The elevation bytes of a finished accumulator.
pub open spec fn elevation_bytes(acc: Seq<i32>) -> Seq<u8> {
    Seq::new(acc.len(), |i: int| scale_to_byte(acc[i] as int, seq_min(acc), seq_max(acc)) as u8)
}

/// The terrain-label bytes of a grid of elevation bytes.
pub open spec fn layer_bytes(elevation: Seq<u8>) -> Seq<u8> {
    Seq::new(elevation.len(), |i: int| layer_code(layer_of(elevation[i])))
}

proof fn lemma_min_max_step(s: Seq<i32>, i: int)
    requires
        1 <= i < s.len(),
    ensures
        seq_min(s.take(i + 1)) == vstd::math::min(seq_min(s.take(i)), s[i] as int),
        seq_max(s.take(i + 1)) == vstd::math::max(seq_max(s.take(i)), s[i] as int),
{
    assert(s.take(i + 1).drop_last() =~= s.take(i));
}

proof fn lemma_min_max_bound(s: Seq<i32>)
    requires
        s.len() >= 1,
    ensures
        forall|i: int| 0 <= i < s.len() ==> seq_min(s) <= #[trigger] s[i] <= seq_max(s),
        seq_min(s) <= seq_max(s),
    decreases s.len(),
{
    if s.len() > 1 {
        lemma_min_max_bound(s.drop_last());
        assert forall|i: int| 0 <= i < s.len() implies seq_min(s) <= #[trigger] s[i] <= seq_max(
            s,
        ) by {
            if i < s.len() - 1 {
                assert(s[i] == s.drop_last()[i]);
            }
        }
    }
}

fn scale_value(v: i32, lo: i32, hi: i32) -> (r: u8)
    requires
        lo <= v <= hi,
    ensures
        r == scale_to_byte(v as int, lo as int, hi as int),
{
    if lo == hi {
        return 128;
    }
    let d: i64 = v as i64 - lo as i64;
    let range: i64 = hi as i64 - lo as i64;
    let num: i64 = 510 * d + range;
    let den: i64 = 2 * range;
    proof {
        assert(num < den * 256) by (nonlinear_arith)
            requires num == 510 * d + range, den == 2 * range, 0 <= d <= range, range > 0;
        lemma_multiply_divide_lt(num as int, den as int, 256);
        lemma_div_pos_is_pos(num as int, den as int);
    }
    (num / den) as u8
}

/// Min-max normalization of the accumulator into elevation bytes, with the
/// terrain label of each byte. A flat accumulator gives `128` everywhere.
pub fn normalize_heights(values: &Vec<i32>) -> (r: (Vec<u8>, Vec<u8>))
    ensures
        r.0@ == elevation_bytes(values@),
        r.1@ == layer_bytes(r.0@),
{
    let n = values.len();
    let mut elevation: Vec<u8> = Vec::with_capacity(n);
    let mut layers: Vec<u8> = Vec::with_capacity(n);
    if n == 0 {
        assert(elevation@ =~= elevation_bytes(values@));
        assert(layers@ =~= layer_bytes(elevation@));
        return (elevation, layers);
    }
    let mut lo: i32 = values[0];
    let mut hi: i32 = values[0];
    let mut i: usize = 1;
    while i < n
        invariant
            n == values.len(),
            1 <= i <= n,
            lo == seq_min(values@.take(i as int)),
            hi == seq_max(values@.take(i as int)),
        decreases n - i,
    {
        proof {
            lemma_min_max_step(values@, i as int);
        }
        if values[i] < lo {
            lo = values[i];
        }
        if values[i] > hi {
            hi = values[i];
        }
        i = i + 1;
    }
    assert(values@.take(n as int) =~= values@);
    proof {
        lemma_min_max_bound(values@);
    }
    let mut k: usize = 0;
    while k < n
        invariant
            n == values.len(),
            k <= n,
            lo == seq_min(values@),
            hi == seq_max(values@),
            forall|j: int| 0 <= j < n ==> lo <= #[trigger] values[j] <= hi,
            elevation.len() == k,
            layers.len() == k,
            forall|j: int| 0 <= j < k ==> #[trigger] elevation[j] == elevation_bytes(values@)[j],
            forall|j: int| 0 <= j < k ==> #[trigger] layers[j] == layer_code(layer_of(elevation[j])),
        decreases n - k,
    {
        let e = scale_value(values[k], lo, hi);
        elevation.push(e);
        layers.push(classify_terrain_layer(e).code());
        k = k + 1;
    }
    assert(elevation@ =~= elevation_bytes(values@));
    assert(layers@ =~= layer_bytes(elevation@));
    (elevation, layers)
}

/// Why a synthesis request is refused before any pass runs.
#[derive(Debug, Clone, Copy, PartialEq, Eq, Structural)]
pub enum ConfigError {
    /// The width or the height is zero.
    ZeroDimension,
    /// The cell count does not fit a `u32`.
    GridTooLarge,
    /// The noise amplitude is above `MAX_NOISE_AMPLITUDE`.
    AmplitudeTooLarge,
    /// The accumulator could leave the `i32` range.
    TooManyIterations,
    /// A fault mask does not hold one entry per cell.
    FaultMaskSize,
}

/// The elevation and terrain-label grids of a synthesized map.
pub struct Terrain {
    pub width: u32,
    pub height: u32,
    pub elevation: Vec<u8>,
    pub layers: Vec<u8>,
}

impl Terrain {
    /// Whether the map came out flat: every elevation byte is the mid value.
    /// A map with any height range has a cell at 0.
    pub fn is_flat(&self) -> (r: bool)
        ensures
            r == forall|i: int| 0 <= i < self.elevation.len() ==> self.elevation[i] == 128,
    {
        let mut i: usize = 0;
        while i < self.elevation.len()
            invariant
                i <= self.elevation.len(),
                forall|j: int| 0 <= j < i ==> self.elevation[j] == 128,
            decreases self.elevation.len() - i,
        {
            if self.elevation[i] != 128 {
                return false;
            }
            i = i + 1;
        }
        true
    }
}

/// The fault iterations as mathematical values.
pub open spec fn faults_view(faults: Seq<Option<Vec<bool>>>) -> Seq<Option<Seq<bool>>> {
    faults.map_values(|f: Option<Vec<bool>>| fault_view(f))
}

/// The accumulator right after noise seeding.
pub open spec fn noise_grid(width: u32, height: u32, seed: u64, amplitude: i32) -> Seq<i32> {
    Seq::new(
        (width * height) as nat,
        |i: int| noise_of_cell(i, seed, width, height, amplitude) as i32,
    )
}

/// The accumulator after the given fault iterations, in order.
pub open spec fn faulted(s: Seq<i32>, faults: Seq<Option<Seq<bool>>>) -> Seq<i32>
    decreases faults.len(),
{
    if faults.len() == 0 {
        s
    } else {
        fault_step(faulted(s, faults.drop_last()), faults.last())
    }
}

/// The accumulator after noise, faults and smoothing.
pub open spec fn accumulated(
    width: u32,
    height: u32,
    seed: u64,
    amplitude: i32,
    faults: Seq<Option<Seq<bool>>>,
    passes: nat,
) -> Seq<i32> {
    smooth_passes(
        faulted(noise_grid(width, height, seed, amplitude), faults),
        width as int,
        height as int,
        passes,
    )
}

/// Whether every fault mask holds one entry for each of `n` cells.
pub open spec fn masks_fit(faults: Seq<Option<Seq<bool>>>, n: int) -> bool {
    forall|k: int| 0 <= k < faults.len() && (#[trigger] faults[k]) is Some ==> faults[k]->0.len() == n
}

/// The configuration error of a synthesis request, if any, in the order the
/// checks are made.
pub open spec fn synthesis_error(
    width: u32,
    height: u32,
    amplitude: i32,
    faults: Seq<Option<Seq<bool>>>,
) -> Option<ConfigError> {
    if width == 0 || height == 0 {
        Some(ConfigError::ZeroDimension)
    } else if width * height > u32::MAX {
        Some(ConfigError::GridTooLarge)
    } else if amplitude > MAX_NOISE_AMPLITUDE {
        Some(ConfigError::AmplitudeTooLarge)
    } else if vstd::math::max(amplitude as int, 0) + 2 * faults.len() > i32::MAX {
        Some(ConfigError::TooManyIterations)
    } else if !masks_fit(faults, width * height) {
        Some(ConfigError::FaultMaskSize)
    } else {
        None
    }
}

fn fault_masks_fit(faults: &Vec<Option<Vec<bool>>>, n: usize) -> (r: bool)
    ensures
        r == masks_fit(faults_view(faults@), n as int),
{
    let ghost fv = faults_view(faults@);
    let mut k: usize = 0;
    while k < faults.len()
        invariant
            fv == faults_view(faults@),
            k <= faults.len(),
            forall|j: int| 0 <= j < k && (#[trigger] fv[j]) is Some ==> fv[j]->0.len() == n,
        decreases faults.len() - k,
    {
        assert(fv[k as int] == fault_view(faults@[k as int]));
        match &faults[k] {
            Some(sides) => {
                if sides.len() != n {
                    return false;
                }
            },
            None => {},
        }
        k = k + 1;
    }
    true
}

fn accumulate_faults(values: &mut Vec<i32>, faults: &Vec<Option<Vec<bool>>>, bound: u64)
    requires
        masks_fit(faults_view(faults@), old(values).len() as int),
        bound + 2 * faults.len() <= i32::MAX,
        forall|j: int| 0 <= j < old(values).len() ==> -bound <= #[trigger] old(values)[j] <= bound,
    ensures
        final(values).len() == old(values).len(),
        final(values)@ == faulted(old(values)@, faults_view(faults@)),
{
    let ghost fv = faults_view(faults@);
    let ghost base = values@;
    let n = values.len();
    let mut f: usize = 0;
    while f < faults.len()
        invariant
            values.len() == n,
            base.len() == n,
            fv == faults_view(faults@),
            masks_fit(fv, n as int),
            bound + 2 * faults.len() <= i32::MAX,
            f <= faults.len(),
            values@ == faulted(base, fv.take(f as int)),
            forall|j: int|
                0 <= j < n ==> -(bound + 2 * f) <= #[trigger] values[j] <= bound + 2 * f,
        decreases faults.len() - f,
    {
        assert(fv.take(f + 1).drop_last() =~= fv.take(f as int));
        assert(fv[f as int] == fault_view(faults@[f as int]));
        assert(fv.take(f + 1).last() == fv[f as int]);
        let ghost prev = values@;
        apply_fault_line(values, &faults[f]);
        assert forall|j: int| 0 <= j < n implies -(bound + 2 * (f + 1)) <= #[trigger] values[j]
            <= bound + 2 * (f + 1) by {
            assert(values@[j] == fault_step(prev, fv[f as int])[j]);
        }
        f = f + 1;
    }
    assert(fv.take(faults.len() as int) =~= fv);
}

/// What a synthesis request returns: its configuration error, or the grids
/// that noise, faults, smoothing and normalization give.
pub open spec fn synthesis_outcome(
    width: u32,
    height: u32,
    seed: u64,
    amplitude: i32,
    faults: Seq<Option<Seq<bool>>>,
    passes: nat,
    r: Result<Terrain, ConfigError>,
) -> bool {
    match synthesis_error(width, height, amplitude, faults) {
        Some(e) => r == Err::<Terrain, ConfigError>(e),
        None => r is Ok && r->Ok_0.width == width && r->Ok_0.height == height
            && r->Ok_0.elevation@ == elevation_bytes(
            accumulated(width, height, seed, amplitude, faults, passes),
        ) && r->Ok_0.layers@ == layer_bytes(r->Ok_0.elevation@),
    }
}

/// Builds the elevation and terrain grids: micro-noise of the given
/// amplitude, then each fault iteration in order (`None` for a degenerate
/// line, else which cells lie on the raised side), then `smoothing_passes`
/// box-smoothing passes, then min-max normalization and classification.
pub fn synthesize_terrain(
    width: u32,
    height: u32,
    seed: u64,
    amplitude: i32,
    faults: &Vec<Option<Vec<bool>>>,
    smoothing_passes: u32,
) -> (r: Result<Terrain, ConfigError>)
    ensures
        synthesis_outcome(
            width,
            height,
            seed,
            amplitude,
            faults_view(faults@),
            smoothing_passes as nat,
            r,
        ),
{
    if width == 0 || height == 0 {
        return Err(ConfigError::ZeroDimension);
    }
    assert(width as u64 * height as u64 <= u64::MAX) by (nonlinear_arith)
        requires width <= u32::MAX, height <= u32::MAX;
    if width as u64 * height as u64 > u32::MAX as u64 {
        return Err(ConfigError::GridTooLarge);
    }
    if amplitude > MAX_NOISE_AMPLITUDE {
        return Err(ConfigError::AmplitudeTooLarge);
    }
    let bound: u64 = if amplitude > 0 {
        amplitude as u64
    } else {
        0
    };
    if faults.len() as u64 > (i32::MAX as u64 - bound) / 2 {
        return Err(ConfigError::TooManyIterations);
    }
    let n: usize = (width as u64 * height as u64) as usize;
    if !fault_masks_fit(faults, n) {
        return Err(ConfigError::FaultMaskSize);
    }
    let mut values: Vec<i32> = Vec::with_capacity(n);
    let mut i: usize = 0;
    while i < n
        invariant
            i <= n,
            values.len() == i,
            forall|j: int| 0 <= j < i ==> #[trigger] values[j] == 0,
        decreases n - i,
    {
        values.push(0);
        i = i + 1;
    }
    seed_height_noise(&mut values, width, height, seed, amplitude);
    assert(values@ =~= noise_grid(width, height, seed, amplitude));
    assert forall|j: int| 0 <= j < values.len() implies -bound <= #[trigger] values[j] <= bound by {
        lemma_noise_bound(j, seed, width, height, amplitude);
    }
    accumulate_faults(&mut values, faults, bound);
    smooth_heightmap_box(&mut values, width, height, smoothing_passes);
    let (elevation, layers) = normalize_heights(&values);
    Ok(Terrain { width, height, elevation, layers })
}

/// Synthesis is deterministic: two runs on the same width, height, seed,
/// amplitude, fault iterations and pass count give the same result, grid for
/// grid.
pub proof fn lemma_synthesis_deterministic(
    width: u32,
    height: u32,
    seed: u64,
    amplitude: i32,
    faults: Seq<Option<Seq<bool>>>,
    passes: nat,
    r1: Result<Terrain, ConfigError>,
    r2: Result<Terrain, ConfigError>,
)
    requires
        synthesis_outcome(width, height, seed, amplitude, faults, passes, r1),
        synthesis_outcome(width, height, seed, amplitude, faults, passes, r2),
    ensures
        r1 is Ok <==> r2 is Ok,
        r1 is Err ==> r1 == r2,
        r1 is Ok ==> r1->Ok_0.width == r2->Ok_0.width && r1->Ok_0.height == r2->Ok_0.height
            && r1->Ok_0.elevation@ == r2->Ok_0.elevation@ && r1->Ok_0.layers@
            == r2->Ok_0.layers@,
{
}

/// A degenerate fault iteration leaves the accumulator as it was.
pub proof fn lemma_degenerate_fault_skipped(s: Seq<i32>, faults: Seq<Option<Seq<bool>>>)
    ensures
        faulted(s, faults.push(None)) == faulted(s, faults),
{
    assert(faults.push(None).drop_last() =~= faults);
}

proof fn lemma_smooth_zero(width: int, height: int, passes: nat)
    requires
        width > 0,
        height >= 0,
    ensures
        smooth_passes(Seq::new((width * height) as nat, |i: int| 0i32), width, height, passes)
            =~= Seq::new((width * height) as nat, |i: int| 0i32),
    decreases passes,
{
    let z = Seq::new((width * height) as nat, |i: int| 0i32);
    assert(width * height >= 0) by (nonlinear_arith)
        requires width > 0, height >= 0;
    if passes > 0 {
        lemma_smooth_zero(width, height, (passes - 1) as nat);
        assert forall|i: int| 0 <= i < z.len() implies #[trigger] smooth_pass(z, width, height)[i]
            == 0i32 by {
            if is_interior(i, width, height) {
                lemma_interior_neighbours(i, width, height);
            }
        }
        assert(smooth_pass(z, width, height) =~= z);
    }
}

proof fn lemma_min_max_zero(n: nat)
    ensures
        seq_min(Seq::new(n, |i: int| 0i32)) == 0,
        seq_max(Seq::new(n, |i: int| 0i32)) == 0,
    decreases n,
{
    if n > 1 {
        lemma_min_max_zero((n - 1) as nat);
        assert(Seq::new(n, |i: int| 0i32).drop_last() =~= Seq::new((n - 1) as nat, |i: int| 0i32));
    }
}

/// With no fault iterations and no noise, every elevation byte is 128 and
/// every terrain label is Land, whatever the seed and the number of
/// smoothing passes.
pub proof fn lemma_flat_fallback(width: u32, height: u32, seed: u64, passes: nat)
    requires
        width > 0,
        height > 0,
    ensures
        elevation_bytes(accumulated(width, height, seed, 0, Seq::empty(), passes)) =~= Seq::new(
            (width * height) as nat,
            |i: int| 128u8,
        ),
        layer_bytes(elevation_bytes(accumulated(width, height, seed, 0, Seq::empty(), passes)))
            =~= Seq::new((width * height) as nat, |i: int| layer_code(TerrainLayer::Land)),
{
    let n = (width * height) as nat;
    let z = Seq::new(n, |i: int| 0i32);
    assert(noise_grid(width, height, seed, 0) =~= z);
    lemma_smooth_zero(width as int, height as int, passes);
    assert(accumulated(width, height, seed, 0, Seq::empty(), passes) =~= z);
    lemma_min_max_zero(n);
}

} // verus!
