//! Terrain generation: a raw fixed-point noise grid is recentered so its
//! mean sits in the habitable band, squashed through the logistic function
//! so every cell lies in `[0, SCALE]`, and then handed to hydraulic
//! erosion (see the erosion module).

use vstd::prelude::*;

use noise::utils::NoiseMapBuilder;

use crate::fixed::{sigmoid, sigmoid_fp, SCALE};

verus! {

use vstd::arithmetic::div_mod::{
    lemma_div_is_ordered, lemma_div_multiples_vanish, lemma_div_pos_is_pos,
    lemma_hoist_over_denominator,
};
use vstd::arithmetic::mul::lemma_mul_inequality;

/// Largest magnitude accepted for a raw noise cell (16.0). Fractal value
/// noise stays within [-1, 1]; anything near this limit means the noise
/// source violated its domain and generation must fail rather than
/// continue.
pub const NOISE_LIMIT: i64 = 16_000_000;

/// Largest magnitude a cell can reach after recentering.
pub const RECENTER_LIMIT: i64 = 33_000_000;

/// Lower edge of the habitable mean band (0.3).
pub const BAND_LO: i64 = 300_000;

/// Upper edge of the habitable mean band (0.7).
pub const BAND_HI: i64 = 700_000;

/// The target mean (0.5) that recentering shifts towards.
pub const HALF_HEIGHT: i64 = 500_000;

/// Most cells a grid may hold; keeps every sum comfortably inside `u64`.
pub const MAX_CELLS: usize = 16_777_216;

/// Sum of a sequence of fixed-point cells, as a mathematical integer.
pub open spec fn sum_cells(s: Seq<i64>) -> int
    decreases s.len(),
{
    if s.len() == 0 {
        0
    } else {
        sum_cells(s.drop_last()) + s.last()
    }
}

/// Floor mean of a non-empty sequence of cells.
pub open spec fn mean_cells(s: Seq<i64>) -> int {
    sum_cells(s) / (s.len() as int)
}

/// Every cell shifted by the same offset `d`.
pub open spec fn shift_cells(s: Seq<i64>, d: int) -> Seq<i64> {
    Seq::new(s.len(), |i: int| (s[i] + d) as i64)
}

/// The recentering pass: when the mean falls outside the habitable band,
/// every cell is shifted by the single offset that moves the mean to 0.5;
/// otherwise the grid is untouched.
pub open spec fn spec_recenter(s: Seq<i64>) -> Seq<i64> {
    if BAND_LO <= mean_cells(s) <= BAND_HI {
        s
    } else {
        shift_cells(s, HALF_HEIGHT - mean_cells(s))
    }
}

/// The squashing pass: cells already inside `[0, SCALE]` are kept as they
/// are; out-of-range cells are pushed through the logistic function.
pub open spec fn spec_squash(s: Seq<i64>) -> Seq<u32> {
    Seq::new(
        s.len(),
        |i: int| if 0 <= s[i] <= SCALE {
            s[i] as u32
        } else {
            sigmoid_fp(s[i] as int) as u32
        },
    )
}

proof fn lemma_sum_cells_take_step(s: Seq<i64>, i: int)
    requires
        0 <= i < s.len(),
    ensures
        sum_cells(s.take(i + 1)) == sum_cells(s.take(i)) + s[i],
{
    assert(s.take(i + 1).drop_last() =~= s.take(i));
    assert(s.take(i + 1).last() == s[i]);
}

proof fn lemma_sum_shift_cells(s: Seq<i64>, d: int)
    requires
        forall|i: int| 0 <= i < s.len() ==> i64::MIN <= #[trigger] s[i] + d <= i64::MAX,
    ensures
        sum_cells(shift_cells(s, d)) == sum_cells(s) + (s.len() as int) * d,
    decreases s.len(),
{
    let t = shift_cells(s, d);
    if s.len() == 0 {
        assert(t.len() == 0);
        assert((s.len() as int) * d == 0) by {
            vstd::arithmetic::mul::lemma_mul_basics(d);
        }
    } else {
        let n = s.len() as int;
        assert(t.drop_last() =~= shift_cells(s.drop_last(), d));
        lemma_sum_shift_cells(s.drop_last(), d);
        assert(t.last() == (s.last() + d) as i64);
        assert(s.last() + d == t.last());
        assert((n - 1) * d + d == n * d) by {
            vstd::arithmetic::mul::lemma_mul_is_distributive_sub_other_way(d, n, 1);
        }
    }
}

/// Floor mean of the cells, exact against `mean_cells`.
///
/// The sum is taken over values shifted up by `NOISE_LIMIT`, so the whole
/// computation stays in non-negative 64-bit range.
pub fn mean_height(cells: &Vec<i64>) -> (m: i64)
    requires
        1 <= cells@.len() <= MAX_CELLS,
        forall|i: int| 0 <= i < cells@.len() ==> -NOISE_LIMIT <= #[trigger] cells@[i] <= NOISE_LIMIT,
    ensures
        m == mean_cells(cells@),
        -NOISE_LIMIT <= m <= NOISE_LIMIT,
{
    let n = cells.len();
    let mut acc: u64 = 0;
    let mut i: usize = 0;
    while i < n
        invariant
            0 <= i <= n,
            n == cells@.len(),
            1 <= n <= MAX_CELLS,
            forall|j: int|
                0 <= j < cells@.len() ==> -NOISE_LIMIT <= #[trigger] cells@[j] <= NOISE_LIMIT,
            acc == sum_cells(cells@.take(i as int)) + (i as int) * (NOISE_LIMIT as int),
            acc <= (i as int) * (2 * NOISE_LIMIT as int),
        decreases n - i,
    {
        proof {
            lemma_sum_cells_take_step(cells@, i as int);
            assert((i + 1) as int * (NOISE_LIMIT as int) == (i as int) * (NOISE_LIMIT as int)
                + NOISE_LIMIT) by {
                vstd::arithmetic::mul::lemma_mul_is_distributive_add_other_way(
                    NOISE_LIMIT as int,
                    i as int,
                    1,
                );
            }
            assert((i + 1) as int * (2 * NOISE_LIMIT as int) == (i as int) * (2 * NOISE_LIMIT
                as int) + 2 * NOISE_LIMIT) by {
                vstd::arithmetic::mul::lemma_mul_is_distributive_add_other_way(
                    2 * NOISE_LIMIT as int,
                    i as int,
                    1,
                );
            }
            assert((i as int) * (2 * NOISE_LIMIT as int) <= (MAX_CELLS as int) * (2 * NOISE_LIMIT
                as int)) by {
                lemma_mul_inequality(i as int, MAX_CELLS as int, 2 * NOISE_LIMIT as int);
            }
        }
        let v = cells[i];
        acc = acc + ((v + NOISE_LIMIT) as u64);
        i = i + 1;
    }
    proof {
        assert(cells@.take(n as int) =~= cells@);
        assert((n as int) * (2 * NOISE_LIMIT as int) <= (MAX_CELLS as int) * (2 * NOISE_LIMIT
            as int)) by {
            lemma_mul_inequality(n as int, MAX_CELLS as int, 2 * NOISE_LIMIT as int);
        }
    }
    let shifted = acc / (n as u64);
    proof {
        let sum = sum_cells(cells@);
        let nn = n as int;
        assert(acc as int == sum + nn * (NOISE_LIMIT as int));
        assert((sum + (NOISE_LIMIT as int) * nn) / nn == sum / nn + NOISE_LIMIT) by {
            lemma_hoist_over_denominator(sum, NOISE_LIMIT as int, n as nat);
        }
        assert(nn * (NOISE_LIMIT as int) == (NOISE_LIMIT as int) * nn) by {
            vstd::arithmetic::mul::lemma_mul_is_commutative(nn, NOISE_LIMIT as int);
        }
        // The shifted mean is at most 2 * NOISE_LIMIT.
        assert(acc as int <= nn * (2 * NOISE_LIMIT as int));
        assert((nn * (2 * NOISE_LIMIT as int)) / nn == 2 * NOISE_LIMIT) by {
            lemma_div_multiples_vanish(2 * NOISE_LIMIT as int, nn);
        }
        lemma_div_is_ordered(acc as int, nn * (2 * NOISE_LIMIT as int), nn);
        lemma_div_pos_is_pos(acc as int, nn);
    }
    (shifted as i64) - NOISE_LIMIT
}

/// The recentering pass, exact against `spec_recenter`: if the mean is
/// outside `[BAND_LO, BAND_HI]` every cell is shifted by `0.5 - mean`.
/// Afterwards the mean always lies inside the band.
pub fn recenter_heights(cells: Vec<i64>) -> (r: Vec<i64>)
    requires
        1 <= cells@.len() <= MAX_CELLS,
        forall|i: int| 0 <= i < cells@.len() ==> -NOISE_LIMIT <= #[trigger] cells@[i] <= NOISE_LIMIT,
    ensures
        r@ == spec_recenter(cells@),
        r@.len() == cells@.len(),
        forall|i: int| 0 <= i < r@.len() ==> -RECENTER_LIMIT <= #[trigger] r@[i] <= RECENTER_LIMIT,
        BAND_LO <= mean_cells(r@) <= BAND_HI,
{
    let m = mean_height(&cells);
    if BAND_LO <= m && m <= BAND_HI {
        proof {
            assert(spec_recenter(cells@) == cells@);
        }
        cells
    } else {
        let d = HALF_HEIGHT - m;
        let n = cells.len();
        let mut out: Vec<i64> = Vec::new();
        let mut i: usize = 0;
        while i < n
            invariant
                0 <= i <= n,
                n == cells@.len(),
                1 <= n <= MAX_CELLS,
                forall|j: int|
                    0 <= j < cells@.len() ==> -NOISE_LIMIT <= #[trigger] cells@[j] <= NOISE_LIMIT,
                -NOISE_LIMIT - HALF_HEIGHT <= d <= NOISE_LIMIT + HALF_HEIGHT,
                out@ =~= shift_cells(cells@, d as int).take(i as int),
            decreases n - i,
        {
            let v = cells[i];
            out.push(v + d);
            proof {
                assert(out@ =~= shift_cells(cells@, d as int).take(i as int + 1));
            }
            i = i + 1;
        }
        proof {
            let s = cells@;
            let nn = n as int;
            assert(out@ =~= shift_cells(s, d as int));
            lemma_sum_shift_cells(s, d as int);
            // mean(out) == mean + d == HALF_HEIGHT
            let sum = sum_cells(s);
            assert((sum + (d as int) * nn) / nn == sum / nn + d) by {
                lemma_hoist_over_denominator(sum, d as int, n as nat);
            }
            assert(nn * (d as int) == (d as int) * nn) by {
                vstd::arithmetic::mul::lemma_mul_is_commutative(nn, d as int);
            }
            assert(mean_cells(out@) == HALF_HEIGHT);
        }
        out
    }
}

/// Largest value a height cell can hold after a full generation run
/// (1.0 plus the most rainfall erosion may add).
pub const HEIGHT_CAP: u32 = 2_100_000_000;

/// A dense 2-D grid of fixed-point heights, row-major: cell `(x, y)`
/// lives at index `y * width + x`. Once generated it is only read.
pub struct HeightField {
    width: usize,
    height: usize,
    cells: Vec<u32>,
}

impl View for HeightField {
    type V = Seq<u32>;

    closed spec fn view(&self) -> Seq<u32> {
        self.cells@
    }
}

impl HeightField {
    pub closed spec fn spec_width(&self) -> int {
        self.width as int
    }

    pub closed spec fn spec_height(&self) -> int {
        self.height as int
    }

    /// The height at `(x, y)`.
    pub open spec fn spec_at(&self, x: int, y: int) -> u32 {
        self@[y * self.spec_width() + x]
    }

    /// Well-formedness: a non-empty grid of bounded cells whose buffer
    /// matches its dimensions.
    pub open spec fn wf(&self) -> bool {
        &&& 1 <= self.spec_width()
        &&& 1 <= self.spec_height()
        &&& self.spec_width() * self.spec_height() <= MAX_CELLS
        &&& self@.len() == self.spec_width() * self.spec_height()
        &&& forall|i: int| 0 <= i < self@.len() ==> #[trigger] self@[i] <= HEIGHT_CAP
    }

    pub fn new(width: usize, height: usize, cells: Vec<u32>) -> (hf: HeightField)
        requires
            1 <= width,
            1 <= height,
            width * height <= MAX_CELLS,
            cells@.len() == width * height,
            forall|i: int| 0 <= i < cells@.len() ==> #[trigger] cells@[i] <= HEIGHT_CAP,
        ensures
            hf.wf(),
            hf@ == cells@,
            hf.spec_width() == width,
            hf.spec_height() == height,
    {
        HeightField { width, height, cells }
    }

    pub fn width(&self) -> (w: usize)
        ensures
            w == self.spec_width(),
    {
        self.width
    }

    pub fn height(&self) -> (h: usize)
        ensures
            h == self.spec_height(),
    {
        self.height
    }

    /// The height at `(x, y)`, which must be on the grid.
    pub fn at(&self, x: usize, y: usize) -> (v: u32)
        requires
            self.wf(),
            x < self.spec_width(),
            y < self.spec_height(),
        ensures
            v == self.spec_at(x as int, y as int),
    {
        proof {
            lemma_row_major_index(self.spec_width(), self.spec_height(), x as int, y as int);
        }
        self.cells[y * self.width + x]
    }

    /// The height at `(x, y)`, or `None` off the grid: out-of-bounds
    /// lookups are a non-fatal miss, never a panic.
    pub fn value_at(&self, x: usize, y: usize) -> (v: Option<u32>)
        requires
            self.wf(),
        ensures
            x < self.spec_width() && y < self.spec_height() ==> v == Some(
                self.spec_at(x as int, y as int),
            ),
            !(x < self.spec_width() && y < self.spec_height()) ==> v is None,
    {
        if x < self.width && y < self.height {
            Some(self.at(x, y))
        } else {
            None
        }
    }
}

proof fn lemma_row_major_index(w: int, h: int, x: int, y: int)
    requires
        0 <= x < w,
        0 <= y < h,
    ensures
        0 <= y * w + x < w * h,
{
    assert(y * w + x < w * h) by (nonlinear_arith)
        requires
            0 <= x < w,
            0 <= y < h,
    ;
    vstd::arithmetic::mul::lemma_mul_nonnegative(y, w);
}

/// The squashing pass, exact against `spec_squash`: in-range cells are
/// untouched, out-of-range cells go through the logistic function, and
/// every resulting cell is a valid height in `[0, SCALE]`.
pub fn squash_heights(cells: Vec<i64>) -> (r: Vec<u32>)
    ensures
        r@ == spec_squash(cells@),
        r@.len() == cells@.len(),
        forall|i: int| 0 <= i < r@.len() ==> #[trigger] r@[i] <= SCALE as u32,
{
    let n = cells.len();
    let mut out: Vec<u32> = Vec::new();
    let mut i: usize = 0;
    while i < n
        invariant
            0 <= i <= n,
            n == cells@.len(),
            out@ =~= spec_squash(cells@).take(i as int),
            forall|j: int| 0 <= j < out@.len() ==> #[trigger] out@[j] <= SCALE as u32,
        decreases n - i,
    {
        let v = cells[i];
        if 0 <= v && v <= SCALE {
            out.push(v as u32);
        } else {
            let s = sigmoid(v);
            out.push(s as u32);
        }
        proof {
            assert(out@ =~= spec_squash(cells@).take(i as int + 1));
        }
        i = i + 1;
    }
    proof {
        assert(out@ =~= spec_squash(cells@));
    }
    out
}

/// Why world generation failed; no partial world is exposed.
#[derive(Debug, PartialEq, Eq, Clone, Copy)]
pub enum WorldGenError {
    /// A raw noise sample fell outside the accepted domain.
    NoiseOutOfDomain,
}

/// The whole generation pipeline on a raw noise grid: recenter, squash,
/// then erode and settle.
pub open spec fn spec_generate_cells(
    s: Seq<i64>,
    w: int,
    h: int,
    rain: int,
    rounds: nat,
) -> Seq<u32> {
    crate::erosion::spec_erosion(spec_squash(spec_recenter(s)), w, h, rain, rounds)
}

/// Whether every raw noise cell is within the accepted domain.
pub open spec fn noise_in_domain(s: Seq<i64>) -> bool {
    forall|i: int| 0 <= i < s.len() ==> -NOISE_LIMIT <= #[trigger] s[i] <= NOISE_LIMIT
}

/// Build a height field from a raw fixed-point noise grid.
///
/// Succeeds exactly when every sample is inside the accepted domain; a
/// sample outside it is a fatal generation error, reported rather than
/// silently clamped.
pub fn generate_from_noise(
    grid: Vec<i64>,
    width: usize,
    height: usize,
    rain: u32,
    rounds: u32,
) -> (r: Result<HeightField, WorldGenError>)
    requires
        1 <= width,
        1 <= height,
        width * height <= MAX_CELLS,
        grid@.len() == width * height,
        rain <= crate::erosion::MAX_RAIN,
        rounds <= crate::erosion::MAX_ROUNDS,
    ensures
        r is Ok <==> noise_in_domain(grid@),
        r is Err ==> r == Result::<HeightField, WorldGenError>::Err(
            WorldGenError::NoiseOutOfDomain,
        ),
        r matches Ok(hf) ==> hf.wf() && hf@ == spec_generate_cells(
            grid@,
            width as int,
            height as int,
            rain as int,
            rounds as nat,
        ) && hf.spec_width() == width && hf.spec_height() == height,
{
    let n = grid.len();
    let mut i: usize = 0;
    while i < n
        invariant
            0 <= i <= n,
            n == grid@.len(),
            forall|j: int| 0 <= j < i ==> -NOISE_LIMIT <= #[trigger] grid@[j] <= NOISE_LIMIT,
        decreases n - i,
    {
        let v = grid[i];
        if v < -NOISE_LIMIT || v > NOISE_LIMIT {
            return Err(WorldGenError::NoiseOutOfDomain);
        }
        i = i + 1;
    }
    proof {
        assert(1 <= width * height) by (nonlinear_arith)
            requires
                1 <= width,
                1 <= height,
        ;
    }
    let recentered = recenter_heights(grid);
    let squashed = squash_heights(recentered);
    let eroded = crate::erosion::hydraulic_erosion(squashed, width, height, rain, rounds);
    proof {
        assert(forall|j: int|
            0 <= j < eroded@.len() ==> #[trigger] eroded@[j] <= crate::erosion::EROSION_INPUT_CAP
                + rounds * rain);
        assert(crate::erosion::EROSION_INPUT_CAP + rounds * rain <= HEIGHT_CAP) by {
            vstd::arithmetic::mul::lemma_mul_inequality(
                rounds as int,
                crate::erosion::MAX_ROUNDS as int,
                rain as int,
            );
            vstd::arithmetic::mul::lemma_mul_left_inequality(
                crate::erosion::MAX_ROUNDS as int,
                rain as int,
                crate::erosion::MAX_RAIN as int,
            );
        }
    }
    Ok(HeightField::new(width, height, eroded))
}

/// Marker for a sample too large to measure in micro-units; it lies
/// outside the accepted noise domain, so generation rejects it.
pub const DECODE_OVERFLOW: i64 = 32_000_000;

/// Sign bit of an IEEE-754 double given as its raw bits.
pub open spec fn f64_sign_bit(bits: u64) -> u64 {
    bits >> 63u64
}

/// Biased exponent field of an IEEE-754 double given as its raw bits.
pub open spec fn f64_exponent(bits: u64) -> u64 {
    (bits >> 52u64) & 0x7ff
}

/// Mantissa field of an IEEE-754 double given as its raw bits.
pub open spec fn f64_mantissa(bits: u64) -> u64 {
    bits & 0xf_ffff_ffff_ffff
}

/// Magnitude of an IEEE-754 double in micro-units, rounded down.
/// Subnormals are far below one micro-unit and read as zero; values of
/// 32.0 and above (exponent 1028 up, infinities and NaNs included) read
/// as the overflow marker.
pub open spec fn spec_decode_magnitude(bits: u64) -> int {
    let e = f64_exponent(bits) as int;
    let f = f64_mantissa(bits) as int;
    if e == 0 {
        0
    } else if e >= 1028 {
        DECODE_OVERFLOW as int
    } else {
        (0x10_0000_0000_0000 + f) * 1_000_000 / (vstd::arithmetic::power2::pow2(
            (1075 - e) as nat,
        ) as int)
    }
}

/// An IEEE-754 double, given as its raw bits, read in micro-units with
/// rounding towards zero.
pub open spec fn spec_decode_micro(bits: u64) -> int {
    if f64_sign_bit(bits) == 1 {
        -spec_decode_magnitude(bits)
    } else {
        spec_decode_magnitude(bits)
    }
}

/// A whole grid of raw double bits read in micro-units.
pub open spec fn spec_decode_grid(bits: Seq<u64>) -> Seq<i64> {
    Seq::new(bits.len(), |i: int| spec_decode_micro(bits[i]) as i64)
}

/// Read one raw IEEE-754 double as fixed-point micro-units, exact
/// against `spec_decode_micro`.
pub fn decode_micro(bits: u64) -> (r: i64)
    ensures
        r as int == spec_decode_micro(bits),
        -DECODE_OVERFLOW <= r <= DECODE_OVERFLOW,
{
    let e: u64 = (bits >> 52u64) & 0x7ff;
    let f: u64 = bits & 0xf_ffff_ffff_ffff;
    proof {
        assert(e <= 0x7ff && f <= 0xf_ffff_ffff_ffff) by (bit_vector)
            requires
                e == (bits >> 52u64) & 0x7ff && f == bits & 0xf_ffff_ffff_ffff,
        ;
    }
    let mag: i64 = if e == 0 {
        0
    } else if e >= 1028 {
        DECODE_OVERFLOW
    } else {
        let m: u128 = (0x10_0000_0000_0000u128 + f as u128) * 1_000_000;
        let shift: u64 = 1075 - e;
        if shift >= 128 {
            proof {
                lemma_decode_tiny(m as int, shift as nat);
            }
            0
        } else {
            let v: u128 = m >> shift;
            proof {
                vstd::bits::lemma_u128_shr_is_div(m, shift as u128);
                lemma_decode_bounded(m as int, shift as nat);
            }
            v as i64
        }
    };
    if (bits >> 63u64) == 1 {
        -mag
    } else {
        mag
    }
}

/// A value below `2^93` divided by `2^128` or more vanishes.
proof fn lemma_decode_tiny(m: int, shift: nat)
    requires
        0 <= m < 0x20_0000_0000_0000 * 1_000_000,
        shift >= 128,
    ensures
        m / (vstd::arithmetic::power2::pow2(shift) as int) == 0,
{
    vstd::arithmetic::power2::lemma2_to64();
    vstd::arithmetic::power2::lemma2_to64_rest();
    vstd::arithmetic::power2::lemma_pow2_adds(64, 64);
    if shift > 128 {
        vstd::arithmetic::power2::lemma_pow2_strictly_increases(128, shift);
    }
    assert(m < vstd::arithmetic::power2::pow2(shift));
    vstd::arithmetic::div_mod::lemma_basic_div(m, vstd::arithmetic::power2::pow2(shift) as int);
}

/// The decoded magnitude of a finite double below 32.0 stays below the
/// overflow marker.
proof fn lemma_decode_bounded(m: int, shift: nat)
    requires
        0 <= m < 0x20_0000_0000_0000 * 1_000_000,
        48 <= shift < 128,
    ensures
        0 <= m / (vstd::arithmetic::power2::pow2(shift) as int) < DECODE_OVERFLOW,
{
    let p = vstd::arithmetic::power2::pow2(shift) as int;
    vstd::arithmetic::power2::lemma2_to64();
    if shift > 48 {
        vstd::arithmetic::power2::lemma_pow2_strictly_increases(48, shift);
    }
    assert(vstd::arithmetic::power2::pow2(48) == 0x1_0000_0000_0000) by {
        vstd::arithmetic::power2::lemma2_to64_rest();
    }
    assert(p >= 0x1_0000_0000_0000);
    vstd::arithmetic::div_mod::lemma_div_pos_is_pos(m, p);
    let q = m / p;
    vstd::arithmetic::div_mod::lemma_fundamental_div_mod(m, p);
    assert(q < DECODE_OVERFLOW) by (nonlinear_arith)
        requires
            m == p * q + m % p,
            0 <= m % p,
            0 <= q,
            m < 0x20_0000_0000_0000 * 1_000_000,
            p >= 0x1_0000_0000_0000,
    ;
}

/// Read a whole grid of raw double bits as micro-units, exact against
/// `spec_decode_grid`.
pub fn decode_grid(bits: Vec<u64>) -> (r: Vec<i64>)
    ensures
        r@ == spec_decode_grid(bits@),
        r@.len() == bits@.len(),
        forall|i: int| 0 <= i < r@.len() ==> -DECODE_OVERFLOW <= #[trigger] r@[i] <= DECODE_OVERFLOW,
{
    let n = bits.len();
    let mut out: Vec<i64> = Vec::new();
    let mut i: usize = 0;
    while i < n
        invariant
            0 <= i <= n,
            n == bits@.len(),
            out@ =~= spec_decode_grid(bits@).take(i as int),
            forall|j: int|
                0 <= j < out@.len() ==> -DECODE_OVERFLOW <= #[trigger] out@[j] <= DECODE_OVERFLOW,
        decreases n - i,
    {
        let v = decode_micro(bits[i]);
        out.push(v);
        proof {
            assert(out@ =~= spec_decode_grid(bits@).take(i as int + 1));
        }
        i = i + 1;
    }
    proof {
        assert(out@ =~= spec_decode_grid(bits@));
    }
    out
}

/// What the seeded noise source yields over a grid, as raw IEEE-754
/// bits: a pure function of the seed and the grid size.
pub uninterp spec fn noise_grid(seed: u32, width: usize, height: usize) -> Seq<u64>;

/// Relies on `noise::Fbm::<noise::Value>::new` and
/// `noise::utils::PlaneMapBuilder` (its default sampling plane,
/// `[-1,1] x [-1,1]`): the samples are pure 64-bit float arithmetic
/// seeded from `seed` alone, so the grid depends only on the seed and
/// the size. Each sample leaves as its raw bits, row by row. The
/// builder's raster asserts each dimension below 32767; the
/// precondition keeps that panic out of reach.
#[verifier::external_body]
fn sample_noise_grid(seed: u32, width: usize, height: usize) -> (r: Vec<u64>)
    requires
        1 <= width < 32_767,
        1 <= height < 32_767,
        width * height <= MAX_CELLS,
    ensures
        r@ == noise_grid(seed, width, height),
        r@.len() == width * height,
{
    let fbm = noise::Fbm::<noise::Value>::new(seed);
    let map = noise::utils::PlaneMapBuilder::<_, 3>::new(fbm).set_size(width, height).build();
    let mut out: Vec<u64> = Vec::with_capacity(width * height);
    for y in 0..height {
        for x in 0..width {
            out.push(map.get_value(x, y).to_bits());
        }
    }
    out
}

/// Generate the world's height field from a seed.
///
/// The result is a function of the seed, the grid size and the erosion
/// parameters alone: the same seed always yields the identical field.
/// Succeeds exactly when the seeded noise source stays inside its
/// documented domain.
pub fn generate(seed: u32, width: usize, height: usize, rain: u32, rounds: u32) -> (r: Result<
    HeightField,
    WorldGenError,
>)
    requires
        1 <= width < 32_767,
        1 <= height < 32_767,
        width * height <= MAX_CELLS,
        rain <= crate::erosion::MAX_RAIN,
        rounds <= crate::erosion::MAX_ROUNDS,
    ensures
        r is Ok <==> noise_in_domain(spec_decode_grid(noise_grid(seed, width, height))),
        r is Err ==> r == Result::<HeightField, WorldGenError>::Err(
            WorldGenError::NoiseOutOfDomain,
        ),
        r matches Ok(hf) ==> hf.wf() && hf@ == spec_generate_cells(
            spec_decode_grid(noise_grid(seed, width, height)),
            width as int,
            height as int,
            rain as int,
            rounds as nat,
        ) && hf.spec_width() == width && hf.spec_height() == height,
{
    let bits = sample_noise_grid(seed, width, height);
    let grid = decode_grid(bits);
    generate_from_noise(grid, width, height, rain, rounds)
}

/// Determinism of generation: two height fields produced from the same
/// seed, size and erosion parameters hold identical cells.
pub proof fn lemma_generate_deterministic(
    a: HeightField,
    b: HeightField,
    seed: u32,
    width: usize,
    height: usize,
    rain: u32,
    rounds: u32,
)
    requires
        a@ == spec_generate_cells(
            spec_decode_grid(noise_grid(seed, width, height)),
            width as int,
            height as int,
            rain as int,
            rounds as nat,
        ),
        b@ == spec_generate_cells(
            spec_decode_grid(noise_grid(seed, width, height)),
            width as int,
            height as int,
            rain as int,
            rounds as nat,
        ),
    ensures
        a@ == b@,
{
}

/// Which tile texture a height selects, from water up to mountains.
/// The partition of the height scale ends at 1.0; values above it
/// (possible after heavy erosion rainfall) deliberately class with the
/// highest band, so the classifier is total instead of aborting
/// mid-draw.
pub open spec fn spec_tile_index(v: int) -> u32 {
    if v < 30_000 {
        0
    } else if v < 80_000 {
        1
    } else if v < 100_000 {
        2
    } else if v < 200_000 {
        3
    } else if v < 600_000 {
        4
    } else {
        5
    }
}

/// Tile texture index for a height cell, exact against
/// `spec_tile_index`.
pub fn tile_texture_index(v: u32) -> (r: u32)
    ensures
        r == spec_tile_index(v as int),
{
    if v < 30_000 {
        0
    } else if v < 80_000 {
        1
    } else if v < 100_000 {
        2
    } else if v < 200_000 {
        3
    } else if v < 600_000 {
        4
    } else {
        5
    }
}

} // verus!
