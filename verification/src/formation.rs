//! Image formation: turning a raw intensity grid into an 8-bit grayscale
//! raster.
//!
//! The pipeline normalizes the grid to its own minimum/maximum, maps each
//! value to one of 256 levels, pushes the level through a transfer curve
//! (the sampled form of a gamma correction), optionally remaps each byte
//! through a lookup table, and finally downscales by nearest neighbour when
//! a dimension exceeds the display ceiling.

use vstd::prelude::*;
use vstd::arithmetic::div_mod::{
    lemma_div_is_ordered, lemma_multiply_divide_lt, lemma_div_pos_is_pos,
};
use vstd::arithmetic::mul::{lemma_mul_inequality, lemma_mul_is_commutative};

verus! {

/// Largest width or height a formed raster may have; anything bigger is
/// downscaled so that its larger side equals this bound.
pub const MAX_DIM: usize = 4096;

/// Smallest width or height a downscaled raster may be given.
pub const MIN_DIM: usize = 32;

/// A row-major 8-bit grayscale pixel buffer together with its dimensions.
pub struct RasterImage {
    pub buffer: Vec<u8>,
    pub width: usize,
    pub height: usize,
}

impl RasterImage {
    /// The buffer always holds exactly one byte per pixel.
    pub open spec fn wf(&self) -> bool {
        self.buffer@.len() == self.width * self.height
    }
}

/// A fixed 256-entry byte-to-byte remap applied after the transfer curve.
pub struct LookupTable {
    entries: Vec<u8>,
}

impl LookupTable {
    pub closed spec fn spec_entries(&self) -> Seq<u8> {
        self.entries@
    }

    pub open spec fn wf(&self) -> bool {
        self.spec_entries().len() == 256
    }

    /// Builds a table from exactly 256 entries; rejects any other length.
    pub fn from_entries(entries: Vec<u8>) -> (r: Result<LookupTable, usize>)
        ensures
            entries@.len() == 256 ==> (r matches Ok(t) && t.wf() && t.spec_entries()
                == entries@),
            entries@.len() != 256 ==> (r matches Err(n) && n == entries@.len()),
    {
        if entries.len() == 256 {
            Ok(LookupTable { entries })
        } else {
            Err(entries.len())
        }
    }

    /// The remapped value for one byte.
    pub fn remap(&self, b: u8) -> (r: u8)
        requires
            self.wf(),
        ensures
            r == self.spec_entries()[b as int],
    {
        self.entries[b as usize]
    }
}

/// A sampled tone curve over the 256 levels: level `i` of the linear
/// normalization is replaced by `levels[i]`.
///
/// Every curve starts at black and never decreases, which is true of the
/// identity and of every sampled gamma correction `round(255*(i/255)^(1/g))`
/// with `g > 0`.
pub struct TransferCurve {
    levels: Vec<u8>,
}

/// The identity transfer curve, as level values.
pub open spec fn identity_levels() -> Seq<u8> {
    Seq::new(256, |i: int| i as u8)
}

/// What a sampled gamma correction looks like: 256 levels, starting at
/// black, never decreasing.
pub open spec fn valid_curve_levels(s: Seq<u8>) -> bool {
    &&& s.len() == 256
    &&& s[0] == 0
    &&& forall|i: int, j: int| 0 <= i <= j < 256 ==> s[i] <= s[j]
}

impl TransferCurve {
    pub closed spec fn spec_levels(&self) -> Seq<u8> {
        self.levels@
    }

    pub open spec fn wf(&self) -> bool {
        valid_curve_levels(self.spec_levels())
    }

    /// The identity curve: the sampled form of `gamma == 1`.
    pub fn linear() -> (r: TransferCurve)
        ensures
            r.wf(),
            r.spec_levels() == identity_levels(),
            forall|i: int| 0 <= i < 256 ==> r.spec_levels()[i] == i,
    {
        proof {
            assert(identity_levels()[0] == 0);
        }
        let mut levels: Vec<u8> = Vec::new();
        let mut i: usize = 0;
        while i < 256
            invariant
                i <= 256,
                levels@.len() == i,
                forall|k: int| 0 <= k < i ==> levels@[k] == k,
            decreases 256 - i,
        {
            levels.push(i as u8);
            i = i + 1;
        }
        proof {
            assert(levels@ =~= identity_levels());
        }
        TransferCurve { levels }
    }

    /// Builds a curve from 256 sampled levels, rejecting a sampling that no
    /// gamma correction could have produced: one that does not start at 0,
    /// or one that decreases somewhere.
    pub fn from_levels(levels: Vec<u8>) -> (r: Option<TransferCurve>)
        ensures
            r matches Some(c) ==> c.wf() && c.spec_levels() == levels@,
            r is None ==> !valid_curve_levels(levels@),
    {
        if levels.len() != 256 {
            return None;
        }
        if levels[0] != 0 {
            return None;
        }
        let mut i: usize = 1;
        while i < 256
            invariant
                1 <= i <= 256,
                levels@.len() == 256,
                forall|p: int, q: int| 0 <= p <= q < i ==> levels@[p] <= levels@[q],
            decreases 256 - i,
        {
            if levels[i - 1] > levels[i] {
                return None;
            }
            i = i + 1;
        }
        Some(TransferCurve { levels })
    }

    /// The curve's value at one level.
    pub fn level(&self, i: u8) -> (r: u8)
        requires
            self.wf(),
        ensures
            r == self.spec_levels()[i as int],
    {
        self.levels[i as usize]
    }
}

/// The smallest value of a non-empty sequence.
pub open spec fn seq_min(s: Seq<u64>) -> u64
    recommends
        s.len() > 0,
    decreases s.len(),
{
    if s.len() <= 1 {
        s[0]
    } else if s[0] <= seq_min(s.drop_first()) {
        s[0]
    } else {
        seq_min(s.drop_first())
    }
}

/// The largest value of a non-empty sequence.
pub open spec fn seq_max(s: Seq<u64>) -> u64
    recommends
        s.len() > 0,
    decreases s.len(),
{
    if s.len() <= 1 {
        s[0]
    } else if s[0] >= seq_max(s.drop_first()) {
        s[0]
    } else {
        seq_max(s.drop_first())
    }
}

/// `seq_min` and `seq_max` bound every element and are attained.
pub proof fn lemma_seq_min_max(s: Seq<u64>)
    requires
        s.len() > 0,
    ensures
        forall|i: int| 0 <= i < s.len() ==> seq_min(s) <= #[trigger] s[i],
        forall|i: int| 0 <= i < s.len() ==> #[trigger] s[i] <= seq_max(s),
        exists|i: int| 0 <= i < s.len() && s[i] == seq_min(s),
        exists|i: int| 0 <= i < s.len() && s[i] == seq_max(s),
    decreases s.len(),
{
    if s.len() == 1 {
        assert(seq_min(s) == s[0]);
        assert(seq_max(s) == s[0]);
    } else {
        lemma_seq_min_max(s.drop_first());
        assert forall|i: int| 0 <= i < s.len() implies seq_min(s) <= #[trigger] s[i]
            && s[i] <= seq_max(s) by {
            if i > 0 {
                assert(s.drop_first()[i - 1] == s[i]);
            }
        }
        let j = choose|j: int| 0 <= j < s.drop_first().len() && s.drop_first()[j] == seq_min(
            s.drop_first(),
        );
        assert(s[j + 1] == s.drop_first()[j]);
        let k = choose|k: int| 0 <= k < s.drop_first().len() && s.drop_first()[k] == seq_max(
            s.drop_first(),
        );
        assert(s[k + 1] == s.drop_first()[k]);
    }
}

/// One pass over the grid for its extreme values.
pub fn grid_extremes(data: &Vec<u64>) -> (r: (u64, u64))
    requires
        data@.len() > 0,
    ensures
        r.0 == seq_min(data@),
        r.1 == seq_max(data@),
{
    let ghost s = data@;
    let mut lo: u64 = data[0];
    let mut hi: u64 = data[0];
    let mut i: usize = 1;
    proof {
        assert(s.subrange(0, 1) =~= seq![s[0]]);
    }
    while i < data.len()
        invariant
            1 <= i <= s.len(),
            data@ == s,
            lo == seq_min(s.subrange(0, i as int)),
            hi == seq_max(s.subrange(0, i as int)),
        decreases s.len() - i,
    {
        let v = data[i];
        proof {
            lemma_extend_extremes(s.subrange(0, i as int), s[i as int]);
            assert(s.subrange(0, i + 1) =~= s.subrange(0, i as int).push(s[i as int]));
        }
        if v < lo {
            lo = v;
        }
        if v > hi {
            hi = v;
        }
        i = i + 1;
    }
    proof {
        assert(s.subrange(0, s.len() as int) =~= s);
    }
    (lo, hi)
}

/// The linear level of one grid value: the nearest integer (half rounded
/// up) to `255 * (v - lo) / (hi - lo)`, or 0 on a constant grid.
pub open spec fn level_of(v: u64, lo: u64, hi: u64) -> int
    recommends
        lo <= v <= hi,
{
    if hi <= lo {
        0
    } else {
        (510 * (v - lo) + (hi - lo)) / (2 * (hi - lo))
    }
}

/// The level always fits in a byte.
pub proof fn lemma_level_in_byte(v: u64, lo: u64, hi: u64)
    requires
        lo <= v <= hi,
    ensures
        0 <= level_of(v, lo, hi) <= 255,
{
    if lo < hi {
        let d = v - lo;
        let r = hi - lo;
        let num = 510 * d + r;
        let den = 2 * r;
        lemma_div_pos_is_pos(num, den);
        assert(num < den * 256);
        lemma_multiply_divide_lt(num, den, 256);
    }
}

/// A larger value never gets a smaller level.
pub proof fn lemma_level_monotone(v1: u64, v2: u64, lo: u64, hi: u64)
    requires
        lo <= v1 <= v2 <= hi,
    ensures
        level_of(v1, lo, hi) <= level_of(v2, lo, hi),
{
    if lo < hi {
        let r = hi - lo;
        lemma_div_is_ordered(510 * (v1 - lo) + r, 510 * (v2 - lo) + r, 2 * r);
    }
}

/// Computes `level_of` exactly, in 128-bit arithmetic.
pub fn byte_level(v: u64, lo: u64, hi: u64) -> (r: u8)
    requires
        lo <= v <= hi,
    ensures
        r == level_of(v, lo, hi),
{
    proof {
        lemma_level_in_byte(v, lo, hi);
    }
    if hi <= lo {
        0
    } else {
        let d = (v - lo) as u128;
        let range = (hi - lo) as u128;
        let q = (510 * d + range) / (2 * range);
        q as u8
    }
}

/// The byte a single grid value becomes: its linear level, pushed through
/// the transfer curve, then through the lookup table when one is given.
pub open spec fn shade(v: u64, lo: u64, hi: u64, curve: Seq<u8>, lut: Option<Seq<u8>>) -> u8
    recommends
        lo <= v <= hi,
        valid_curve_levels(curve),
        lut matches Some(t) ==> t.len() == 256,
{
    let toned = curve[level_of(v, lo, hi)];
    match lut {
        Some(t) => t[toned as int],
        None => toned,
    }
}

/// Whether a grid of these dimensions must be downscaled before display.
pub open spec fn needs_downscale(width: int, height: int) -> bool {
    width > MAX_DIM || height > MAX_DIM
}

/// The nearest integer (half rounded up) to `a / b`.
pub open spec fn round_div(a: int, b: int) -> int
    recommends
        0 <= a,
        0 < b,
{
    (2 * a + b) / (2 * b)
}

/// The dimensions an oversized raster is scaled to: the larger side
/// becomes `MAX_DIM`, the smaller follows the aspect ratio, floored at
/// `MIN_DIM`.
pub open spec fn scaled_width(width: int, height: int) -> int {
    if width >= height {
        MAX_DIM as int
    } else {
        clamp_small(round_div(MAX_DIM * width, height))
    }
}

/// See `scaled_width`.
pub open spec fn scaled_height(width: int, height: int) -> int {
    if width >= height {
        clamp_small(round_div(MAX_DIM * height, width))
    } else {
        MAX_DIM as int
    }
}

/// The floor applied to the scaled smaller side.
pub open spec fn clamp_small(d: int) -> int {
    if d < MIN_DIM {
        MIN_DIM as int
    } else {
        d
    }
}

/// The rounded scaled side of the smaller dimension never exceeds
/// `MAX_DIM`, and is positive.
proof fn lemma_scaled_side_bounds(small: int, large: int)
    requires
        0 < small <= large,
    ensures
        0 <= round_div(MAX_DIM * small, large) <= MAX_DIM,
{
    let a = MAX_DIM * small;
    let b = large;
    lemma_mul_inequality(small, large, MAX_DIM as int);
    assert(a <= MAX_DIM * large);
    lemma_div_pos_is_pos(2 * a + b, 2 * b);
    assert(2 * a + b < 2 * b * (MAX_DIM + 1));
    lemma_multiply_divide_lt(2 * a + b, 2 * b, MAX_DIM + 1);
}

/// Computes the scaled dimensions of an oversized raster.
pub fn scaled_dims(width: usize, height: usize) -> (r: (usize, usize))
    requires
        0 < width,
        0 < height,
        needs_downscale(width as int, height as int),
    ensures
        r.0 == scaled_width(width as int, height as int),
        r.1 == scaled_height(width as int, height as int),
        0 < r.0 <= MAX_DIM,
        0 < r.1 <= MAX_DIM,
{
    proof {
        assert((2 * (MAX_DIM as int)) * (height as int) <= 8192 * 0xffff_ffff_ffff_ffffu64)
            by (nonlinear_arith)
            requires
                0 <= height <= 0xffff_ffff_ffff_ffffu64,
        ;
        assert((2 * (MAX_DIM as int)) * (width as int) <= 8192 * 0xffff_ffff_ffff_ffffu64) by (
        nonlinear_arith)
            requires
                0 <= width <= 0xffff_ffff_ffff_ffffu64,
        ;
    }
    if width >= height {
        proof {
            lemma_scaled_side_bounds(height as int, width as int);
        }
        let num = 2 * (MAX_DIM as u128) * (height as u128) + (width as u128);
        let side = (num / (2 * (width as u128))) as usize;
        let clamped = if side < MIN_DIM {
            MIN_DIM
        } else {
            side
        };
        (MAX_DIM, clamped)
    } else {
        proof {
            lemma_scaled_side_bounds(width as int, height as int);
        }
        let num = 2 * (MAX_DIM as u128) * (width as u128) + (height as u128);
        let side = (num / (2 * (height as u128))) as usize;
        let clamped = if side < MIN_DIM {
            MIN_DIM
        } else {
            side
        };
        (clamped, MAX_DIM)
    }
}

/// The lookup table's contents, if one was supplied.
pub open spec fn spec_lut_entries(lut: Option<&LookupTable>) -> Option<Seq<u8>> {
    match lut {
        Some(t) => Some(t.spec_entries()),
        None => None,
    }
}

/// The source row a downscaled output row samples from (nearest
/// neighbour with an integer stride): `floor(y * height / out_h)`.
pub open spec fn src_coord(y: int, dim: int, out_dim: int) -> int
    recommends
        0 < out_dim,
{
    y * dim / out_dim
}

/// The complete formation relation: `out` with dimensions
/// `out_w × out_h` is what the grid `data` (of `width × height`) forms
/// under `curve` and `lut`.
///
/// Within bounds, every output byte is the `shade` of one input value:
/// its own when the raster is small enough to keep, the nearest
/// neighbour's after downscaling.
pub open spec fn is_formed_raster(
    data: Seq<u64>,
    width: int,
    height: int,
    curve: Seq<u8>,
    lut: Option<Seq<u8>>,
    out: Seq<u8>,
    out_w: int,
    out_h: int,
) -> bool {
    let lo = seq_min(data);
    let hi = seq_max(data);
    &&& out.len() == out_w * out_h
    &&& if needs_downscale(width, height) {
        &&& out_w == scaled_width(width, height)
        &&& out_h == scaled_height(width, height)
        &&& forall|y: int, x: int|
            0 <= y < out_h && 0 <= x < out_w ==> out[y * out_w + x] == shade(
                data[src_coord(y, height, out_h) * width + src_coord(x, width, out_w)],
                lo,
                hi,
                curve,
                lut,
            )
    } else {
        &&& out_w == width
        &&& out_h == height
        &&& forall|i: int| 0 <= i < data.len() ==> out[i] == shade(data[i], lo, hi, curve, lut)
    }
}

/// A source coordinate sampled with an integer stride stays inside the
/// source dimension.
proof fn lemma_src_coord_in_range(y: int, dim: int, out_dim: int)
    requires
        0 <= y < out_dim,
        0 < dim,
    ensures
        0 <= src_coord(y, dim, out_dim) < dim,
{
    lemma_div_pos_is_pos(y * dim, out_dim);
    assert(y * dim < out_dim * dim) by {
        lemma_mul_inequality(y + 1, out_dim, dim);
        assert((y + 1) * dim == y * dim + dim) by {
            vstd::arithmetic::mul::lemma_mul_is_distributive_add_other_way(dim, y, 1);
        }
    }
    lemma_multiply_divide_lt(y * dim, out_dim, dim);
}

/// A row-major index of an earlier pixel is smaller.
proof fn lemma_row_major_lt(yy: int, xx: int, y: int, x: int, w: int)
    requires
        0 <= xx < w,
        0 <= yy,
        0 <= x,
        yy < y || (yy == y && xx < x),
    ensures
        yy * w + xx < y * w + x,
{
    if yy < y {
        assert(yy * w + xx < y * w + x) by (nonlinear_arith)
            requires
                0 <= xx < w,
                0 <= yy,
                0 <= x,
                yy < y,
        ;
    }
}

/// Maps every grid value to its shaded byte, in row-major order.
fn shade_all(data: &Vec<u64>, lo: u64, hi: u64, curve: &TransferCurve, lut: Option<&LookupTable>) -> (r:
    Vec<u8>)
    requires
        curve.wf(),
        lut matches Some(t) ==> t.wf(),
        lo == seq_min(data@),
        hi == seq_max(data@),
        data@.len() > 0,
    ensures
        r@.len() == data@.len(),
        forall|i: int|
            0 <= i < data@.len() ==> r@[i] == shade(
                data@[i],
                lo,
                hi,
                curve.spec_levels(),
                spec_lut_entries(lut),
            ),
{
    let n = data.len();
    let mut out: Vec<u8> = Vec::new();
    let mut i: usize = 0;
    while i < n
        invariant
            i <= n,
            n == data@.len(),
            curve.wf(),
            lut matches Some(t) ==> t.wf(),
            lo == seq_min(data@),
            hi == seq_max(data@),
            out@.len() == i,
            forall|k: int|
                0 <= k < i ==> out@[k] == shade(
                    data@[k],
                    lo,
                    hi,
                    curve.spec_levels(),
                    spec_lut_entries(lut),
                ),
        decreases n - i,
    {
        let v = data[i];
        proof {
            lemma_seq_min_max(data@);
            lemma_level_in_byte(v, lo, hi);
        }
        let toned = curve.level(byte_level(v, lo, hi));
        let b = match lut {
            Some(t) => t.remap(toned),
            None => toned,
        };
        out.push(b);
        i = i + 1;
    }
    out
}

/// Nearest-neighbour resampling of a row-major byte buffer onto new
/// dimensions, with per-axis integer strides.
fn resample(bytes: &Vec<u8>, width: usize, height: usize, out_w: usize, out_h: usize) -> (r: Vec<
    u8>)
    requires
        0 < width,
        0 < height,
        0 < out_w,
        0 < out_h,
        bytes@.len() == width * height,
        out_w <= MAX_DIM,
        out_h <= MAX_DIM,
        out_w * out_h <= usize::MAX,
    ensures
        r@.len() == out_w * out_h,
        forall|y: int, x: int|
            0 <= y < out_h && 0 <= x < out_w ==> r@[y * out_w + x] == bytes@[src_coord(
                y,
                height as int,
                out_h as int,
            ) * width + src_coord(x, width as int, out_w as int)],
{
    let n = bytes.len();
    let mut out: Vec<u8> = Vec::new();
    let mut y: usize = 0;
    while y < out_h
        invariant
            y <= out_h,
            0 < width,
            0 < height,
            0 < out_w,
            0 < out_h,
            out_w <= MAX_DIM,
            out_h <= MAX_DIM,
            out_w * out_h <= usize::MAX,
            n == bytes@.len(),
            bytes@.len() == width * height,
            out@.len() == y * out_w,
            forall|yy: int, xx: int|
                0 <= yy < y && 0 <= xx < out_w ==> out@[yy * out_w + xx] == bytes@[src_coord(
                    yy,
                    height as int,
                    out_h as int,
                ) * width + src_coord(xx, width as int, out_w as int)],
        decreases out_h - y,
    {
        proof {
            assert(y as int * height as int <= 4096 * 0xffff_ffff_ffff_ffffu64) by (
            nonlinear_arith)
                requires
                    0 <= y < 4096,
                    0 <= height <= 0xffff_ffff_ffff_ffffu64,
            ;
        }
        let sy = ((y as u128 * height as u128) / (out_h as u128)) as usize;
        proof {
            lemma_src_coord_in_range(y as int, height as int, out_h as int);
        }
        let mut x: usize = 0;
        while x < out_w
            invariant
                x <= out_w,
                y < out_h,
                0 < width,
                0 < height,
                0 < out_w,
                0 < out_h,
                out_w <= MAX_DIM,
                out_h <= MAX_DIM,
                out_w * out_h <= usize::MAX,
                n == bytes@.len(),
                bytes@.len() == width * height,
                sy == src_coord(y as int, height as int, out_h as int),
                0 <= sy < height,
                out@.len() == y * out_w + x,
                forall|yy: int, xx: int|
                    (0 <= yy < y && 0 <= xx < out_w) || (yy == y && 0 <= xx < x)
                        ==> out@[yy * out_w + xx] == bytes@[src_coord(
                        yy,
                        height as int,
                        out_h as int,
                    ) * width + src_coord(xx, width as int, out_w as int)],
            decreases out_w - x,
        {
            proof {
                assert(x as int * width as int <= 4096 * 0xffff_ffff_ffff_ffffu64) by (
                nonlinear_arith)
                    requires
                        0 <= x < 4096,
                        0 <= width <= 0xffff_ffff_ffff_ffffu64,
                ;
            }
            let sx = ((x as u128 * width as u128) / (out_w as u128)) as usize;
            proof {
                lemma_src_coord_in_range(x as int, width as int, out_w as int);
                assert(sy * width + sx < height * width) by (nonlinear_arith)
                    requires
                        0 <= sy < height,
                        0 <= sx < width,
                ;
                assert(height * width == width * height) by {
                    lemma_mul_is_commutative(height as int, width as int);
                }
                assert(y * out_w + x + 1 <= out_h * out_w) by (nonlinear_arith)
                    requires
                        0 <= y < out_h,
                        0 <= x < out_w,
                ;
                assert(out_h * out_w == out_w * out_h) by {
                    lemma_mul_is_commutative(out_h as int, out_w as int);
                }
            }
            let b = bytes[sy * width + sx];
            out.push(b);
            proof {
                assert forall|yy: int, xx: int|
                    (0 <= yy < y && 0 <= xx < out_w) || (yy == y && 0 <= xx < x + 1) implies out@[yy
                    * out_w + xx] == bytes@[src_coord(yy, height as int, out_h as int) * width
                    + src_coord(xx, width as int, out_w as int)] by {
                    if yy < y || xx < x {
                        lemma_row_major_lt(yy, xx, y as int, x as int, out_w as int);
                    }
                }
            }
            x = x + 1;
        }
        y = y + 1;
        proof {
            assert((y - 1) * out_w + out_w == y * out_w) by (nonlinear_arith);
        }
    }
    proof {
        assert(out_h * out_w == out_w * out_h) by {
            lemma_mul_is_commutative(out_h as int, out_w as int);
        }
    }
    out
}

/// Forms the displayable raster for a raw intensity grid: normalization
/// to the grid's own range, transfer curve, optional lookup table, and a
/// bounded nearest-neighbour downscale when a dimension exceeds
/// `MAX_DIM`.
///
/// On a constant grid every linear level is 0 (black), by policy rather
/// than by error.
pub fn to_grayscale_bytes(
    data: &Vec<u64>,
    height: usize,
    width: usize,
    curve: &TransferCurve,
    lut: Option<&LookupTable>,
) -> (r: RasterImage)
    requires
        0 < width,
        0 < height,
        data@.len() == width * height,
        curve.wf(),
        lut matches Some(t) ==> t.wf(),
    ensures
        r.wf(),
        is_formed_raster(
            data@,
            width as int,
            height as int,
            curve.spec_levels(),
            spec_lut_entries(lut),
            r.buffer@,
            r.width as int,
            r.height as int,
        ),
{
    proof {
        assert(data@.len() > 0) by (nonlinear_arith)
            requires
                0 < width,
                0 < height,
                data@.len() == width * height,
        ;
    }
    let (lo, hi) = grid_extremes(data);
    let bytes = shade_all(data, lo, hi, curve, lut);
    if width <= MAX_DIM && height <= MAX_DIM {
        RasterImage { buffer: bytes, width, height }
    } else {
        let (out_w, out_h) = scaled_dims(width, height);
        proof {
            assert(out_w * out_h <= usize::MAX) by (nonlinear_arith)
                requires
                    0 < out_w <= 4096,
                    0 < out_h <= 4096,
            ;
        }
        let scaled = resample(&bytes, width, height, out_w, out_h);
        proof {
            assert forall|y: int, x: int| 0 <= y < out_h && 0 <= x < out_w implies scaled@[y
                * out_w + x] == shade(
                data@[src_coord(y, height as int, out_h as int) * width + src_coord(
                    x,
                    width as int,
                    out_w as int,
                )],
                seq_min(data@),
                seq_max(data@),
                curve.spec_levels(),
                spec_lut_entries(lut),
            ) by {
                lemma_src_coord_in_range(y, height as int, out_h as int);
                lemma_src_coord_in_range(x, width as int, out_w as int);
                let sy = src_coord(y, height as int, out_h as int);
                let sx = src_coord(x, width as int, out_w as int);
                assert(sy * width + sx < width * height) by (nonlinear_arith)
                    requires
                        0 <= sy < height,
                        0 <= sx < width,
                ;
            }
        }
        RasterImage { buffer: scaled, width: out_w, height: out_h }
    }
}

/// Law: without a lookup table, formation is monotone. Wherever the
/// raster keeps its resolution, two pixels whose grid values are ordered
/// have output bytes ordered the same way.
pub proof fn lemma_formation_monotone(
    data: Seq<u64>,
    width: int,
    height: int,
    curve: Seq<u8>,
    out: Seq<u8>,
    i: int,
    j: int,
)
    requires
        valid_curve_levels(curve),
        !needs_downscale(width, height),
        is_formed_raster(data, width, height, curve, None, out, width, height),
        0 <= i < data.len(),
        0 <= j < data.len(),
        data[i] <= data[j],
    ensures
        out[i] <= out[j],
{
    let lo = seq_min(data);
    let hi = seq_max(data);
    lemma_seq_min_max(data);
    lemma_level_monotone(data[i], data[j], lo, hi);
    lemma_level_in_byte(data[i], lo, hi);
    lemma_level_in_byte(data[j], lo, hi);
}

/// Law: a constant grid forms an all-black raster, whatever the curve
/// and whether or not it was downscaled.
pub proof fn lemma_constant_grid_black(
    data: Seq<u64>,
    width: int,
    height: int,
    curve: Seq<u8>,
    out: Seq<u8>,
    out_w: int,
    out_h: int,
)
    requires
        valid_curve_levels(curve),
        0 < width,
        0 < height,
        data.len() == width * height,
        is_formed_raster(data, width, height, curve, None, out, out_w, out_h),
        forall|k: int| 0 <= k < data.len() ==> #[trigger] data[k] == data[0],
    ensures
        forall|k: int| 0 <= k < out.len() ==> #[trigger] out[k] == 0,
{
    let lo = seq_min(data);
    let hi = seq_max(data);
    assert(data.len() > 0) by (nonlinear_arith)
        requires
            0 < width,
            0 < height,
            data.len() == width * height,
    ;
    lemma_seq_min_max(data);
    assert(lo == data[0]);
    assert(hi == data[0]);
    assert(forall|v: u64| lo <= v <= hi ==> level_of(v, lo, hi) == 0);
    if needs_downscale(width, height) {
        assert forall|k: int| 0 <= k < out.len() implies out[k] == 0 by {
            vstd::arithmetic::div_mod::lemma_fundamental_div_mod(k, out_w);
            vstd::arithmetic::div_mod::lemma_mod_division_less_than_divisor(k, out_w);
            lemma_div_pos_is_pos(k, out_w);
            let y = k / out_w;
            let x = k % out_w;
            assert(y < out_h) by (nonlinear_arith)
                requires
                    0 < out_w,
                    0 <= y,
                    out_w * y + x == k,
                    0 <= x < out_w,
                    k < out_w * out_h,
            ;
            assert(k == y * out_w + x) by {
                lemma_mul_is_commutative(out_w, y);
            }
            lemma_src_coord_in_range(y, height, out_h);
            lemma_src_coord_in_range(x, width, out_w);
            let sy = src_coord(y, height, out_h);
            let sx = src_coord(x, width, out_w);
            assert(sy * width + sx < width * height) by (nonlinear_arith)
                requires
                    0 <= sy < height,
                    0 <= sx < width,
            ;
            assert(out[y * out_w + x] == shade(data[sy * width + sx], lo, hi, curve, None));
        }
    } else {
        assert forall|k: int| 0 <= k < out.len() implies out[k] == 0 by {
            assert(out[k] == shade(data[k], lo, hi, curve, None));
        }
    }
}

/// Law: whenever a grid exceeds `MAX_DIM` on either axis, the formed
/// raster's larger side equals `MAX_DIM`, and — apart from the `MIN_DIM`
/// floor — the other side reproduces the aspect ratio to within the
/// nearest-neighbour rounding error of half a pixel:
/// `|MAX_DIM * height - width * scaled_height| <= width / 2` (and
/// symmetrically for tall grids).
pub proof fn lemma_downscale_bounds(width: int, height: int)
    requires
        0 < width,
        0 < height,
        needs_downscale(width, height),
    ensures
        width >= height ==> scaled_width(width, height) == MAX_DIM,
        width < height ==> scaled_height(width, height) == MAX_DIM,
        width >= height && round_div(MAX_DIM * height, width) >= MIN_DIM ==> {
            let nh = scaled_height(width, height);
            2 * width * nh - width <= 2 * MAX_DIM * height < 2 * width * nh + width
        },
        width < height && round_div(MAX_DIM * width, height) >= MIN_DIM ==> {
            let nw = scaled_width(width, height);
            2 * height * nw - height <= 2 * MAX_DIM * width < 2 * height * nw + height
        },
{
    if width >= height {
        lemma_round_div_error(MAX_DIM * height, width);
    } else {
        lemma_round_div_error(MAX_DIM * width, height);
        let d = round_div(MAX_DIM * width, height);
        if d >= MIN_DIM {
            assert(scaled_width(width, height) == d);
            vstd::arithmetic::mul::lemma_mul_is_associative(2, MAX_DIM as int, width);
            assert(2 * height * d - height <= 2 * MAX_DIM * width < 2 * height * d + height);
        }
    }
}

/// `round_div(a, b)` is within half of `a / b`:
/// `2*b*round_div(a,b) - b <= 2*a < 2*b*round_div(a,b) + b`.
proof fn lemma_round_div_error(a: int, b: int)
    requires
        0 <= a,
        0 < b,
    ensures
        2 * b * round_div(a, b) - b <= 2 * a < 2 * b * round_div(a, b) + b,
{
    let q = (2 * a + b) / (2 * b);
    vstd::arithmetic::div_mod::lemma_fundamental_div_mod(2 * a + b, 2 * b);
    vstd::arithmetic::div_mod::lemma_mod_division_less_than_divisor(2 * a + b, 2 * b);
    vstd::arithmetic::div_mod::lemma_mod_bound(2 * a + b, 2 * b);
    assert(2 * b * q <= 2 * a + b < 2 * b * q + 2 * b);
}

/// Law: formation is deterministic. The formation relation pins every
/// byte and both dimensions, so any two rasters formed from the same
/// grid under the same curve and lookup table are identical.
pub proof fn lemma_formation_deterministic(
    data: Seq<u64>,
    width: int,
    height: int,
    curve: Seq<u8>,
    lut: Option<Seq<u8>>,
    out1: Seq<u8>,
    w1: int,
    h1: int,
    out2: Seq<u8>,
    w2: int,
    h2: int,
)
    requires
        0 < width,
        0 < height,
        data.len() == width * height,
        is_formed_raster(data, width, height, curve, lut, out1, w1, h1),
        is_formed_raster(data, width, height, curve, lut, out2, w2, h2),
    ensures
        w1 == w2,
        h1 == h2,
        out1 == out2,
{
    assert forall|k: int| 0 <= k < out1.len() implies out1[k] == out2[k] by {
        if needs_downscale(width, height) {
            vstd::arithmetic::div_mod::lemma_fundamental_div_mod(k, w1);
            vstd::arithmetic::div_mod::lemma_mod_division_less_than_divisor(k, w1);
            lemma_div_pos_is_pos(k, w1);
            let y = k / w1;
            let x = k % w1;
            assert(y < h1) by (nonlinear_arith)
                requires
                    0 < w1,
                    0 <= y,
                    w1 * y + x == k,
                    0 <= x < w1,
                    k < w1 * h1,
            ;
            assert(k == y * w1 + x) by {
                lemma_mul_is_commutative(w1, y);
            }
            lemma_src_coord_in_range(y, height, h1);
            lemma_src_coord_in_range(x, width, w1);
            let sy = src_coord(y, height, h1);
            let sx = src_coord(x, width, w1);
            assert(out1[y * w1 + x] == shade(
                data[sy * width + sx],
                seq_min(data),
                seq_max(data),
                curve,
                lut,
            ));
            assert(out2[y * w1 + x] == shade(
                data[sy * width + sx],
                seq_min(data),
                seq_max(data),
                curve,
                lut,
            ));
        } else {
            assert(out1[k] == shade(data[k], seq_min(data), seq_max(data), curve, lut));
            assert(out2[k] == shade(data[k], seq_min(data), seq_max(data), curve, lut));
        }
    }
    assert(out1 =~= out2);
}

/// Appending one value moves the extremes in the expected way.
proof fn lemma_extend_extremes(s: Seq<u64>, v: u64)
    requires
        s.len() > 0,
    ensures
        seq_min(s.push(v)) == if v < seq_min(s) {
            v
        } else {
            seq_min(s)
        },
        seq_max(s.push(v)) == if v > seq_max(s) {
            v
        } else {
            seq_max(s)
        },
    decreases s.len(),
{
    let t = s.push(v);
    assert(t[0] == s[0]);
    assert(t.len() == s.len() + 1);
    if s.len() == 1 {
        assert(t.drop_first() =~= seq![v]);
        assert(seq_min(t.drop_first()) == v);
        assert(seq_max(t.drop_first()) == v);
        assert(seq_min(s) == s[0]);
        assert(seq_max(s) == s[0]);
    } else {
        lemma_extend_extremes(s.drop_first(), v);
        assert(t.drop_first() =~= s.drop_first().push(v));
    }
}

} // verus!
