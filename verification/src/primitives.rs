use vstd::prelude::*;

use crate::bitmaps::Bitmap;
use crate::colors::Color;
use crate::fixed::Fx;
use crate::fixed::FX_SCALE;
use crate::fixed::{div_trunc, lemma_div_trunc_mono, lemma_mul_abs_le, rat_eq, rat_le, rat_lt, Frac, FX_RAW_MAX, STEP_MAX};

verus! {

/// Largest coordinate magnitude the drawing routines accept.
pub const COORD_LIMIT: i64 = 16777216;

/// A linear interpolation over the integer domain `[i0, i1]`: one dependent
/// value per integer step, spanning `d0..d1` evenly. Entry `k` (for
/// `0 <= k <= i1 - i0`) is the exact rational `num_at(k) / den()`; the same
/// value may repeat across steps but each step has exactly one value.
#[derive(Clone, Copy, Debug, PartialEq, Eq, Structural)]
pub struct Interpolate {
    pub i0: i64,
    pub i1: i64,
    pub d0: i64,
    pub d1: i64,
}

impl Interpolate {
    /// Well-formedness: an ordered, bounded domain and bounded endpoints.
    pub open spec fn wf(self) -> bool {
        &&& self.i0 <= self.i1
        &&& self.i1 - self.i0 <= STEP_MAX
        &&& -FX_RAW_MAX <= self.d0 <= FX_RAW_MAX
        &&& -FX_RAW_MAX <= self.d1 <= FX_RAW_MAX
    }

    /// Number of steps between the first and the last entry.
    pub open spec fn steps(self) -> int {
        self.i1 - self.i0
    }

    /// Number of entries the interpolation produces.
    pub open spec fn count(self) -> int {
        self.i1 - self.i0 + 1
    }

    /// Common denominator of every entry.
    pub open spec fn den(self) -> int {
        if self.i1 == self.i0 {
            1
        } else {
            self.i1 - self.i0
        }
    }

    /// Numerator of entry `k` over `den()`: entry `k` is
    /// `d0 + k * (d1 - d0) / (i1 - i0)`.
    pub open spec fn num_at(self, k: int) -> int {
        self.d0 * self.den() + k * (self.d1 - self.d0)
    }

    /// The number of entries.
    pub fn len(&self) -> (r: i64)
        requires
            self.wf(),
        ensures
            r == self.count(),
    {
        self.i1 - self.i0 + 1
    }

    /// Entry `k`, as an exact rational.
    pub fn nth(&self, k: i64) -> (r: Frac)
        requires
            self.wf(),
            0 <= k <= self.steps(),
        ensures
            r.num == self.num_at(k as int),
            r.den == self.den(),
            r.wf(),
            r.in_raw_range(),
    {
        let den: i64 = if self.i1 == self.i0 {
            1
        } else {
            self.i1 - self.i0
        };
        proof {
            lemma_mul_abs_le(self.d0 as int, den as int, FX_RAW_MAX as int, STEP_MAX as int);
            lemma_mul_abs_le(k as int, self.d1 - self.d0, STEP_MAX as int, 2 * FX_RAW_MAX as int);
        }
        let num: i128 = (self.d0 as i128) * (den as i128) + (k as i128) * ((self.d1 as i128)
            - (self.d0 as i128));
        proof {
            lemma_interp_entry_bounds(self.d0 as int, self.d1 as int, den as int, k as int);
        }
        Frac { num, den }
    }
}

/// An interpolation entry is a convex combination of the endpoints: its
/// numerator over `den` stays between `d0` and `d1`.
proof fn lemma_interp_entry_bounds(d0: int, d1: int, den: int, k: int)
    requires
        den >= 1,
        0 <= k <= den || (k == 0 && den == 1),
        -FX_RAW_MAX <= d0 <= FX_RAW_MAX,
        -FX_RAW_MAX <= d1 <= FX_RAW_MAX,
    ensures
        -(FX_RAW_MAX as int) * den <= d0 * den + k * (d1 - d0) <= (FX_RAW_MAX as int) * den,
{
    assert(-(FX_RAW_MAX as int) * den <= d0 * den + k * (d1 - d0) <= (FX_RAW_MAX as int) * den)
        by (nonlinear_arith)
        requires
            den >= 1,
            0 <= k <= den || (k == 0 && den == 1),
            -FX_RAW_MAX <= d0 <= FX_RAW_MAX,
            -FX_RAW_MAX <= d1 <= FX_RAW_MAX,
    ;
}

/// Builds the interpolation over `[i0, i1]` spanning `d0..d1`.
pub fn interpolate(i0: i64, d0: i64, i1: i64, d1: i64) -> (r: Interpolate)
    requires
        i0 <= i1,
        i1 - i0 <= STEP_MAX,
        -FX_RAW_MAX <= d0 <= FX_RAW_MAX,
        -FX_RAW_MAX <= d1 <= FX_RAW_MAX,
    ensures
        r == (Interpolate { i0, i1, d0, d1 }),
        r.wf(),
{
    Interpolate { i0, i1, d0, d1 }
}

/// The whole interpolation, materialized: exactly one rational per integer
/// step of `[i0, i1]`.
pub fn interpolate_old(i0: i64, d0: i64, i1: i64, d1: i64) -> (values: Vec<Frac>)
    requires
        i0 <= i1,
        i1 - i0 <= STEP_MAX,
        -FX_RAW_MAX <= d0 <= FX_RAW_MAX,
        -FX_RAW_MAX <= d1 <= FX_RAW_MAX,
    ensures
        values@.len() == i1 - i0 + 1,
        forall|k: int|
            0 <= k <= i1 - i0 ==> #[trigger] values@[k] == (Frac {
                num: (Interpolate { i0, i1, d0, d1 }).num_at(k) as i128,
                den: (Interpolate { i0, i1, d0, d1 }).den() as i64,
            }),
{
    let itp = interpolate(i0, d0, i1, d1);
    let n = itp.len();
    let mut values: Vec<Frac> = Vec::new();
    let mut k: i64 = 0;
    while k < n
        invariant
            itp == (Interpolate { i0, i1, d0, d1 }),
            itp.wf(),
            n == itp.count(),
            0 <= k <= n,
            values@.len() == k,
            forall|j: int|
                0 <= j < k ==> #[trigger] values@[j] == (Frac {
                    num: itp.num_at(j) as i128,
                    den: itp.den() as i64,
                }),
        decreases n - k,
    {
        let v = itp.nth(k);
        values.push(v);
        k += 1;
    }
    values
}

/// An interpolation over a non-degenerate domain has one entry per integer
/// step: `i1 - i0 + 1` of them, the first exactly `d0`, the last exactly
/// `d1`, and consecutive entries differing by exactly
/// `(d1 - d0) / (i1 - i0)`.
pub proof fn lemma_interpolate_spread(itp: Interpolate)
    requires
        itp.wf(),
        itp.i0 < itp.i1,
    ensures
        itp.count() == itp.i1 - itp.i0 + 1,
        itp.den() == itp.i1 - itp.i0,
        rat_eq(itp.num_at(0), itp.den(), itp.d0 as int, 1),
        rat_eq(itp.num_at(itp.steps()), itp.den(), itp.d1 as int, 1),
        forall|k: int|
            0 <= k < itp.steps() ==> #[trigger] itp.num_at(k + 1) - itp.num_at(k) == itp.d1
                - itp.d0,
{
    assert forall|k: int| 0 <= k < itp.steps() implies #[trigger] itp.num_at(k + 1) - itp.num_at(k)
        == itp.d1 - itp.d0 by {
        assert((k + 1) * (itp.d1 - itp.d0) - k * (itp.d1 - itp.d0) == itp.d1 - itp.d0)
            by (nonlinear_arith);
    }
    assert(itp.num_at(itp.steps()) == itp.d1 * itp.den()) by (nonlinear_arith)
        requires
            itp.num_at(itp.steps()) == itp.d0 * itp.den() + itp.steps() * (itp.d1 - itp.d0),
            itp.steps() == itp.den(),
    ;
}

/// An interpolation over a single point has exactly one entry, equal to `d0`.
pub proof fn lemma_interpolate_degenerate(itp: Interpolate)
    requires
        itp.wf(),
        itp.i0 == itp.i1,
    ensures
        itp.count() == 1,
        itp.den() == 1,
        itp.num_at(0) == itp.d0,
{
}

/// Storage index of canvas coordinate `(x, y)`: the origin is the buffer's
/// center and y increases upward.
pub open spec fn pix_index(w: int, h: int, x: int, y: int) -> int {
    (h / 2 - y) * w + (w / 2 + x)
}

/// Whether a write to canvas coordinate `(x, y)` lands inside the buffer:
/// the writable x-range is the half-open interval from `-(w/2)` inclusive
/// to `w/2` exclusive.
pub open spec fn pix_visible(w: int, h: int, x: int, y: int) -> bool {
    &&& -(w / 2) <= x < w / 2
    &&& 0 <= h / 2 - y < h
}

/// Writes one pixel at canvas coordinate `(x, y)` (origin at the center, y
/// increasing upward); writes that fall outside the buffer are dropped.
pub fn putpixel(buffer: &mut Bitmap, x: i64, y: i64, color: Color)
    requires
        old(buffer).wf(),
    ensures
        final(buffer).wf(),
        final(buffer).width == old(buffer).width,
        final(buffer).height == old(buffer).height,
        pix_visible(old(buffer).width as int, old(buffer).height as int, x as int, y as int)
            ==> final(buffer).data@ == old(buffer).data@.update(
            pix_index(old(buffer).width as int, old(buffer).height as int, x as int, y as int),
            color,
        ),
        !pix_visible(old(buffer).width as int, old(buffer).height as int, x as int, y as int)
            ==> final(buffer).data@ == old(buffer).data@,
{
    let w = buffer.width;
    let h = buffer.height;
    let w2 = (w / 2) as i64;
    let ghost wi = w as int;
    let ghost hi = h as int;
    if x < w2 && -w2 <= x {
        let xi = w2 + x;
        let yi = ((h / 2) as i128) - (y as i128);
        proof {
            lemma_mul_abs_le(yi as int, w as int, 0x20000000000000000int, 32768);
        }
        let idx = yi * (w as i128) + (xi as i128);
        proof {
            assert(0 <= xi < wi);
            if 0 <= yi < hi {
                assert(0 <= yi * wi + xi < hi * wi) by (nonlinear_arith)
                    requires
                        0 <= xi < wi,
                        0 <= yi < hi,
                ;
                assert(pix_visible(wi, hi, x as int, y as int));
            } else {
                assert(yi * wi + xi < 0 || yi * wi + xi >= hi * wi) by (nonlinear_arith)
                    requires
                        0 <= xi < wi,
                        !(0 <= yi < hi),
                ;
                assert(!pix_visible(wi, hi, x as int, y as int));
            }
        }
        if 0 <= idx && idx < buffer.data.len() as i128 {
            buffer.data.set(idx as usize, color);
        }
    }
}

/// A visible canvas coordinate maps to a storage index inside the buffer.
pub proof fn lemma_pix_index_bounds(w: int, h: int, x: int, y: int)
    requires
        pix_visible(w, h, x, y),
    ensures
        0 <= pix_index(w, h, x, y) < w * h,
{
    assert(0 <= (h / 2 - y) * w + (w / 2 + x) < h * w) by (nonlinear_arith)
        requires
            0 <= w / 2 + x < w,
            0 <= h / 2 - y < h,
    ;
}

/// Absolute value.
pub open spec fn abs_i(v: int) -> int {
    if v < 0 {
        -v
    } else {
        v
    }
}

/// Whether a line's larger span is along the x axis.
pub open spec fn line_major_x(p0: (int, int), p1: (int, int)) -> bool {
    abs_i(p1.0 - p0.0) > abs_i(p1.1 - p0.1)
}

/// The two endpoints ordered along the line's major axis.
pub open spec fn line_ordered(p0: (int, int), p1: (int, int)) -> ((int, int), (int, int)) {
    if line_major_x(p0, p1) {
        if p0.0 > p1.0 {
            (p1, p0)
        } else {
            (p0, p1)
        }
    } else {
        if p0.1 > p1.1 {
            (p1, p0)
        } else {
            (p0, p1)
        }
    }
}

/// How many pixels the line draws: one per integer step on the major axis,
/// excluding the far endpoint.
pub open spec fn line_steps(p0: (int, int), p1: (int, int)) -> int {
    let (a, b) = line_ordered(p0, p1);
    if line_major_x(p0, p1) {
        b.0 - a.0
    } else {
        b.1 - a.1
    }
}

/// Common denominator of the line's interpolated minor coordinates.
pub open spec fn line_den(p0: (int, int), p1: (int, int)) -> int {
    if line_steps(p0, p1) == 0 {
        1
    } else {
        line_steps(p0, p1)
    }
}

/// The `k`-th pixel the line draws.
pub open spec fn line_point(p0: (int, int), p1: (int, int), k: int) -> (int, int) {
    let (a, b) = line_ordered(p0, p1);
    let den = line_den(p0, p1);
    if line_major_x(p0, p1) {
        (a.0 + k, div_trunc(a.1 * den + k * (b.1 - a.1), den))
    } else {
        (div_trunc(a.0 * den + k * (b.0 - a.0), den), a.1 + k)
    }
}

/// Whether one of the line's first `kbound` pixels lands on storage index
/// `i`.
pub open spec fn line_paints(
    w: int,
    h: int,
    p0: (int, int),
    p1: (int, int),
    kbound: int,
    i: int,
) -> bool {
    exists|k: int|
        0 <= k < kbound && pix_visible(
            w,
            h,
            #[trigger] line_point(p0, p1, k).0,
            line_point(p0, p1, k).1,
        ) && pix_index(w, h, line_point(p0, p1, k).0, line_point(p0, p1, k).1) == i
}

/// Draws the line from `p0` to `p1`: one pixel per integer step along the
/// axis with the larger span (the far endpoint excluded), the other
/// coordinate interpolated and truncated. Off-canvas pixels are dropped.
pub fn draw_line(buffer: &mut Bitmap, p0: (i64, i64), p1: (i64, i64), color: Color)
    requires
        old(buffer).wf(),
        -COORD_LIMIT <= p0.0 <= COORD_LIMIT,
        -COORD_LIMIT <= p0.1 <= COORD_LIMIT,
        -COORD_LIMIT <= p1.0 <= COORD_LIMIT,
        -COORD_LIMIT <= p1.1 <= COORD_LIMIT,
    ensures
        final(buffer).wf(),
        final(buffer).width == old(buffer).width,
        final(buffer).height == old(buffer).height,
        final(buffer).data@ == Seq::new(
            old(buffer).data@.len(),
            |i: int|
                if line_paints(
                    old(buffer).width as int,
                    old(buffer).height as int,
                    (p0.0 as int, p0.1 as int),
                    (p1.0 as int, p1.1 as int),
                    line_steps((p0.0 as int, p0.1 as int), (p1.0 as int, p1.1 as int)),
                    i,
                ) {
                    color
                } else {
                    old(buffer).data@[i]
                },
        ),
{
    let ghost s0 = (p0.0 as int, p0.1 as int);
    let ghost s1 = (p1.0 as int, p1.1 as int);
    let ghost wi = old(buffer).width as int;
    let ghost hi = old(buffer).height as int;
    let ghost orig = old(buffer).data@;
    let dx = if p1.0 >= p0.0 {
        p1.0 - p0.0
    } else {
        p0.0 - p1.0
    };
    let dy = if p1.1 >= p0.1 {
        p1.1 - p0.1
    } else {
        p0.1 - p1.1
    };
    let major = dx > dy;
    let (a, b) = if major {
        if p0.0 > p1.0 {
            (p1, p0)
        } else {
            (p0, p1)
        }
    } else {
        if p0.1 > p1.1 {
            (p1, p0)
        } else {
            (p0, p1)
        }
    };
    proof {
        assert(major == line_major_x(s0, s1));
        assert((a.0 as int, a.1 as int) == line_ordered(s0, s1).0);
        assert((b.0 as int, b.1 as int) == line_ordered(s0, s1).1);
    }
    let n = if major {
        b.0 - a.0
    } else {
        b.1 - a.1
    };
    let itp = if major {
        interpolate(a.0, a.1, b.0, b.1)
    } else {
        interpolate(a.1, a.0, b.1, b.0)
    };
    let mut k: i64 = 0;
    while k < n
        invariant
            buffer.wf(),
            buffer.width == old(buffer).width,
            buffer.height == old(buffer).height,
            wi == buffer.width as int,
            hi == buffer.height as int,
            orig == old(buffer).data@,
            itp.wf(),
            0 <= k <= n,
            n == line_steps(s0, s1),
            itp.den() == line_den(s0, s1),
            itp.steps() == n || (n == 0 && itp.steps() == 0),
            major == line_major_x(s0, s1),
            (a.0 as int, a.1 as int) == line_ordered(s0, s1).0,
            (b.0 as int, b.1 as int) == line_ordered(s0, s1).1,
            itp == if major {
                Interpolate { i0: a.0, i1: b.0, d0: a.1, d1: b.1 }
            } else {
                Interpolate { i0: a.1, i1: b.1, d0: a.0, d1: b.0 }
            },
            buffer.data@ == Seq::new(
                orig.len(),
                |i: int|
                    if line_paints(wi, hi, s0, s1, k as int, i) {
                        color
                    } else {
                        orig[i]
                    },
            ),
        decreases n - k,
    {
        let ghost before = buffer.data@;
        let v = itp.nth(k).trunc();
        let (px, py) = if major {
            (a.0 + k, v)
        } else {
            (v, a.1 + k)
        };
        proof {
            assert((px as int, py as int) == line_point(s0, s1, k as int));
        }
        putpixel(buffer, px, py, color);
        proof {
            assert forall|i: int| 0 <= i < orig.len() implies buffer.data@[i] == (if line_paints(
                wi,
                hi,
                s0,
                s1,
                k + 1,
                i,
            ) {
                color
            } else {
                orig[i]
            }) by {
                let pt = line_point(s0, s1, k as int);
                if pix_visible(wi, hi, pt.0, pt.1) && i == pix_index(wi, hi, pt.0, pt.1) {
                    assert(line_paints(wi, hi, s0, s1, k + 1, i));
                } else {
                    if pix_visible(wi, hi, pt.0, pt.1) {
                        lemma_pix_index_bounds(wi, hi, pt.0, pt.1);
                    }
                    assert(buffer.data@[i] == before[i]);
                    if line_paints(wi, hi, s0, s1, k + 1, i) {
                        let kk = choose|kk: int|
                            0 <= kk < k + 1 && pix_visible(
                                wi,
                                hi,
                                #[trigger] line_point(s0, s1, kk).0,
                                line_point(s0, s1, kk).1,
                            ) && pix_index(wi, hi, line_point(s0, s1, kk).0, line_point(s0, s1, kk).1)
                                == i;
                        assert(kk < k);
                        assert(line_paints(wi, hi, s0, s1, k as int, i));
                    }
                }
            }
            assert(buffer.data@ =~= Seq::new(
                orig.len(),
                |i: int|
                    if line_paints(wi, hi, s0, s1, k + 1, i) {
                        color
                    } else {
                        orig[i]
                    },
            ));
        }
        k += 1;
    }
}

/// Draws the three edges of a triangle.
pub fn draw_wireframe_triangle(
    buffer: &mut Bitmap,
    p0: (i64, i64),
    p1: (i64, i64),
    p2: (i64, i64),
    color: Color,
)
    requires
        old(buffer).wf(),
        -COORD_LIMIT <= p0.0 <= COORD_LIMIT,
        -COORD_LIMIT <= p0.1 <= COORD_LIMIT,
        -COORD_LIMIT <= p1.0 <= COORD_LIMIT,
        -COORD_LIMIT <= p1.1 <= COORD_LIMIT,
        -COORD_LIMIT <= p2.0 <= COORD_LIMIT,
        -COORD_LIMIT <= p2.1 <= COORD_LIMIT,
    ensures
        final(buffer).wf(),
        final(buffer).width == old(buffer).width,
        final(buffer).height == old(buffer).height,
        final(buffer).data@ == wireframe_image(
            old(buffer).data@,
            old(buffer).width as int,
            old(buffer).height as int,
            (p0.0 as int, p0.1 as int),
            (p1.0 as int, p1.1 as int),
            (p2.0 as int, p2.1 as int),
            color,
        ),
{
    draw_line(buffer, p0, p1, color);
    draw_line(buffer, p1, p2, color);
    draw_line(buffer, p2, p0, color);
}

/// One drawn line, as an image transformation.
pub open spec fn line_image(
    dst: Seq<Color>,
    w: int,
    h: int,
    p0: (int, int),
    p1: (int, int),
    color: Color,
) -> Seq<Color> {
    Seq::new(
        dst.len(),
        |i: int|
            if line_paints(w, h, p0, p1, line_steps(p0, p1), i) {
                color
            } else {
                dst[i]
            },
    )
}

/// The three edges of a triangle drawn in order, as an image transformation.
pub open spec fn wireframe_image(
    dst: Seq<Color>,
    w: int,
    h: int,
    p0: (int, int),
    p1: (int, int),
    p2: (int, int),
    color: Color,
) -> Seq<Color> {
    line_image(line_image(line_image(dst, w, h, p0, p1, color), w, h, p1, p2, color), w, h, p2, p0, color)
}

/// The denominator an interpolation over `n` steps uses (`1` when
/// degenerate).
pub open spec fn den_of(n: int) -> int {
    if n == 0 {
        1
    } else {
        n
    }
}

/// Numerator over `den_of(n)` of entry `k` of an edge interpolation from
/// `xa` to `xb` over `n` steps.
pub open spec fn edge_num(xa: int, xb: int, n: int, k: int) -> int {
    xa * den_of(n) + k * (xb - xa)
}

/// The three vertices ordered by ascending y, through a fixed three-swap
/// sequence (a stable selection among equal y's).
pub open spec fn tri_sorted(p0: (int, int), p1: (int, int), p2: (int, int)) -> (
    (int, int),
    (int, int),
    (int, int),
) {
    let (a, b) = if p1.1 < p0.1 {
        (p1, p0)
    } else {
        (p0, p1)
    };
    let (a2, c2) = if p2.1 < a.1 {
        (p2, a)
    } else {
        (a, p2)
    };
    let (b3, c3) = if c2.1 < b.1 {
        (c2, b)
    } else {
        (b, c2)
    };
    (a2, b3, c3)
}

/// Numerator of the concatenated short-edges boundary at scanline offset
/// `j` (the duplicated sample at the middle vertex dropped).
pub open spec fn chain_num(s0: (int, int), s1: (int, int), s2: (int, int), j: int) -> int {
    if j < s1.1 - s0.1 {
        edge_num(s0.0, s1.0, s1.1 - s0.1, j)
    } else {
        edge_num(s1.0, s2.0, s2.1 - s1.1, j - (s1.1 - s0.1))
    }
}

/// Denominator of the concatenated short-edges boundary at offset `j`.
pub open spec fn chain_den(s0: (int, int), s1: (int, int), s2: (int, int), j: int) -> int {
    if j < s1.1 - s0.1 {
        den_of(s1.1 - s0.1)
    } else {
        den_of(s2.1 - s1.1)
    }
}

/// Numerator of the long-edge boundary at offset `j`.
pub open spec fn long_num(s0: (int, int), s1: (int, int), s2: (int, int), j: int) -> int {
    edge_num(s0.0, s2.0, s2.1 - s0.1, j)
}

/// Denominator of the long-edge boundary.
pub open spec fn long_den(s0: (int, int), s1: (int, int), s2: (int, int)) -> int {
    den_of(s2.1 - s0.1)
}

/// The scanline offset where the two boundaries are compared to decide
/// which is left: the midpoint of the triangle's height.
pub open spec fn tri_mid(s0: (int, int), s1: (int, int), s2: (int, int)) -> int {
    (s2.1 - s0.1) / 2
}

/// Whether the long edge is the left boundary: decided once, by comparing
/// the two boundaries at `tri_mid`.
pub open spec fn tri_long_left(s0: (int, int), s1: (int, int), s2: (int, int)) -> bool {
    let m = tri_mid(s0, s1, s2);
    &&& s2.1 - s0.1 > 0
    &&& rat_lt(
        long_num(s0, s1, s2, m),
        long_den(s0, s1, s2),
        chain_num(s0, s1, s2, m),
        chain_den(s0, s1, s2, m),
    )
}

/// Numerator of the left fill boundary at offset `j`.
pub open spec fn row_left_num(s0: (int, int), s1: (int, int), s2: (int, int), j: int) -> int {
    if tri_long_left(s0, s1, s2) {
        long_num(s0, s1, s2, j)
    } else {
        chain_num(s0, s1, s2, j)
    }
}

/// Denominator of the left fill boundary at offset `j`.
pub open spec fn row_left_den(s0: (int, int), s1: (int, int), s2: (int, int), j: int) -> int {
    if tri_long_left(s0, s1, s2) {
        long_den(s0, s1, s2)
    } else {
        chain_den(s0, s1, s2, j)
    }
}

/// Numerator of the right fill boundary at offset `j`.
pub open spec fn row_right_num(s0: (int, int), s1: (int, int), s2: (int, int), j: int) -> int {
    if tri_long_left(s0, s1, s2) {
        chain_num(s0, s1, s2, j)
    } else {
        long_num(s0, s1, s2, j)
    }
}

/// Denominator of the right fill boundary at offset `j`.
pub open spec fn row_right_den(s0: (int, int), s1: (int, int), s2: (int, int), j: int) -> int {
    if tri_long_left(s0, s1, s2) {
        chain_den(s0, s1, s2, j)
    } else {
        long_den(s0, s1, s2)
    }
}

/// First filled column of scanline offset `j` (inclusive).
pub open spec fn row_lo(s0: (int, int), s1: (int, int), s2: (int, int), j: int) -> int {
    div_trunc(row_left_num(s0, s1, s2, j), row_left_den(s0, s1, s2, j))
}

/// One-past-the-last filled column of scanline offset `j` (exclusive).
pub open spec fn row_hi(s0: (int, int), s1: (int, int), s2: (int, int), j: int) -> int {
    div_trunc(row_right_num(s0, s1, s2, j), row_right_den(s0, s1, s2, j))
}

/// Whether a filled pixel of scanline offset `j` with column below `xb`
/// lands on storage index `i`.
pub open spec fn tri_row_paints(
    w: int,
    h: int,
    s0: (int, int),
    s1: (int, int),
    s2: (int, int),
    j: int,
    xb: int,
    i: int,
) -> bool {
    exists|x: int|
        row_lo(s0, s1, s2, j) <= x < xb && pix_visible(w, h, x, s0.1 + j) && #[trigger] pix_index(
            w,
            h,
            x,
            s0.1 + j,
        ) == i
}

/// Whether one of the first `jb` scanlines of the filled triangle lands a
/// pixel on storage index `i`.
pub open spec fn tri_paints(
    w: int,
    h: int,
    s0: (int, int),
    s1: (int, int),
    s2: (int, int),
    jb: int,
    i: int,
) -> bool {
    exists|j: int|
        0 <= j < jb && #[trigger] tri_row_paints(
            w,
            h,
            s0,
            s1,
            s2,
            j,
            row_hi(s0, s1, s2, j),
            i,
        )
}

/// A filled triangle, as an image transformation.
pub open spec fn tri_fill_image(
    dst: Seq<Color>,
    w: int,
    h: int,
    p0: (int, int),
    p1: (int, int),
    p2: (int, int),
    color: Color,
) -> Seq<Color> {
    let (s0, s1, s2) = tri_sorted(p0, p1, p2);
    Seq::new(
        dst.len(),
        |i: int|
            if tri_paints(w, h, s0, s1, s2, s2.1 - s0.1, i) {
                color
            } else {
                dst[i]
            },
    )
}

/// Fills a triangle: the vertices are sorted by y, the two short edges are
/// concatenated against the long edge, the left boundary is decided once at
/// `tri_mid`, and every scanline `y` in `[y0, y2)` is filled for `x` in
/// `[row_lo, row_hi)` (right bound exclusive). Off-canvas pixels are
/// dropped.
pub fn draw_filled_triangle(
    buffer: &mut Bitmap,
    p0: (i64, i64),
    p1: (i64, i64),
    p2: (i64, i64),
    color: Color,
)
    requires
        old(buffer).wf(),
        -COORD_LIMIT <= p0.0 <= COORD_LIMIT,
        -COORD_LIMIT <= p0.1 <= COORD_LIMIT,
        -COORD_LIMIT <= p1.0 <= COORD_LIMIT,
        -COORD_LIMIT <= p1.1 <= COORD_LIMIT,
        -COORD_LIMIT <= p2.0 <= COORD_LIMIT,
        -COORD_LIMIT <= p2.1 <= COORD_LIMIT,
    ensures
        final(buffer).wf(),
        final(buffer).width == old(buffer).width,
        final(buffer).height == old(buffer).height,
        final(buffer).data@ == tri_fill_image(
            old(buffer).data@,
            old(buffer).width as int,
            old(buffer).height as int,
            (p0.0 as int, p0.1 as int),
            (p1.0 as int, p1.1 as int),
            (p2.0 as int, p2.1 as int),
            color,
        ),
{
    let ghost wi = old(buffer).width as int;
    let ghost hi = old(buffer).height as int;
    let ghost orig = old(buffer).data@;
    let (a, b) = if p1.1 < p0.1 {
        (p1, p0)
    } else {
        (p0, p1)
    };
    let (a2, c2) = if p2.1 < a.1 {
        (p2, a)
    } else {
        (a, p2)
    };
    let (b3, c3) = if c2.1 < b.1 {
        (c2, b)
    } else {
        (b, c2)
    };
    let (x0, y0) = a2;
    let (x1, y1) = b3;
    let (x2, y2) = c3;
    let ghost s0 = (x0 as int, y0 as int);
    let ghost s1 = (x1 as int, y1 as int);
    let ghost s2 = (x2 as int, y2 as int);
    proof {
        assert((s0, s1, s2) == tri_sorted(
            (p0.0 as int, p0.1 as int),
            (p1.0 as int, p1.1 as int),
            (p2.0 as int, p2.1 as int),
        ));
    }
    let n01 = y1 - y0;
    let n12 = y2 - y1;
    let n02 = y2 - y0;
    let e01 = interpolate(y0, x0, y1, x1);
    let e12 = interpolate(y1, x1, y2, x2);
    let e02 = interpolate(y0, x0, y2, x2);
    let m = ((n02 as u64) / 2) as i64;
    proof {
        assert(m == tri_mid(s0, s1, s2));
        assert(0 <= m <= n02);
    }
    let cm = if m < n01 {
        e01.nth(m)
    } else {
        e12.nth(m - n01)
    };
    let lm = e02.nth(m);
    let long_left = n02 > 0 && lm.lt(cm);
    proof {
        assert(cm.num == chain_num(s0, s1, s2, m as int) && cm.den == chain_den(
            s0,
            s1,
            s2,
            m as int,
        ));
        assert(long_left == tri_long_left(s0, s1, s2));
    }
    let mut j: i64 = 0;
    while j < n02
        invariant
            buffer.wf(),
            buffer.width == old(buffer).width,
            buffer.height == old(buffer).height,
            wi == buffer.width as int,
            hi == buffer.height as int,
            orig == old(buffer).data@,
            orig.len() == buffer.data@.len(),
            0 <= j <= n02,
            n01 == y1 - y0,
            n12 == y2 - y1,
            n02 == y2 - y0,
            0 <= n01 <= n02,
            0 <= n12,
            n02 <= STEP_MAX,
            s0 == (x0 as int, y0 as int),
            s1 == (x1 as int, y1 as int),
            s2 == (x2 as int, y2 as int),
            -COORD_LIMIT <= x0 <= COORD_LIMIT,
            -COORD_LIMIT <= y0 <= COORD_LIMIT,
            -COORD_LIMIT <= x1 <= COORD_LIMIT,
            -COORD_LIMIT <= y1 <= COORD_LIMIT,
            -COORD_LIMIT <= x2 <= COORD_LIMIT,
            -COORD_LIMIT <= y2 <= COORD_LIMIT,
            e01 == (Interpolate { i0: y0, i1: y1, d0: x0, d1: x1 }),
            e12 == (Interpolate { i0: y1, i1: y2, d0: x1, d1: x2 }),
            e02 == (Interpolate { i0: y0, i1: y2, d0: x0, d1: x2 }),
            e01.wf() && e12.wf() && e02.wf(),
            long_left == tri_long_left(s0, s1, s2),
            buffer.data@ == Seq::new(
                orig.len(),
                |i: int|
                    if tri_paints(wi, hi, s0, s1, s2, j as int, i) {
                        color
                    } else {
                        orig[i]
                    },
            ),
        decreases n02 - j,
    {
        let ghost row_base = buffer.data@;
        let cj = if j < n01 {
            e01.nth(j)
        } else {
            e12.nth(j - n01)
        };
        let lj = e02.nth(j);
        proof {
            assert(cj.num == chain_num(s0, s1, s2, j as int) && cj.den == chain_den(
                s0,
                s1,
                s2,
                j as int,
            ));
            assert(lj.num == long_num(s0, s1, s2, j as int) && lj.den == long_den(s0, s1, s2));
        }
        let (le, re) = if long_left {
            (lj, cj)
        } else {
            (cj, lj)
        };
        let xl = le.trunc();
        let xr = re.trunc();
        proof {
            assert(xl == row_lo(s0, s1, s2, j as int));
            assert(xr == row_hi(s0, s1, s2, j as int));
        }
        let mut x = xl;
        while x < xr
            invariant
                buffer.wf(),
                buffer.width == old(buffer).width,
                buffer.height == old(buffer).height,
                wi == buffer.width as int,
                hi == buffer.height as int,
                orig.len() == buffer.data@.len(),
                row_base.len() == orig.len(),
                0 <= j < n02,
                s0.1 + j == y0 + j,
                -COORD_LIMIT <= y0 <= COORD_LIMIT,
                n02 <= STEP_MAX,
                xl <= x,
                x <= xr || x == xl,
                xl == row_lo(s0, s1, s2, j as int),
                xr == row_hi(s0, s1, s2, j as int),
                -FX_RAW_MAX <= xl,
                xr <= FX_RAW_MAX,
                row_base == Seq::new(
                    orig.len(),
                    |i: int|
                        if tri_paints(wi, hi, s0, s1, s2, j as int, i) {
                            color
                        } else {
                            orig[i]
                        },
                ),
                buffer.data@ == Seq::new(
                    orig.len(),
                    |i: int|
                        if tri_paints(wi, hi, s0, s1, s2, j as int, i) || tri_row_paints(
                            wi,
                            hi,
                            s0,
                            s1,
                            s2,
                            j as int,
                            x as int,
                            i,
                        ) {
                            color
                        } else {
                            orig[i]
                        },
                ),
            decreases xr - x,
        {
            let ghost before = buffer.data@;
            putpixel(buffer, x, y0 + j, color);
            proof {
                let yrow = s0.1 + j;
                assert forall|i: int| 0 <= i < orig.len() implies buffer.data@[i] == (if tri_paints(
                    wi,
                    hi,
                    s0,
                    s1,
                    s2,
                    j as int,
                    i,
                ) || tri_row_paints(wi, hi, s0, s1, s2, j as int, x + 1, i) {
                    color
                } else {
                    orig[i]
                }) by {
                    if pix_visible(wi, hi, x as int, yrow) && i == pix_index(
                        wi,
                        hi,
                        x as int,
                        yrow,
                    ) {
                        assert(tri_row_paints(wi, hi, s0, s1, s2, j as int, x + 1, i));
                    } else {
                        if pix_visible(wi, hi, x as int, yrow) {
                            lemma_pix_index_bounds(wi, hi, x as int, yrow);
                        }
                        assert(buffer.data@[i] == before[i]);
                        if tri_row_paints(wi, hi, s0, s1, s2, j as int, x + 1, i) {
                            let xx = choose|xx: int|
                                row_lo(s0, s1, s2, j as int) <= xx < x + 1 && pix_visible(
                                    wi,
                                    hi,
                                    xx,
                                    yrow,
                                ) && #[trigger] pix_index(wi, hi, xx, yrow) == i;
                            assert(xx < x);
                            assert(tri_row_paints(wi, hi, s0, s1, s2, j as int, x as int, i));
                        }
                    }
                }
                assert(buffer.data@ =~= Seq::new(
                    orig.len(),
                    |i: int|
                        if tri_paints(wi, hi, s0, s1, s2, j as int, i) || tri_row_paints(
                            wi,
                            hi,
                            s0,
                            s1,
                            s2,
                            j as int,
                            x + 1,
                            i,
                        ) {
                            color
                        } else {
                            orig[i]
                        },
                ));
            }
            x += 1;
        }
        proof {
            assert forall|i: int| 0 <= i < orig.len() implies buffer.data@[i] == (if tri_paints(
                wi,
                hi,
                s0,
                s1,
                s2,
                j + 1,
                i,
            ) {
                color
            } else {
                orig[i]
            }) by {
                if tri_paints(wi, hi, s0, s1, s2, j + 1, i) {
                    let jj = choose|jj: int|
                        0 <= jj < j + 1 && #[trigger] tri_row_paints(
                            wi,
                            hi,
                            s0,
                            s1,
                            s2,
                            jj,
                            row_hi(s0, s1, s2, jj),
                            i,
                        );
                    if jj == j as int {
                        assert(tri_row_paints(wi, hi, s0, s1, s2, j as int, x as int, i));
                    } else {
                        assert(tri_paints(wi, hi, s0, s1, s2, j as int, i));
                    }
                } else {
                    assert(!tri_paints(wi, hi, s0, s1, s2, j as int, i));
                    assert(!tri_row_paints(wi, hi, s0, s1, s2, j as int, x as int, i));
                }
            }
            assert(buffer.data@ =~= Seq::new(
                orig.len(),
                |i: int|
                    if tri_paints(wi, hi, s0, s1, s2, j + 1, i) {
                        color
                    } else {
                        orig[i]
                    },
            ));
        }
        j += 1;
    }
    proof {
        assert(buffer.data@ =~= tri_fill_image(
            orig,
            wi,
            hi,
            (p0.0 as int, p0.1 as int),
            (p1.0 as int, p1.1 as int),
            (p2.0 as int, p2.1 as int),
            color,
        ));
    }
}

/// Scanline law for the filled triangle: after the y-sort, the fill pass
/// visits exactly the `y2 - y0` scanlines `[y0, y2)` (none when the height
/// is zero), and on every visited scanline the left boundary is at most the
/// right boundary. The boundary ordering is decided by one comparison at
/// the midpoint scanline `tri_mid`, and carries to the full height.
pub proof fn lemma_filled_triangle_scanlines(s0: (int, int), s1: (int, int), s2: (int, int))
    requires
        s0.1 <= s1.1 <= s2.1,
    ensures
        forall|j: int|
            0 <= j < s2.1 - s0.1 ==> rat_le(
                #[trigger] row_left_num(s0, s1, s2, j),
                row_left_den(s0, s1, s2, j),
                row_right_num(s0, s1, s2, j),
                row_right_den(s0, s1, s2, j),
            ),
        forall|j: int|
            0 <= j < s2.1 - s0.1 ==> #[trigger] row_lo(s0, s1, s2, j) <= row_hi(s0, s1, s2, j),
{
    let x0 = s0.0;
    let x1 = s1.0;
    let x2 = s2.0;
    let y0 = s0.1;
    let y1 = s1.1;
    let y2 = s2.1;
    let n01 = y1 - y0;
    let n12 = y2 - y1;
    let n02 = y2 - y0;
    let t = (x1 - x0) * n02 - (x2 - x0) * n01;
    if n02 > 0 {
        let m = tri_mid(s0, s1, s2);
        assert(0 <= m < n02);
        let ll = tri_long_left(s0, s1, s2);
        let cnm = chain_num(s0, s1, s2, m);
        let lnm = long_num(s0, s1, s2, m);
        let am = cnm * long_den(s0, s1, s2) - lnm * chain_den(s0, s1, s2, m);
        assert(lnm == x0 * n02 + m * (x2 - x0));
        assert(long_den(s0, s1, s2) == n02);
        assert(ll == (am > 0));
        // the one comparison pins the sign of t, except for the single-row
        // sliver whose only comparison point is the shared top vertex
        if m >= n01 {
            // the comparison lands on the lower short edge
            assert(n12 >= 1);
            assert(cnm == x1 * n12 + (m - n01) * (x2 - x1) && chain_den(s0, s1, s2, m) == n12);
            lemma_seg2_diff(x0, x1, x2, n01, n12, m);
            assert(am == (n02 - m) * t);
            if ll {
                assert(t > 0) by (nonlinear_arith)
                    requires
                        am == (n02 - m) * t,
                        am > 0,
                        n02 - m >= 1,
                ;
            } else {
                assert(t <= 0) by (nonlinear_arith)
                    requires
                        am == (n02 - m) * t,
                        am <= 0,
                        n02 - m >= 1,
                ;
            }
        } else {
            // the comparison lands on the upper short edge
            assert(cnm == x0 * n01 + m * (x1 - x0) && chain_den(s0, s1, s2, m) == n01);
            assert(am == m * t) by (nonlinear_arith)
                requires
                    am == (x0 * n01 + m * (x1 - x0)) * n02 - (x0 * n02 + m * (x2 - x0)) * n01,
                    t == (x1 - x0) * n02 - (x2 - x0) * n01,
                    n02 == n01 + n12,
            ;
            if ll {
                assert(t > 0) by (nonlinear_arith)
                    requires
                        am == m * t,
                        am > 0,
                        m >= 0,
                ;
            } else {
                if m >= 1 {
                    assert(t <= 0) by (nonlinear_arith)
                        requires
                            am == m * t,
                            am <= 0,
                            m >= 1,
                    ;
                } else {
                    // m == 0 below a nonempty upper edge: the triangle is one
                    // scanline high
                    assert(m == 0 && n02 == 1 && n01 == 1);
                }
            }
        }
        assert forall|j: int| 0 <= j < s2.1 - s0.1 implies rat_le(
            #[trigger] row_left_num(s0, s1, s2, j),
            row_left_den(s0, s1, s2, j),
            row_right_num(s0, s1, s2, j),
            row_right_den(s0, s1, s2, j),
        ) && row_lo(s0, s1, s2, j) <= row_hi(s0, s1, s2, j) by {
            let cn = chain_num(s0, s1, s2, j);
            let cd = chain_den(s0, s1, s2, j);
            let ln = long_num(s0, s1, s2, j);
            let ld = long_den(s0, s1, s2);
            let aj = cn * ld - ln * cd;
            assert(ln == x0 * n02 + j * (x2 - x0) && ld == n02);
            if j < n01 {
                assert(cn == x0 * n01 + j * (x1 - x0) && cd == n01);
                assert(aj == j * t) by (nonlinear_arith)
                    requires
                        aj == (x0 * n01 + j * (x1 - x0)) * n02 - (x0 * n02 + j * (x2 - x0)) * n01,
                        t == (x1 - x0) * n02 - (x2 - x0) * n01,
                        n02 == n01 + n12,
                ;
                if ll {
                    assert(aj >= 0) by (nonlinear_arith)
                        requires
                            aj == j * t,
                            t > 0,
                            j >= 0,
                    ;
                } else {
                    if t <= 0 {
                        assert(aj <= 0) by (nonlinear_arith)
                            requires
                                aj == j * t,
                                t <= 0,
                                j >= 0,
                        ;
                    } else {
                        // the single-row sliver: its one row starts at the
                        // shared top vertex, where the boundaries are equal
                        assert(n02 == 1 && j == 0);
                        assert(aj == 0) by (nonlinear_arith)
                            requires
                                aj == j * t,
                                j == 0,
                        ;
                    }
                }
                assert(cd >= 1 && ld >= 1);
            } else {
                assert(n12 >= 1);
                assert(cn == x1 * n12 + (j - n01) * (x2 - x1) && cd == n12);
                lemma_seg2_diff(x0, x1, x2, n01, n12, j);
                assert(aj == (n02 - j) * t);
                if ll {
                    assert(aj >= 0) by (nonlinear_arith)
                        requires
                            aj == (n02 - j) * t,
                            t > 0,
                            j <= n02,
                    ;
                } else {
                    if t <= 0 {
                        assert(aj <= 0) by (nonlinear_arith)
                            requires
                                aj == (n02 - j) * t,
                                t <= 0,
                                j <= n02,
                        ;
                    } else {
                        // the sliver's one row lies on the upper edge
                        assert(n02 == 1 && n01 == 1);
                        assert(false);
                    }
                }
                assert(cd >= 1 && ld >= 1);
            }
            if ll {
                assert(rat_le(ln, ld, cn, cd));
                lemma_div_trunc_mono(ln, ld, cn, cd);
            } else {
                assert(rat_le(cn, cd, ln, ld));
                lemma_div_trunc_mono(cn, cd, ln, ld);
            }
        }
    }
}

/// Ring identity: on the lower segment of the chain, the crossed difference
/// between the chain and the long edge is `(n02 - j)` times one fixed value.
proof fn lemma_seg2_diff(x0: int, x1: int, x2: int, n01: int, n12: int, j: int)
    ensures
        (x1 * n12 + (j - n01) * (x2 - x1)) * (n01 + n12) - (x0 * (n01 + n12) + j * (x2 - x0))
            * n12 == ((n01 + n12) - j) * ((x1 - x0) * (n01 + n12) - (x2 - x0) * n01),
{
    let s = n01 + n12;
    let t = (x1 - x0) * s - (x2 - x0) * n01;
    let p = (x2 - x1) * s;
    let q = (x2 - x0) * n12;
    let lhs = (x1 * n12 + (j - n01) * (x2 - x1)) * s - (x0 * s + j * (x2 - x0)) * n12;
    assert((x1 * n12 + (j - n01) * (x2 - x1)) * s == x1 * n12 * s + j * p - n01 * p)
        by (nonlinear_arith)
        requires
            p == (x2 - x1) * s,
    ;
    assert((x0 * s + j * (x2 - x0)) * n12 == x0 * s * n12 + j * q) by (nonlinear_arith)
        requires
            q == (x2 - x0) * n12,
    ;
    assert(x1 * n12 - n01 * (x2 - x1) - x0 * n12 == t) by (nonlinear_arith)
        requires
            t == (x1 - x0) * s - (x2 - x0) * n01,
            s == n01 + n12,
    ;
    assert((x1 * n12 - n01 * (x2 - x1) - x0 * n12) * s == x1 * n12 * s - n01 * p - x0 * s * n12)
        by (nonlinear_arith)
        requires
            p == (x2 - x1) * s,
    ;
    assert(x1 * n12 * s - n01 * p - x0 * s * n12 == t * s);
    assert(p - q == -t) by (nonlinear_arith)
        requires
            t == (x1 - x0) * s - (x2 - x0) * n01,
            p == (x2 - x1) * s,
            q == (x2 - x0) * n12,
            s == n01 + n12,
    ;
    assert(j * p - j * q == j * (p - q)) by (nonlinear_arith);
    assert(j * (p - q) == -(j * t)) by (nonlinear_arith)
        requires
            p - q == -t,
    ;
    assert(lhs == t * s - j * t);
    assert((s - j) * t == s * t - j * t) by (nonlinear_arith);
    assert(t * s == s * t) by (nonlinear_arith);
    assert(lhs == (s - j) * t);
}

/// Numerator of the value at step `k` of a second-level interpolation whose
/// endpoints are the rationals `uln/uld` and `urn/urd`, spanning `n` steps:
/// over the common denominator `attr_den`.
pub open spec fn attr_num(uln: int, uld: int, urn: int, urd: int, n: int, k: int) -> int {
    uln * urd * n + k * (urn * uld - uln * urd)
}

/// Common denominator of a second-level interpolation.
pub open spec fn attr_den(uld: int, urd: int, n: int) -> int {
    uld * urd * n
}

/// The value at step `k` of a second-level interpolation, truncated toward
/// zero.
pub open spec fn attr_trunc(uln: int, uld: int, urn: int, urd: int, n: int, k: int) -> int {
    div_trunc(attr_num(uln, uld, urn, urd, n, k), attr_den(uld, urd, n))
}

/// A second-level interpolation entry is a convex combination of its two
/// rational endpoints, so it stays within the endpoint magnitude bound.
proof fn lemma_attr_bounds(uln: int, uld: int, urn: int, urd: int, n: int, k: int)
    requires
        0 < uld,
        0 < urd,
        1 <= n,
        0 <= k <= n,
        -(FX_RAW_MAX as int) * uld <= uln <= (FX_RAW_MAX as int) * uld,
        -(FX_RAW_MAX as int) * urd <= urn <= (FX_RAW_MAX as int) * urd,
    ensures
        -(FX_RAW_MAX as int) * attr_den(uld, urd, n) <= attr_num(uln, uld, urn, urd, n, k),
        attr_num(uln, uld, urn, urd, n, k) <= (FX_RAW_MAX as int) * attr_den(uld, urd, n),
        attr_den(uld, urd, n) > 0,
{
    let m = FX_RAW_MAX as int;
    let an = attr_num(uln, uld, urn, urd, n, k);
    let ad = attr_den(uld, urd, n);
    assert((n - k) * (uln * urd) + k * (urn * uld) == an) by (nonlinear_arith)
        requires
            an == uln * urd * n + k * (urn * uld - uln * urd),
    ;
    assert(-(m) * uld == -(m * uld) && -(m) * urd == -(m * urd)) by (nonlinear_arith);
    assert((n - k) * (uln * urd) <= (n - k) * ((m * uld) * urd) && -((n - k) * ((m * uld) * urd))
        <= (n - k) * (uln * urd)) by (nonlinear_arith)
        requires
            0 <= n - k,
            0 < urd,
            -(m * uld) <= uln <= m * uld,
    ;
    assert(k * (urn * uld) <= k * ((m * urd) * uld) && -(k * ((m * urd) * uld)) <= k * (urn * uld))
        by (nonlinear_arith)
        requires
            0 <= k,
            0 < uld,
            -(m * urd) <= urn <= m * urd,
    ;
    assert((n - k) * ((m * uld) * urd) + k * ((m * urd) * uld) == m * ad && -(m * ad) == -(m) * ad
        && m * ad == m * ad) by (nonlinear_arith)
        requires
            ad == uld * urd * n,
    ;
    assert(ad > 0) by (nonlinear_arith)
        requires
            ad == uld * urd * n,
            0 < uld,
            0 < urd,
            1 <= n,
    ;
}

/// The value at step `k` between two rational endpoints, truncated toward
/// zero, as the per-pixel attribute interpolation computes it.
pub fn attr_at(ul: Frac, ur: Frac, n: i64, k: i64) -> (r: i64)
    requires
        ul.wf(),
        ur.wf(),
        ul.in_raw_range(),
        ur.in_raw_range(),
        1 <= n <= STEP_MAX,
        0 <= k <= n,
    ensures
        r == attr_trunc(ul.num as int, ul.den as int, ur.num as int, ur.den as int, n as int, k as int),
        -FX_RAW_MAX <= r <= FX_RAW_MAX,
{
    let ghost m = FX_RAW_MAX as int;
    proof {
        assert(-0x800000000000000000 <= ul.num <= 0x800000000000000000) by (nonlinear_arith)
            requires
                -(FX_RAW_MAX as int) * ul.den <= ul.num <= (FX_RAW_MAX as int) * ul.den,
                0 < ul.den <= 0x4000000,
        ;
        assert(-0x800000000000000000 <= ur.num <= 0x800000000000000000) by (nonlinear_arith)
            requires
                -(FX_RAW_MAX as int) * ur.den <= ur.num <= (FX_RAW_MAX as int) * ur.den,
                0 < ur.den <= 0x4000000,
        ;
        lemma_mul_abs_le(ul.num as int, ur.den as int, 0x800000000000000000, 0x4000000);
        lemma_mul_abs_le(
            ul.num as int * ur.den as int,
            n as int,
            0x2000000000000000000000000,
            0x2000000,
        );
        lemma_mul_abs_le(ur.num as int, ul.den as int, 0x800000000000000000, 0x4000000);
        lemma_mul_abs_le(
            k as int,
            ur.num as int * ul.den as int - ul.num as int * ur.den as int,
            0x2000000,
            0x4000000000000000000000000,
        );
        lemma_mul_abs_le(ul.den as int, ur.den as int, 0x4000000, 0x4000000);
        lemma_mul_abs_le(ul.den as int * ur.den as int, n as int, 0x10000000000000, 0x2000000);
    }
    let num: i128 = ul.num * (ur.den as i128) * (n as i128) + (k as i128) * (ur.num * (ul.den
        as i128) - ul.num * (ur.den as i128));
    let den: i128 = (ul.den as i128) * (ur.den as i128) * (n as i128);
    proof {
        lemma_attr_bounds(
            ul.num as int,
            ul.den as int,
            ur.num as int,
            ur.den as int,
            n as int,
            k as int,
        );
        assert(den == attr_den(ul.den as int, ur.den as int, n as int));
        assert(num == attr_num(ul.num as int, ul.den as int, ur.num as int, ur.den as int, n as int, k as int));
        assert(den > 0);
    }
    let q = crate::fixed::div_wide(num, den);
    proof {
        assert((-m) * (den as int) <= (num as int) * 1 && (num as int) * 1 <= m * (den as int))
            by (nonlinear_arith)
            requires
                -(m) * (den as int) <= num,
                num <= m * (den as int),
        ;
        assert(rat_le(-m, 1, num as int, den as int));
        assert(rat_le(num as int, den as int, m, 1));
        crate::fixed::lemma_div_trunc_mono(-m, 1, num as int, den as int);
        crate::fixed::lemma_div_trunc_mono(num as int, den as int, m, 1);
        lemma_div_of_multiple(-m, 1);
        lemma_div_of_multiple(m, 1);
    }
    q as i64
}

/// Dividing an exact multiple of a positive divisor truncates to the
/// multiplier.
proof fn lemma_div_of_multiple(a: int, d: int)
    requires
        d > 0,
    ensures
        div_trunc(a * d, d) == a,
{
    if a >= 0 {
        assert((a * d) / d == a) by (nonlinear_arith)
            requires
                d > 0,
                a >= 0,
        ;
    } else {
        assert(a * d < 0) by (nonlinear_arith)
            requires
                d > 0,
                a < 0,
        ;
        assert(-(a * d) == (-a) * d) by (nonlinear_arith);
        assert(((-a) * d) / d == -a) by (nonlinear_arith)
            requires
                d > 0,
                -a > 0,
        ;
    }
}

/// An interpolation entry truncates to a value between the two endpoints.
pub proof fn lemma_interp_trunc_range(itp: Interpolate, k: int)
    requires
        itp.wf(),
        0 <= k <= itp.steps(),
    ensures
        (if itp.d0 <= itp.d1 {
            itp.d0 as int
        } else {
            itp.d1 as int
        }) <= div_trunc(itp.num_at(k), itp.den()),
        div_trunc(itp.num_at(k), itp.den()) <= (if itp.d0 <= itp.d1 {
            itp.d1 as int
        } else {
            itp.d0 as int
        }),
{
    let lo: int = if itp.d0 <= itp.d1 {
        itp.d0 as int
    } else {
        itp.d1 as int
    };
    let hi: int = if itp.d0 <= itp.d1 {
        itp.d1 as int
    } else {
        itp.d0 as int
    };
    let den = itp.den();
    assert(lo * den <= itp.num_at(k) <= hi * den) by (nonlinear_arith)
        requires
            den >= 1,
            0 <= k <= den || (k == 0 && den == 1),
            itp.num_at(k) == itp.d0 * den + k * (itp.d1 - itp.d0),
            lo <= itp.d0 <= hi,
            lo <= itp.d1 <= hi,
            lo == (if itp.d0 <= itp.d1 { itp.d0 as int } else { itp.d1 as int }),
            hi == (if itp.d0 <= itp.d1 { itp.d1 as int } else { itp.d0 as int }),
    ;
    assert((lo * den) * den <= itp.num_at(k) * den && itp.num_at(k) * den <= (hi * den) * den)
        by (nonlinear_arith)
        requires
            lo * den <= itp.num_at(k) <= hi * den,
            den > 0,
    ;
    assert(rat_le(lo * den, den, itp.num_at(k), den));
    assert(rat_le(itp.num_at(k), den, hi * den, den));
    crate::fixed::lemma_div_trunc_mono(lo * den, den, itp.num_at(k), den);
    crate::fixed::lemma_div_trunc_mono(itp.num_at(k), den, hi * den, den);
    lemma_div_of_multiple(lo, den);
    lemma_div_of_multiple(hi, den);
}

/// The row of the canvas coordinate that storage index `i` belongs to.
pub open spec fn idx_y(w: int, h: int, i: int) -> int {
    h / 2 - i / w
}

/// The canvas column of storage index `i`.
pub open spec fn idx_x(w: int, i: int) -> int {
    i % w - w / 2
}

/// A visible canvas coordinate's storage index decomposes back into the
/// coordinate.
pub proof fn lemma_pix_index_decompose(w: int, h: int, x: int, y: int)
    requires
        pix_visible(w, h, x, y),
    ensures
        0 <= pix_index(w, h, x, y) < w * h,
        idx_y(w, h, pix_index(w, h, x, y)) == y,
        idx_x(w, pix_index(w, h, x, y)) == x,
{
    lemma_pix_index_bounds(w, h, x, y);
    vstd::arithmetic::div_mod::lemma_fundamental_div_mod_converse(
        pix_index(w, h, x, y),
        w,
        h / 2 - y,
        w / 2 + x,
    );
}

/// Every storage index is the index of the canvas coordinate it decomposes
/// into.
pub proof fn lemma_idx_reconstruct(w: int, h: int, i: int)
    requires
        w > 0,
        0 <= i,
    ensures
        pix_index(w, h, idx_x(w, i), idx_y(w, h, i)) == i,
{
    vstd::arithmetic::div_mod::lemma_fundamental_div_mod(i, w);
    assert(w * (i / w) == (i / w) * w) by (nonlinear_arith);
}

/// The three screen vertices with their (u, v) texel attribute pair,
/// ordered by ascending y through the fixed three-swap sequence.
pub open spec fn uvsort(
    p0: ((int, int), (int, int)),
    p1: ((int, int), (int, int)),
    p2: ((int, int), (int, int)),
) -> (((int, int), (int, int)), ((int, int), (int, int)), ((int, int), (int, int))) {
    let (a, b) = if p1.0.1 < p0.0.1 {
        (p1, p0)
    } else {
        (p0, p1)
    };
    let (a2, c2) = if p2.0.1 < a.0.1 {
        (p2, a)
    } else {
        (a, p2)
    };
    let (b3, c3) = if c2.0.1 < b.0.1 {
        (c2, b)
    } else {
        (b, c2)
    };
    (a2, b3, c3)
}

/// The color a flat (no depth) textured fill writes at storage index `i`:
/// interpolated texel coordinates, truncated, sampled with wraparound.
pub open spec fn tex2_color(
    w: int,
    h: int,
    s0: (int, int),
    s1: (int, int),
    s2: (int, int),
    tu: (int, int, int),
    tv: (int, int, int),
    tw: int,
    th: int,
    tex: Seq<Color>,
    i: int,
) -> Color {
    crate::render_3d::spec_sample(
        tw,
        th,
        tex,
        crate::render_3d::poly_attr_at(w, h, s0, s1, s2, tu.0, tu.1, tu.2, i),
        crate::render_3d::poly_attr_at(w, h, s0, s1, s2, tv.0, tv.1, tv.2, i),
    )
}

/// The screen after a flat textured fill.
pub open spec fn tex2_fill_screen(
    dst: Seq<Color>,
    w: int,
    h: int,
    s0: (int, int),
    s1: (int, int),
    s2: (int, int),
    tu: (int, int, int),
    tv: (int, int, int),
    tw: int,
    th: int,
    tex: Seq<Color>,
) -> Seq<Color> {
    Seq::new(
        dst.len(),
        |i: int|
            if crate::render_3d::poly_rows_covers(w, h, s0, s1, s2, s2.1 - s0.1, i) {
                tex2_color(w, h, s0, s1, s2, tu, tv, tw, th, tex, i)
            } else {
                dst[i]
            },
    )
}

/// The sorted screen vertices and texel attributes the flat textured fill
/// works on.
pub open spec fn spec_tex2_sorted(
    p0: (i64, i64),
    p1: (i64, i64),
    p2: (i64, i64),
    uv0: (Fx, Fx),
    uv1: (Fx, Fx),
    uv2: (Fx, Fx),
    tw: int,
    th: int,
) -> (((int, int), (int, int), (int, int)), ((int, int, int), (int, int, int))) {
    let q0 = (
        (p0.0 as int, p0.1 as int),
        (
            crate::render_3d::spec_uv_texel(uv0.0.raw as int, tw),
            crate::render_3d::spec_uv_texel(uv0.1.raw as int, th),
        ),
    );
    let q1 = (
        (p1.0 as int, p1.1 as int),
        (
            crate::render_3d::spec_uv_texel(uv1.0.raw as int, tw),
            crate::render_3d::spec_uv_texel(uv1.1.raw as int, th),
        ),
    );
    let q2 = (
        (p2.0 as int, p2.1 as int),
        (
            crate::render_3d::spec_uv_texel(uv2.0.raw as int, tw),
            crate::render_3d::spec_uv_texel(uv2.1.raw as int, th),
        ),
    );
    let (a, b, c) = uvsort(q0, q1, q2);
    ((a.0, b.0, c.0), ((a.1.0, b.1.0, c.1.0), (a.1.1, b.1.1, c.1.1)))
}

/// One textured pixel write (no depth test) advances the partial fill image
/// by one column.
proof fn lemma_tex2_step(
    w: int,
    h: int,
    s0: (int, int),
    s1: (int, int),
    s2: (int, int),
    tu: (int, int, int),
    tv: (int, int, int),
    tw: int,
    th: int,
    tex: Seq<Color>,
    j: int,
    x: int,
    written: Color,
    orig: Seq<Color>,
    before: Seq<Color>,
    after: Seq<Color>,
)
    requires
        orig.len() == before.len(),
        orig.len() == w * h,
        0 <= j < s2.1 - s0.1,
        row_lo(s0, s1, s2, j) <= x < row_hi(s0, s1, s2, j),
        pix_visible(w, h, x, s0.1 + j) ==> {
            &&& written == tex2_color(w, h, s0, s1, s2, tu, tv, tw, th, tex, pix_index(w, h, x, s0.1 + j))
            &&& after == before.update(pix_index(w, h, x, s0.1 + j), written)
        },
        !pix_visible(w, h, x, s0.1 + j) ==> after == before,
        before == Seq::new(
            orig.len(),
            |i: int|
                if crate::render_3d::poly_covers_partial(w, h, s0, s1, s2, j, x, i) {
                    tex2_color(w, h, s0, s1, s2, tu, tv, tw, th, tex, i)
                } else {
                    orig[i]
                },
        ),
    ensures
        after =~= Seq::new(
            orig.len(),
            |i: int|
                if crate::render_3d::poly_covers_partial(w, h, s0, s1, s2, j, x + 1, i) {
                    tex2_color(w, h, s0, s1, s2, tu, tv, tw, th, tex, i)
                } else {
                    orig[i]
                },
        ),
{
    let yrow = s0.1 + j;
    if pix_visible(w, h, x, yrow) {
        lemma_pix_index_decompose(w, h, x, yrow);
        let iw = pix_index(w, h, x, yrow);
        assert(idx_y(w, h, iw) - s0.1 == j && idx_x(w, iw) == x);
        assert forall|i: int| 0 <= i < orig.len() implies after[i] == (
        if crate::render_3d::poly_covers_partial(w, h, s0, s1, s2, j, x + 1, i) {
            tex2_color(w, h, s0, s1, s2, tu, tv, tw, th, tex, i)
        } else {
            orig[i]
        }) by {
            if i == iw {
                assert(crate::render_3d::poly_covers_partial(w, h, s0, s1, s2, j, x + 1, iw));
            } else {
                if crate::render_3d::poly_covers_partial(w, h, s0, s1, s2, j, x + 1, i)
                    && !crate::render_3d::poly_covers_partial(w, h, s0, s1, s2, j, x, i) {
                    assert(idx_y(w, h, i) - s0.1 == j && idx_x(w, i) == x);
                    lemma_idx_reconstruct(w, h, i);
                    assert(i == iw);
                }
            }
        }
    } else {
        assert forall|i: int| 0 <= i < orig.len() implies !(crate::render_3d::poly_covers_partial(
            w,
            h,
            s0,
            s1,
            s2,
            j,
            x + 1,
            i,
        ) && !crate::render_3d::poly_covers_partial(w, h, s0, s1, s2, j, x, i)) by {
            if crate::render_3d::poly_covers_partial(w, h, s0, s1, s2, j, x + 1, i)
                && !crate::render_3d::poly_covers_partial(w, h, s0, s1, s2, j, x, i) {
                assert(idx_y(w, h, i) - s0.1 == j && idx_x(w, i) == x);
                assert(pix_visible(w, h, idx_x(w, i), s0.1 + j));
            }
        }
    }
}

/// Fills a triangle by sampling a texture without perspective correction:
/// each vertex carries a UV coordinate, scaled to texel units and truncated;
/// texel coordinates are interpolated across the triangle exactly like the
/// x bounds, and each pixel samples the texture at the truncated
/// coordinates with wraparound (tiling, never clamping). No depth test.
pub fn draw_textured_triangle(
    buffer: &mut Bitmap,
    p0: (i64, i64),
    p1: (i64, i64),
    p2: (i64, i64),
    uv0: (Fx, Fx),
    uv1: (Fx, Fx),
    uv2: (Fx, Fx),
    texture: &Bitmap,
)
    requires
        old(buffer).wf(),
        texture.wf(),
        texture.width >= 1,
        texture.height >= 1,
        -COORD_LIMIT <= p0.0 <= COORD_LIMIT,
        -COORD_LIMIT <= p0.1 <= COORD_LIMIT,
        -COORD_LIMIT <= p1.0 <= COORD_LIMIT,
        -COORD_LIMIT <= p1.1 <= COORD_LIMIT,
        -COORD_LIMIT <= p2.0 <= COORD_LIMIT,
        -COORD_LIMIT <= p2.1 <= COORD_LIMIT,
        uv0.0.bounded() && uv0.1.bounded(),
        uv1.0.bounded() && uv1.1.bounded(),
        uv2.0.bounded() && uv2.1.bounded(),
    ensures
        final(buffer).wf(),
        final(buffer).width == old(buffer).width,
        final(buffer).height == old(buffer).height,
        ({
            let (s, t) = spec_tex2_sorted(
                p0,
                p1,
                p2,
                uv0,
                uv1,
                uv2,
                texture.width as int,
                texture.height as int,
            );
            final(buffer).data@ == tex2_fill_screen(
                old(buffer).data@,
                old(buffer).width as int,
                old(buffer).height as int,
                s.0,
                s.1,
                s.2,
                t.0,
                t.1,
                texture.width as int,
                texture.height as int,
                texture.data@,
            )
        }),
{
    let ghost wi = old(buffer).width as int;
    let ghost hi = old(buffer).height as int;
    let ghost orig = old(buffer).data@;
    let tw = texture.width;
    let th = texture.height;
    let q0 = (p0, (crate::render_3d::uv_texel(uv0.0, tw), crate::render_3d::uv_texel(uv0.1, th)));
    let q1 = (p1, (crate::render_3d::uv_texel(uv1.0, tw), crate::render_3d::uv_texel(uv1.1, th)));
    let q2 = (p2, (crate::render_3d::uv_texel(uv2.0, tw), crate::render_3d::uv_texel(uv2.1, th)));
    let (a, b) = if q1.0.1 < q0.0.1 {
        (q1, q0)
    } else {
        (q0, q1)
    };
    let (a2, c2) = if q2.0.1 < a.0.1 {
        (q2, a)
    } else {
        (a, q2)
    };
    let (b3, c3) = if c2.0.1 < b.0.1 {
        (c2, b)
    } else {
        (b, c2)
    };
    let ((x0, y0), (tu0, tv0)) = a2;
    let ((x1, y1), (tu1, tv1)) = b3;
    let ((x2, y2), (tu2, tv2)) = c3;
    let ghost s0 = (x0 as int, y0 as int);
    let ghost s1 = (x1 as int, y1 as int);
    let ghost s2 = (x2 as int, y2 as int);
    let ghost gtu = (tu0 as int, tu1 as int, tu2 as int);
    let ghost gtv = (tv0 as int, tv1 as int, tv2 as int);
    proof {
        let (gs, gt) = spec_tex2_sorted(p0, p1, p2, uv0, uv1, uv2, tw as int, th as int);
        assert(gs == (s0, s1, s2) && gt == (gtu, gtv));
    }
    let n01 = y1 - y0;
    let n12 = y2 - y1;
    let n02 = y2 - y0;
    let e01x = interpolate(y0, x0, y1, x1);
    let e12x = interpolate(y1, x1, y2, x2);
    let e02x = interpolate(y0, x0, y2, x2);
    let e01u = interpolate(y0, tu0, y1, tu1);
    let e12u = interpolate(y1, tu1, y2, tu2);
    let e02u = interpolate(y0, tu0, y2, tu2);
    let e01v = interpolate(y0, tv0, y1, tv1);
    let e12v = interpolate(y1, tv1, y2, tv2);
    let e02v = interpolate(y0, tv0, y2, tv2);
    let m = ((n02 as u64) / 2) as i64;
    proof {
        assert(m == tri_mid(s0, s1, s2));
        assert(0 <= m <= n02);
    }
    let cm = if m < n01 {
        e01x.nth(m)
    } else {
        e12x.nth(m - n01)
    };
    let lm = e02x.nth(m);
    let long_left = n02 > 0 && lm.lt(cm);
    proof {
        assert(cm.num == chain_num(s0, s1, s2, m as int) && cm.den == chain_den(
            s0,
            s1,
            s2,
            m as int,
        ));
        assert(long_left == tri_long_left(s0, s1, s2));
    }
    let mut j: i64 = 0;
    while j < n02
        invariant
            buffer.wf(),
            buffer.width == old(buffer).width,
            buffer.height == old(buffer).height,
            wi == buffer.width as int,
            hi == buffer.height as int,
            orig == old(buffer).data@,
            orig.len() == buffer.data@.len(),
            orig.len() == wi * hi,
            texture.wf(),
            tw == texture.width,
            th == texture.height,
            1 <= tw,
            1 <= th,
            0 <= j <= n02,
            n01 == y1 - y0,
            n12 == y2 - y1,
            n02 == y2 - y0,
            0 <= n01 <= n02,
            0 <= n12,
            n02 <= 0x2000000,
            s0 == (x0 as int, y0 as int),
            s1 == (x1 as int, y1 as int),
            s2 == (x2 as int, y2 as int),
            gtu == (tu0 as int, tu1 as int, tu2 as int),
            gtv == (tv0 as int, tv1 as int, tv2 as int),
            -COORD_LIMIT <= x0 <= COORD_LIMIT,
            -COORD_LIMIT <= y0 <= COORD_LIMIT,
            -COORD_LIMIT <= x1 <= COORD_LIMIT,
            -COORD_LIMIT <= y1 <= COORD_LIMIT,
            -COORD_LIMIT <= x2 <= COORD_LIMIT,
            -COORD_LIMIT <= y2 <= COORD_LIMIT,
            -FX_RAW_MAX <= tu0 <= FX_RAW_MAX,
            -FX_RAW_MAX <= tu1 <= FX_RAW_MAX,
            -FX_RAW_MAX <= tu2 <= FX_RAW_MAX,
            -FX_RAW_MAX <= tv0 <= FX_RAW_MAX,
            -FX_RAW_MAX <= tv1 <= FX_RAW_MAX,
            -FX_RAW_MAX <= tv2 <= FX_RAW_MAX,
            e01x == (Interpolate { i0: y0, i1: y1, d0: x0, d1: x1 }),
            e12x == (Interpolate { i0: y1, i1: y2, d0: x1, d1: x2 }),
            e02x == (Interpolate { i0: y0, i1: y2, d0: x0, d1: x2 }),
            e01u == (Interpolate { i0: y0, i1: y1, d0: tu0, d1: tu1 }),
            e12u == (Interpolate { i0: y1, i1: y2, d0: tu1, d1: tu2 }),
            e02u == (Interpolate { i0: y0, i1: y2, d0: tu0, d1: tu2 }),
            e01v == (Interpolate { i0: y0, i1: y1, d0: tv0, d1: tv1 }),
            e12v == (Interpolate { i0: y1, i1: y2, d0: tv1, d1: tv2 }),
            e02v == (Interpolate { i0: y0, i1: y2, d0: tv0, d1: tv2 }),
            e01x.wf() && e12x.wf() && e02x.wf(),
            e01u.wf() && e12u.wf() && e02u.wf(),
            e01v.wf() && e12v.wf() && e02v.wf(),
            long_left == tri_long_left(s0, s1, s2),
            buffer.data@ == Seq::new(
                orig.len(),
                |i: int|
                    if crate::render_3d::poly_rows_covers(wi, hi, s0, s1, s2, j as int, i) {
                        tex2_color(wi, hi, s0, s1, s2, gtu, gtv, tw as int, th as int, texture.data@, i)
                    } else {
                        orig[i]
                    },
            ),
        decreases n02 - j,
    {
        let cjx = if j < n01 {
            e01x.nth(j)
        } else {
            e12x.nth(j - n01)
        };
        let ljx = e02x.nth(j);
        let cju = if j < n01 {
            e01u.nth(j)
        } else {
            e12u.nth(j - n01)
        };
        let lju = e02u.nth(j);
        let cjv = if j < n01 {
            e01v.nth(j)
        } else {
            e12v.nth(j - n01)
        };
        let ljv = e02v.nth(j);
        proof {
            assert(cjx.num == chain_num(s0, s1, s2, j as int) && cjx.den == chain_den(
                s0,
                s1,
                s2,
                j as int,
            ));
            assert(ljx.num == long_num(s0, s1, s2, j as int) && ljx.den == long_den(s0, s1, s2));
            assert(cju.num == chain_num((gtu.0, s0.1), (gtu.1, s1.1), (gtu.2, s2.1), j as int)
                && cju.den == chain_den(s0, s1, s2, j as int));
            assert(lju.num == long_num((gtu.0, s0.1), (gtu.1, s1.1), (gtu.2, s2.1), j as int)
                && lju.den == long_den(s0, s1, s2));
            assert(cjv.num == chain_num((gtv.0, s0.1), (gtv.1, s1.1), (gtv.2, s2.1), j as int)
                && cjv.den == chain_den(s0, s1, s2, j as int));
            assert(ljv.num == long_num((gtv.0, s0.1), (gtv.1, s1.1), (gtv.2, s2.1), j as int)
                && ljv.den == long_den(s0, s1, s2));
        }
        let (lex, rex) = if long_left {
            (ljx, cjx)
        } else {
            (cjx, ljx)
        };
        let (leu, reu) = if long_left {
            (lju, cju)
        } else {
            (cju, lju)
        };
        let (lev, rev) = if long_left {
            (ljv, cjv)
        } else {
            (cjv, ljv)
        };
        let xl = lex.trunc();
        let xr = rex.trunc();
        proof {
            lemma_interp_trunc_range(e02x, j as int);
            if j < n01 {
                lemma_interp_trunc_range(e01x, j as int);
            } else {
                lemma_interp_trunc_range(e12x, j - n01);
            }
            assert(xl == row_lo(s0, s1, s2, j as int));
            assert(xr == row_hi(s0, s1, s2, j as int));
            assert(-COORD_LIMIT <= xl && xr <= COORD_LIMIT && -COORD_LIMIT <= xr && xl
                <= COORD_LIMIT);
            assert(leu.num == crate::render_3d::side_num(s0, s1, s2, gtu.0, gtu.1, gtu.2, j as int, true)
                && leu.den == row_left_den(s0, s1, s2, j as int));
            assert(reu.num == crate::render_3d::side_num(s0, s1, s2, gtu.0, gtu.1, gtu.2, j as int, false)
                && reu.den == row_right_den(s0, s1, s2, j as int));
            assert(lev.num == crate::render_3d::side_num(s0, s1, s2, gtv.0, gtv.1, gtv.2, j as int, true)
                && lev.den == row_left_den(s0, s1, s2, j as int));
            assert(rev.num == crate::render_3d::side_num(s0, s1, s2, gtv.0, gtv.1, gtv.2, j as int, false)
                && rev.den == row_right_den(s0, s1, s2, j as int));
        }
        if xl < xr {
            let n = xr - xl;
            let mut x = xl;
            while x < xr
                invariant
                    buffer.wf(),
                    buffer.width == old(buffer).width,
                    buffer.height == old(buffer).height,
                    wi == buffer.width as int,
                    hi == buffer.height as int,
                    orig.len() == buffer.data@.len(),
                    orig.len() == wi * hi,
                    texture.wf(),
                    tw == texture.width,
                    th == texture.height,
                    1 <= tw,
                    1 <= th,
                    0 <= j < n02,
                    n02 == s2.1 - s0.1,
                    s0.1 == y0 as int,
                    -COORD_LIMIT <= y0 <= COORD_LIMIT,
                    n02 <= 0x2000000,
                    xl <= x,
                    x <= xr,
                    n == xr - xl,
                    1 <= n <= 0x2000000,
                    xl == row_lo(s0, s1, s2, j as int),
                    xr == row_hi(s0, s1, s2, j as int),
                    -COORD_LIMIT <= xl,
                    xr <= COORD_LIMIT,
                    leu.wf() && reu.wf() && leu.in_raw_range() && reu.in_raw_range(),
                    lev.wf() && rev.wf() && lev.in_raw_range() && rev.in_raw_range(),
                    leu.num == crate::render_3d::side_num(s0, s1, s2, gtu.0, gtu.1, gtu.2, j as int, true),
                    leu.den == row_left_den(s0, s1, s2, j as int),
                    reu.num == crate::render_3d::side_num(s0, s1, s2, gtu.0, gtu.1, gtu.2, j as int, false),
                    reu.den == row_right_den(s0, s1, s2, j as int),
                    lev.num == crate::render_3d::side_num(s0, s1, s2, gtv.0, gtv.1, gtv.2, j as int, true),
                    lev.den == row_left_den(s0, s1, s2, j as int),
                    rev.num == crate::render_3d::side_num(s0, s1, s2, gtv.0, gtv.1, gtv.2, j as int, false),
                    rev.den == row_right_den(s0, s1, s2, j as int),
                    buffer.data@ == Seq::new(
                        orig.len(),
                        |i: int|
                            if crate::render_3d::poly_covers_partial(wi, hi, s0, s1, s2, j as int, x as int, i) {
                                tex2_color(wi, hi, s0, s1, s2, gtu, gtv, tw as int, th as int, texture.data@, i)
                            } else {
                                orig[i]
                            },
                    ),
                decreases xr - x,
            {
                let ghost before = buffer.data@;
                let yrow = y0 + j;
                let uq = attr_at(leu, reu, n, x - xl);
                let vq = attr_at(lev, rev, n, x - xl);
                let cu: usize = if uq < 0 {
                    0
                } else {
                    ((uq as u64) % (tw as u64)) as usize
                };
                let cv: usize = if vq < 0 {
                    0
                } else {
                    ((vq as u64) % (th as u64)) as usize
                };
                proof {
                    assert(cu < tw && cv < th);
                    assert(cv * tw + cu < th * tw && 0 <= cv * tw + cu) by (nonlinear_arith)
                        requires
                            0 <= cu < tw,
                            0 <= cv < th,
                    ;
                    assert(th * tw == tw * th) by (nonlinear_arith);
                    crate::fixed::lemma_mul_le(th as int, tw as int, 32768, 32768);
                }
                let color = texture.data[cv * tw + cu];
                let ghost iw = pix_index(wi, hi, x as int, yrow as int);
                proof {
                    if pix_visible(wi, hi, x as int, yrow as int) {
                        lemma_pix_index_decompose(wi, hi, x as int, yrow as int);
                        assert(idx_y(wi, hi, iw) - s0.1 == j && idx_x(wi, iw) == x);
                        assert(color == tex2_color(
                            wi,
                            hi,
                            s0,
                            s1,
                            s2,
                            gtu,
                            gtv,
                            tw as int,
                            th as int,
                            texture.data@,
                            iw,
                        ));
                    }
                }
                putpixel(buffer, x, yrow, color);
                proof {
                    lemma_tex2_step(
                        wi,
                        hi,
                        s0,
                        s1,
                        s2,
                        gtu,
                        gtv,
                        tw as int,
                        th as int,
                        texture.data@,
                        j as int,
                        x as int,
                        color,
                        orig,
                        before,
                        buffer.data@,
                    );
                }
                x += 1;
            }
        }
        proof {
            assert(buffer.data@ =~= Seq::new(
                orig.len(),
                |i: int|
                    if crate::render_3d::poly_rows_covers(wi, hi, s0, s1, s2, j + 1, i) {
                        tex2_color(wi, hi, s0, s1, s2, gtu, gtv, tw as int, th as int, texture.data@, i)
                    } else {
                        orig[i]
                    },
            ));
        }
        j += 1;
    }
    proof {
        assert(buffer.data@ =~= tex2_fill_screen(
            orig,
            wi,
            hi,
            s0,
            s1,
            s2,
            gtu,
            gtv,
            tw as int,
            th as int,
            texture.data@,
        ));
    }
}

} // verus!
