use vstd::prelude::*;

use crate::bitmaps::Bitmap;
use crate::colors::Color;
use crate::fixed::{fx_div, spec_fx_div, Fx, FX_RAW_MAX, FX_SCALE};
use crate::math::{Mat4, Vec3, Vec4};
use crate::primitives::{
    attr_trunc, attr_at, chain_den, chain_num, idx_x, idx_y, interpolate, lemma_idx_reconstruct,
    lemma_pix_index_decompose, long_den, long_num, pix_index, pix_visible, row_hi, row_left_den,
    row_lo, row_right_den, tri_long_left, tri_mid, Interpolate, COORD_LIMIT,
};
use crate::render_2d::{depth_passes, Viewport};

verus! {

/// What a triangle is painted with: one flat color per triangle, in
/// triangle order, or a texture sampled through the triangle's UV
/// coordinates.
pub enum MaterialData<'texture> {
    Flat(Vec<Color>),
    UV(&'texture Bitmap),
}

/// One triangle of a model: three indices into the vertex list, the normal
/// list and the UV list (the three slots of one corner may reference
/// different positions in their lists).
#[derive(Clone, Copy, Debug)]
pub struct PolygonData {
    pub vertex: [usize; 3],
    pub normal: [usize; 3],
    pub uv_coord: [usize; 3],
}

/// Static geometry, independent of any placement: vertex positions, UV
/// coordinates, vertex normals and the triangle index lists.
#[derive(Debug)]
pub struct Model {
    pub vertices: Vec<Vec4>,
    pub uv_map: Vec<Vec3>,
    pub vertex_normals: Vec<Vec3>,
    pub triangles: Vec<PolygonData>,
}

impl Model {
    /// Well-formedness: every triangle's vertex indices reference the vertex
    /// list and every vertex is a bounded position.
    pub open spec fn wf(self) -> bool {
        &&& forall|t: int|
            0 <= t < self.triangles@.len() ==> {
                &&& (#[trigger] self.triangles@[t]).vertex@[0] < self.vertices@.len()
                &&& self.triangles@[t].vertex@[1] < self.vertices@.len()
                &&& self.triangles@[t].vertex@[2] < self.vertices@.len()
            }
        &&& forall|v: int|
            0 <= v < self.vertices@.len() ==> (#[trigger] self.vertices@[v]).bounded()
    }

    /// Whether every triangle's UV indices reference the UV list and every
    /// UV coordinate is bounded (needed by the textured material path).
    pub open spec fn uv_wf(self) -> bool {
        &&& forall|t: int|
            0 <= t < self.triangles@.len() ==> {
                &&& (#[trigger] self.triangles@[t]).uv_coord@[0] < self.uv_map@.len()
                &&& self.triangles@[t].uv_coord@[1] < self.uv_map@.len()
                &&& self.triangles@[t].uv_coord@[2] < self.uv_map@.len()
            }
        &&& forall|u: int|
            0 <= u < self.uv_map@.len() ==> (#[trigger] self.uv_map@[u]).bounded()
    }
}

/// A placed, transformed, materialized reference to a shared model. The
/// orientation angles are carried as their sines and cosines, which the
/// caller computes once per frame.
pub struct Instance<'model, 'texture> {
    pub model: &'model Model,
    pub scale: Fx,
    pub r_pitch_sin: Fx,
    pub r_pitch_cos: Fx,
    pub r_yaw_sin: Fx,
    pub r_yaw_cos: Fx,
    pub r_roll_sin: Fx,
    pub r_roll_cos: Fx,
    pub x: Fx,
    pub y: Fx,
    pub z: Fx,
    pub material: MaterialData<'texture>,
}

/// The three screen vertices with their per-vertex attribute, ordered by
/// ascending y through the fixed three-swap sequence.
pub open spec fn zsort(p0: ((int, int), int), p1: ((int, int), int), p2: ((int, int), int)) -> (
    ((int, int), int),
    ((int, int), int),
    ((int, int), int),
) {
    let (a, b) = if p1.0.1 < p0.0.1 {
        (p1, p0)
    } else {
        (p0, p1)
    };
    let (a2, c2) = if p2.0.1 < a.0.1 {
        (p2, a)
    } else {
        (a, p2)
    };
    let (b3, c3) = if c2.0.1 < b.0.1 {
        (c2, b)
    } else {
        (b, c2)
    };
    (a2, b3, c3)
}

/// Whether one of the first `jb` scanlines of a filled triangle covers
/// storage index `i`.
pub open spec fn poly_rows_covers(
    w: int,
    h: int,
    s0: (int, int),
    s1: (int, int),
    s2: (int, int),
    jb: int,
    i: int,
) -> bool {
    let j = idx_y(w, h, i) - s0.1;
    let x = idx_x(w, i);
    &&& w > 0
    &&& 0 <= j < jb
    &&& row_lo(s0, s1, s2, j) <= x < row_hi(s0, s1, s2, j)
    &&& pix_visible(w, h, x, s0.1 + j)
}

/// Whether the fill up to scanline `j` exclusive, plus row `j` itself up to
/// column `xb` exclusive, covers storage index `i`.
pub open spec fn poly_covers_partial(
    w: int,
    h: int,
    s0: (int, int),
    s1: (int, int),
    s2: (int, int),
    j: int,
    xb: int,
    i: int,
) -> bool {
    let jj = idx_y(w, h, i) - s0.1;
    let x = idx_x(w, i);
    poly_rows_covers(w, h, s0, s1, s2, j, i) || {
        &&& w > 0
        &&& jj == j
        &&& 0 <= j < s2.1 - s0.1
        &&& row_lo(s0, s1, s2, j) <= x < xb
        &&& x < row_hi(s0, s1, s2, j)
        &&& pix_visible(w, h, x, s0.1 + j)
    }
}

/// Numerator of the interpolated per-vertex attribute `t` along one fill
/// boundary at scanline offset `j` (`left` picks the left boundary); the
/// boundary split follows the x coordinates' split.
pub open spec fn side_num(
    s0: (int, int),
    s1: (int, int),
    s2: (int, int),
    t0: int,
    t1: int,
    t2: int,
    j: int,
    left: bool,
) -> int {
    if tri_long_left(s0, s1, s2) == left {
        long_num((t0, s0.1), (t1, s1.1), (t2, s2.1), j)
    } else {
        chain_num((t0, s0.1), (t1, s1.1), (t2, s2.1), j)
    }
}

/// The interpolated per-vertex attribute `t` at the pixel of storage index
/// `i`, truncated toward zero: interpolated along both boundaries by
/// scanline, then across the scanline.
pub open spec fn poly_attr_at(
    w: int,
    h: int,
    s0: (int, int),
    s1: (int, int),
    s2: (int, int),
    t0: int,
    t1: int,
    t2: int,
    i: int,
) -> int {
    let j = idx_y(w, h, i) - s0.1;
    let x = idx_x(w, i);
    let xl = row_lo(s0, s1, s2, j);
    let xr = row_hi(s0, s1, s2, j);
    attr_trunc(
        side_num(s0, s1, s2, t0, t1, t2, j, true),
        row_left_den(s0, s1, s2, j),
        side_num(s0, s1, s2, t0, t1, t2, j, false),
        row_right_den(s0, s1, s2, j),
        xr - xl,
        x - xl,
    )
}

/// The screen after a depth-tested fill: index `i` takes `color` exactly
/// when a fill pixel lands on it and its interpolated reciprocal depth
/// beats the depth buffer.
pub open spec fn poly_fill_screen(
    dst: Seq<Color>,
    depth: Seq<i64>,
    w: int,
    h: int,
    s0: (int, int),
    s1: (int, int),
    s2: (int, int),
    t0: int,
    t1: int,
    t2: int,
    color: Color,
) -> Seq<Color> {
    Seq::new(
        dst.len(),
        |i: int|
            if poly_rows_covers(w, h, s0, s1, s2, s2.1 - s0.1, i) && poly_attr_at(
                w,
                h,
                s0,
                s1,
                s2,
                t0,
                t1,
                t2,
                i,
            ) > depth[i] {
                color
            } else {
                dst[i]
            },
    )
}

/// The depth buffer after a depth-tested fill: winning pixels store their
/// interpolated reciprocal depth.
pub open spec fn poly_fill_depth(
    depth: Seq<i64>,
    w: int,
    h: int,
    s0: (int, int),
    s1: (int, int),
    s2: (int, int),
    t0: int,
    t1: int,
    t2: int,
) -> Seq<i64> {
    Seq::new(
        depth.len(),
        |i: int|
            if poly_rows_covers(w, h, s0, s1, s2, s2.1 - s0.1, i) && poly_attr_at(
                w,
                h,
                s0,
                s1,
                s2,
                t0,
                t1,
                t2,
                i,
            ) > depth[i] {
                poly_attr_at(w, h, s0, s1, s2, t0, t1, t2, i) as i64
            } else {
                depth[i]
            },
    )
}

/// Fills a triangle with a constant color under the per-pixel depth test:
/// each vertex carries its view-space depth `z`; the reciprocal depths
/// `1/z` are interpolated across the triangle exactly like the x bounds,
/// and a pixel is written (and its depth cell updated) only where the
/// candidate reciprocal depth is strictly nearer than the stored one.
pub fn draw_filled_polygon(
    view: &mut Viewport,
    p0: ((i64, i64), Fx),
    p1: ((i64, i64), Fx),
    p2: ((i64, i64), Fx),
    color: Color,
)
    requires
        old(view).wf(),
        -COORD_LIMIT <= p0.0.0 <= COORD_LIMIT,
        -COORD_LIMIT <= p0.0.1 <= COORD_LIMIT,
        -COORD_LIMIT <= p1.0.0 <= COORD_LIMIT,
        -COORD_LIMIT <= p1.0.1 <= COORD_LIMIT,
        -COORD_LIMIT <= p2.0.0 <= COORD_LIMIT,
        -COORD_LIMIT <= p2.0.1 <= COORD_LIMIT,
        p0.1.bounded(),
        p1.1.bounded(),
        p2.1.bounded(),
        p0.1.raw != 0,
        p1.1.raw != 0,
        p2.1.raw != 0,
    ensures
        final(view).wf(),
        *final(view) == (Viewport {
            depth_buffer: final(view).depth_buffer,
            screen: final(view).screen,
            ..*old(view)
        }),
        final(view).screen.width == old(view).screen.width,
        final(view).screen.height == old(view).screen.height,
        ({
            let q0 = (
                (p0.0.0 as int, p0.0.1 as int),
                spec_fx_div(FX_SCALE as int, p0.1.raw as int),
            );
            let q1 = (
                (p1.0.0 as int, p1.0.1 as int),
                spec_fx_div(FX_SCALE as int, p1.1.raw as int),
            );
            let q2 = (
                (p2.0.0 as int, p2.0.1 as int),
                spec_fx_div(FX_SCALE as int, p2.1.raw as int),
            );
            let (s0, s1, s2) = zsort(q0, q1, q2);
            let w = old(view).canvas_width as int;
            let h = old(view).canvas_height as int;
            &&& final(view).screen.data@ == poly_fill_screen(
                old(view).screen.data@,
                old(view).depth_buffer@,
                w,
                h,
                s0.0,
                s1.0,
                s2.0,
                s0.1,
                s1.1,
                s2.1,
                color,
            )
            &&& final(view).depth_buffer@ == poly_fill_depth(
                old(view).depth_buffer@,
                w,
                h,
                s0.0,
                s1.0,
                s2.0,
                s0.1,
                s1.1,
                s2.1,
            )
        }),
{
    let ghost wi = old(view).canvas_width as int;
    let ghost hi = old(view).canvas_height as int;
    let ghost orig_screen = old(view).screen.data@;
    let ghost orig_depth = old(view).depth_buffer@;
    let one = Fx { raw: FX_SCALE };
    let q0 = (p0.0, fx_div(one, p0.1).raw);
    let q1 = (p1.0, fx_div(one, p1.1).raw);
    let q2 = (p2.0, fx_div(one, p2.1).raw);
    let (a, b) = if q1.0.1 < q0.0.1 {
        (q1, q0)
    } else {
        (q0, q1)
    };
    let (a2, c2) = if q2.0.1 < a.0.1 {
        (q2, a)
    } else {
        (a, q2)
    };
    let (b3, c3) = if c2.0.1 < b.0.1 {
        (c2, b)
    } else {
        (b, c2)
    };
    let ((x0, y0), t0) = a2;
    let ((x1, y1), t1) = b3;
    let ((x2, y2), t2) = c3;
    let ghost s0 = (x0 as int, y0 as int);
    let ghost s1 = (x1 as int, y1 as int);
    let ghost s2 = (x2 as int, y2 as int);
    proof {
        let gq0 = ((p0.0.0 as int, p0.0.1 as int), spec_fx_div(FX_SCALE as int, p0.1.raw as int));
        let gq1 = ((p1.0.0 as int, p1.0.1 as int), spec_fx_div(FX_SCALE as int, p1.1.raw as int));
        let gq2 = ((p2.0.0 as int, p2.0.1 as int), spec_fx_div(FX_SCALE as int, p2.1.raw as int));
        assert(zsort(gq0, gq1, gq2) == ((s0, t0 as int), (s1, t1 as int), (s2, t2 as int)));
    }
    let n01 = y1 - y0;
    let n12 = y2 - y1;
    let n02 = y2 - y0;
    let e01x = interpolate(y0, x0, y1, x1);
    let e12x = interpolate(y1, x1, y2, x2);
    let e02x = interpolate(y0, x0, y2, x2);
    let e01z = interpolate(y0, t0, y1, t1);
    let e12z = interpolate(y1, t1, y2, t2);
    let e02z = interpolate(y0, t0, y2, t2);
    let m = ((n02 as u64) / 2) as i64;
    proof {
        assert(m == tri_mid(s0, s1, s2));
        assert(0 <= m <= n02);
    }
    let cm = if m < n01 {
        e01x.nth(m)
    } else {
        e12x.nth(m - n01)
    };
    let lm = e02x.nth(m);
    let long_left = n02 > 0 && lm.lt(cm);
    proof {
        assert(cm.num == chain_num(s0, s1, s2, m as int) && cm.den == chain_den(
            s0,
            s1,
            s2,
            m as int,
        ));
        assert(long_left == tri_long_left(s0, s1, s2));
    }
    let mut j: i64 = 0;
    while j < n02
        invariant
            view.wf(),
            *view == (Viewport {
                depth_buffer: view.depth_buffer,
                screen: view.screen,
                ..*old(view)
            }),
            view.screen.width == old(view).screen.width,
            view.screen.height == old(view).screen.height,
            wi == view.canvas_width as int,
            hi == view.canvas_height as int,
            orig_screen == old(view).screen.data@,
            orig_depth == old(view).depth_buffer@,
            orig_screen.len() == view.screen.data@.len(),
            orig_depth.len() == view.depth_buffer@.len(),
            orig_depth.len() == wi * hi,
            orig_screen.len() == orig_depth.len(),
            0 <= j <= n02,
            n01 == y1 - y0,
            n12 == y2 - y1,
            n02 == y2 - y0,
            0 <= n01 <= n02,
            0 <= n12,
            n02 <= 0x2000000,
            s0 == (x0 as int, y0 as int),
            s1 == (x1 as int, y1 as int),
            s2 == (x2 as int, y2 as int),
            -COORD_LIMIT <= x0 <= COORD_LIMIT,
            -COORD_LIMIT <= y0 <= COORD_LIMIT,
            -COORD_LIMIT <= x1 <= COORD_LIMIT,
            -COORD_LIMIT <= y1 <= COORD_LIMIT,
            -COORD_LIMIT <= x2 <= COORD_LIMIT,
            -COORD_LIMIT <= y2 <= COORD_LIMIT,
            -FX_RAW_MAX <= t0 <= FX_RAW_MAX,
            -FX_RAW_MAX <= t1 <= FX_RAW_MAX,
            -FX_RAW_MAX <= t2 <= FX_RAW_MAX,
            e01x == (Interpolate { i0: y0, i1: y1, d0: x0, d1: x1 }),
            e12x == (Interpolate { i0: y1, i1: y2, d0: x1, d1: x2 }),
            e02x == (Interpolate { i0: y0, i1: y2, d0: x0, d1: x2 }),
            e01z == (Interpolate { i0: y0, i1: y1, d0: t0, d1: t1 }),
            e12z == (Interpolate { i0: y1, i1: y2, d0: t1, d1: t2 }),
            e02z == (Interpolate { i0: y0, i1: y2, d0: t0, d1: t2 }),
            e01x.wf() && e12x.wf() && e02x.wf() && e01z.wf() && e12z.wf() && e02z.wf(),
            long_left == tri_long_left(s0, s1, s2),
            view.screen.data@ == Seq::new(
                orig_screen.len(),
                |i: int|
                    if poly_rows_covers(wi, hi, s0, s1, s2, j as int, i) && poly_attr_at(
                        wi,
                        hi,
                        s0,
                        s1,
                        s2,
                        t0 as int,
                        t1 as int,
                        t2 as int,
                        i,
                    ) > orig_depth[i] {
                        color
                    } else {
                        orig_screen[i]
                    },
            ),
            view.depth_buffer@ == Seq::new(
                orig_depth.len(),
                |i: int|
                    if poly_rows_covers(wi, hi, s0, s1, s2, j as int, i) && poly_attr_at(
                        wi,
                        hi,
                        s0,
                        s1,
                        s2,
                        t0 as int,
                        t1 as int,
                        t2 as int,
                        i,
                    ) > orig_depth[i] {
                        poly_attr_at(wi, hi, s0, s1, s2, t0 as int, t1 as int, t2 as int, i) as i64
                    } else {
                        orig_depth[i]
                    },
            ),
        decreases n02 - j,
    {
        let cjx = if j < n01 {
            e01x.nth(j)
        } else {
            e12x.nth(j - n01)
        };
        let ljx = e02x.nth(j);
        let cjz = if j < n01 {
            e01z.nth(j)
        } else {
            e12z.nth(j - n01)
        };
        let ljz = e02z.nth(j);
        proof {
            assert(cjx.num == chain_num(s0, s1, s2, j as int) && cjx.den == chain_den(
                s0,
                s1,
                s2,
                j as int,
            ));
            assert(ljx.num == long_num(s0, s1, s2, j as int) && ljx.den == long_den(s0, s1, s2));
            assert(cjz.num == chain_num((t0 as int, s0.1), (t1 as int, s1.1), (t2 as int, s2.1), j as int)
                && cjz.den == chain_den(s0, s1, s2, j as int));
            assert(ljz.num == long_num((t0 as int, s0.1), (t1 as int, s1.1), (t2 as int, s2.1), j as int)
                && ljz.den == long_den(s0, s1, s2));
        }
        let (lex, rex) = if long_left {
            (ljx, cjx)
        } else {
            (cjx, ljx)
        };
        let (lez, rez) = if long_left {
            (ljz, cjz)
        } else {
            (cjz, ljz)
        };
        let xl = lex.trunc();
        let xr = rex.trunc();
        proof {
            crate::primitives::lemma_interp_trunc_range(e02x, j as int);
            if j < n01 {
                crate::primitives::lemma_interp_trunc_range(e01x, j as int);
            } else {
                crate::primitives::lemma_interp_trunc_range(e12x, j - n01);
            }
            assert(xl == row_lo(s0, s1, s2, j as int));
            assert(xr == row_hi(s0, s1, s2, j as int));
            assert(-COORD_LIMIT <= xl && xr <= COORD_LIMIT && -COORD_LIMIT <= xr && xl <= COORD_LIMIT);
            assert(lez.num == side_num(s0, s1, s2, t0 as int, t1 as int, t2 as int, j as int, true)
                && lez.den == row_left_den(s0, s1, s2, j as int));
            assert(rez.num == side_num(s0, s1, s2, t0 as int, t1 as int, t2 as int, j as int, false)
                && rez.den == row_right_den(s0, s1, s2, j as int));
        }
        if xl < xr {
            let n = xr - xl;
            let mut x = xl;
            while x < xr
                invariant
                    view.wf(),
                    *view == (Viewport {
                        depth_buffer: view.depth_buffer,
                        screen: view.screen,
                        ..*old(view)
                    }),
                    view.screen.width == old(view).screen.width,
                    view.screen.height == old(view).screen.height,
                    wi == view.canvas_width as int,
                    hi == view.canvas_height as int,
                    orig_screen.len() == view.screen.data@.len(),
                    orig_depth.len() == view.depth_buffer@.len(),
                    orig_depth.len() == wi * hi,
                    orig_screen.len() == orig_depth.len(),
                    0 <= j < n02,
                    n02 == s2.1 - s0.1,
                    s0.1 == y0 as int,
                    -COORD_LIMIT <= y0 <= COORD_LIMIT,
                    n02 <= 0x2000000,
                    xl <= x <= xr,
                    n == xr - xl,
                    1 <= n <= 0x2000000,
                    xl == row_lo(s0, s1, s2, j as int),
                    xr == row_hi(s0, s1, s2, j as int),
                    -COORD_LIMIT <= xl,
                    xr <= COORD_LIMIT,
                    lez.wf() && rez.wf() && lez.in_raw_range() && rez.in_raw_range(),
                    lez.num == side_num(s0, s1, s2, t0 as int, t1 as int, t2 as int, j as int, true),
                    lez.den == row_left_den(s0, s1, s2, j as int),
                    rez.num == side_num(s0, s1, s2, t0 as int, t1 as int, t2 as int, j as int, false),
                    rez.den == row_right_den(s0, s1, s2, j as int),
                    view.screen.data@ == Seq::new(
                        orig_screen.len(),
                        |i: int|
                            if poly_covers_partial(wi, hi, s0, s1, s2, j as int, x as int, i)
                                && poly_attr_at(
                                wi,
                                hi,
                                s0,
                                s1,
                                s2,
                                t0 as int,
                                t1 as int,
                                t2 as int,
                                i,
                            ) > orig_depth[i] {
                                color
                            } else {
                                orig_screen[i]
                            },
                    ),
                    view.depth_buffer@ == Seq::new(
                        orig_depth.len(),
                        |i: int|
                            if poly_covers_partial(wi, hi, s0, s1, s2, j as int, x as int, i)
                                && poly_attr_at(
                                wi,
                                hi,
                                s0,
                                s1,
                                s2,
                                t0 as int,
                                t1 as int,
                                t2 as int,
                                i,
                            ) > orig_depth[i] {
                                poly_attr_at(
                                    wi,
                                    hi,
                                    s0,
                                    s1,
                                    s2,
                                    t0 as int,
                                    t1 as int,
                                    t2 as int,
                                    i,
                                ) as i64
                            } else {
                                orig_depth[i]
                            },
                    ),
                decreases xr - x,
            {
                let ghost screen_before = view.screen.data@;
                let ghost depth_before = view.depth_buffer@;
                let zq = attr_at(lez, rez, n, x - xl);
                let yrow = y0 + j;
                view.put_pixel_if_nearer(x, yrow, zq, color);
                proof {
                    lemma_fill_step(
                        wi,
                        hi,
                        s0,
                        s1,
                        s2,
                        t0 as int,
                        t1 as int,
                        t2 as int,
                        j as int,
                        x as int,
                        zq as int,
                        orig_screen,
                        orig_depth,
                        screen_before,
                        depth_before,
                        view.screen.data@,
                        view.depth_buffer@,
                        color,
                    );
                }
                x += 1;
            }
        }
        proof {

            if xl < xr {
                assert(view.screen.data@ =~= Seq::new(
                    orig_screen.len(),
                    |i: int|
                        if poly_rows_covers(wi, hi, s0, s1, s2, j + 1, i) && poly_attr_at(
                            wi,
                            hi,
                            s0,
                            s1,
                            s2,
                            t0 as int,
                            t1 as int,
                            t2 as int,
                            i,
                        ) > orig_depth[i] {
                            color
                        } else {
                            orig_screen[i]
                        },
                ));
                assert(view.depth_buffer@ =~= Seq::new(
                    orig_depth.len(),
                    |i: int|
                        if poly_rows_covers(wi, hi, s0, s1, s2, j + 1, i) && poly_attr_at(
                            wi,
                            hi,
                            s0,
                            s1,
                            s2,
                            t0 as int,
                            t1 as int,
                            t2 as int,
                            i,
                        ) > orig_depth[i] {
                            poly_attr_at(wi, hi, s0, s1, s2, t0 as int, t1 as int, t2 as int, i) as i64
                        } else {
                            orig_depth[i]
                        },
                ));
            } else {
                assert(view.screen.data@ =~= Seq::new(
                    orig_screen.len(),
                    |i: int|
                        if poly_rows_covers(wi, hi, s0, s1, s2, j + 1, i) && poly_attr_at(
                            wi,
                            hi,
                            s0,
                            s1,
                            s2,
                            t0 as int,
                            t1 as int,
                            t2 as int,
                            i,
                        ) > orig_depth[i] {
                            color
                        } else {
                            orig_screen[i]
                        },
                ));
                assert(view.depth_buffer@ =~= Seq::new(
                    orig_depth.len(),
                    |i: int|
                        if poly_rows_covers(wi, hi, s0, s1, s2, j + 1, i) && poly_attr_at(
                            wi,
                            hi,
                            s0,
                            s1,
                            s2,
                            t0 as int,
                            t1 as int,
                            t2 as int,
                            i,
                        ) > orig_depth[i] {
                            poly_attr_at(wi, hi, s0, s1, s2, t0 as int, t1 as int, t2 as int, i) as i64
                        } else {
                            orig_depth[i]
                        },
                ));
            }
        }
        j += 1;
    }
    proof {
        assert(view.screen.data@ =~= poly_fill_screen(
            orig_screen,
            orig_depth,
            wi,
            hi,
            s0,
            s1,
            s2,
            t0 as int,
            t1 as int,
            t2 as int,
            color,
        ));
        assert(view.depth_buffer@ =~= poly_fill_depth(
            orig_depth,
            wi,
            hi,
            s0,
            s1,
            s2,
            t0 as int,
            t1 as int,
            t2 as int,
        ));
    }
}

/// One depth-tested pixel write advances the partial fill image by one
/// column.
proof fn lemma_fill_step(
    w: int,
    h: int,
    s0: (int, int),
    s1: (int, int),
    s2: (int, int),
    t0: int,
    t1: int,
    t2: int,
    j: int,
    x: int,
    zq: int,
    orig_screen: Seq<Color>,
    orig_depth: Seq<i64>,
    screen_before: Seq<Color>,
    depth_before: Seq<i64>,
    screen_after: Seq<Color>,
    depth_after: Seq<i64>,
    color: Color,
)
    requires
        orig_screen.len() == screen_before.len(),
        orig_depth.len() == depth_before.len(),
        orig_screen.len() == orig_depth.len(),
        orig_depth.len() == w * h,
        0 <= j < s2.1 - s0.1,
        row_lo(s0, s1, s2, j) <= x < row_hi(s0, s1, s2, j),
        zq == poly_attr_zx(w, h, s0, s1, s2, t0, t1, t2, j, x),
        i64::MIN <= zq <= i64::MAX,
        screen_before == Seq::new(
            orig_screen.len(),
            |i: int|
                if poly_covers_partial(w, h, s0, s1, s2, j, x, i) && poly_attr_at(
                    w,
                    h,
                    s0,
                    s1,
                    s2,
                    t0,
                    t1,
                    t2,
                    i,
                ) > orig_depth[i] {
                    color
                } else {
                    orig_screen[i]
                },
        ),
        depth_before == Seq::new(
            orig_depth.len(),
            |i: int|
                if poly_covers_partial(w, h, s0, s1, s2, j, x, i) && poly_attr_at(
                    w,
                    h,
                    s0,
                    s1,
                    s2,
                    t0,
                    t1,
                    t2,
                    i,
                ) > orig_depth[i] {
                    poly_attr_at(w, h, s0, s1, s2, t0, t1, t2, i) as i64
                } else {
                    orig_depth[i]
                },
        ),
        depth_passes(depth_before, w, h, x, s0.1 + j, zq) ==> {
            &&& screen_after == screen_before.update(pix_index(w, h, x, s0.1 + j), color)
            &&& depth_after == depth_before.update(pix_index(w, h, x, s0.1 + j), zq as i64)
        },
        !depth_passes(depth_before, w, h, x, s0.1 + j, zq) ==> {
            &&& screen_after == screen_before
            &&& depth_after == depth_before
        },
    ensures
        screen_after =~= Seq::new(
            orig_screen.len(),
            |i: int|
                if poly_covers_partial(w, h, s0, s1, s2, j, x + 1, i) && poly_attr_at(
                    w,
                    h,
                    s0,
                    s1,
                    s2,
                    t0,
                    t1,
                    t2,
                    i,
                ) > orig_depth[i] {
                    color
                } else {
                    orig_screen[i]
                },
        ),
        depth_after =~= Seq::new(
            orig_depth.len(),
            |i: int|
                if poly_covers_partial(w, h, s0, s1, s2, j, x + 1, i) && poly_attr_at(
                    w,
                    h,
                    s0,
                    s1,
                    s2,
                    t0,
                    t1,
                    t2,
                    i,
                ) > orig_depth[i] {
                    poly_attr_at(w, h, s0, s1, s2, t0, t1, t2, i) as i64
                } else {
                    orig_depth[i]
                },
        ),
{
    let yrow = s0.1 + j;
    if pix_visible(w, h, x, yrow) {
        lemma_pix_index_decompose(w, h, x, yrow);
        let iw = pix_index(w, h, x, yrow);
        assert(iw < orig_depth.len()) by {
            crate::primitives::lemma_pix_index_bounds(w, h, x, yrow);
        }
        assert(idx_y(w, h, iw) - s0.1 == j && idx_x(w, iw) == x);
        assert(!poly_covers_partial(w, h, s0, s1, s2, j, x, iw));
        assert(depth_before[iw] == orig_depth[iw]);
        assert(poly_attr_at(w, h, s0, s1, s2, t0, t1, t2, iw) == zq);
        assert forall|i: int| 0 <= i < orig_screen.len() implies {
            &&& screen_after[i] == (if poly_covers_partial(w, h, s0, s1, s2, j, x + 1, i)
                && poly_attr_at(w, h, s0, s1, s2, t0, t1, t2, i) > orig_depth[i] {
                color
            } else {
                orig_screen[i]
            })
            &&& depth_after[i] == (if poly_covers_partial(w, h, s0, s1, s2, j, x + 1, i)
                && poly_attr_at(w, h, s0, s1, s2, t0, t1, t2, i) > orig_depth[i] {
                poly_attr_at(w, h, s0, s1, s2, t0, t1, t2, i) as i64
            } else {
                orig_depth[i]
            })
        } by {
            if i == iw {
                assert(poly_covers_partial(w, h, s0, s1, s2, j, x + 1, iw));
            } else {
                if poly_covers_partial(w, h, s0, s1, s2, j, x + 1, i) && !poly_covers_partial(
                    w,
                    h,
                    s0,
                    s1,
                    s2,
                    j,
                    x,
                    i,
                ) {
                    // the only newly covered index is the written one
                    assert(idx_y(w, h, i) - s0.1 == j && idx_x(w, i) == x);
                    lemma_idx_reconstruct(w, h, i);
                    assert(i == iw);
                }
            }
        }
    } else {
        assert(!depth_passes(depth_before, w, h, x, yrow, zq));
        assert forall|i: int| 0 <= i < orig_screen.len() implies !(poly_covers_partial(
            w,
            h,
            s0,
            s1,
            s2,
            j,
            x + 1,
            i,
        ) && !poly_covers_partial(w, h, s0, s1, s2, j, x, i)) by {
            if poly_covers_partial(w, h, s0, s1, s2, j, x + 1, i) && !poly_covers_partial(
                w,
                h,
                s0,
                s1,
                s2,
                j,
                x,
                i,
            ) {
                assert(idx_y(w, h, i) - s0.1 == j && idx_x(w, i) == x);
                assert(pix_visible(w, h, idx_x(w, i), s0.1 + j));
            }
        }
    }
}

/// The interpolated attribute at an explicit row and column (the value
/// `poly_attr_at` takes at that pixel's index).
pub open spec fn poly_attr_zx(
    w: int,
    h: int,
    s0: (int, int),
    s1: (int, int),
    s2: (int, int),
    t0: int,
    t1: int,
    t2: int,
    j: int,
    x: int,
) -> int {
    let xl = row_lo(s0, s1, s2, j);
    let xr = row_hi(s0, s1, s2, j);
    attr_trunc(
        side_num(s0, s1, s2, t0, t1, t2, j, true),
        row_left_den(s0, s1, s2, j),
        side_num(s0, s1, s2, t0, t1, t2, j, false),
        row_right_den(s0, s1, s2, j),
        xr - xl,
        x - xl,
    )
}

/// The three screen vertices with their (reciprocal depth, u, v) attribute
/// triple, ordered by ascending y through the fixed three-swap sequence.
pub open spec fn tsort(
    p0: ((int, int), (int, int, int)),
    p1: ((int, int), (int, int, int)),
    p2: ((int, int), (int, int, int)),
) -> (((int, int), (int, int, int)), ((int, int), (int, int, int)), ((int, int), (int, int, int))) {
    let (a, b) = if p1.0.1 < p0.0.1 {
        (p1, p0)
    } else {
        (p0, p1)
    };
    let (a2, c2) = if p2.0.1 < a.0.1 {
        (p2, a)
    } else {
        (a, p2)
    };
    let (b3, c3) = if c2.0.1 < b.0.1 {
        (c2, b)
    } else {
        (b, c2)
    };
    (a2, b3, c3)
}

/// A texture sample at integer texel coordinates: coordinates wrap by the
/// texture's size (tiling, never clamping); a negative coordinate reads
/// column or row 0.
pub open spec fn spec_sample(tw: int, th: int, tex: Seq<Color>, u: int, v: int) -> Color {
    let cu = if u < 0 {
        0
    } else {
        u % tw
    };
    let cv = if v < 0 {
        0
    } else {
        v % th
    };
    tex[cv * tw + cu]
}

/// The texel coordinate of a UV coordinate: scaled by the texture size and
/// truncated toward zero.
pub open spec fn spec_uv_texel(uv_raw: int, t: int) -> int {
    crate::fixed::div_trunc(uv_raw * t, FX_SCALE as int)
}

/// The color a perspective-correct textured fill writes at storage index
/// `i`: the interpolated `u/z` and `v/z` are divided back by the
/// interpolated `1/z`, then the texture is sampled with wraparound.
pub open spec fn tex3_color(
    w: int,
    h: int,
    s0: (int, int),
    s1: (int, int),
    s2: (int, int),
    tz: (int, int, int),
    tu: (int, int, int),
    tv: (int, int, int),
    tw: int,
    th: int,
    tex: Seq<Color>,
    i: int,
) -> Color {
    let zq = poly_attr_at(w, h, s0, s1, s2, tz.0, tz.1, tz.2, i);
    let uq = poly_attr_at(w, h, s0, s1, s2, tu.0, tu.1, tu.2, i);
    let vq = poly_attr_at(w, h, s0, s1, s2, tv.0, tv.1, tv.2, i);
    spec_sample(tw, th, tex, crate::fixed::div_trunc(uq, zq), crate::fixed::div_trunc(vq, zq))
}

/// The screen after a perspective-correct textured fill.
pub open spec fn tex3_fill_screen(
    dst: Seq<Color>,
    depth: Seq<i64>,
    w: int,
    h: int,
    s0: (int, int),
    s1: (int, int),
    s2: (int, int),
    tz: (int, int, int),
    tu: (int, int, int),
    tv: (int, int, int),
    tw: int,
    th: int,
    tex: Seq<Color>,
) -> Seq<Color> {
    Seq::new(
        dst.len(),
        |i: int|
            if poly_rows_covers(w, h, s0, s1, s2, s2.1 - s0.1, i) && poly_attr_at(
                w,
                h,
                s0,
                s1,
                s2,
                tz.0,
                tz.1,
                tz.2,
                i,
            ) > depth[i] {
                tex3_color(w, h, s0, s1, s2, tz, tu, tv, tw, th, tex, i)
            } else {
                dst[i]
            },
    )
}

/// One textured depth-tested pixel write advances the partial fill image by
/// one column.
proof fn lemma_tex_step(
    w: int,
    h: int,
    s0: (int, int),
    s1: (int, int),
    s2: (int, int),
    tz: (int, int, int),
    tu: (int, int, int),
    tv: (int, int, int),
    tw: int,
    th: int,
    tex: Seq<Color>,
    j: int,
    x: int,
    zq: int,
    written: Color,
    orig_screen: Seq<Color>,
    orig_depth: Seq<i64>,
    screen_before: Seq<Color>,
    depth_before: Seq<i64>,
    screen_after: Seq<Color>,
    depth_after: Seq<i64>,
)
    requires
        orig_screen.len() == screen_before.len(),
        orig_depth.len() == depth_before.len(),
        orig_screen.len() == orig_depth.len(),
        orig_depth.len() == w * h,
        0 <= j < s2.1 - s0.1,
        row_lo(s0, s1, s2, j) <= x < row_hi(s0, s1, s2, j),
        zq == poly_attr_zx(w, h, s0, s1, s2, tz.0, tz.1, tz.2, j, x),
        i64::MIN <= zq <= i64::MAX,
        pix_visible(w, h, x, s0.1 + j) && zq > depth_before[pix_index(w, h, x, s0.1 + j)] ==> {
            &&& written == tex3_color(w, h, s0, s1, s2, tz, tu, tv, tw, th, tex, pix_index(w, h, x, s0.1 + j))
            &&& screen_after == screen_before.update(pix_index(w, h, x, s0.1 + j), written)
            &&& depth_after == depth_before.update(pix_index(w, h, x, s0.1 + j), zq as i64)
        },
        !(pix_visible(w, h, x, s0.1 + j) && zq > depth_before[pix_index(w, h, x, s0.1 + j)]) ==> {
            &&& screen_after == screen_before
            &&& depth_after == depth_before
        },
        screen_before == Seq::new(
            orig_screen.len(),
            |i: int|
                if poly_covers_partial(w, h, s0, s1, s2, j, x, i) && poly_attr_at(
                    w,
                    h,
                    s0,
                    s1,
                    s2,
                    tz.0,
                    tz.1,
                    tz.2,
                    i,
                ) > orig_depth[i] {
                    tex3_color(w, h, s0, s1, s2, tz, tu, tv, tw, th, tex, i)
                } else {
                    orig_screen[i]
                },
        ),
        depth_before == Seq::new(
            orig_depth.len(),
            |i: int|
                if poly_covers_partial(w, h, s0, s1, s2, j, x, i) && poly_attr_at(
                    w,
                    h,
                    s0,
                    s1,
                    s2,
                    tz.0,
                    tz.1,
                    tz.2,
                    i,
                ) > orig_depth[i] {
                    poly_attr_at(w, h, s0, s1, s2, tz.0, tz.1, tz.2, i) as i64
                } else {
                    orig_depth[i]
                },
        ),
    ensures
        screen_after =~= Seq::new(
            orig_screen.len(),
            |i: int|
                if poly_covers_partial(w, h, s0, s1, s2, j, x + 1, i) && poly_attr_at(
                    w,
                    h,
                    s0,
                    s1,
                    s2,
                    tz.0,
                    tz.1,
                    tz.2,
                    i,
                ) > orig_depth[i] {
                    tex3_color(w, h, s0, s1, s2, tz, tu, tv, tw, th, tex, i)
                } else {
                    orig_screen[i]
                },
        ),
        depth_after =~= Seq::new(
            orig_depth.len(),
            |i: int|
                if poly_covers_partial(w, h, s0, s1, s2, j, x + 1, i) && poly_attr_at(
                    w,
                    h,
                    s0,
                    s1,
                    s2,
                    tz.0,
                    tz.1,
                    tz.2,
                    i,
                ) > orig_depth[i] {
                    poly_attr_at(w, h, s0, s1, s2, tz.0, tz.1, tz.2, i) as i64
                } else {
                    orig_depth[i]
                },
        ),
{
    let yrow = s0.1 + j;
    if pix_visible(w, h, x, yrow) {
        lemma_pix_index_decompose(w, h, x, yrow);
        let iw = pix_index(w, h, x, yrow);
        assert(idx_y(w, h, iw) - s0.1 == j && idx_x(w, iw) == x);
        assert(!poly_covers_partial(w, h, s0, s1, s2, j, x, iw));
        assert(depth_before[iw] == orig_depth[iw]);
        assert(poly_attr_at(w, h, s0, s1, s2, tz.0, tz.1, tz.2, iw) == zq);
        assert forall|i: int| 0 <= i < orig_screen.len() implies {
            &&& screen_after[i] == (if poly_covers_partial(w, h, s0, s1, s2, j, x + 1, i)
                && poly_attr_at(w, h, s0, s1, s2, tz.0, tz.1, tz.2, i) > orig_depth[i] {
                tex3_color(w, h, s0, s1, s2, tz, tu, tv, tw, th, tex, i)
            } else {
                orig_screen[i]
            })
            &&& depth_after[i] == (if poly_covers_partial(w, h, s0, s1, s2, j, x + 1, i)
                && poly_attr_at(w, h, s0, s1, s2, tz.0, tz.1, tz.2, i) > orig_depth[i] {
                poly_attr_at(w, h, s0, s1, s2, tz.0, tz.1, tz.2, i) as i64
            } else {
                orig_depth[i]
            })
        } by {
            if i == iw {
                assert(poly_covers_partial(w, h, s0, s1, s2, j, x + 1, iw));
            } else {
                if poly_covers_partial(w, h, s0, s1, s2, j, x + 1, i) && !poly_covers_partial(
                    w,
                    h,
                    s0,
                    s1,
                    s2,
                    j,
                    x,
                    i,
                ) {
                    assert(idx_y(w, h, i) - s0.1 == j && idx_x(w, i) == x);
                    lemma_idx_reconstruct(w, h, i);
                    assert(i == iw);
                }
            }
        }
    } else {
        assert forall|i: int| 0 <= i < orig_screen.len() implies !(poly_covers_partial(
            w,
            h,
            s0,
            s1,
            s2,
            j,
            x + 1,
            i,
        ) && !poly_covers_partial(w, h, s0, s1, s2, j, x, i)) by {
            if poly_covers_partial(w, h, s0, s1, s2, j, x + 1, i) && !poly_covers_partial(
                w,
                h,
                s0,
                s1,
                s2,
                j,
                x,
                i,
            ) {
                assert(idx_y(w, h, i) - s0.1 == j && idx_x(w, i) == x);
                assert(pix_visible(w, h, idx_x(w, i), s0.1 + j));
            }
        }
    }
}

/// Fills a triangle by sampling a texture with perspective correction: each
/// vertex carries its view-space depth and UV coordinate; `u/z`, `v/z` and
/// `1/z` are interpolated across the triangle exactly like the x bounds,
/// each drawn pixel divides the interpolated `u/z`, `v/z` back by the
/// interpolated `1/z` and samples the texture with wraparound, under the
/// per-pixel depth test.
#[verifier::rlimit(80)]
#[verifier::spinoff_prover]
pub fn draw_textured_polygon(
    view: &mut Viewport,
    p0: ((i64, i64), Fx),
    p1: ((i64, i64), Fx),
    p2: ((i64, i64), Fx),
    uv0: (Fx, Fx),
    uv1: (Fx, Fx),
    uv2: (Fx, Fx),
    texture: &Bitmap,
)
    requires
        old(view).wf(),
        texture.wf(),
        texture.width >= 1,
        texture.height >= 1,
        -COORD_LIMIT <= p0.0.0 <= COORD_LIMIT,
        -COORD_LIMIT <= p0.0.1 <= COORD_LIMIT,
        -COORD_LIMIT <= p1.0.0 <= COORD_LIMIT,
        -COORD_LIMIT <= p1.0.1 <= COORD_LIMIT,
        -COORD_LIMIT <= p2.0.0 <= COORD_LIMIT,
        -COORD_LIMIT <= p2.0.1 <= COORD_LIMIT,
        p0.1.bounded(),
        p1.1.bounded(),
        p2.1.bounded(),
        p0.1.raw != 0,
        p1.1.raw != 0,
        p2.1.raw != 0,
        uv0.0.bounded() && uv0.1.bounded(),
        uv1.0.bounded() && uv1.1.bounded(),
        uv2.0.bounded() && uv2.1.bounded(),
    ensures
        final(view).wf(),
        *final(view) == (Viewport {
            depth_buffer: final(view).depth_buffer,
            screen: final(view).screen,
            ..*old(view)
        }),
        final(view).screen.width == old(view).screen.width,
        final(view).screen.height == old(view).screen.height,
        ({
            let (s, t) = spec_tex3_sorted(p0, p1, p2, uv0, uv1, uv2, texture.width as int, texture.height as int);
            let w = old(view).canvas_width as int;
            let h = old(view).canvas_height as int;
            &&& final(view).screen.data@ == tex3_fill_screen(
                old(view).screen.data@,
                old(view).depth_buffer@,
                w,
                h,
                s.0,
                s.1,
                s.2,
                t.0,
                t.1,
                t.2,
                texture.width as int,
                texture.height as int,
                texture.data@,
            )
            &&& final(view).depth_buffer@ == poly_fill_depth(
                old(view).depth_buffer@,
                w,
                h,
                s.0,
                s.1,
                s.2,
                t.0.0,
                t.0.1,
                t.0.2,
            )
        }),
{
    let ghost wi = old(view).canvas_width as int;
    let ghost hi = old(view).canvas_height as int;
    let ghost orig_screen = old(view).screen.data@;
    let ghost orig_depth = old(view).depth_buffer@;
    let tw = texture.width;
    let th = texture.height;
    let one = Fx { raw: FX_SCALE };
    let iz0 = fx_div(one, p0.1).raw;
    let iz1 = fx_div(one, p1.1).raw;
    let iz2 = fx_div(one, p2.1).raw;
    let ut0 = uv_texel(uv0.0, tw);
    let vt0 = uv_texel(uv0.1, th);
    let ut1 = uv_texel(uv1.0, tw);
    let vt1 = uv_texel(uv1.1, th);
    let ut2 = uv_texel(uv2.0, tw);
    let vt2 = uv_texel(uv2.1, th);
    let up0 = crate::fixed::int_mul_clamp(ut0, iz0);
    let vp0 = crate::fixed::int_mul_clamp(vt0, iz0);
    let up1 = crate::fixed::int_mul_clamp(ut1, iz1);
    let vp1 = crate::fixed::int_mul_clamp(vt1, iz1);
    let up2 = crate::fixed::int_mul_clamp(ut2, iz2);
    let vp2 = crate::fixed::int_mul_clamp(vt2, iz2);
    let q0 = (p0.0, (iz0, up0, vp0));
    let q1 = (p1.0, (iz1, up1, vp1));
    let q2 = (p2.0, (iz2, up2, vp2));
    let (a, b) = if q1.0.1 < q0.0.1 {
        (q1, q0)
    } else {
        (q0, q1)
    };
    let (a2, c2) = if q2.0.1 < a.0.1 {
        (q2, a)
    } else {
        (a, q2)
    };
    let (b3, c3) = if c2.0.1 < b.0.1 {
        (c2, b)
    } else {
        (b, c2)
    };
    let ((x0, y0), (tz0, tu0, tv0)) = a2;
    let ((x1, y1), (tz1, tu1, tv1)) = b3;
    let ((x2, y2), (tz2, tu2, tv2)) = c3;
    let ghost s0 = (x0 as int, y0 as int);
    let ghost s1 = (x1 as int, y1 as int);
    let ghost s2 = (x2 as int, y2 as int);
    let ghost gtz = (tz0 as int, tz1 as int, tz2 as int);
    let ghost gtu = (tu0 as int, tu1 as int, tu2 as int);
    let ghost gtv = (tv0 as int, tv1 as int, tv2 as int);
    proof {
        let (gs, gt) = spec_tex3_sorted(p0, p1, p2, uv0, uv1, uv2, tw as int, th as int);
        assert(gs == (s0, s1, s2) && gt == (gtz, gtu, gtv));
    }
    let n01 = y1 - y0;
    let n12 = y2 - y1;
    let n02 = y2 - y0;
    let e01x = interpolate(y0, x0, y1, x1);
    let e12x = interpolate(y1, x1, y2, x2);
    let e02x = interpolate(y0, x0, y2, x2);
    let e01z = interpolate(y0, tz0, y1, tz1);
    let e12z = interpolate(y1, tz1, y2, tz2);
    let e02z = interpolate(y0, tz0, y2, tz2);
    let e01u = interpolate(y0, tu0, y1, tu1);
    let e12u = interpolate(y1, tu1, y2, tu2);
    let e02u = interpolate(y0, tu0, y2, tu2);
    let e01v = interpolate(y0, tv0, y1, tv1);
    let e12v = interpolate(y1, tv1, y2, tv2);
    let e02v = interpolate(y0, tv0, y2, tv2);
    let m = ((n02 as u64) / 2) as i64;
    proof {
        assert(m == tri_mid(s0, s1, s2));
        assert(0 <= m <= n02);
    }
    let cm = if m < n01 {
        e01x.nth(m)
    } else {
        e12x.nth(m - n01)
    };
    let lm = e02x.nth(m);
    let long_left = n02 > 0 && lm.lt(cm);
    proof {
        assert(cm.num == chain_num(s0, s1, s2, m as int) && cm.den == chain_den(
            s0,
            s1,
            s2,
            m as int,
        ));
        assert(long_left == tri_long_left(s0, s1, s2));
    }
    let mut j: i64 = 0;
    while j < n02
        invariant
            view.wf(),
            *view == (Viewport {
                depth_buffer: view.depth_buffer,
                screen: view.screen,
                ..*old(view)
            }),
            view.screen.width == old(view).screen.width,
            view.screen.height == old(view).screen.height,
            wi == view.canvas_width as int,
            hi == view.canvas_height as int,
            orig_screen == old(view).screen.data@,
            orig_depth == old(view).depth_buffer@,
            orig_screen.len() == view.screen.data@.len(),
            orig_depth.len() == view.depth_buffer@.len(),
            orig_depth.len() == wi * hi,
            orig_screen.len() == orig_depth.len(),
            texture.wf(),
            tw == texture.width,
            th == texture.height,
            1 <= tw,
            1 <= th,
            0 <= j <= n02,
            n01 == y1 - y0,
            n12 == y2 - y1,
            n02 == y2 - y0,
            0 <= n01 <= n02,
            0 <= n12,
            n02 <= 0x2000000,
            s0 == (x0 as int, y0 as int),
            s1 == (x1 as int, y1 as int),
            s2 == (x2 as int, y2 as int),
            gtz == (tz0 as int, tz1 as int, tz2 as int),
            gtu == (tu0 as int, tu1 as int, tu2 as int),
            gtv == (tv0 as int, tv1 as int, tv2 as int),
            -COORD_LIMIT <= x0 <= COORD_LIMIT,
            -COORD_LIMIT <= y0 <= COORD_LIMIT,
            -COORD_LIMIT <= x1 <= COORD_LIMIT,
            -COORD_LIMIT <= y1 <= COORD_LIMIT,
            -COORD_LIMIT <= x2 <= COORD_LIMIT,
            -COORD_LIMIT <= y2 <= COORD_LIMIT,
            -FX_RAW_MAX <= tz0 <= FX_RAW_MAX,
            -FX_RAW_MAX <= tz1 <= FX_RAW_MAX,
            -FX_RAW_MAX <= tz2 <= FX_RAW_MAX,
            -FX_RAW_MAX <= tu0 <= FX_RAW_MAX,
            -FX_RAW_MAX <= tu1 <= FX_RAW_MAX,
            -FX_RAW_MAX <= tu2 <= FX_RAW_MAX,
            -FX_RAW_MAX <= tv0 <= FX_RAW_MAX,
            -FX_RAW_MAX <= tv1 <= FX_RAW_MAX,
            -FX_RAW_MAX <= tv2 <= FX_RAW_MAX,
            e01x == (Interpolate { i0: y0, i1: y1, d0: x0, d1: x1 }),
            e12x == (Interpolate { i0: y1, i1: y2, d0: x1, d1: x2 }),
            e02x == (Interpolate { i0: y0, i1: y2, d0: x0, d1: x2 }),
            e01z == (Interpolate { i0: y0, i1: y1, d0: tz0, d1: tz1 }),
            e12z == (Interpolate { i0: y1, i1: y2, d0: tz1, d1: tz2 }),
            e02z == (Interpolate { i0: y0, i1: y2, d0: tz0, d1: tz2 }),
            e01u == (Interpolate { i0: y0, i1: y1, d0: tu0, d1: tu1 }),
            e12u == (Interpolate { i0: y1, i1: y2, d0: tu1, d1: tu2 }),
            e02u == (Interpolate { i0: y0, i1: y2, d0: tu0, d1: tu2 }),
            e01v == (Interpolate { i0: y0, i1: y1, d0: tv0, d1: tv1 }),
            e12v == (Interpolate { i0: y1, i1: y2, d0: tv1, d1: tv2 }),
            e02v == (Interpolate { i0: y0, i1: y2, d0: tv0, d1: tv2 }),
            e01x.wf() && e12x.wf() && e02x.wf(),
            e01z.wf() && e12z.wf() && e02z.wf(),
            e01u.wf() && e12u.wf() && e02u.wf(),
            e01v.wf() && e12v.wf() && e02v.wf(),
            long_left == tri_long_left(s0, s1, s2),
            view.screen.data@ == Seq::new(
                orig_screen.len(),
                |i: int|
                    if poly_rows_covers(wi, hi, s0, s1, s2, j as int, i) && poly_attr_at(
                        wi,
                        hi,
                        s0,
                        s1,
                        s2,
                        gtz.0,
                        gtz.1,
                        gtz.2,
                        i,
                    ) > orig_depth[i] {
                        tex3_color(wi, hi, s0, s1, s2, gtz, gtu, gtv, tw as int, th as int, texture.data@, i)
                    } else {
                        orig_screen[i]
                    },
            ),
            view.depth_buffer@ == Seq::new(
                orig_depth.len(),
                |i: int|
                    if poly_rows_covers(wi, hi, s0, s1, s2, j as int, i) && poly_attr_at(
                        wi,
                        hi,
                        s0,
                        s1,
                        s2,
                        gtz.0,
                        gtz.1,
                        gtz.2,
                        i,
                    ) > orig_depth[i] {
                        poly_attr_at(wi, hi, s0, s1, s2, gtz.0, gtz.1, gtz.2, i) as i64
                    } else {
                        orig_depth[i]
                    },
            ),
        decreases n02 - j,
    {
        let cjx = if j < n01 {
            e01x.nth(j)
        } else {
            e12x.nth(j - n01)
        };
        let ljx = e02x.nth(j);
        let cjz = if j < n01 {
            e01z.nth(j)
        } else {
            e12z.nth(j - n01)
        };
        let ljz = e02z.nth(j);
        let cju = if j < n01 {
            e01u.nth(j)
        } else {
            e12u.nth(j - n01)
        };
        let lju = e02u.nth(j);
        let cjv = if j < n01 {
            e01v.nth(j)
        } else {
            e12v.nth(j - n01)
        };
        let ljv = e02v.nth(j);
        proof {
            assert(cjx.num == chain_num(s0, s1, s2, j as int) && cjx.den == chain_den(
                s0,
                s1,
                s2,
                j as int,
            ));
            assert(ljx.num == long_num(s0, s1, s2, j as int) && ljx.den == long_den(s0, s1, s2));
            assert(cjz.num == chain_num((gtz.0, s0.1), (gtz.1, s1.1), (gtz.2, s2.1), j as int)
                && cjz.den == chain_den(s0, s1, s2, j as int));
            assert(ljz.num == long_num((gtz.0, s0.1), (gtz.1, s1.1), (gtz.2, s2.1), j as int)
                && ljz.den == long_den(s0, s1, s2));
            assert(cju.num == chain_num((gtu.0, s0.1), (gtu.1, s1.1), (gtu.2, s2.1), j as int)
                && cju.den == chain_den(s0, s1, s2, j as int));
            assert(lju.num == long_num((gtu.0, s0.1), (gtu.1, s1.1), (gtu.2, s2.1), j as int)
                && lju.den == long_den(s0, s1, s2));
            assert(cjv.num == chain_num((gtv.0, s0.1), (gtv.1, s1.1), (gtv.2, s2.1), j as int)
                && cjv.den == chain_den(s0, s1, s2, j as int));
            assert(ljv.num == long_num((gtv.0, s0.1), (gtv.1, s1.1), (gtv.2, s2.1), j as int)
                && ljv.den == long_den(s0, s1, s2));
        }
        let (lex, rex) = if long_left {
            (ljx, cjx)
        } else {
            (cjx, ljx)
        };
        let (lez, rez) = if long_left {
            (ljz, cjz)
        } else {
            (cjz, ljz)
        };
        let (leu, reu) = if long_left {
            (lju, cju)
        } else {
            (cju, lju)
        };
        let (lev, rev) = if long_left {
            (ljv, cjv)
        } else {
            (cjv, ljv)
        };
        let xl = lex.trunc();
        let xr = rex.trunc();
        proof {
            crate::primitives::lemma_interp_trunc_range(e02x, j as int);
            if j < n01 {
                crate::primitives::lemma_interp_trunc_range(e01x, j as int);
            } else {
                crate::primitives::lemma_interp_trunc_range(e12x, j - n01);
            }
            assert(xl == row_lo(s0, s1, s2, j as int));
            assert(xr == row_hi(s0, s1, s2, j as int));
            assert(-COORD_LIMIT <= xl && xr <= COORD_LIMIT && -COORD_LIMIT <= xr && xl <= COORD_LIMIT);
            assert(lez.num == side_num(s0, s1, s2, gtz.0, gtz.1, gtz.2, j as int, true)
                && lez.den == row_left_den(s0, s1, s2, j as int));
            assert(rez.num == side_num(s0, s1, s2, gtz.0, gtz.1, gtz.2, j as int, false)
                && rez.den == row_right_den(s0, s1, s2, j as int));
            assert(leu.num == side_num(s0, s1, s2, gtu.0, gtu.1, gtu.2, j as int, true)
                && leu.den == row_left_den(s0, s1, s2, j as int));
            assert(reu.num == side_num(s0, s1, s2, gtu.0, gtu.1, gtu.2, j as int, false)
                && reu.den == row_right_den(s0, s1, s2, j as int));
            assert(lev.num == side_num(s0, s1, s2, gtv.0, gtv.1, gtv.2, j as int, true)
                && lev.den == row_left_den(s0, s1, s2, j as int));
            assert(rev.num == side_num(s0, s1, s2, gtv.0, gtv.1, gtv.2, j as int, false)
                && rev.den == row_right_den(s0, s1, s2, j as int));
        }
        if xl < xr {
            let n = xr - xl;
            let mut x = xl;
            while x < xr
                invariant
                    view.wf(),
                    *view == (Viewport {
                        depth_buffer: view.depth_buffer,
                        screen: view.screen,
                        ..*old(view)
                    }),
                    view.screen.width == old(view).screen.width,
                    view.screen.height == old(view).screen.height,
                    wi == view.canvas_width as int,
                    hi == view.canvas_height as int,
                    orig_screen.len() == view.screen.data@.len(),
                    orig_depth.len() == view.depth_buffer@.len(),
                    orig_depth.len() == wi * hi,
                    orig_screen.len() == orig_depth.len(),
                    texture.wf(),
                    tw == texture.width,
                    th == texture.height,
                    1 <= tw,
                    1 <= th,
                    0 <= j < n02,
                    n02 == s2.1 - s0.1,
                    s0.1 == y0 as int,
                    -COORD_LIMIT <= y0 <= COORD_LIMIT,
                    n02 <= 0x2000000,
                    xl <= x,
                    x <= xr,
                    n == xr - xl,
                    1 <= n <= 0x2000000,
                    xl == row_lo(s0, s1, s2, j as int),
                    xr == row_hi(s0, s1, s2, j as int),
                    -COORD_LIMIT <= xl,
                    xr <= COORD_LIMIT,
                    lez.wf() && rez.wf() && lez.in_raw_range() && rez.in_raw_range(),
                    leu.wf() && reu.wf() && leu.in_raw_range() && reu.in_raw_range(),
                    lev.wf() && rev.wf() && lev.in_raw_range() && rev.in_raw_range(),
                    lez.num == side_num(s0, s1, s2, gtz.0, gtz.1, gtz.2, j as int, true),
                    lez.den == row_left_den(s0, s1, s2, j as int),
                    rez.num == side_num(s0, s1, s2, gtz.0, gtz.1, gtz.2, j as int, false),
                    rez.den == row_right_den(s0, s1, s2, j as int),
                    leu.num == side_num(s0, s1, s2, gtu.0, gtu.1, gtu.2, j as int, true),
                    leu.den == row_left_den(s0, s1, s2, j as int),
                    reu.num == side_num(s0, s1, s2, gtu.0, gtu.1, gtu.2, j as int, false),
                    reu.den == row_right_den(s0, s1, s2, j as int),
                    lev.num == side_num(s0, s1, s2, gtv.0, gtv.1, gtv.2, j as int, true),
                    lev.den == row_left_den(s0, s1, s2, j as int),
                    rev.num == side_num(s0, s1, s2, gtv.0, gtv.1, gtv.2, j as int, false),
                    rev.den == row_right_den(s0, s1, s2, j as int),
                    view.screen.data@ == Seq::new(
                        orig_screen.len(),
                        |i: int|
                            if poly_covers_partial(wi, hi, s0, s1, s2, j as int, x as int, i)
                                && poly_attr_at(
                                wi,
                                hi,
                                s0,
                                s1,
                                s2,
                                gtz.0,
                                gtz.1,
                                gtz.2,
                                i,
                            ) > orig_depth[i] {
                                tex3_color(wi, hi, s0, s1, s2, gtz, gtu, gtv, tw as int, th as int, texture.data@, i)
                            } else {
                                orig_screen[i]
                            },
                    ),
                    view.depth_buffer@ == Seq::new(
                        orig_depth.len(),
                        |i: int|
                            if poly_covers_partial(wi, hi, s0, s1, s2, j as int, x as int, i)
                                && poly_attr_at(
                                wi,
                                hi,
                                s0,
                                s1,
                                s2,
                                gtz.0,
                                gtz.1,
                                gtz.2,
                                i,
                            ) > orig_depth[i] {
                                poly_attr_at(wi, hi, s0, s1, s2, gtz.0, gtz.1, gtz.2, i) as i64
                            } else {
                                orig_depth[i]
                            },
                    ),
                decreases xr - x,
            {
                let ghost screen_before = view.screen.data@;
                let ghost depth_before = view.depth_buffer@;
                let zq = attr_at(lez, rez, n, x - xl);
                let yrow = y0 + j;
                let dval = view.get_dbuff_val(x, yrow);
                let ghost iw = pix_index(wi, hi, x as int, yrow as int);
                proof {
                    if pix_visible(wi, hi, x as int, yrow as int) {
                        crate::primitives::lemma_pix_index_bounds(wi, hi, x as int, yrow as int);
                    }
                }
                match dval {
                    Some(d) => {
                        if zq > d {
                            let uq = attr_at(leu, reu, n, x - xl);
                            let vq = attr_at(lev, rev, n, x - xl);
                            let ut = crate::fixed::div_wide(uq as i128, zq as i128) as i64;
                            let vt = crate::fixed::div_wide(vq as i128, zq as i128) as i64;
                            let cu: usize = if ut < 0 {
                                0
                            } else {
                                ((ut as u64) % (tw as u64)) as usize
                            };
                            let cv: usize = if vt < 0 {
                                0
                            } else {
                                ((vt as u64) % (th as u64)) as usize
                            };
                            proof {
                                assert(cu < tw && cv < th);
                                assert(cv * tw + cu < th * tw && 0 <= cv * tw + cu)
                                    by (nonlinear_arith)
                                    requires
                                        0 <= cu < tw,
                                        0 <= cv < th,
                                ;
                                assert(th * tw == tw * th) by (nonlinear_arith);
                                crate::fixed::lemma_mul_le(th as int, tw as int, 32768, 32768);
                            }
                            let color = texture.data[cv * tw + cu];
                            proof {
                                lemma_pix_index_decompose(wi, hi, x as int, yrow as int);
                                assert(idx_y(wi, hi, iw) - s0.1 == j && idx_x(wi, iw) == x);
                                assert(view.depth_buffer@[iw] == orig_depth[iw]);
                                assert(color == tex3_color(
                                    wi,
                                    hi,
                                    s0,
                                    s1,
                                    s2,
                                    gtz,
                                    gtu,
                                    gtv,
                                    tw as int,
                                    th as int,
                                    texture.data@,
                                    iw,
                                ));
                            }
                            crate::primitives::putpixel(&mut view.screen, x, yrow, color);
                            view.set_dbuff_val(x, yrow, zq);
                        }
                    },
                    None => {},
                }
                proof {
                    lemma_tex_step(
                        wi,
                        hi,
                        s0,
                        s1,
                        s2,
                        gtz,
                        gtu,
                        gtv,
                        tw as int,
                        th as int,
                        texture.data@,
                        j as int,
                        x as int,
                        zq as int,
                        view.screen.data@[iw],
                        orig_screen,
                        orig_depth,
                        screen_before,
                        depth_before,
                        view.screen.data@,
                        view.depth_buffer@,
                    );
                }
                x += 1;
            }
        }
        proof {
            assert(view.screen.data@ =~= Seq::new(
                orig_screen.len(),
                |i: int|
                    if poly_rows_covers(wi, hi, s0, s1, s2, j + 1, i) && poly_attr_at(
                        wi,
                        hi,
                        s0,
                        s1,
                        s2,
                        gtz.0,
                        gtz.1,
                        gtz.2,
                        i,
                    ) > orig_depth[i] {
                        tex3_color(wi, hi, s0, s1, s2, gtz, gtu, gtv, tw as int, th as int, texture.data@, i)
                    } else {
                        orig_screen[i]
                    },
            ));
            assert(view.depth_buffer@ =~= Seq::new(
                orig_depth.len(),
                |i: int|
                    if poly_rows_covers(wi, hi, s0, s1, s2, j + 1, i) && poly_attr_at(
                        wi,
                        hi,
                        s0,
                        s1,
                        s2,
                        gtz.0,
                        gtz.1,
                        gtz.2,
                        i,
                    ) > orig_depth[i] {
                        poly_attr_at(wi, hi, s0, s1, s2, gtz.0, gtz.1, gtz.2, i) as i64
                    } else {
                        orig_depth[i]
                    },
            ));
        }
        j += 1;
    }
    proof {
        assert(view.screen.data@ =~= tex3_fill_screen(
            orig_screen,
            orig_depth,
            wi,
            hi,
            s0,
            s1,
            s2,
            gtz,
            gtu,
            gtv,
            tw as int,
            th as int,
            texture.data@,
        ));
        assert(view.depth_buffer@ =~= poly_fill_depth(
            orig_depth,
            wi,
            hi,
            s0,
            s1,
            s2,
            gtz.0,
            gtz.1,
            gtz.2,
        ));
    }
}

/// The sorted screen vertices and attribute triples the textured fill works
/// on: reciprocal depths, and texel-scaled UVs pre-multiplied by them.
pub open spec fn spec_tex3_sorted(
    p0: ((i64, i64), Fx),
    p1: ((i64, i64), Fx),
    p2: ((i64, i64), Fx),
    uv0: (Fx, Fx),
    uv1: (Fx, Fx),
    uv2: (Fx, Fx),
    tw: int,
    th: int,
) -> (((int, int), (int, int), (int, int)), ((int, int, int), (int, int, int), (int, int, int))) {
    let iz0 = spec_fx_div(FX_SCALE as int, p0.1.raw as int);
    let iz1 = spec_fx_div(FX_SCALE as int, p1.1.raw as int);
    let iz2 = spec_fx_div(FX_SCALE as int, p2.1.raw as int);
    let q0 = (
        (p0.0.0 as int, p0.0.1 as int),
        (
            iz0,
            crate::fixed::clamp_raw(spec_uv_texel(uv0.0.raw as int, tw) * iz0),
            crate::fixed::clamp_raw(spec_uv_texel(uv0.1.raw as int, th) * iz0),
        ),
    );
    let q1 = (
        (p1.0.0 as int, p1.0.1 as int),
        (
            iz1,
            crate::fixed::clamp_raw(spec_uv_texel(uv1.0.raw as int, tw) * iz1),
            crate::fixed::clamp_raw(spec_uv_texel(uv1.1.raw as int, th) * iz1),
        ),
    );
    let q2 = (
        (p2.0.0 as int, p2.0.1 as int),
        (
            iz2,
            crate::fixed::clamp_raw(spec_uv_texel(uv2.0.raw as int, tw) * iz2),
            crate::fixed::clamp_raw(spec_uv_texel(uv2.1.raw as int, th) * iz2),
        ),
    );
    let (a, b, c) = tsort(q0, q1, q2);
    ((a.0, b.0, c.0), (
        (a.1.0, b.1.0, c.1.0),
        (a.1.1, b.1.1, c.1.1),
        (a.1.2, b.1.2, c.1.2),
    ))
}

/// The texel coordinate of a UV coordinate against a texture size:
/// `uv * size`, truncated toward zero.
pub(crate) fn uv_texel(uv: Fx, t: usize) -> (r: i64)
    requires
        uv.bounded(),
        t <= 32768,
    ensures
        r == spec_uv_texel(uv.raw as int, t as int),
        -FX_RAW_MAX <= r <= FX_RAW_MAX,
{
    proof {
        crate::fixed::lemma_mul_abs_le(uv.raw as int, t as int, FX_RAW_MAX as int, 32768);
    }
    let num = (uv.raw as i128) * (t as i128);
    let q = crate::fixed::div_wide(num, FX_SCALE as i128);
    proof {
        assert(-(FX_RAW_MAX as int) * (FX_SCALE as int) <= num <= (FX_RAW_MAX as int) * (
        FX_SCALE as int)) by (nonlinear_arith)
            requires
                num == (uv.raw as int) * (t as int),
                -FX_RAW_MAX <= uv.raw <= FX_RAW_MAX,
                0 <= t <= 32768,
                32768 <= FX_SCALE,
        ;
        crate::fixed::lemma_div_trunc_bounded(num as int, FX_SCALE as int, FX_RAW_MAX as int);
    }
    q as i64
}

/// A projected model vertex: perspective projection saturated at the
/// rasterizer's coordinate limit; a vertex on the camera plane (zero depth
/// or zero homogeneous w) degenerates to the canvas center.
pub open spec fn spec_project_model_pt(
    d: int,
    vwr: int,
    vhr: int,
    cw: int,
    ch: int,
    v: Vec4,
) -> (int, int) {
    if v.z.raw == 0 || v.w.raw == 0 {
        (0, 0)
    } else {
        (
            crate::render_2d::clamp_coord(
                crate::render_2d::spec_project_h(
                    clamp_proj_spec(v.x.raw as int),
                    d,
                    clamp_proj_spec(v.z.raw as int),
                    clamp_proj_spec(v.w.raw as int),
                    vwr,
                    cw,
                ),
            ),
            crate::render_2d::clamp_coord(
                crate::render_2d::spec_project_h(
                    clamp_proj_spec(v.y.raw as int),
                    d,
                    clamp_proj_spec(v.z.raw as int),
                    clamp_proj_spec(v.w.raw as int),
                    vhr,
                    ch,
                ),
            ),
        )
    }
}

/// Saturation of a raw coordinate into the projection's accepted range.
pub open spec fn clamp_proj_spec(v: int) -> int {
    if v > crate::render_2d::PROJ_RAW_MAX {
        crate::render_2d::PROJ_RAW_MAX as int
    } else if v < -(crate::render_2d::PROJ_RAW_MAX as int) {
        -(crate::render_2d::PROJ_RAW_MAX as int)
    } else {
        v
    }
}

/// Saturates a fixed-point value into the projection's accepted range;
/// exact on any value a sane scene produces.
fn clamp_proj(v: Fx) -> (r: Fx)
    ensures
        r.raw == clamp_proj_spec(v.raw as int),
        -crate::render_2d::PROJ_RAW_MAX <= r.raw <= crate::render_2d::PROJ_RAW_MAX,
        v.raw == 0 <==> r.raw == 0,
{
    if v.raw > crate::render_2d::PROJ_RAW_MAX {
        Fx { raw: crate::render_2d::PROJ_RAW_MAX }
    } else if v.raw < -crate::render_2d::PROJ_RAW_MAX {
        Fx { raw: -crate::render_2d::PROJ_RAW_MAX }
    } else {
        v
    }
}

/// The screen after drawing the wireframes of the first `k` triangles.
pub open spec fn wire_fold(
    dst: Seq<Color>,
    w: int,
    h: int,
    pts: Seq<(int, int)>,
    tris: Seq<PolygonData>,
    color: Color,
    k: int,
) -> Seq<Color>
    decreases k,
{
    if k <= 0 {
        dst
    } else {
        let prev = wire_fold(dst, w, h, pts, tris, color, k - 1);
        let t = tris[k - 1];
        crate::primitives::wireframe_image(
            prev,
            w,
            h,
            pts[t.vertex@[0] as int],
            pts[t.vertex@[1] as int],
            pts[t.vertex@[2] as int],
            color,
        )
    }
}

impl Model {
    /// Projects every vertex once through the camera matrix, then draws
    /// each triangle's three edges in green.
    pub fn render_wireframe(&self, view: &mut Viewport, camera: Mat4)
        requires
            self.wf(),
            old(view).wf(),
            camera.bounded(),
        ensures
            final(view).wf(),
            *final(view) == (Viewport { screen: final(view).screen, ..*old(view) }),
            final(view).screen.width == old(view).screen.width,
            final(view).screen.height == old(view).screen.height,
            final(view).screen.data@ == wire_fold(
                old(view).screen.data@,
                old(view).canvas_width as int,
                old(view).canvas_height as int,
                Seq::new(
                    self.vertices@.len(),
                    |vi: int|
                        spec_project_model_pt(
                            old(view).distance_d.raw as int,
                            old(view).viewport_width.raw as int,
                            old(view).viewport_height.raw as int,
                            old(view).canvas_width as int,
                            old(view).canvas_height as int,
                            crate::math::spec_transform(camera, self.vertices@[vi]),
                        ),
                ),
                self.triangles@,
                crate::colors::spec_pack_rgba(0, 255, 0, 0),
                self.triangles@.len() as int,
            ),
    {
        let ghost pts_spec = Seq::new(
            self.vertices@.len(),
            |vi: int|
                spec_project_model_pt(
                    old(view).distance_d.raw as int,
                    old(view).viewport_width.raw as int,
                    old(view).viewport_height.raw as int,
                    old(view).canvas_width as int,
                    old(view).canvas_height as int,
                    crate::math::spec_transform(camera, self.vertices@[vi]),
                ),
        );
        let ghost orig = old(view).screen.data@;
        let ghost wi = old(view).canvas_width as int;
        let ghost hi = old(view).canvas_height as int;
        let mut projected: Vec<(i64, i64)> = Vec::new();
        let n = self.vertices.len();
        let mut vi: usize = 0;
        while vi < n
            invariant
                self.wf(),
                view.wf(),
                *view == *old(view),
                camera.bounded(),
                vi <= n,
                n == self.vertices@.len(),
                projected@.len() == vi,
                pts_spec == Seq::new(
                    self.vertices@.len(),
                    |vj: int|
                        spec_project_model_pt(
                            old(view).distance_d.raw as int,
                            old(view).viewport_width.raw as int,
                            old(view).viewport_height.raw as int,
                            old(view).canvas_width as int,
                            old(view).canvas_height as int,
                            crate::math::spec_transform(camera, self.vertices@[vj]),
                        ),
                ),
                forall|k: int|
                    0 <= k < vi ==> ((#[trigger] projected@[k]).0 as int, projected@[k].1 as int)
                        == pts_spec[k],
                forall|k: int|
                    0 <= k < vi ==> -COORD_LIMIT <= (#[trigger] projected@[k]).0 <= COORD_LIMIT
                        && -COORD_LIMIT <= projected@[k].1 <= COORD_LIMIT,
            decreases n - vi,
        {
            let tv = crate::math::col_mat4_transform(&camera, self.vertices[vi]);
            let cx = clamp_proj(tv.x);
            let cy = clamp_proj(tv.y);
            let cz = clamp_proj(tv.z);
            let cw4 = clamp_proj(tv.w);
            let pt = if cz.raw == 0 || cw4.raw == 0 {
                (0i64, 0i64)
            } else {
                view.project_vertex_3d((cx, cy, cz, cw4))
            };
            projected.push(pt);
            vi += 1;
        }
        let tn = self.triangles.len();
        let mut ti: usize = 0;
        let green = crate::colors::from_u8_rgb(0, 255, 0);
        while ti < tn
            invariant
                self.wf(),
                view.wf(),
                *view == (Viewport { screen: view.screen, ..*old(view) }),
                view.screen.width == old(view).screen.width,
                view.screen.height == old(view).screen.height,
                wi == view.canvas_width as int,
                hi == view.canvas_height as int,
                orig == old(view).screen.data@,
                ti <= tn,
                tn == self.triangles@.len(),
                green == crate::colors::spec_pack_rgba(0, 255, 0, 0),
                projected@.len() == self.vertices@.len(),
                forall|k: int|
                    0 <= k < projected@.len() ==> ((#[trigger] projected@[k]).0 as int,
                    projected@[k].1 as int) == pts_spec[k],
                forall|k: int|
                    0 <= k < projected@.len() ==> -COORD_LIMIT <= (#[trigger] projected@[k]).0
                        <= COORD_LIMIT && -COORD_LIMIT <= projected@[k].1 <= COORD_LIMIT,
                pts_spec.len() == self.vertices@.len(),
                view.screen.data@ == wire_fold(orig, wi, hi, pts_spec, self.triangles@, green, ti as int),
            decreases tn - ti,
        {
            let t = &self.triangles[ti];
            let i0 = t.vertex[0];
            let i1 = t.vertex[1];
            let i2 = t.vertex[2];
            crate::primitives::draw_wireframe_triangle(
                &mut view.screen,
                projected[i0],
                projected[i1],
                projected[i2],
                green,
            );
            ti += 1;
        }
    }
}

/// The object-to-world transform of an instance: scale, then the pitch, yaw
/// and roll rotations in that fixed order, then translation.
#[verifier::opaque]
pub open spec fn spec_instance_matrix(
    scale: Fx,
    ps: Fx,
    pc: Fx,
    ys: Fx,
    yc: Fx,
    rs: Fx,
    rc: Fx,
    x: Fx,
    y: Fx,
    z: Fx,
) -> Mat4 {
    let ms = Mat4 {
        c0: Vec4 { x: scale, y: Fx { raw: 0 }, z: Fx { raw: 0 }, w: Fx { raw: 0 } },
        c1: Vec4 { x: Fx { raw: 0 }, y: scale, z: Fx { raw: 0 }, w: Fx { raw: 0 } },
        c2: Vec4 { x: Fx { raw: 0 }, y: Fx { raw: 0 }, z: scale, w: Fx { raw: 0 } },
        c3: Vec4 { x: Fx { raw: 0 }, y: Fx { raw: 0 }, z: Fx { raw: 0 }, w: Fx { raw: FX_SCALE } },
    };
    let mx = Mat4 {
        c0: Vec4 { x: Fx { raw: FX_SCALE }, y: Fx { raw: 0 }, z: Fx { raw: 0 }, w: Fx { raw: 0 } },
        c1: Vec4 { x: Fx { raw: 0 }, y: pc, z: ps, w: Fx { raw: 0 } },
        c2: Vec4 { x: Fx { raw: 0 }, y: Fx { raw: (-ps.raw) as i64 }, z: pc, w: Fx { raw: 0 } },
        c3: Vec4 { x: Fx { raw: 0 }, y: Fx { raw: 0 }, z: Fx { raw: 0 }, w: Fx { raw: FX_SCALE } },
    };
    let my = Mat4 {
        c0: Vec4 { x: yc, y: Fx { raw: 0 }, z: Fx { raw: (-ys.raw) as i64 }, w: Fx { raw: 0 } },
        c1: Vec4 { x: Fx { raw: 0 }, y: Fx { raw: FX_SCALE }, z: Fx { raw: 0 }, w: Fx { raw: 0 } },
        c2: Vec4 { x: ys, y: Fx { raw: 0 }, z: yc, w: Fx { raw: 0 } },
        c3: Vec4 { x: Fx { raw: 0 }, y: Fx { raw: 0 }, z: Fx { raw: 0 }, w: Fx { raw: FX_SCALE } },
    };
    let mz = Mat4 {
        c0: Vec4 { x: rc, y: rs, z: Fx { raw: 0 }, w: Fx { raw: 0 } },
        c1: Vec4 { x: Fx { raw: (-rs.raw) as i64 }, y: rc, z: Fx { raw: 0 }, w: Fx { raw: 0 } },
        c2: Vec4 { x: Fx { raw: 0 }, y: Fx { raw: 0 }, z: Fx { raw: FX_SCALE }, w: Fx { raw: 0 } },
        c3: Vec4 { x: Fx { raw: 0 }, y: Fx { raw: 0 }, z: Fx { raw: 0 }, w: Fx { raw: FX_SCALE } },
    };
    let mt = Mat4 {
        c0: Vec4 { x: Fx { raw: FX_SCALE }, y: Fx { raw: 0 }, z: Fx { raw: 0 }, w: Fx { raw: 0 } },
        c1: Vec4 { x: Fx { raw: 0 }, y: Fx { raw: FX_SCALE }, z: Fx { raw: 0 }, w: Fx { raw: 0 } },
        c2: Vec4 { x: Fx { raw: 0 }, y: Fx { raw: 0 }, z: Fx { raw: FX_SCALE }, w: Fx { raw: 0 } },
        c3: Vec4 { x, y, z, w: Fx { raw: FX_SCALE } },
    };
    spec_mat_mul(spec_mat_mul(spec_mat_mul(spec_mat_mul(ms, mx), my), mz), mt)
}

/// The matrix product in specification form.
pub open spec fn spec_mat_mul(a: Mat4, b: Mat4) -> Mat4 {
    Mat4 {
        c0: crate::math::spec_transform(a, b.c0),
        c1: crate::math::spec_transform(a, b.c1),
        c2: crate::math::spec_transform(a, b.c2),
        c3: crate::math::spec_transform(a, b.c3),
    }
}


/// The projected screen points and saturated view depths of a model's
/// vertices under one combined camera-and-object matrix.
pub open spec fn inst_points(
    d: int,
    vw: int,
    vh: int,
    cw: int,
    ch: int,
    m: Mat4,
    verts: Seq<Vec4>,
) -> Seq<((int, int), int)> {
    Seq::new(
        verts.len(),
        |vi: int|
            {
                let tv = crate::math::spec_transform(m, verts[vi]);
                (
                    spec_project_model_pt(d, vw, vh, cw, ch, tv),
                    clamp_proj_spec(tv.z.raw as int),
                )
            },
    )
}


/// One textured-material triangle dispatch: a perspective-correct textured
/// fill, skipped when a vertex sits on the camera plane.
pub open spec fn uv_one(
    screen: Seq<Color>,
    depth: Seq<i64>,
    w: int,
    h: int,
    p0: ((int, int), int),
    p1: ((int, int), int),
    p2: ((int, int), int),
    uv0: (Fx, Fx),
    uv1: (Fx, Fx),
    uv2: (Fx, Fx),
    tw: int,
    th: int,
    tex: Seq<Color>,
) -> (Seq<Color>, Seq<i64>) {
    if p0.1 != 0 && p1.1 != 0 && p2.1 != 0 {
        let (s, t) = spec_tex3_sorted(
            ((p0.0.0 as i64, p0.0.1 as i64), Fx { raw: p0.1 as i64 }),
            ((p1.0.0 as i64, p1.0.1 as i64), Fx { raw: p1.1 as i64 }),
            ((p2.0.0 as i64, p2.0.1 as i64), Fx { raw: p2.1 as i64 }),
            uv0,
            uv1,
            uv2,
            tw,
            th,
        );
        (
            tex3_fill_screen(screen, depth, w, h, s.0, s.1, s.2, t.0, t.1, t.2, tw, th, tex),
            poly_fill_depth(depth, w, h, s.0, s.1, s.2, t.0.0, t.0.1, t.0.2),
        )
    } else {
        (screen, depth)
    }
}

/// The screen and depth buffer after the first `k` textured triangles.
pub open spec fn uv_fold(
    screen: Seq<Color>,
    depth: Seq<i64>,
    w: int,
    h: int,
    pts: Seq<((int, int), int)>,
    tris: Seq<PolygonData>,
    uv_map: Seq<Vec3>,
    tw: int,
    th: int,
    tex: Seq<Color>,
    k: int,
) -> (Seq<Color>, Seq<i64>)
    decreases k,
{
    if k <= 0 {
        (screen, depth)
    } else {
        let prev = uv_fold(screen, depth, w, h, pts, tris, uv_map, tw, th, tex, k - 1);
        let t = tris[k - 1];
        let m0 = uv_map[t.uv_coord@[0] as int];
        let m1 = uv_map[t.uv_coord@[1] as int];
        let m2 = uv_map[t.uv_coord@[2] as int];
        uv_one(
            prev.0,
            prev.1,
            w,
            h,
            pts[t.vertex@[0] as int],
            pts[t.vertex@[1] as int],
            pts[t.vertex@[2] as int],
            (m0.x, m0.y),
            (m1.x, m1.y),
            (m2.x, m2.y),
            tw,
            th,
            tex,
        )
    }
}

/// One flat-material triangle dispatch: a depth-tested fill, skipped when a
/// vertex sits on the camera plane.
pub open spec fn flat_one(
    screen: Seq<Color>,
    depth: Seq<i64>,
    w: int,
    h: int,
    p0: ((int, int), int),
    p1: ((int, int), int),
    p2: ((int, int), int),
    color: Color,
) -> (Seq<Color>, Seq<i64>) {
    if p0.1 != 0 && p1.1 != 0 && p2.1 != 0 {
        let q0 = (p0.0, spec_fx_div(FX_SCALE as int, p0.1));
        let q1 = (p1.0, spec_fx_div(FX_SCALE as int, p1.1));
        let q2 = (p2.0, spec_fx_div(FX_SCALE as int, p2.1));
        let (s0, s1, s2) = zsort(q0, q1, q2);
        (
            poly_fill_screen(screen, depth, w, h, s0.0, s1.0, s2.0, s0.1, s1.1, s2.1, color),
            poly_fill_depth(depth, w, h, s0.0, s1.0, s2.0, s0.1, s1.1, s2.1),
        )
    } else {
        (screen, depth)
    }
}

/// The screen and depth buffer after the first `k` flat-material triangles.
pub open spec fn flat_fold(
    screen: Seq<Color>,
    depth: Seq<i64>,
    w: int,
    h: int,
    pts: Seq<((int, int), int)>,
    tris: Seq<PolygonData>,
    colors: Seq<Color>,
    k: int,
) -> (Seq<Color>, Seq<i64>)
    decreases k,
{
    if k <= 0 {
        (screen, depth)
    } else {
        let prev = flat_fold(screen, depth, w, h, pts, tris, colors, k - 1);
        let t = tris[k - 1];
        flat_one(
            prev.0,
            prev.1,
            w,
            h,
            pts[t.vertex@[0] as int],
            pts[t.vertex@[1] as int],
            pts[t.vertex@[2] as int],
            colors[k - 1],
        )
    }
}

impl<'model, 'texture> Instance<'model, 'texture> {
    /// The object-to-world matrix this instance composes:
    /// scale, pitch, yaw, roll, then translation, in that fixed order.
    pub fn transform_matrix(&self) -> (r: Mat4)
        requires
            self.scale.bounded(),
            self.r_pitch_sin.bounded(),
            self.r_pitch_cos.bounded(),
            self.r_yaw_sin.bounded(),
            self.r_yaw_cos.bounded(),
            self.r_roll_sin.bounded(),
            self.r_roll_cos.bounded(),
            self.x.bounded(),
            self.y.bounded(),
            self.z.bounded(),
        ensures
            r == spec_instance_matrix(
                self.scale,
                self.r_pitch_sin,
                self.r_pitch_cos,
                self.r_yaw_sin,
                self.r_yaw_cos,
                self.r_roll_sin,
                self.r_roll_cos,
                self.x,
                self.y,
                self.z,
            ),
            r.bounded(),
    {
        proof {
            reveal(spec_instance_matrix);
        }
        let ms = crate::math::mat4_scale(self.scale);
        let mx = crate::math::mat4_rotation_x(self.r_pitch_sin, self.r_pitch_cos);
        let my = crate::math::mat4_rotation_y(self.r_yaw_sin, self.r_yaw_cos);
        let mz = crate::math::mat4_rotation_z(self.r_roll_sin, self.r_roll_cos);
        let mt = crate::math::mat4_translation(self.x, self.y, self.z);
        let m1 = crate::math::col_mat4_mul(&ms, &mx);
        let m2 = crate::math::col_mat4_mul(&m1, &my);
        let m3 = crate::math::col_mat4_mul(&m2, &mz);
        crate::math::col_mat4_mul(&m3, &mt)
    }

    /// Renders the instance: composes the object-to-world matrix with the
    /// camera, transforms and projects every model vertex exactly once, then
    /// dispatches each triangle to the filled or textured rasterizer
    /// according to the material. A flat material supplies one color per
    /// triangle, in triangle order; when the color list and the triangle
    /// list differ in length the surplus of either is ignored. Triangles
    /// with a vertex of zero view depth are skipped (nothing sensible can be
    /// rasterized at the camera plane). The whole frame effect is the fold
    /// of the per-triangle draws, each specified exactly by
    /// `draw_filled_polygon` and `draw_textured_polygon`.
    #[verifier::rlimit(100)]
    #[verifier::spinoff_prover]
    pub fn render(&self, view: &mut Viewport, camera: Mat4)
        requires
            old(view).wf(),
            self.model.wf(),
            camera.bounded(),
            self.scale.bounded(),
            self.r_pitch_sin.bounded(),
            self.r_pitch_cos.bounded(),
            self.r_yaw_sin.bounded(),
            self.r_yaw_cos.bounded(),
            self.r_roll_sin.bounded(),
            self.r_roll_cos.bounded(),
            self.x.bounded(),
            self.y.bounded(),
            self.z.bounded(),
            self.material matches MaterialData::UV(t) ==> t.wf() && t.width >= 1 && t.height >= 1
                && self.model.uv_wf(),
        ensures
            final(view).wf(),
            *final(view) == (Viewport {
                depth_buffer: final(view).depth_buffer,
                screen: final(view).screen,
                ..*old(view)
            }),
            final(view).screen.width == old(view).screen.width,
            final(view).screen.height == old(view).screen.height,
            self.material matches MaterialData::UV(tex) ==> {
                let pts = inst_points(
                    old(view).distance_d.raw as int,
                    old(view).viewport_width.raw as int,
                    old(view).viewport_height.raw as int,
                    old(view).canvas_width as int,
                    old(view).canvas_height as int,
                    spec_mat_mul(
                        camera,
                        spec_instance_matrix(
                            self.scale,
                            self.r_pitch_sin,
                            self.r_pitch_cos,
                            self.r_yaw_sin,
                            self.r_yaw_cos,
                            self.r_roll_sin,
                            self.r_roll_cos,
                            self.x,
                            self.y,
                            self.z,
                        ),
                    ),
                    self.model.vertices@,
                );
                let folded = uv_fold(
                    old(view).screen.data@,
                    old(view).depth_buffer@,
                    old(view).canvas_width as int,
                    old(view).canvas_height as int,
                    pts,
                    self.model.triangles@,
                    self.model.uv_map@,
                    tex.width as int,
                    tex.height as int,
                    tex.data@,
                    self.model.triangles@.len() as int,
                );
                &&& final(view).screen.data@ == folded.0
                &&& final(view).depth_buffer@ == folded.1
            },
            self.material matches MaterialData::Flat(colors) ==> {
                let pts = inst_points(
                    old(view).distance_d.raw as int,
                    old(view).viewport_width.raw as int,
                    old(view).viewport_height.raw as int,
                    old(view).canvas_width as int,
                    old(view).canvas_height as int,
                    spec_mat_mul(
                        camera,
                        spec_instance_matrix(
                            self.scale,
                            self.r_pitch_sin,
                            self.r_pitch_cos,
                            self.r_yaw_sin,
                            self.r_yaw_cos,
                            self.r_roll_sin,
                            self.r_roll_cos,
                            self.x,
                            self.y,
                            self.z,
                        ),
                    ),
                    self.model.vertices@,
                );
                let count: int = if self.model.triangles@.len() <= colors@.len() {
                    self.model.triangles@.len() as int
                } else {
                    colors@.len() as int
                };
                let folded = flat_fold(
                    old(view).screen.data@,
                    old(view).depth_buffer@,
                    old(view).canvas_width as int,
                    old(view).canvas_height as int,
                    pts,
                    self.model.triangles@,
                    colors@,
                    count,
                );
                &&& final(view).screen.data@ == folded.0
                &&& final(view).depth_buffer@ == folded.1
            },
    {
        let object_to_world = self.transform_matrix();
        let combined = crate::math::col_mat4_mul(&camera, &object_to_world);
        let ghost pts = inst_points(
            old(view).distance_d.raw as int,
            old(view).viewport_width.raw as int,
            old(view).viewport_height.raw as int,
            old(view).canvas_width as int,
            old(view).canvas_height as int,
            spec_mat_mul(
                camera,
                spec_instance_matrix(
                    self.scale,
                    self.r_pitch_sin,
                    self.r_pitch_cos,
                    self.r_yaw_sin,
                    self.r_yaw_cos,
                    self.r_roll_sin,
                    self.r_roll_cos,
                    self.x,
                    self.y,
                    self.z,
                ),
            ),
            self.model.vertices@,
        );
        proof {
            assert(combined.c0 == spec_mat_mul(
                camera,
                spec_instance_matrix(
                    self.scale,
                    self.r_pitch_sin,
                    self.r_pitch_cos,
                    self.r_yaw_sin,
                    self.r_yaw_cos,
                    self.r_roll_sin,
                    self.r_roll_cos,
                    self.x,
                    self.y,
                    self.z,
                ),
            ).c0);
        }
        let n = self.model.vertices.len();
        let mut projected: Vec<((i64, i64), Fx)> = Vec::new();
        let mut vi: usize = 0;
        while vi < n
            invariant
                view.wf(),
                *view == *old(view),
                self.model.wf(),
                combined.bounded(),
                combined == spec_mat_mul(
                    camera,
                    spec_instance_matrix(
                        self.scale,
                        self.r_pitch_sin,
                        self.r_pitch_cos,
                        self.r_yaw_sin,
                        self.r_yaw_cos,
                        self.r_roll_sin,
                        self.r_roll_cos,
                        self.x,
                        self.y,
                        self.z,
                    ),
                ),
                pts == inst_points(
                    old(view).distance_d.raw as int,
                    old(view).viewport_width.raw as int,
                    old(view).viewport_height.raw as int,
                    old(view).canvas_width as int,
                    old(view).canvas_height as int,
                    combined,
                    self.model.vertices@,
                ),
                vi <= n,
                n == self.model.vertices@.len(),
                projected@.len() == vi,
                forall|k: int|
                    0 <= k < vi ==> {
                        &&& -COORD_LIMIT <= (#[trigger] projected@[k]).0.0 <= COORD_LIMIT
                        &&& -COORD_LIMIT <= projected@[k].0.1 <= COORD_LIMIT
                        &&& projected@[k].1.bounded()
                    },
                forall|k: int|
                    0 <= k < vi ==> ((((#[trigger] projected@[k]).0.0 as int, projected@[k].0.1 as int)),
                    projected@[k].1.raw as int) == pts[k],
            decreases n - vi,
        {
            let tv = crate::math::col_mat4_transform(&combined, self.model.vertices[vi]);
            let cx = clamp_proj(tv.x);
            let cy = clamp_proj(tv.y);
            let cz = clamp_proj(tv.z);
            let cw4 = clamp_proj(tv.w);
            let pt = if cz.raw == 0 || cw4.raw == 0 {
                (0i64, 0i64)
            } else {
                view.project_vertex_3d((cx, cy, cz, cw4))
            };
            projected.push((pt, cz));
            vi += 1;
        }
        match &self.material {
            MaterialData::UV(texture) => {
                let tn = self.model.triangles.len();
                let ghost orig_screen = view.screen.data@;
                let ghost orig_depth = view.depth_buffer@;
                let mut ti: usize = 0;
                while ti < tn
                    invariant
                        view.wf(),
                        *view == (Viewport {
                            depth_buffer: view.depth_buffer,
                            screen: view.screen,
                            ..*old(view)
                        }),
                        view.screen.width == old(view).screen.width,
                        view.screen.height == old(view).screen.height,
                        self.model.wf(),
                        self.model.uv_wf(),
                        self.material matches MaterialData::UV(t) ==> t.wf() && t.width >= 1
                            && t.height >= 1,
                        texture.wf() && texture.width >= 1 && texture.height >= 1,
                        ti <= tn,
                        tn == self.model.triangles@.len(),
                        orig_screen == old(view).screen.data@,
                        orig_depth == old(view).depth_buffer@,
                        projected@.len() == self.model.vertices@.len(),
                        pts.len() == self.model.vertices@.len(),
                        forall|k: int|
                            0 <= k < projected@.len() ==> {
                                &&& -COORD_LIMIT <= (#[trigger] projected@[k]).0.0 <= COORD_LIMIT
                                &&& -COORD_LIMIT <= projected@[k].0.1 <= COORD_LIMIT
                                &&& projected@[k].1.bounded()
                            },
                        forall|k: int|
                            0 <= k < projected@.len() ==> ((((#[trigger] projected@[k]).0.0 as int,
                            projected@[k].0.1 as int)), projected@[k].1.raw as int) == pts[k],
                        ({
                            let folded = uv_fold(
                                orig_screen,
                                orig_depth,
                                old(view).canvas_width as int,
                                old(view).canvas_height as int,
                                pts,
                                self.model.triangles@,
                                self.model.uv_map@,
                                texture.width as int,
                                texture.height as int,
                                texture.data@,
                                ti as int,
                            );
                            view.screen.data@ == folded.0 && view.depth_buffer@ == folded.1
                        }),
                    decreases tn - ti,
                {
                    let t = &self.model.triangles[ti];
                    let p0 = projected[t.vertex[0]];
                    let p1 = projected[t.vertex[1]];
                    let p2 = projected[t.vertex[2]];
                    if p0.1.raw != 0 && p1.1.raw != 0 && p2.1.raw != 0 {
                        let uvm0 = self.model.uv_map[t.uv_coord[0]];
                        let uvm1 = self.model.uv_map[t.uv_coord[1]];
                        let uvm2 = self.model.uv_map[t.uv_coord[2]];
                        draw_textured_polygon(
                            view,
                            p0,
                            p1,
                            p2,
                            (uvm0.x, uvm0.y),
                            (uvm1.x, uvm1.y),
                            (uvm2.x, uvm2.y),
                            texture,
                        );
                    }
                    proof {
                        assert(view.screen.data@ == uv_fold(
                            orig_screen,
                            orig_depth,
                            old(view).canvas_width as int,
                            old(view).canvas_height as int,
                            pts,
                            self.model.triangles@,
                            self.model.uv_map@,
                            texture.width as int,
                            texture.height as int,
                            texture.data@,
                            ti + 1,
                        ).0);
                        assert(view.depth_buffer@ == uv_fold(
                            orig_screen,
                            orig_depth,
                            old(view).canvas_width as int,
                            old(view).canvas_height as int,
                            pts,
                            self.model.triangles@,
                            self.model.uv_map@,
                            texture.width as int,
                            texture.height as int,
                            texture.data@,
                            ti + 1,
                        ).1);
                    }
                    ti += 1;
                }
            },
            MaterialData::Flat(colors) => {
                let tn = self.model.triangles.len();
                let cn = colors.len();
                let count = if tn < cn {
                    tn
                } else {
                    cn
                };
                let ghost orig_screen = view.screen.data@;
                let ghost orig_depth = view.depth_buffer@;
                let mut ti: usize = 0;
                while ti < count
                    invariant
                        view.wf(),
                        *view == (Viewport {
                            depth_buffer: view.depth_buffer,
                            screen: view.screen,
                            ..*old(view)
                        }),
                        view.screen.width == old(view).screen.width,
                        view.screen.height == old(view).screen.height,
                        self.model.wf(),
                        ti <= count,
                        count <= tn,
                        count <= cn,
                        count as int == (if self.model.triangles@.len() <= colors@.len() {
                            self.model.triangles@.len() as int
                        } else {
                            colors@.len() as int
                        }),
                        tn == self.model.triangles@.len(),
                        cn == colors@.len(),
                        orig_screen == old(view).screen.data@,
                        orig_depth == old(view).depth_buffer@,
                        projected@.len() == self.model.vertices@.len(),
                        pts.len() == self.model.vertices@.len(),
                        forall|k: int|
                            0 <= k < projected@.len() ==> {
                                &&& -COORD_LIMIT <= (#[trigger] projected@[k]).0.0 <= COORD_LIMIT
                                &&& -COORD_LIMIT <= projected@[k].0.1 <= COORD_LIMIT
                                &&& projected@[k].1.bounded()
                            },
                        forall|k: int|
                            0 <= k < projected@.len() ==> ((((#[trigger] projected@[k]).0.0 as int,
                            projected@[k].0.1 as int)), projected@[k].1.raw as int) == pts[k],
                        ({
                            let folded = flat_fold(
                                orig_screen,
                                orig_depth,
                                old(view).canvas_width as int,
                                old(view).canvas_height as int,
                                pts,
                                self.model.triangles@,
                                colors@,
                                ti as int,
                            );
                            view.screen.data@ == folded.0 && view.depth_buffer@ == folded.1
                        }),
                    decreases count - ti,
                {
                    let t = &self.model.triangles[ti];
                    let p0 = projected[t.vertex[0]];
                    let p1 = projected[t.vertex[1]];
                    let p2 = projected[t.vertex[2]];
                    if p0.1.raw != 0 && p1.1.raw != 0 && p2.1.raw != 0 {
                        draw_filled_polygon(view, p0, p1, p2, colors[ti]);
                    }
                    proof {
                        assert(view.screen.data@ == flat_fold(
                            orig_screen,
                            orig_depth,
                            old(view).canvas_width as int,
                            old(view).canvas_height as int,
                            pts,
                            self.model.triangles@,
                            colors@,
                            ti + 1,
                        ).0);
                        assert(view.depth_buffer@ == flat_fold(
                            orig_screen,
                            orig_depth,
                            old(view).canvas_width as int,
                            old(view).canvas_height as int,
                            pts,
                            self.model.triangles@,
                            colors@,
                            ti + 1,
                        ).1);
                    }
                    ti += 1;
                }
            },
        }
    }
}

} // verus!
