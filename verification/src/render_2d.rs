use vstd::prelude::*;

use crate::bitmaps::{Bitmap, DIM_MAX};
use crate::colors::Color;
use crate::fixed::{
    div_trunc, div_wide, fx_add, fx_mul, fx_neg, fx_sub, lemma_mul_abs_le, Fx, FX_RAW_MAX,
    FX_SCALE,
};
use crate::math::{col_mat3_transform, Mat3, Vec3};
use crate::primitives::{pix_index, pix_visible, putpixel, COORD_LIMIT};

verus! {

/// Largest raw magnitude accepted for the coordinates handed to the
/// projection (keeps every intermediate product within 128 bits).
pub const PROJ_RAW_MAX: i64 = 1099511627776;

/// A render target: a canvas pixel buffer and its depth buffer, with the
/// projection parameters used to map camera space onto the canvas.
///
/// The depth buffer stores reciprocal depths (`1/z`, larger is nearer) as
/// raw fixed-point values; `0` means nothing has been drawn there yet, and
/// every visible reciprocal depth is positive, so an empty cell reads as
/// infinitely far.
pub struct Viewport {
    pub canvas_width: usize,
    pub canvas_height: usize,
    pub viewport_width: Fx,
    pub viewport_height: Fx,
    pub distance_d: Fx,
    pub background_color: Color,
    pub depth_buffer: Vec<i64>,
    pub screen: Bitmap,
}

/// Whether a candidate reciprocal depth `z` wins the depth test at canvas
/// coordinate `(x, y)`: the pixel is visible and `z` is strictly nearer
/// than what the depth buffer holds.
pub open spec fn depth_passes(depth: Seq<i64>, w: int, h: int, x: int, y: int, z: int) -> bool {
    &&& pix_visible(w, h, x, y)
    &&& z > depth[pix_index(w, h, x, y)]
}

/// Projected canvas coordinate of camera-space `x` at depth `z`:
/// `x * d / z` mapped by the canvas/viewport ratio `c / v`, truncated
/// toward zero. All arguments are raw fixed-point values except the pixel
/// count `c`.
pub open spec fn spec_project(x: int, d: int, z: int, v: int, c: int) -> int {
    let num = x * d * c;
    let den = z * v;
    if den > 0 {
        div_trunc(num, den)
    } else {
        -div_trunc(num, -den)
    }
}

/// Projected canvas coordinate for a homogeneous 4-component position: the
/// depth divisor is `z * w`.
pub open spec fn spec_project_h(x: int, d: int, z: int, hw: int, v: int, c: int) -> int {
    let num = x * d * c * (FX_SCALE as int);
    let den = z * hw * v;
    if den > 0 {
        div_trunc(num, den)
    } else {
        -div_trunc(num, -den)
    }
}

/// Saturates a projected coordinate into the range the rasterizer accepts.
pub open spec fn clamp_coord(x: int) -> int {
    if x > COORD_LIMIT {
        COORD_LIMIT as int
    } else if x < -(COORD_LIMIT as int) {
        -(COORD_LIMIT as int)
    } else {
        x
    }
}

/// Canvas coordinate of a viewport-space coordinate: scaled by the
/// canvas/viewport size ratio and truncated toward zero.
pub open spec fn spec_viewport_to_canvas(x: int, v: int, c: int) -> int {
    div_trunc(x * c, v)
}

impl Viewport {
    /// Well-formedness: both buffers fully allocated at the same bounded
    /// dimensions, and usable projection parameters.
    pub open spec fn wf(self) -> bool {
        &&& self.screen.wf()
        &&& self.screen.width == self.canvas_width
        &&& self.screen.height == self.canvas_height
        &&& self.depth_buffer@.len() == self.screen.data@.len()
        &&& forall|i: int| 0 <= i < self.depth_buffer@.len() ==> #[trigger] self.depth_buffer@[i] >= 0
        &&& 0 < self.viewport_width.raw <= FX_RAW_MAX
        &&& 0 < self.viewport_height.raw <= FX_RAW_MAX
        &&& self.distance_d.bounded()
    }

    /// Builds a viewport: a canvas cleared to the background color and a
    /// depth buffer cleared to 0 (nothing drawn).
    pub fn new(
        canvas_width: usize,
        canvas_height: usize,
        viewport_width: Fx,
        viewport_height: Fx,
        distance_d: Fx,
        background_color: Color,
    ) -> (r: Viewport)
        requires
            canvas_width <= DIM_MAX,
            canvas_height <= DIM_MAX,
            0 < viewport_width.raw <= FX_RAW_MAX,
            0 < viewport_height.raw <= FX_RAW_MAX,
            distance_d.bounded(),
        ensures
            r.wf(),
            r.canvas_width == canvas_width,
            r.canvas_height == canvas_height,
            r.viewport_width == viewport_width,
            r.viewport_height == viewport_height,
            r.distance_d == distance_d,
            r.background_color == background_color,
            r.screen.data@ == Seq::new(
                ((canvas_width as int) * (canvas_height as int)) as nat,
                |i: int| background_color,
            ),
            r.depth_buffer@ == Seq::new(
                ((canvas_width as int) * (canvas_height as int)) as nat,
                |i: int| 0i64,
            ),
    {
        proof {
            lemma_mul_abs_le(canvas_width as int, canvas_height as int, DIM_MAX as int, DIM_MAX as int);
        }
        let n = canvas_width * canvas_height;
        let mut data: Vec<Color> = Vec::new();
        let mut depth: Vec<i64> = Vec::new();
        let mut i: usize = 0;
        while i < n
            invariant
                i <= n,
                data@.len() == i,
                depth@.len() == i,
                forall|k: int| 0 <= k < i ==> data@[k] == background_color,
                forall|k: int| 0 <= k < i ==> depth@[k] == 0i64,
            decreases n - i,
        {
            data.push(background_color);
            depth.push(0);
            i += 1;
        }
        proof {
            assert(data@ =~= Seq::new(n as nat, |i: int| background_color));
            assert(depth@ =~= Seq::new(n as nat, |i: int| 0i64));
        }
        Viewport {
            canvas_width,
            canvas_height,
            viewport_width,
            viewport_height,
            distance_d,
            background_color,
            depth_buffer: depth,
            screen: Bitmap { width: canvas_width, height: canvas_height, data },
        }
    }

    /// Resets every pixel to the background color and every depth cell to 0,
    /// at the start of a frame.
    pub fn clear_screen(&mut self)
        requires
            old(self).wf(),
        ensures
            final(self).wf(),
            final(self).canvas_width == old(self).canvas_width,
            final(self).canvas_height == old(self).canvas_height,
            final(self).viewport_width == old(self).viewport_width,
            final(self).viewport_height == old(self).viewport_height,
            final(self).distance_d == old(self).distance_d,
            final(self).background_color == old(self).background_color,
            final(self).screen.width == old(self).screen.width,
            final(self).screen.height == old(self).screen.height,
            final(self).screen.data@ == Seq::new(
                old(self).screen.data@.len(),
                |i: int| old(self).background_color,
            ),
            final(self).depth_buffer@ == Seq::new(old(self).depth_buffer@.len(), |i: int| 0i64),
    {
        let n = self.screen.data.len();
        let bg = self.background_color;
        let mut i: usize = 0;
        while i < n
            invariant
                i <= n,
                self.canvas_width == old(self).canvas_width,
                self.canvas_height == old(self).canvas_height,
                self.viewport_width == old(self).viewport_width,
                self.viewport_height == old(self).viewport_height,
                self.distance_d == old(self).distance_d,
                self.background_color == old(self).background_color,
                self.screen.width == old(self).screen.width,
                self.screen.height == old(self).screen.height,
                self.screen.data@.len() == n,
                n == old(self).screen.data@.len(),
                self.depth_buffer@.len() == old(self).depth_buffer@.len(),
                n == self.depth_buffer@.len(),
                bg == old(self).background_color,
                forall|k: int| 0 <= k < i ==> self.screen.data@[k] == bg,
                forall|k: int| i <= k < n ==> self.screen.data@[k] == old(self).screen.data@[k],
                forall|k: int| 0 <= k < i ==> self.depth_buffer@[k] == 0i64,
                forall|k: int| i <= k < n ==> self.depth_buffer@[k] == old(self).depth_buffer@[k],
            decreases n - i,
        {
            self.screen.data.set(i, bg);
            self.depth_buffer.set(i, 0);
            i += 1;
        }
        proof {
            assert(self.screen.data@ =~= Seq::new(
                old(self).screen.data@.len(),
                |i: int| old(self).background_color,
            ));
            assert(self.depth_buffer@ =~= Seq::new(old(self).depth_buffer@.len(), |i: int| 0i64));
        }
    }

    /// Maps a viewport-space coordinate to a canvas pixel coordinate by the
    /// canvas-to-viewport size ratio, truncating toward zero.
    pub fn viewport_to_canvas(&self, x: Fx, y: Fx) -> (r: (i64, i64))
        requires
            self.wf(),
            -PROJ_RAW_MAX <= x.raw <= PROJ_RAW_MAX,
            -PROJ_RAW_MAX <= y.raw <= PROJ_RAW_MAX,
        ensures
            r.0 == spec_viewport_to_canvas(
                x.raw as int,
                self.viewport_width.raw as int,
                self.canvas_width as int,
            ),
            r.1 == spec_viewport_to_canvas(
                y.raw as int,
                self.viewport_height.raw as int,
                self.canvas_height as int,
            ),
    {
        proof {
            lemma_mul_abs_le(x.raw as int, self.canvas_width as int, PROJ_RAW_MAX as int, DIM_MAX as int);
            lemma_mul_abs_le(y.raw as int, self.canvas_height as int, PROJ_RAW_MAX as int, DIM_MAX as int);
        }
        let cx = div_wide(
            (x.raw as i128) * (self.canvas_width as i128),
            self.viewport_width.raw as i128,
        );
        let cy = div_wide(
            (y.raw as i128) * (self.canvas_height as i128),
            self.viewport_height.raw as i128,
        );
        (cx as i64, cy as i64)
    }

    /// Projects a camera-space point to a canvas coordinate: perspective
    /// division by `z` scaled by the projection distance, then the
    /// viewport-to-canvas mapping; saturated at the rasterizer's coordinate
    /// limit.
    pub fn project_vertex(&self, v: (Fx, Fx, Fx)) -> (r: (i64, i64))
        requires
            self.wf(),
            -PROJ_RAW_MAX <= v.0.raw <= PROJ_RAW_MAX,
            -PROJ_RAW_MAX <= v.1.raw <= PROJ_RAW_MAX,
            -PROJ_RAW_MAX <= v.2.raw <= PROJ_RAW_MAX,
            v.2.raw != 0,
        ensures
            r.0 == clamp_coord(
                spec_project(
                    v.0.raw as int,
                    self.distance_d.raw as int,
                    v.2.raw as int,
                    self.viewport_width.raw as int,
                    self.canvas_width as int,
                ),
            ),
            r.1 == clamp_coord(
                spec_project(
                    v.1.raw as int,
                    self.distance_d.raw as int,
                    v.2.raw as int,
                    self.viewport_height.raw as int,
                    self.canvas_height as int,
                ),
            ),
            -COORD_LIMIT <= r.0 <= COORD_LIMIT,
            -COORD_LIMIT <= r.1 <= COORD_LIMIT,
    {
        let cx = project_axis(
            v.0,
            self.distance_d,
            v.2,
            Fx { raw: 0 },
            self.viewport_width,
            self.canvas_width,
            false,
        );
        let cy = project_axis(
            v.1,
            self.distance_d,
            v.2,
            Fx { raw: 0 },
            self.viewport_height,
            self.canvas_height,
            false,
        );
        (cx, cy)
    }

    /// Projects a homogeneous camera-space position to a canvas coordinate;
    /// the depth divisor is `z * w`. Saturated at the rasterizer's
    /// coordinate limit.
    pub fn project_vertex_3d(&self, v: (Fx, Fx, Fx, Fx)) -> (r: (i64, i64))
        requires
            self.wf(),
            -PROJ_RAW_MAX <= v.0.raw <= PROJ_RAW_MAX,
            -PROJ_RAW_MAX <= v.1.raw <= PROJ_RAW_MAX,
            -PROJ_RAW_MAX <= v.2.raw <= PROJ_RAW_MAX,
            -PROJ_RAW_MAX <= v.3.raw <= PROJ_RAW_MAX,
            v.2.raw != 0,
            v.3.raw != 0,
        ensures
            r.0 == clamp_coord(
                spec_project_h(
                    v.0.raw as int,
                    self.distance_d.raw as int,
                    v.2.raw as int,
                    v.3.raw as int,
                    self.viewport_width.raw as int,
                    self.canvas_width as int,
                ),
            ),
            r.1 == clamp_coord(
                spec_project_h(
                    v.1.raw as int,
                    self.distance_d.raw as int,
                    v.2.raw as int,
                    v.3.raw as int,
                    self.viewport_height.raw as int,
                    self.canvas_height as int,
                ),
            ),
            -COORD_LIMIT <= r.0 <= COORD_LIMIT,
            -COORD_LIMIT <= r.1 <= COORD_LIMIT,
    {
        let cx = project_axis(
            v.0,
            self.distance_d,
            v.2,
            v.3,
            self.viewport_width,
            self.canvas_width,
            true,
        );
        let cy = project_axis(
            v.1,
            self.distance_d,
            v.2,
            v.3,
            self.viewport_height,
            self.canvas_height,
            true,
        );
        (cx, cy)
    }

    /// Reads the depth cell for canvas coordinate `(x, y)`; `None` when the
    /// coordinate falls outside the buffer.
    pub fn get_dbuff_val(&self, x: i64, y: i64) -> (r: Option<i64>)
        requires
            self.wf(),
        ensures
            pix_visible(self.canvas_width as int, self.canvas_height as int, x as int, y as int)
                ==> r == Some(
                self.depth_buffer@[pix_index(
                    self.canvas_width as int,
                    self.canvas_height as int,
                    x as int,
                    y as int,
                )],
            ),
            !pix_visible(self.canvas_width as int, self.canvas_height as int, x as int, y as int)
                ==> r is None,
    {
        let w = self.canvas_width;
        let h = self.canvas_height;
        let w2 = (w / 2) as i64;
        let ghost wi = w as int;
        let ghost hi = h as int;
        if x < w2 && -w2 <= x {
            let xi = w2 + x;
            let yi = ((h / 2) as i128) - (y as i128);
            proof {
                lemma_mul_abs_le(yi as int, w as int, 0x20000000000000000int, 32768);
            }
            let idx = yi * (w as i128) + (xi as i128);
            proof {
                assert(0 <= xi < wi);
                if 0 <= yi < hi {
                    assert(0 <= yi * wi + xi < hi * wi) by (nonlinear_arith)
                        requires
                            0 <= xi < wi,
                            0 <= yi < hi,
                    ;
                    assert(pix_visible(wi, hi, x as int, y as int));
                } else {
                    assert(yi * wi + xi < 0 || yi * wi + xi >= hi * wi) by (nonlinear_arith)
                        requires
                            0 <= xi < wi,
                            !(0 <= yi < hi),
                    ;
                    assert(!pix_visible(wi, hi, x as int, y as int));
                }
            }
            if 0 <= idx && idx < self.depth_buffer.len() as i128 {
                Some(self.depth_buffer[idx as usize])
            } else {
                None
            }
        } else {
            None
        }
    }

    /// Writes the depth cell for canvas coordinate `(x, y)`; writes outside
    /// the buffer are dropped. Reciprocal depths are nonnegative (0 marks an
    /// empty cell).
    pub fn set_dbuff_val(&mut self, x: i64, y: i64, val: i64)
        requires
            old(self).wf(),
            val >= 0,
        ensures
            final(self).wf(),
            *final(self) == (Viewport { depth_buffer: final(self).depth_buffer, ..*old(self) }),
            pix_visible(
                old(self).canvas_width as int,
                old(self).canvas_height as int,
                x as int,
                y as int,
            ) ==> final(self).depth_buffer@ == old(self).depth_buffer@.update(
                pix_index(
                    old(self).canvas_width as int,
                    old(self).canvas_height as int,
                    x as int,
                    y as int,
                ),
                val,
            ),
            !pix_visible(
                old(self).canvas_width as int,
                old(self).canvas_height as int,
                x as int,
                y as int,
            ) ==> final(self).depth_buffer@ == old(self).depth_buffer@,
    {
        let w = self.canvas_width;
        let h = self.canvas_height;
        let w2 = (w / 2) as i64;
        let ghost wi = w as int;
        let ghost hi = h as int;
        if x < w2 && -w2 <= x {
            let xi = w2 + x;
            let yi = ((h / 2) as i128) - (y as i128);
            proof {
                lemma_mul_abs_le(yi as int, w as int, 0x20000000000000000int, 32768);
            }
            let idx = yi * (w as i128) + (xi as i128);
            proof {
                assert(0 <= xi < wi);
                if 0 <= yi < hi {
                    assert(0 <= yi * wi + xi < hi * wi) by (nonlinear_arith)
                        requires
                            0 <= xi < wi,
                            0 <= yi < hi,
                    ;
                    assert(pix_visible(wi, hi, x as int, y as int));
                } else {
                    assert(yi * wi + xi < 0 || yi * wi + xi >= hi * wi) by (nonlinear_arith)
                        requires
                            0 <= xi < wi,
                            !(0 <= yi < hi),
                    ;
                    assert(!pix_visible(wi, hi, x as int, y as int));
                }
            }
            if 0 <= idx && idx < self.depth_buffer.len() as i128 {
                self.depth_buffer.set(idx as usize, val);
            }
        }
    }

    /// The per-pixel depth-tested write: draws `color` at `(x, y)` and
    /// stores the candidate reciprocal depth `z`, but only if `(x, y)` is on
    /// the canvas and `z` is strictly nearer than the stored depth.
    pub fn put_pixel_if_nearer(&mut self, x: i64, y: i64, z: i64, color: Color)
        requires
            old(self).wf(),
        ensures
            final(self).wf(),
            *final(self) == (Viewport {
                depth_buffer: final(self).depth_buffer,
                screen: final(self).screen,
                ..*old(self)
            }),
            final(self).screen.width == old(self).screen.width,
            final(self).screen.height == old(self).screen.height,
            depth_passes(
                old(self).depth_buffer@,
                old(self).canvas_width as int,
                old(self).canvas_height as int,
                x as int,
                y as int,
                z as int,
            ) ==> {
                &&& final(self).screen.data@ == old(self).screen.data@.update(
                    pix_index(
                        old(self).canvas_width as int,
                        old(self).canvas_height as int,
                        x as int,
                        y as int,
                    ),
                    color,
                )
                &&& final(self).depth_buffer@ == old(self).depth_buffer@.update(
                    pix_index(
                        old(self).canvas_width as int,
                        old(self).canvas_height as int,
                        x as int,
                        y as int,
                    ),
                    z,
                )
            },
            !depth_passes(
                old(self).depth_buffer@,
                old(self).canvas_width as int,
                old(self).canvas_height as int,
                x as int,
                y as int,
                z as int,
            ) ==> {
                &&& final(self).screen.data@ == old(self).screen.data@
                &&& final(self).depth_buffer@ == old(self).depth_buffer@
            },
    {
        let dval = self.get_dbuff_val(x, y);
        if let Some(d) = dval {
            if z > d {
                proof {
                    crate::primitives::lemma_pix_index_bounds(
                        self.canvas_width as int,
                        self.canvas_height as int,
                        x as int,
                        y as int,
                    );
                }
                putpixel(&mut self.screen, x, y, color);
                self.set_dbuff_val(x, y, z);
            }
        }
    }
}

/// One projected axis: `x * d * c` over the depth divisor (`z`, or `z * w`
/// in the homogeneous path) times the viewport size, truncated toward zero
/// and saturated at the rasterizer's coordinate limit.
fn project_axis(x: Fx, d: Fx, z: Fx, hw: Fx, v: Fx, c: usize, homogeneous: bool) -> (r: i64)
    requires
        -PROJ_RAW_MAX <= x.raw <= PROJ_RAW_MAX,
        -PROJ_RAW_MAX <= z.raw <= PROJ_RAW_MAX,
        -PROJ_RAW_MAX <= hw.raw <= PROJ_RAW_MAX,
        d.bounded(),
        0 < v.raw <= FX_RAW_MAX,
        c <= DIM_MAX,
        z.raw != 0,
        homogeneous ==> hw.raw != 0,
    ensures
        !homogeneous ==> r == clamp_coord(
            spec_project(x.raw as int, d.raw as int, z.raw as int, v.raw as int, c as int),
        ),
        homogeneous ==> r == clamp_coord(
            spec_project_h(
                x.raw as int,
                d.raw as int,
                z.raw as int,
                hw.raw as int,
                v.raw as int,
                c as int,
            ),
        ),
        -COORD_LIMIT <= r <= COORD_LIMIT,
{
    proof {
        lemma_mul_abs_le(x.raw as int, d.raw as int, PROJ_RAW_MAX as int, FX_RAW_MAX as int);
        lemma_mul_abs_le(
            x.raw as int * d.raw as int,
            c as int,
            PROJ_RAW_MAX as int * FX_RAW_MAX as int,
            DIM_MAX as int,
        );
        lemma_mul_abs_le(
            x.raw as int * d.raw as int * c as int,
            FX_SCALE as int,
            PROJ_RAW_MAX as int * FX_RAW_MAX as int * DIM_MAX as int,
            FX_SCALE as int,
        );
        lemma_mul_abs_le(z.raw as int, hw.raw as int, PROJ_RAW_MAX as int, PROJ_RAW_MAX as int);
        lemma_mul_abs_le(
            z.raw as int * hw.raw as int,
            v.raw as int,
            PROJ_RAW_MAX as int * PROJ_RAW_MAX as int,
            FX_RAW_MAX as int,
        );
        lemma_mul_abs_le(z.raw as int, v.raw as int, PROJ_RAW_MAX as int, FX_RAW_MAX as int);
    }
    let num0 = (x.raw as i128) * (d.raw as i128) * (c as i128);
    let num = if homogeneous {
        num0 * (FX_SCALE as i128)
    } else {
        num0
    };
    let den = if homogeneous {
        proof {
            assert(z.raw as int * hw.raw as int != 0) by (nonlinear_arith)
                requires
                    z.raw != 0,
                    hw.raw != 0,
            ;
        }
        (z.raw as i128) * (hw.raw as i128) * (v.raw as i128)
    } else {
        (z.raw as i128) * (v.raw as i128)
    };
    proof {
        if homogeneous {
            assert(z.raw as int * hw.raw as int * v.raw as int != 0) by (nonlinear_arith)
                requires
                    z.raw as int * hw.raw as int != 0,
                    v.raw > 0,
            ;
        } else {
            assert(z.raw as int * v.raw as int != 0) by (nonlinear_arith)
                requires
                    z.raw != 0,
                    v.raw > 0,
            ;
        }
    }
    let q = div_wide(num, den);
    if q > COORD_LIMIT as i128 {
        COORD_LIMIT
    } else if q < -(COORD_LIMIT as i128) {
        -COORD_LIMIT
    } else {
        q as i64
    }
}

/// Once a pixel is written at reciprocal depth `z1`, no candidate at a
/// reciprocal depth at most `z1` passes the depth test there again: later
/// writes can only come from strictly nearer geometry.
pub proof fn lemma_depth_test_monotonic(
    depth: Seq<i64>,
    w: int,
    h: int,
    x: int,
    y: int,
    z1: i64,
    z2: i64,
)
    requires
        0 <= pix_index(w, h, x, y) < depth.len(),
        z2 <= z1,
    ensures
        !depth_passes(depth.update(pix_index(w, h, x, y), z1), w, h, x, y, z2 as int),
{
}

/// A camera-space point on the view axis (`x == y == 0`) projects to canvas
/// coordinate `(0, 0)` at any nonzero depth, and that coordinate maps to
/// storage index `(h/2) * w + w/2`.
pub proof fn lemma_center_round_trip(d: int, z: int, v: int, c: int, w: int, h: int)
    requires
        z != 0,
        v > 0,
    ensures
        clamp_coord(spec_project(0, d, z, v, c)) == 0,
        pix_index(w, h, 0, 0) == (h / 2) * w + w / 2,
{
    let den = z * v;
    assert(den != 0) by (nonlinear_arith)
        requires
            den == z * v,
            z != 0,
            v > 0,
    ;
    assert(0 * d * c == 0);
    if den > 0 {
        assert(div_trunc(0, den) == 0) by (nonlinear_arith)
            requires
                den > 0,
        ;
    } else {
        assert(div_trunc(0, -den) == 0) by (nonlinear_arith)
            requires
                den < 0,
        ;
    }
    assert(spec_project(0, d, z, v, c) == 0);
}

/// A 2D drawable surface: anything that can apply one matrix can also
/// translate, scale and rotate, so those three come as derived operations
/// over the one required `m_multiply`.
pub trait Surface2D: Sized {
    /// Whether every coordinate of the surface is within the representable
    /// range.
    spec fn coords_bounded(&self) -> bool;

    /// Applies a 3x3 transform to every coordinate of the surface.
    fn m_multiply(&self, mat: Mat3) -> Self
        requires
            mat.bounded(),
            self.coords_bounded(),
    ;

    /// Moves the surface by `(x, y)`.
    fn translate(&self, x: Fx, y: Fx) -> Self
        requires
            x.bounded(),
            y.bounded(),
            self.coords_bounded(),
    {
        let o = Fx { raw: 0 };
        let one = Fx { raw: FX_SCALE };
        let tmat = Mat3 {
            c0: Vec3 { x: one, y: o, z: o },
            c1: Vec3 { x: o, y: one, z: o },
            c2: Vec3 { x, y, z: one },
        };
        self.m_multiply(tmat)
    }

    /// Scales the surface by `(s_x, s_y)` about the pivot `(p_x, p_y)`.
    fn scale(&self, s_x: Fx, s_y: Fx, p_x: Fx, p_y: Fx) -> Self
        requires
            s_x.bounded(),
            s_y.bounded(),
            p_x.bounded(),
            p_y.bounded(),
            self.coords_bounded(),
    {
        let o = Fx { raw: 0 };
        let one = Fx { raw: FX_SCALE };
        let smat = Mat3 {
            c0: Vec3 { x: s_x, y: o, z: o },
            c1: Vec3 { x: o, y: s_y, z: o },
            c2: Vec3 {
                x: fx_mul(p_x, fx_sub(one, s_x)),
                y: fx_mul(p_y, fx_sub(one, s_y)),
                z: one,
            },
        };
        self.m_multiply(smat)
    }

    /// Rotates the surface about the pivot `(p_x, p_y)`; the angle is given
    /// by its sine and cosine, which the caller computes.
    fn rotate(&self, sin_a: Fx, cos_a: Fx, p_x: Fx, p_y: Fx) -> Self
        requires
            sin_a.bounded(),
            cos_a.bounded(),
            p_x.bounded(),
            p_y.bounded(),
            self.coords_bounded(),
    {
        let o = Fx { raw: 0 };
        let one = Fx { raw: FX_SCALE };
        let rmat = Mat3 {
            c0: Vec3 { x: cos_a, y: sin_a, z: o },
            c1: Vec3 { x: fx_neg(sin_a), y: cos_a, z: o },
            c2: Vec3 {
                x: fx_add(fx_mul(p_x, fx_sub(one, cos_a)), fx_mul(p_y, sin_a)),
                y: fx_sub(fx_mul(p_y, fx_sub(one, cos_a)), fx_mul(p_x, sin_a)),
                z: one,
            },
        };
        self.m_multiply(rmat)
    }
}

/// A 2D triangle with homogeneous coordinates.
#[derive(Clone, Copy, Debug, PartialEq, Eq, Structural)]
pub struct Polygon2D {
    pub a: Vec3,
    pub b: Vec3,
    pub c: Vec3,
}

impl Polygon2D {
    /// Every coordinate within the representable range, with usable depth
    /// components for projection.
    pub open spec fn projectable(self) -> bool {
        &&& -PROJ_RAW_MAX <= self.a.x.raw <= PROJ_RAW_MAX
        &&& -PROJ_RAW_MAX <= self.a.y.raw <= PROJ_RAW_MAX
        &&& -PROJ_RAW_MAX <= self.a.z.raw <= PROJ_RAW_MAX
        &&& -PROJ_RAW_MAX <= self.b.x.raw <= PROJ_RAW_MAX
        &&& -PROJ_RAW_MAX <= self.b.y.raw <= PROJ_RAW_MAX
        &&& -PROJ_RAW_MAX <= self.b.z.raw <= PROJ_RAW_MAX
        &&& -PROJ_RAW_MAX <= self.c.x.raw <= PROJ_RAW_MAX
        &&& -PROJ_RAW_MAX <= self.c.y.raw <= PROJ_RAW_MAX
        &&& -PROJ_RAW_MAX <= self.c.z.raw <= PROJ_RAW_MAX
        &&& self.a.z.raw != 0
        &&& self.b.z.raw != 0
        &&& self.c.z.raw != 0
    }
}

/// The projected canvas point of one 2D homogeneous vertex.
pub open spec fn spec_project_v3(view: Viewport, v: Vec3) -> (int, int) {
    (
        clamp_coord(
            spec_project(
                v.x.raw as int,
                view.distance_d.raw as int,
                v.z.raw as int,
                view.viewport_width.raw as int,
                view.canvas_width as int,
            ),
        ),
        clamp_coord(
            spec_project(
                v.y.raw as int,
                view.distance_d.raw as int,
                v.z.raw as int,
                view.viewport_height.raw as int,
                view.canvas_height as int,
            ),
        ),
    )
}

impl Polygon2D {
    /// Projects the three vertices, fills the triangle with `color`, then
    /// draws its edges in black over the fill.
    pub fn draw(&self, view: &mut Viewport, color: Color)
        requires
            old(view).wf(),
            self.projectable(),
        ensures
            final(view).wf(),
            *final(view) == (Viewport { screen: final(view).screen, ..*old(view) }),
            final(view).screen.width == old(view).screen.width,
            final(view).screen.height == old(view).screen.height,
            final(view).screen.data@ == crate::primitives::wireframe_image(
                crate::primitives::tri_fill_image(
                    old(view).screen.data@,
                    old(view).canvas_width as int,
                    old(view).canvas_height as int,
                    spec_project_v3(*old(view), self.a),
                    spec_project_v3(*old(view), self.b),
                    spec_project_v3(*old(view), self.c),
                    color,
                ),
                old(view).canvas_width as int,
                old(view).canvas_height as int,
                spec_project_v3(*old(view), self.a),
                spec_project_v3(*old(view), self.b),
                spec_project_v3(*old(view), self.c),
                crate::colors::spec_pack_rgba(0, 0, 0, 0),
            ),
    {
        let pa = view.project_vertex((self.a.x, self.a.y, self.a.z));
        let pb = view.project_vertex((self.b.x, self.b.y, self.b.z));
        let pc = view.project_vertex((self.c.x, self.c.y, self.c.z));
        let black = crate::colors::from_u8_rgb(0, 0, 0);
        crate::primitives::draw_filled_triangle(&mut view.screen, pa, pb, pc, color);
        crate::primitives::draw_wireframe_triangle(&mut view.screen, pa, pb, pc, black);
    }
}

impl Surface2D for Polygon2D {
    open spec fn coords_bounded(&self) -> bool {
        self.a.bounded() && self.b.bounded() && self.c.bounded()
    }

    fn m_multiply(&self, mat: Mat3) -> Polygon2D {
        Polygon2D {
            a: col_mat3_transform(&mat, self.a),
            b: col_mat3_transform(&mat, self.b),
            c: col_mat3_transform(&mat, self.c),
        }
    }
}

/// A 2D triangle with a texture and per-vertex UV coordinates (the UV
/// triangle's z components divide the u and v at draw time).
pub struct TexturedPolygon2D<'texture> {
    pub coords: Polygon2D,
    pub texture: &'texture Bitmap,
    pub uv_map: Polygon2D,
}


/// The screen after one textured 2D triangle is drawn onto `dst`: the three
/// coordinates projected, each UV divided by its homogeneous component, and
/// the triangle filled from the texture.
pub open spec fn spec_textured_poly_image<'t>(
    view: Viewport,
    p: TexturedPolygon2D<'t>,
    dst: Seq<Color>,
) -> Seq<Color> {
    let pa = spec_project_v3(view, p.coords.a);
    let pb = spec_project_v3(view, p.coords.b);
    let pc = spec_project_v3(view, p.coords.c);
    let ua = (
        Fx { raw: crate::fixed::spec_fx_div(p.uv_map.a.x.raw as int, p.uv_map.a.z.raw as int) as i64 },
        Fx { raw: crate::fixed::spec_fx_div(p.uv_map.a.y.raw as int, p.uv_map.a.z.raw as int) as i64 },
    );
    let ub = (
        Fx { raw: crate::fixed::spec_fx_div(p.uv_map.b.x.raw as int, p.uv_map.b.z.raw as int) as i64 },
        Fx { raw: crate::fixed::spec_fx_div(p.uv_map.b.y.raw as int, p.uv_map.b.z.raw as int) as i64 },
    );
    let uc = (
        Fx { raw: crate::fixed::spec_fx_div(p.uv_map.c.x.raw as int, p.uv_map.c.z.raw as int) as i64 },
        Fx { raw: crate::fixed::spec_fx_div(p.uv_map.c.y.raw as int, p.uv_map.c.z.raw as int) as i64 },
    );
    let st = crate::primitives::spec_tex2_sorted(
        (pa.0 as i64, pa.1 as i64),
        (pb.0 as i64, pb.1 as i64),
        (pc.0 as i64, pc.1 as i64),
        ua,
        ub,
        uc,
        p.texture.width as int,
        p.texture.height as int,
    );
    crate::primitives::tex2_fill_screen(
        dst,
        view.canvas_width as int,
        view.canvas_height as int,
        st.0.0,
        st.0.1,
        st.0.2,
        st.1.0,
        st.1.1,
        p.texture.width as int,
        p.texture.height as int,
        p.texture.data@,
    )
}

impl<'texture> TexturedPolygon2D<'texture> {
    /// Drawable: projectable coordinates, a usable texture, and nonzero UV
    /// divisors.
    pub open spec fn drawable(self) -> bool {
        &&& self.coords.projectable()
        &&& self.texture.wf()
        &&& self.texture.width >= 1
        &&& self.texture.height >= 1
        &&& self.uv_map.a.x.bounded() && self.uv_map.a.y.bounded() && self.uv_map.a.z.bounded()
        &&& self.uv_map.b.x.bounded() && self.uv_map.b.y.bounded() && self.uv_map.b.z.bounded()
        &&& self.uv_map.c.x.bounded() && self.uv_map.c.y.bounded() && self.uv_map.c.z.bounded()
        &&& self.uv_map.a.z.raw != 0
        &&& self.uv_map.b.z.raw != 0
        &&& self.uv_map.c.z.raw != 0
    }

    /// Projects the three vertices and fills the triangle from the texture,
    /// each vertex's UV coordinate divided by its homogeneous component.
    pub fn draw(&self, view: &mut Viewport)
        requires
            old(view).wf(),
            self.drawable(),
        ensures
            final(view).wf(),
            *final(view) == (Viewport { screen: final(view).screen, ..*old(view) }),
            final(view).screen.width == old(view).screen.width,
            final(view).screen.height == old(view).screen.height,
            final(view).screen.data@ == spec_textured_poly_image(
                *old(view),
                *self,
                old(view).screen.data@,
            ),
    {
        let pa = view.project_vertex((self.coords.a.x, self.coords.a.y, self.coords.a.z));
        let pb = view.project_vertex((self.coords.b.x, self.coords.b.y, self.coords.b.z));
        let pc = view.project_vertex((self.coords.c.x, self.coords.c.y, self.coords.c.z));
        let ua = (
            crate::fixed::fx_div(self.uv_map.a.x, self.uv_map.a.z),
            crate::fixed::fx_div(self.uv_map.a.y, self.uv_map.a.z),
        );
        let ub = (
            crate::fixed::fx_div(self.uv_map.b.x, self.uv_map.b.z),
            crate::fixed::fx_div(self.uv_map.b.y, self.uv_map.b.z),
        );
        let uc = (
            crate::fixed::fx_div(self.uv_map.c.x, self.uv_map.c.z),
            crate::fixed::fx_div(self.uv_map.c.y, self.uv_map.c.z),
        );
        crate::primitives::draw_textured_triangle(
            &mut view.screen,
            pa,
            pb,
            pc,
            ua,
            ub,
            uc,
            self.texture,
        );
    }
}

impl<'texture> Surface2D for TexturedPolygon2D<'texture> {
    open spec fn coords_bounded(&self) -> bool {
        self.coords.coords_bounded()
    }

    fn m_multiply(&self, mat: Mat3) -> TexturedPolygon2D<'texture> {
        TexturedPolygon2D {
            coords: self.coords.m_multiply(mat),
            texture: self.texture,
            uv_map: self.uv_map,
        }
    }
}

/// A textured rectangle: two textured triangles sharing a diagonal.
pub struct TexturedFlat2D<'texture> {
    pub a: TexturedPolygon2D<'texture>,
    pub b: TexturedPolygon2D<'texture>,
}

impl<'texture> TexturedFlat2D<'texture> {
    /// Draws both halves, the first then the second: the screen becomes the
    /// second half's textured fill applied to the first half's.
    pub fn draw(&self, view: &mut Viewport)
        requires
            old(view).wf(),
            self.a.drawable(),
            self.b.drawable(),
        ensures
            final(view).wf(),
            *final(view) == (Viewport { screen: final(view).screen, ..*old(view) }),
            final(view).screen.width == old(view).screen.width,
            final(view).screen.height == old(view).screen.height,
            final(view).screen.data@ == spec_textured_poly_image(
                *old(view),
                self.b,
                spec_textured_poly_image(*old(view), self.a, old(view).screen.data@),
            ),
    {
        self.a.draw(view);
        self.b.draw(view);
    }

    /// Builds a textured square at `location`, spanning the texture's width
    /// in both directions, with the unit UV square split across the two
    /// triangles.
    pub fn new(texture: &'texture Bitmap, location: Vec3) -> (r: TexturedFlat2D<'texture>)
        requires
            location.bounded(),
            texture.wf(),
        ensures
            ({
                let one = Fx { raw: FX_SCALE };
                let o = Fx { raw: 0 };
                let side = Fx {
                    raw: crate::fixed::spec_fx_add(
                        location.x.raw as int,
                        crate::fixed::clamp_raw((texture.width as int) * (FX_SCALE as int)),
                    ) as i64,
                };
                let rise = Fx {
                    raw: crate::fixed::spec_fx_add(
                        location.y.raw as int,
                        crate::fixed::clamp_raw((texture.width as int) * (FX_SCALE as int)),
                    ) as i64,
                };
                &&& r.a.uv_map == (Polygon2D {
                    a: Vec3 { x: o, y: o, z: one },
                    b: Vec3 { x: one, y: o, z: one },
                    c: Vec3 { x: o, y: one, z: one },
                })
                &&& r.b.uv_map == (Polygon2D {
                    a: Vec3 { x: one, y: o, z: one },
                    b: Vec3 { x: one, y: one, z: one },
                    c: Vec3 { x: o, y: one, z: one },
                })
                &&& r.a.coords == (Polygon2D {
                    a: location,
                    b: Vec3 { x: side, y: location.y, z: one },
                    c: Vec3 { x: location.x, y: rise, z: one },
                })
                &&& r.b.coords == (Polygon2D {
                    a: Vec3 { x: side, y: location.y, z: one },
                    b: Vec3 { x: side, y: rise, z: one },
                    c: Vec3 { x: location.x, y: rise, z: one },
                })
                &&& r.a.texture == texture
                &&& r.b.texture == texture
            }),
    {
        let one = Fx { raw: FX_SCALE };
        let o = Fx { raw: 0 };
        let uv_a = Polygon2D {
            a: Vec3 { x: o, y: o, z: one },
            b: Vec3 { x: one, y: o, z: one },
            c: Vec3 { x: o, y: one, z: one },
        };
        let uv_b = Polygon2D {
            a: Vec3 { x: one, y: o, z: one },
            b: Vec3 { x: one, y: one, z: one },
            c: Vec3 { x: o, y: one, z: one },
        };
        let tw = crate::fixed::int_mul_clamp(texture.width as i64, FX_SCALE);
        let side = crate::fixed::fx_add(location.x, Fx { raw: tw });
        let rise = crate::fixed::fx_add(location.y, Fx { raw: tw });
        let coords_a = Polygon2D {
            a: location,
            b: Vec3 { x: side, y: location.y, z: one },
            c: Vec3 { x: location.x, y: rise, z: one },
        };
        let coords_b = Polygon2D {
            a: Vec3 { x: side, y: location.y, z: one },
            b: Vec3 { x: side, y: rise, z: one },
            c: Vec3 { x: location.x, y: rise, z: one },
        };
        TexturedFlat2D {
            a: TexturedPolygon2D { coords: coords_a, texture, uv_map: uv_a },
            b: TexturedPolygon2D { coords: coords_b, texture, uv_map: uv_b },
        }
    }
}

impl<'texture> Surface2D for TexturedFlat2D<'texture> {
    open spec fn coords_bounded(&self) -> bool {
        self.a.coords_bounded() && self.b.coords_bounded()
    }

    fn m_multiply(&self, mat: Mat3) -> TexturedFlat2D<'texture> {
        TexturedFlat2D { a: self.a.m_multiply(mat), b: self.b.m_multiply(mat) }
    }
}

} // verus!
