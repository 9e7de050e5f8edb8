use vstd::prelude::*;

use crate::colors::{
    from_rgba_u8, from_u8_rgba, spec_alpha, spec_blue, spec_green, spec_pack_rgba, spec_red, Color,
};
use crate::fixed::{lemma_div_quotient_bound, lemma_mul_le};

verus! {

/// Largest width or height of a bitmap.
pub const DIM_MAX: usize = 32768;

/// A pixel buffer: `width * height` packed colors, row-major, top row first.
#[derive(Debug, PartialEq, Eq)]
pub struct Bitmap {
    pub width: usize,
    pub height: usize,
    pub data: Vec<Color>,
}

impl Bitmap {
    /// Well-formedness: bounded dimensions and a fully allocated buffer.
    pub open spec fn wf(self) -> bool {
        &&& self.width <= DIM_MAX
        &&& self.height <= DIM_MAX
        &&& self.data@.len() == (self.width as int) * (self.height as int)
    }
}

/// Denominator of the source-over compositing quotients, scaled by 255:
/// `255 * (sa/255 + ta/255 * (1 - sa/255)) * 255`.
pub open spec fn spec_blend_den(sa: int, ta: int) -> int {
    255 * sa + ta * (255 - sa)
}

/// One channel of compositing a source channel `sc` with alpha `sa` over a
/// target channel `tc` with alpha `ta`, truncated to an integer.
pub open spec fn spec_blend_channel(sc: int, tc: int, sa: int, ta: int) -> int {
    (255 * sc * sa + tc * ta * (255 - sa)) / spec_blend_den(sa, ta)
}

/// Source-over compositing of two packed colors (source alpha strictly
/// between 0 and 255).
pub open spec fn spec_blend(s: Color, t: Color) -> Color {
    let sa = spec_alpha(s) as int;
    let ta = spec_alpha(t) as int;
    spec_pack_rgba(
        spec_blend_channel(spec_red(s) as int, spec_red(t) as int, sa, ta) as u8,
        spec_blend_channel(spec_green(s) as int, spec_green(t) as int, sa, ta) as u8,
        spec_blend_channel(spec_blue(s) as int, spec_blue(t) as int, sa, ta) as u8,
        (spec_blend_den(sa, ta) / 255) as u8,
    )
}

/// What one copied pixel becomes: opaque source replaces, transparent source
/// leaves the target, anything between composites.
pub open spec fn spec_rect_pixel(s: Color, t: Color) -> Color {
    if spec_alpha(s) == 255 {
        s
    } else if spec_alpha(s) != 0 {
        spec_blend(s, t)
    } else {
        t
    }
}

/// Composites a partially transparent source pixel over a target pixel.
fn blend_pixel(source: Color, target: Color) -> (r: Color)
    requires
        spec_alpha(source) != 0,
        spec_alpha(source) != 255,
    ensures
        r == spec_blend(source, target),
{
    let (sr, sg, sb, sa) = from_rgba_u8(source);
    let (tr, tg, tb, ta) = from_rgba_u8(target);
    let sa32 = sa as u32;
    let ta32 = ta as u32;
    proof {
        lemma_mul_le(ta as int, 255 - sa as int, 255, 255);
    }
    let den = 255 * sa32 + ta32 * (255 - sa32);
    proof {
        assert(den <= 65025) by (nonlinear_arith)
            requires
                den == 255 * (sa as int) + (ta as int) * (255 - (sa as int)),
                sa < 256,
                ta < 256,
        ;
    }
    let or = blend_channel_exec(sr, tr, sa32, ta32, den);
    let og = blend_channel_exec(sg, tg, sa32, ta32, den);
    let ob = blend_channel_exec(sb, tb, sa32, ta32, den);
    proof {
        lemma_div_quotient_bound(den as int, 255, 255);
    }
    let oa = den / 255;
    from_u8_rgba(or, og, ob, oa as u8)
}

/// One channel of the composite, over machine integers.
fn blend_channel_exec(sc: u8, tc: u8, sa: u32, ta: u32, den: u32) -> (r: u8)
    requires
        sa < 255,
        0 < sa,
        ta < 256,
        den == spec_blend_den(sa as int, ta as int),
    ensures
        r == spec_blend_channel(sc as int, tc as int, sa as int, ta as int),
{
    proof {
        lemma_mul_le(255 * (sc as int), sa as int, 65025int, 255);
        lemma_mul_le(tc as int, ta as int, 255, 255);
        lemma_mul_le(tc as int * ta as int, 255 - sa as int, 65025int, 255);
    }
    let num = 255 * (sc as u32) * sa + (tc as u32) * ta * (255 - sa);
    proof {
        assert(num <= 255 * den) by (nonlinear_arith)
            requires
                num == 255 * (sc as int) * (sa as int) + (tc as int) * (ta as int) * (255
                    - sa as int),
                den == 255 * (sa as int) + (ta as int) * (255 - (sa as int)),
                sc < 256,
                tc < 256,
                0 < sa < 255,
                ta < 256,
        ;
        assert(den >= 255);
        lemma_div_quotient_bound(num as int, den as int, 255);
    }
    let q = num / den;
    q as u8
}

/// Index of the first pixel written in copied row `i`.
pub open spec fn rect_row_start(w: int, tx: int, ty: int, i: int) -> int {
    (ty + i) * w + tx
}

/// One-past-the-last index written in copied row `i`: the row is clipped at
/// the buffer's end and at the end of the target row it starts in.
pub open spec fn rect_row_end(w: int, len: int, tx: int, ty: int, sw: int, i: int) -> int {
    let rs = rect_row_start(w, tx, ty, i);
    if len <= rs + sw {
        len
    } else if rs + sw > (ty + i + 1) * w {
        (ty + i + 1) * w
    } else {
        rs + sw
    }
}

/// The target buffer after the first `cnt` pixels of copied row `i`.
pub open spec fn rect_row_image(
    src: Seq<Color>,
    dst: Seq<Color>,
    w: int,
    tx: int,
    ty: int,
    sx: int,
    sy: int,
    sw: int,
    i: int,
    cnt: int,
) -> Seq<Color> {
    Seq::new(
        dst.len(),
        |idx: int|
            {
                let rs = rect_row_start(w, tx, ty, i);
                if rs <= idx < rs + cnt {
                    spec_rect_pixel(src[(i + sy) * sw + (idx - rs) + sx], dst[idx])
                } else {
                    dst[idx]
                }
            },
    )
}

/// The number of pixels copied row `i` writes.
pub open spec fn rect_row_count(w: int, len: int, tx: int, ty: int, sw: int, i: int) -> int {
    let rs = rect_row_start(w, tx, ty, i);
    let re = rect_row_end(w, len, tx, ty, sw, i);
    if rs < re {
        re - rs
    } else {
        0
    }
}

/// The target buffer after the first `rows` rows of a rectangle copy.
pub open spec fn rect_image(
    src: Seq<Color>,
    dst: Seq<Color>,
    w: int,
    tx: int,
    ty: int,
    sx: int,
    sy: int,
    sw: int,
    rows: int,
) -> Seq<Color>
    decreases rows,
{
    if rows <= 0 {
        dst
    } else {
        let prev = rect_image(src, dst, w, tx, ty, sx, sy, sw, rows - 1);
        rect_row_image(
            src,
            prev,
            w,
            tx,
            ty,
            sx,
            sy,
            sw,
            rows - 1,
            rect_row_count(w, dst.len() as int, tx, ty, sw, rows - 1),
        )
    }
}

impl Bitmap {
    /// Copies the `sw * sh` rectangle at `(sx, sy)` of this bitmap onto the
    /// target at `(tx, ty)` (y increasing downward), compositing partially
    /// transparent source pixels and clipping at the target's edges.
    pub fn draw_rectangle_on(
        &self,
        target: &mut Bitmap,
        tx: usize,
        ty: usize,
        sx: usize,
        sy: usize,
        sw: usize,
        sh: usize,
    )
        requires
            self.wf(),
            old(target).wf(),
            sw <= DIM_MAX,
            sh <= DIM_MAX,
            sx <= DIM_MAX,
            sy + sh <= DIM_MAX,
            tx <= 3 * DIM_MAX,
            ty + sh <= 3 * DIM_MAX,
            (sy + sh) * sw + sx <= self.data@.len(),
        ensures
            final(target).width == old(target).width,
            final(target).height == old(target).height,
            final(target).wf(),
            final(target).data@ == rect_image(
                self.data@,
                old(target).data@,
                old(target).width as int,
                tx as int,
                ty as int,
                sx as int,
                sy as int,
                sw as int,
                sh as int,
            ),
    {
        let w = target.width;
        let len = target.data.len();
        let ghost src = self.data@;
        let ghost orig = target.data@;
        let mut i: usize = 0;
        while i < sh
            invariant
                self.wf(),
                target.wf(),
                target.width == old(target).width,
                target.height == old(target).height,
                w == target.width,
                len == target.data@.len(),
                src == self.data@,
                orig == old(target).data@,
                orig.len() == len,
                i <= sh,
                sw <= DIM_MAX,
                sh <= DIM_MAX,
                sx <= DIM_MAX,
                sy + sh <= DIM_MAX,
                tx <= 3 * DIM_MAX,
                ty + sh <= 3 * DIM_MAX,
                (sy + sh) * sw + sx <= src.len(),
                target.data@ == rect_image(
                    src,
                    orig,
                    w as int,
                    tx as int,
                    ty as int,
                    sx as int,
                    sy as int,
                    sw as int,
                    i as int,
                ),
            decreases sh - i,
        {
            proof {
                lemma_mul_le((ty + i) as int, w as int, 3 * (DIM_MAX as int) + 1, DIM_MAX as int);
                lemma_mul_le((ty + i + 1) as int, w as int, 3 * (DIM_MAX as int) + 1, DIM_MAX as int);
            }
            let start = (ty + i) * w + tx;
            let end = if len <= start + sw {
                len
            } else if start + sw > (ty + i + 1) * w {
                (ty + i + 1) * w
            } else {
                start + sw
            };
            let ghost before_row = target.data@;
            proof {
                assert(end as int == rect_row_end(
                    w as int,
                    len as int,
                    tx as int,
                    ty as int,
                    sw as int,
                    i as int,
                ));
            }
            if start < end {
                proof {
                    assert(target.data@ =~= rect_row_image(
                        src,
                        before_row,
                        w as int,
                        tx as int,
                        ty as int,
                        sx as int,
                        sy as int,
                        sw as int,
                        i as int,
                        0,
                    ));
                }
                let mut j: usize = 0;
                while j < end - start
                    invariant
                        self.wf(),
                        target.wf(),
                        target.width == old(target).width,
                        target.height == old(target).height,
                        w == target.width,
                        len == target.data@.len(),
                        src == self.data@,
                        i < sh,
                        j <= end - start,
                        start == rect_row_start(w as int, tx as int, ty as int, i as int),
                        end == rect_row_end(
                            w as int,
                            len as int,
                            tx as int,
                            ty as int,
                            sw as int,
                            i as int,
                        ),
                        start < end <= len,
                        end - start <= sw,
                        sw <= DIM_MAX,
                        sh <= DIM_MAX,
                        sx <= DIM_MAX,
                        sy + sh <= DIM_MAX,
                        (sy + sh) * sw + sx <= src.len(),
                        target.data@ == rect_row_image(
                            src,
                            before_row,
                            w as int,
                            tx as int,
                            ty as int,
                            sx as int,
                            sy as int,
                            sw as int,
                            i as int,
                            j as int,
                        ),
                    decreases end - start - j,
                {
                    proof {
                        lemma_mul_le((i + sy) as int, sw as int, DIM_MAX as int, DIM_MAX as int);
                        assert((i + sy) as int * sw as int + j + sx < (sy + sh) as int * sw as int
                            + sx) by (nonlinear_arith)
                            requires
                                i < sh,
                                j < sw,
                                sw > 0,
                                (i + sy) as int + 1 <= (sy + sh) as int,
                        ;
                    }
                    let source_color = self.data[(i + sy) * sw + j + sx];
                    let old_pixel = target.data[start + j];
                    let (_, _, _, a) = from_rgba_u8(source_color);
                    let new_pixel = if a == 255 {
                        source_color
                    } else if a != 0 {
                        blend_pixel(source_color, old_pixel)
                    } else {
                        old_pixel
                    };
                    target.data.set(start + j, new_pixel);
                    proof {
                        assert(target.data@ =~= rect_row_image(
                            src,
                            before_row,
                            w as int,
                            tx as int,
                            ty as int,
                            sx as int,
                            sy as int,
                            sw as int,
                            i as int,
                            j + 1,
                        ));
                    }
                    j += 1;
                }
            }
            proof {
                if start >= end {
                    assert(target.data@ =~= rect_row_image(
                        src,
                        before_row,
                        w as int,
                        tx as int,
                        ty as int,
                        sx as int,
                        sy as int,
                        sw as int,
                        i as int,
                        0,
                    ));
                }
                assert(target.data@ == rect_image(
                    src,
                    orig,
                    w as int,
                    tx as int,
                    ty as int,
                    sx as int,
                    sy as int,
                    sw as int,
                    i + 1,
                ));
            }
            i += 1;
        }
    }

    /// Draws this bitmap whole onto the target, placing its top-left corner
    /// at canvas coordinate `(x, y)` (origin at the target's center, y
    /// increasing upward), clamping negative starts to the edge.
    pub fn draw_on(&self, target: &mut Bitmap, x: i64, y: i64)
        requires
            self.wf(),
            old(target).wf(),
            -(DIM_MAX as int) <= x <= DIM_MAX as int,
            -(DIM_MAX as int) <= y <= DIM_MAX as int,
        ensures
            final(target).width == old(target).width,
            final(target).height == old(target).height,
            final(target).wf(),
            final(target).data@ == rect_image(
                self.data@,
                old(target).data@,
                old(target).width as int,
                spec_clamp_origin(old(target).width as int, x as int),
                spec_clamp_origin_down(old(target).height as int, y as int),
                0,
                0,
                self.width as int,
                self.height as int,
            ),
    {
        let tx = (target.width / 2) as i64 + x;
        let ty = (target.height / 2) as i64 - y;
        let tx = if tx < 0 {
            0
        } else {
            tx as usize
        };
        let ty = if ty < 0 {
            0
        } else {
            ty as usize
        };
        proof {
            assert((0 + self.height as int) * self.width as int + 0 <= self.data@.len())
                by (nonlinear_arith)
                requires
                    self.data@.len() == (self.width as int) * (self.height as int),
            ;
        }
        self.draw_rectangle_on(target, tx, ty, 0, 0, self.width, self.height);
    }
}

/// The clamped target column where a centered placement at `x` begins.
pub open spec fn spec_clamp_origin(w: int, x: int) -> int {
    if w / 2 + x < 0 {
        0
    } else {
        w / 2 + x
    }
}

/// The clamped target row where a centered placement at `y` begins (y flips
/// to increase downward).
pub open spec fn spec_clamp_origin_down(h: int, y: int) -> int {
    if h / 2 - y < 0 {
        0
    } else {
        h / 2 - y
    }
}

} // verus!
