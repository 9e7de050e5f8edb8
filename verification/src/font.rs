use vstd::prelude::*;

use crate::bitmaps::{rect_image, Bitmap, DIM_MAX};
use crate::colors::Color;

verus! {

/// A bitmap font atlas: a grid of fixed-size glyphs, 16 per line.
pub struct Font {
    pub bitmap: Bitmap,
    pub char_width: usize,
    pub char_height: usize,
    pub chars_per_line: usize,
    pub num_lines: usize,
}

/// The glyph index a byte pair selects: plain bytes index directly; a
/// two-byte sequence selects one of the accented glyphs parked in the
/// atlas's upper lines, or the question mark when unknown.
pub open spec fn spec_char_code(num: u8, prev: u8) -> int {
    if prev == 0 {
        num as int
    } else if num == 196 && prev == 132 {
        12int * 16 + 0
    } else if num == 196 && prev == 133 {
        14int * 16 + 0
    } else if num == 196 && prev == 134 {
        12int * 16 + 7
    } else if num == 196 && prev == 135 {
        14int * 16 + 7
    } else if num == 196 && prev == 152 {
        12int * 16 + 6
    } else if num == 196 && prev == 153 {
        14int * 16 + 6
    } else if num == 197 && prev == 129 {
        12int * 16 + 10
    } else if num == 197 && prev == 130 {
        14int * 16 + 10
    } else if num == 197 && prev == 131 {
        12int * 16 + 15
    } else if num == 197 && prev == 132 {
        14int * 16 + 15
    } else if num == 195 && prev == 147 {
        13int * 16 + 1
    } else if num == 195 && prev == 179 {
        15int * 16 + 1
    } else if num == 197 && prev == 154 {
        12int * 16 + 11
    } else if num == 197 && prev == 155 {
        14int * 16 + 11
    } else if num == 197 && prev == 187 {
        13int * 16 + 8
    } else if num == 197 && prev == 188 {
        15int * 16 + 8
    } else if num == 197 && prev == 185 {
        12int * 16 + 1
    } else if num == 197 && prev == 186 {
        14int * 16 + 1
    } else {
        63int
    }
}

/// The atlas column a glyph starts at.
pub open spec fn spec_char_sx(code: int, cw: int, bw: int) -> int {
    (code * cw) % bw
}

/// The atlas row a glyph starts at.
pub open spec fn spec_char_sy(code: int, cw: int, ch: int, bw: int) -> int {
    ((code * cw) / bw) * ch
}

impl Font {
    /// Well-formedness: a usable atlas, and every possible glyph rectangle
    /// lies inside it.
    pub open spec fn wf(self) -> bool {
        &&& self.bitmap.wf()
        &&& 1 <= self.bitmap.width
        &&& 1 <= self.char_width <= DIM_MAX
        &&& 1 <= self.char_height <= DIM_MAX
        &&& forall|code: int|
            0 <= code < 256 ==> {
                let sy = #[trigger] spec_char_sy(code, self.char_width as int, self.char_height as int, self.bitmap.width as int);
                let sx = spec_char_sx(code, self.char_width as int, self.bitmap.width as int);
                &&& sy + self.char_height <= DIM_MAX
                &&& sx <= DIM_MAX
                &&& (sy + self.char_height) * self.char_width + sx <= self.bitmap.data@.len()
            }
    }

    /// Atlas coordinates of the glyph a byte pair selects.
    pub fn obtain_char_coords(&self, num: u8, prev: u8) -> (r: (usize, usize))
        requires
            self.wf(),
        ensures
            r.0 == spec_char_sx(
                spec_char_code(num, prev),
                self.char_width as int,
                self.bitmap.width as int,
            ),
            r.1 == spec_char_sy(
                spec_char_code(num, prev),
                self.char_width as int,
                self.char_height as int,
                self.bitmap.width as int,
            ),
            r.1 + self.char_height <= DIM_MAX,
            r.0 <= DIM_MAX,
            (r.1 + self.char_height) * self.char_width + r.0 <= self.bitmap.data@.len(),
    {
        let code: usize = if prev == 0 {
            num as usize
        } else {
            match (num, prev) {
                (196, 132) => 12 * 16 + 0,
                (196, 133) => 14 * 16 + 0,
                (196, 134) => 12 * 16 + 7,
                (196, 135) => 14 * 16 + 7,
                (196, 152) => 12 * 16 + 6,
                (196, 153) => 14 * 16 + 6,
                (197, 129) => 12 * 16 + 10,
                (197, 130) => 14 * 16 + 10,
                (197, 131) => 12 * 16 + 15,
                (197, 132) => 14 * 16 + 15,
                (195, 147) => 13 * 16 + 1,
                (195, 179) => 15 * 16 + 1,
                (197, 154) => 12 * 16 + 11,
                (197, 155) => 14 * 16 + 11,
                (197, 187) => 13 * 16 + 8,
                (197, 188) => 15 * 16 + 8,
                (197, 185) => 12 * 16 + 1,
                (197, 186) => 14 * 16 + 1,
                _ => 63,
            }
        };
        proof {
            assert(code == spec_char_code(num, prev));
            crate::fixed::lemma_mul_le(code as int, self.char_width as int, 255, DIM_MAX as int);
        }
        let x = (code * self.char_width) % self.bitmap.width;
        let y = (code * self.char_width) / self.bitmap.width;
        proof {
            assert(0 <= code < 256);
            assert(spec_char_sy(
                code as int,
                self.char_width as int,
                self.char_height as int,
                self.bitmap.width as int,
            ) + self.char_height <= DIM_MAX);
            assert(y as int == (code as int * self.char_width as int) / self.bitmap.width as int);
        }
        (x, y * self.char_height)
    }
}

/// The target buffer after drawing the text bytes from position `k`
/// onward, the pen starting at target cell `(tx, ty)`: each glyph is a
/// rectangle copy from the atlas, the pen advancing one glyph width per
/// character; a byte above 128 consumes the following byte to select an
/// accented glyph (a missing follower reads as 0).
pub open spec fn str_line_image(
    font: Font,
    dst: Seq<Color>,
    w: int,
    text: Seq<u8>,
    k: int,
    tx: int,
    ty: int,
) -> Seq<Color>
    decreases text.len() + 2 - k,
{
    if k < 0 || k >= text.len() {
        dst
    } else {
        let byte = text[k];
        let prev: u8 = if byte > 128 {
            if k + 1 < text.len() {
                text[k + 1]
            } else {
                0
            }
        } else {
            0
        };
        let k2: int = if byte > 128 {
            k + 2
        } else {
            k + 1
        };
        let code = spec_char_code(byte, prev);
        let cw = font.char_width as int;
        let ch = font.char_height as int;
        let bw = font.bitmap.width as int;
        let painted = rect_image(
            font.bitmap.data@,
            dst,
            w,
            tx,
            ty,
            spec_char_sx(code, cw, bw),
            spec_char_sy(code, cw, ch, bw),
            cw,
            ch,
        );
        str_line_image(font, painted, w, text, k2, tx + cw, ty)
    }
}

impl Font {
    /// Draws one line of text onto the target: the first glyph's top-left
    /// corner lands at canvas coordinate `(x, y)` (origin at the target's
    /// center, y increasing upward, negative starts clamped to the edge),
    /// and the pen advances one glyph width per character.
    pub fn draw_str_line(&self, target: &mut Bitmap, x: i64, y: i64, text: &Vec<u8>)
        requires
            self.wf(),
            old(target).wf(),
            -(DIM_MAX as int) <= x <= DIM_MAX as int,
            -(DIM_MAX as int) <= y <= DIM_MAX as int,
            text@.len() * self.char_width <= DIM_MAX,
        ensures
            final(target).wf(),
            final(target).width == old(target).width,
            final(target).height == old(target).height,
            final(target).data@ == str_line_image(
                *self,
                old(target).data@,
                old(target).width as int,
                text@,
                0,
                crate::bitmaps::spec_clamp_origin(old(target).width as int, x as int),
                crate::bitmaps::spec_clamp_origin_down(old(target).height as int, y as int),
            ),
    {
        let txs = (target.width / 2) as i64 + x;
        let tys = (target.height / 2) as i64 - y;
        let mut tx: usize = if txs < 0 {
            0
        } else {
            txs as usize
        };
        let ty: usize = if tys < 0 {
            0
        } else {
            tys as usize
        };
        let ghost orig = target.data@;
        let ghost w = old(target).width as int;
        let ghost tx0 = tx as int;
        let n = text.len();
        proof {
            assert(n <= DIM_MAX) by (nonlinear_arith)
                requires
                    n * self.char_width <= DIM_MAX,
                    self.char_width >= 1,
                    n == text@.len(),
            ;
        }
        let mut k: usize = 0;
        while k < n
            invariant
                self.wf(),
                target.wf(),
                target.width == old(target).width,
                target.height == old(target).height,
                w == target.width as int,
                n == text@.len(),
                k <= n + 1,
                n <= DIM_MAX,
                ty <= 2 * DIM_MAX,
                tx as int <= tx0 + k * self.char_width,
                tx0 <= tx as int,
                tx0 <= 2 * DIM_MAX,
                n * self.char_width <= DIM_MAX,
                str_line_image(*self, orig, w, text@, 0, tx0, ty as int) == str_line_image(
                    *self,
                    target.data@,
                    w,
                    text@,
                    k as int,
                    tx as int,
                    ty as int,
                ),
            decreases n + 1 - k,
        {
            let byte = text[k];
            let prev: u8 = if byte > 128 {
                if k + 1 < n {
                    text[k + 1]
                } else {
                    0
                }
            } else {
                0
            };
            let (sx, sy) = self.obtain_char_coords(byte, prev);
            proof {
                crate::fixed::lemma_mul_le(k as int, self.char_width as int, n as int, self.char_width as int);
                assert((k + 1) * (self.char_width as int) == k * self.char_width
                    + self.char_width) by (nonlinear_arith);
                assert((k + 1) * (self.char_width as int) <= (k + 2) * (self.char_width as int))
                    by (nonlinear_arith)
                    requires
                        self.char_width >= 1,
                ;
                crate::fixed::lemma_mul_le((k + 2) as int, self.char_width as int, (n + 1) as int, self.char_width as int);
            }
            self.bitmap.draw_rectangle_on(
                target,
                tx,
                ty,
                sx,
                sy,
                self.char_width,
                self.char_height,
            );
            tx += self.char_width;
            if byte > 128 {
                k += 2;
            } else {
                k += 1;
            }
        }
        proof {
            assert(str_line_image(*self, target.data@, w, text@, k as int, tx as int, ty as int)
                == target.data@);
        }
    }
}

} // verus!
