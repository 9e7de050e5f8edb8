use vstd::prelude::*;

use crate::bitmaps::{Bitmap, DIM_MAX};
use crate::colors::{from_u8_rgb, from_u8_rgba, spec_pack_rgba, Color};

verus! {

/// Why a TGA image could not be decoded.
#[derive(Clone, Copy, Debug, PartialEq, Eq, Structural)]
pub enum TgaError {
    /// The data ends before the header or the pixel data it announces.
    Truncated,
    /// The image-type byte is neither 2 (uncompressed true-color) nor 10
    /// (run-length-encoded true-color).
    UnsupportedType,
    /// The pixel depth is neither 24 nor 32 bits.
    UnsupportedDepth,
    /// A run-length packet runs past the announced pixel count.
    Malformed,
    /// The announced dimensions exceed what a bitmap may hold.
    TooLarge,
}

/// Image width announced by the 18-byte header (bytes 12-13,
/// little-endian).
pub open spec fn tga_width(b: Seq<u8>) -> int {
    (b[13] as int) * 256 + (b[12] as int)
}

/// Image height announced by the header (bytes 14-15, little-endian).
pub open spec fn tga_height(b: Seq<u8>) -> int {
    (b[15] as int) * 256 + (b[14] as int)
}

/// Bytes per pixel announced by the header (byte 16, bits divided by 8).
pub open spec fn tga_bpp(b: Seq<u8>) -> int {
    (b[16] as int) / 8
}

/// Image type announced by the header (byte 2).
pub open spec fn tga_type(b: Seq<u8>) -> int {
    b[2] as int
}

/// Whether rows must be flipped after decoding: the descriptor byte's
/// (byte 17) top nibble has its origin bit clear.
pub open spec fn tga_flip(b: Seq<u8>) -> bool {
    (b[17] as int) / 16 == 0
}

/// The packed color of one pixel whose channel bytes (blue, green, red,
/// then alpha when 32-bit) start at `pos`.
pub open spec fn tga_pixel_at(b: Seq<u8>, pos: int, bpp: int) -> Color {
    if bpp == 4 {
        spec_pack_rgba(b[pos + 2], b[pos + 1], b[pos], b[pos + 3])
    } else {
        spec_pack_rgba(b[pos + 2], b[pos + 1], b[pos], 0)
    }
}

/// The pixels of an uncompressed true-color image: one pixel per `bpp`
/// bytes starting at offset 18.
pub open spec fn tga_raw_pixels(b: Seq<u8>, count: int, bpp: int) -> Seq<Color> {
    Seq::new(count as nat, |i: int| tga_pixel_at(b, 18 + i * bpp, bpp))
}

/// Decodes run-length packets starting at `pos` until `need` pixels are
/// produced: a packet byte with the top bit set repeats one pixel
/// `(byte - 128) + 1` times, otherwise `byte + 1` literal pixels follow.
/// `None` when the data ends early or a packet overruns the pixel count.
pub open spec fn spec_rle(b: Seq<u8>, pos: int, need: int, bpp: int) -> Option<Seq<Color>>
    decreases need,
{
    if need <= 0 {
        Some(Seq::empty())
    } else if pos >= b.len() {
        None
    } else {
        let packet = b[pos] as int;
        if packet >= 128 {
            let reps = packet - 128 + 1;
            if pos + 1 + bpp > b.len() || reps > need {
                None
            } else {
                let px = tga_pixel_at(b, pos + 1, bpp);
                match spec_rle(b, pos + 1 + bpp, need - reps, bpp) {
                    Some(rest) => Some(Seq::new(reps as nat, |i: int| px) + rest),
                    None => None,
                }
            }
        } else {
            let reps = packet + 1;
            if pos + 1 + reps * bpp > b.len() || reps > need {
                None
            } else {
                match spec_rle(b, pos + 1 + reps * bpp, need - reps, bpp) {
                    Some(rest) => Some(
                        Seq::new(reps as nat, |i: int| tga_pixel_at(b, pos + 1 + i * bpp, bpp))
                            + rest,
                    ),
                    None => None,
                }
            }
        }
    }
}

/// Row order reversed: what the two in-place reversals (each row, then the
/// whole buffer) amount to.
pub open spec fn tga_flip_rows(data: Seq<Color>, w: int, h: int) -> Seq<Color> {
    Seq::new(data.len(), |i: int| data[(h - 1 - i / w) * w + i % w])
}

/// The decoded pixel buffer, rows flipped when the descriptor asks for it.
pub open spec fn tga_oriented(b: Seq<u8>, data: Seq<Color>) -> Seq<Color> {
    if tga_flip(b) {
        tga_flip_rows(data, tga_width(b), tga_height(b))
    } else {
        data
    }
}

/// The error a decode of `b` reports, if any.
pub open spec fn tga_decode_err(b: Seq<u8>) -> Option<TgaError> {
    if b.len() < 18 {
        Some(TgaError::Truncated)
    } else if tga_type(b) != 2 && tga_type(b) != 10 {
        Some(TgaError::UnsupportedType)
    } else if tga_bpp(b) != 3 && tga_bpp(b) != 4 {
        Some(TgaError::UnsupportedDepth)
    } else if tga_width(b) > DIM_MAX || tga_height(b) > DIM_MAX {
        Some(TgaError::TooLarge)
    } else if tga_type(b) == 2 {
        if b.len() < 18 + tga_width(b) * tga_height(b) * tga_bpp(b) {
            Some(TgaError::Truncated)
        } else {
            None
        }
    } else {
        match spec_rle(b, 18, tga_width(b) * tga_height(b), tga_bpp(b)) {
            Some(_) => None,
            None => Some(TgaError::Malformed),
        }
    }
}

/// The pixels a successful decode of `b` produces, before orientation.
pub open spec fn tga_decoded_pixels(b: Seq<u8>) -> Seq<Color> {
    if tga_type(b) == 2 {
        tga_raw_pixels(b, tga_width(b) * tga_height(b), tga_bpp(b))
    } else {
        spec_rle(b, 18, tga_width(b) * tga_height(b), tga_bpp(b)).unwrap()
    }
}

/// The encoded form this library writes: an 18-byte header announcing an
/// uncompressed true-color 32-bit image with a top-left origin, followed by
/// blue, green, red, alpha bytes for each pixel in storage order.
pub open spec fn spec_tga_encode(w: int, h: int, data: Seq<Color>) -> Seq<u8> {
    Seq::new(
        (18 + 4 * data.len()) as nat,
        |i: int|
            {
                if i == 2 {
                    2u8
                } else if i == 12 {
                    (w % 256) as u8
                } else if i == 13 {
                    (w / 256) as u8
                } else if i == 14 {
                    (h % 256) as u8
                } else if i == 15 {
                    (h / 256) as u8
                } else if i == 16 {
                    32u8
                } else if i == 17 {
                    32u8
                } else if i < 18 {
                    0u8
                } else {
                    let p = (i - 18) / 4;
                    let c = (i - 18) % 4;
                    let col = data[p];
                    if c == 0 {
                        crate::colors::spec_blue(col)
                    } else if c == 1 {
                        crate::colors::spec_green(col)
                    } else if c == 2 {
                        crate::colors::spec_red(col)
                    } else {
                        crate::colors::spec_alpha(col)
                    }
                }
            },
    )
}

/// Reads the channel bytes of one pixel.
fn pixel_at_exec(bytes: &Vec<u8>, base: usize, bpp: usize) -> (c: Color)
    requires
        bpp == 3 || bpp == 4,
        base + bpp <= bytes@.len(),
    ensures
        c == tga_pixel_at(bytes@, base as int, bpp as int),
{
    let l = bytes.len();
    if bpp == 4 {
        from_u8_rgba(bytes[base + 2], bytes[base + 1], bytes[base], bytes[base + 3])
    } else {
        from_u8_rgb(bytes[base + 2], bytes[base + 1], bytes[base])
    }
}

/// Decodes a TGA image: an 18-byte header (width, height, pixel depth,
/// image type, descriptor), then uncompressed (type 2) or run-length
/// encoded (type 10) blue-green-red[-alpha] pixel data; rows are flipped
/// when the descriptor's origin bit is clear. Corrupt or unsupported data
/// is reported to the caller, never partially recovered.
pub fn decode_tga(bytes: &Vec<u8>) -> (r: Result<Bitmap, TgaError>)
    ensures
        r is Ok <==> tga_decode_err(bytes@) is None,
        r matches Err(e) ==> Some(e) == tga_decode_err(bytes@),
        r matches Ok(bm) ==> {
            &&& bm.wf()
            &&& bm.width == tga_width(bytes@)
            &&& bm.height == tga_height(bytes@)
            &&& bm.data@ == tga_oriented(bytes@, tga_decoded_pixels(bytes@))
        },
{
    if bytes.len() < 18 {
        return Err(TgaError::Truncated);
    }
    let width = (bytes[13] as usize) * 256 + (bytes[12] as usize);
    let height = (bytes[15] as usize) * 256 + (bytes[14] as usize);
    let bpp = (bytes[16] as usize) / 8;
    let image_type = bytes[2];
    if image_type != 2 && image_type != 10 {
        return Err(TgaError::UnsupportedType);
    }
    if bpp != 3 && bpp != 4 {
        return Err(TgaError::UnsupportedDepth);
    }
    if width > DIM_MAX || height > DIM_MAX {
        return Err(TgaError::TooLarge);
    }
    proof {
        crate::fixed::lemma_mul_le(width as int, height as int, DIM_MAX as int, DIM_MAX as int);
    }
    let total = width * height;
    let blen = bytes.len();
    proof {
        assert(total == tga_width(bytes@) * tga_height(bytes@));
        crate::fixed::lemma_mul_le(total as int, bpp as int, 0x40000000, 4);
    }
    let mut data: Vec<Color> = Vec::new();
    if image_type == 2 {
        if (blen as u64) < 18u64 + (total as u64) * (bpp as u64) {
            return Err(TgaError::Truncated);
        }
        let mut i: usize = 0;
        while i < total
            invariant
                i <= total,
                total <= 0x40000000,
                bpp == 3 || bpp == 4,
                18 + total * bpp <= bytes@.len(),
                blen == bytes@.len(),
                data@.len() == i,
                forall|k: int|
                    0 <= k < i ==> data@[k] == tga_pixel_at(bytes@, 18 + k * (bpp as int), bpp as int),
            decreases total - i,
        {
            proof {
                assert((i + 1) * (bpp as int) <= total * (bpp as int)) by (nonlinear_arith)
                    requires
                        i < total,
                        bpp >= 1,
                ;
                assert(i * (bpp as int) + bpp == (i + 1) * (bpp as int)) by (nonlinear_arith);
            }
            let c = pixel_at_exec(bytes, 18 + i * bpp, bpp);
            data.push(c);
            i += 1;
        }
        proof {
            assert(data@ =~= tga_raw_pixels(bytes@, total as int, bpp as int));
        }
    } else {
        let mut index: usize = 0;
        let mut pos: usize = 18;
        while index < total
            invariant
                index <= total,
                total <= 0x40000000,
                bpp == 3 || bpp == 4,
                18 <= pos,
                blen == bytes@.len(),
                bytes@.len() >= 18,
                tga_type(bytes@) == 10,
                bpp == tga_bpp(bytes@),
                total == tga_width(bytes@) * tga_height(bytes@),
                tga_width(bytes@) <= DIM_MAX,
                tga_height(bytes@) <= DIM_MAX,
                data@.len() == index,
                bytes@.len() >= 18,
                spec_rle(bytes@, pos as int, (total - index) as int, bpp as int) matches Some(rest)
                    ==> spec_rle(bytes@, 18, total as int, bpp as int) == Some(data@ + rest),
                spec_rle(bytes@, pos as int, (total - index) as int, bpp as int) is None
                    ==> spec_rle(bytes@, 18, total as int, bpp as int) is None,
            decreases total - index,
        {
            let ghost rem = (total - index) as int;
            let ghost data0 = data@;
            if pos >= bytes.len() {
                return Err(TgaError::Malformed);
            }
            let packet = bytes[pos];
            if packet >= 128 {
                let reps = (packet - 128) as usize + 1;
                if bytes.len() - pos < 1 + bpp {
                    proof {
                        assert(spec_rle(bytes@, pos as int, rem, bpp as int) is None);
                    }
                    return Err(TgaError::Malformed);
                }
                if reps > total - index {
                    proof {
                        assert(spec_rle(bytes@, pos as int, rem, bpp as int) is None);
                    }
                    return Err(TgaError::Malformed);
                }
                let px = pixel_at_exec(bytes, pos + 1, bpp);
                let mut k: usize = 0;
                while k < reps
                    invariant
                        k <= reps,
                        data@ == data0 + Seq::new(k as nat, |i: int| px),
                    decreases reps - k,
                {
                    data.push(px);
                    proof {
                        assert(data@ =~= data0 + Seq::new((k + 1) as nat, |i: int| px));
                    }
                    k += 1;
                }
                proof {
                    let rest0 = spec_rle(bytes@, pos + 1 + bpp, rem - reps, bpp as int);
                    assert(spec_rle(bytes@, pos as int, rem, bpp as int) == (match rest0 {
                        Some(rest) => Some(Seq::new(reps as nat, |i: int| px) + rest),
                        None => None,
                    }));
                    if let Some(rest) = rest0 {
                        assert(data0 + Seq::new(reps as nat, |i: int| px) + rest =~= data0
                            + (Seq::new(reps as nat, |i: int| px) + rest));
                    }
                }
                index += reps;
                pos += 1 + bpp;
            } else {
                let reps = packet as usize + 1;
                if bytes.len() - (pos + 1) < reps * bpp || bytes.len() <= pos + 1 {
                    proof {
                        assert(spec_rle(bytes@, pos as int, rem, bpp as int) is None);
                    }
                    return Err(TgaError::Malformed);
                }
                if reps > total - index {
                    proof {
                        assert(spec_rle(bytes@, pos as int, rem, bpp as int) is None);
                    }
                    return Err(TgaError::Malformed);
                }
                let ghost base = pos + 1;
                let mut k: usize = 0;
                while k < reps
                    invariant
                        k <= reps,
                        reps <= 128,
                        bpp == 3 || bpp == 4,
                        base == pos + 1,
                        blen == bytes@.len(),
                        pos + 1 + reps * bpp <= bytes@.len(),
                        data@ == data0 + Seq::new(
                            k as nat,
                            |i: int| tga_pixel_at(bytes@, base + i * (bpp as int), bpp as int),
                        ),
                    decreases reps - k,
                {
                    proof {
                        crate::fixed::lemma_mul_le(k as int, bpp as int, 128, 4);
                        assert((k + 1) * (bpp as int) <= reps * (bpp as int)) by (nonlinear_arith)
                            requires
                                k < reps,
                                bpp >= 1,
                        ;
                        assert(k * (bpp as int) + bpp == (k + 1) * (bpp as int)) by (nonlinear_arith);
                    }
                    let c = pixel_at_exec(bytes, pos + 1 + k * bpp, bpp);
                    data.push(c);
                    proof {
                        assert(data@ =~= data0 + Seq::new(
                            (k + 1) as nat,
                            |i: int| tga_pixel_at(bytes@, base + i * (bpp as int), bpp as int),
                        ));
                    }
                    k += 1;
                }
                proof {
                    let pxs = Seq::new(
                        reps as nat,
                        |i: int| tga_pixel_at(bytes@, pos + 1 + i * (bpp as int), bpp as int),
                    );
                    let rest0 = spec_rle(
                        bytes@,
                        pos + 1 + reps * (bpp as int),
                        rem - reps,
                        bpp as int,
                    );
                    assert(spec_rle(bytes@, pos as int, rem, bpp as int) == (match rest0 {
                        Some(rest) => Some(pxs + rest),
                        None => None,
                    }));
                    if let Some(rest) = rest0 {
                        assert(data0 + pxs + rest =~= data0 + (pxs + rest));
                    }
                }
                index += reps;
                pos += 1 + reps * bpp;
            }
        }
        proof {
            assert(spec_rle(bytes@, pos as int, 0, bpp as int) == Some(Seq::<Color>::empty()));
            assert(data@ + Seq::<Color>::empty() =~= data@);
            assert(spec_rle(bytes@, 18, total as int, bpp as int) == Some(data@));
        }
    }
    proof {
        assert(tga_decode_err(bytes@) is None);
        assert(data@ == tga_decoded_pixels(bytes@));
    }
    let d17 = bytes[17];
    proof {
        assert((d17 >> 4u8) == 0 <==> (d17 as int) / 16 == 0) by (bit_vector);
    }
    let flipped = if d17 >> 4 == 0 {
        let mut out: Vec<Color> = Vec::new();
        let mut r: usize = 0;
        while r < height
            invariant
                r <= height,
                width <= DIM_MAX,
                height <= DIM_MAX,
                total == width * height,
                data@.len() == total,
                out@.len() == r * width,
                forall|i: int|
                    0 <= i < out@.len() ==> out@[i] == data@[(height - 1 - i / (width as int)) * width
                        + i % (width as int)],
            decreases height - r,
        {
            let mut c: usize = 0;
            while c < width
                invariant
                    r < height,
                    c <= width,
                    width <= DIM_MAX,
                    height <= DIM_MAX,
                    total == width * height,
                    data@.len() == total,
                    out@.len() == r * width + c,
                    forall|i: int|
                        0 <= i < out@.len() ==> out@[i] == data@[(height - 1 - i / (width as int))
                            * width + i % (width as int)],
                decreases width - c,
            {
                proof {
                    assert((height - 1 - r) * width + c < height * width && 0 <= (height - 1 - r)
                        * width + c) by (nonlinear_arith)
                        requires
                            0 <= r < height,
                            0 <= c < width,
                    ;
                    assert(height * width == width * height) by (nonlinear_arith);
                }
                let v = data[(height - 1 - r) * width + c];
                out.push(v);
                proof {
                    vstd::arithmetic::div_mod::lemma_fundamental_div_mod_converse(
                        (r * width + c) as int,
                        width as int,
                        r as int,
                        c as int,
                    );
                    assert(forall|i: int|
                        0 <= i < out@.len() ==> out@[i] == data@[(height - 1 - i / (width as int))
                            * width + i % (width as int)]);
                }
                c += 1;
            }
            proof {
                assert(r * width + width == (r + 1) * width) by (nonlinear_arith);
            }
            r += 1;
        }
        proof {
            assert(r * width == total) by (nonlinear_arith)
                requires
                    r == height,
                    total == width * height,
            ;
            assert(out@ =~= tga_flip_rows(data@, width as int, height as int));
        }
        out
    } else {
        data
    };
    proof {
        assert(flipped@ == tga_oriented(bytes@, tga_decoded_pixels(bytes@)));
        lemma_flip_len(tga_decoded_pixels(bytes@), width as int, height as int);
    }
    Ok(Bitmap { width, height, data: flipped })
}

/// Flipping rows keeps the buffer's length.
proof fn lemma_flip_len(data: Seq<Color>, w: int, h: int)
    ensures
        tga_flip_rows(data, w, h).len() == data.len(),
{
}

/// Encodes a pixel buffer as an uncompressed true-color 32-bit TGA image
/// with a top-left origin: the 18-byte header, then blue, green, red, alpha
/// bytes per pixel in storage order.
pub fn encode_tga(bm: &Bitmap) -> (r: Vec<u8>)
    requires
        bm.wf(),
    ensures
        r@ == spec_tga_encode(bm.width as int, bm.height as int, bm.data@),
{
    let mut out: Vec<u8> = Vec::new();
    out.push(0);
    out.push(0);
    out.push(2);
    let mut i: usize = 3;
    while i < 12
        invariant
            3 <= i <= 12,
            out@.len() == i,
            out@[0] == 0u8,
            out@[1] == 0u8,
            out@[2] == 2u8,
            forall|k: int| 3 <= k < i ==> out@[k] == 0u8,
        decreases 12 - i,
    {
        out.push(0);
        i += 1;
    }
    out.push((bm.width % 256) as u8);
    out.push((bm.width / 256) as u8);
    out.push((bm.height % 256) as u8);
    out.push((bm.height / 256) as u8);
    out.push(32);
    out.push(32);
    let ghost header = out@;
    proof {
        crate::fixed::lemma_mul_le(bm.width as int, bm.height as int, DIM_MAX as int, DIM_MAX as int);
    }
    let n = bm.data.len();
    let mut p: usize = 0;
    while p < n
        invariant
            p <= n,
            n == bm.data@.len(),
            n <= 0x40000000,
            header.len() == 18,
            out@.len() == 18 + 4 * p,
            forall|k: int| 0 <= k < 18 ==> out@[k] == header[k],
            forall|k: int|
                0 <= k < p ==> {
                    &&& out@[18 + 4 * k] == crate::colors::spec_blue(bm.data@[k])
                    &&& out@[18 + 4 * k + 1] == crate::colors::spec_green(bm.data@[k])
                    &&& out@[18 + 4 * k + 2] == crate::colors::spec_red(bm.data@[k])
                    &&& out@[18 + 4 * k + 3] == crate::colors::spec_alpha(bm.data@[k])
                },
        decreases n - p,
    {
        let (cr, cg, cb, ca) = crate::colors::from_rgba_u8(bm.data[p]);
        out.push(cb);
        out.push(cg);
        out.push(cr);
        out.push(ca);
        p += 1;
    }
    proof {
        assert forall|i: int| 0 <= i < out@.len() implies out@[i] == spec_tga_encode(
            bm.width as int,
            bm.height as int,
            bm.data@,
        )[i] by {
            if i < 18 {
                assert(out@[i] == header[i]);
            } else {
                vstd::arithmetic::div_mod::lemma_fundamental_div_mod((i - 18) as int, 4);
                let pp = (i - 18) / 4;
                let cc = (i - 18) % 4;
                assert(18 + 4 * pp + cc == i);
                assert(0 <= pp < bm.data@.len()) by (nonlinear_arith)
                    requires
                        pp == (i - 18) / 4,
                        0 <= i - 18 < 4 * bm.data@.len(),
                        cc == (i - 18) % 4,
                        0 <= cc < 4,
                        18 + 4 * pp + cc == i,
                ;
                if cc == 0 {
                    assert(out@[18 + 4 * pp] == crate::colors::spec_blue(bm.data@[pp]));
                } else if cc == 1 {
                    assert(out@[18 + 4 * pp + 1] == crate::colors::spec_green(bm.data@[pp]));
                } else if cc == 2 {
                    assert(out@[18 + 4 * pp + 2] == crate::colors::spec_red(bm.data@[pp]));
                } else {
                    assert(out@[18 + 4 * pp + 3] == crate::colors::spec_alpha(bm.data@[pp]));
                }
            }
        }
        assert(out@ =~= spec_tga_encode(bm.width as int, bm.height as int, bm.data@));
    }
    out
}

/// Round trip: decoding an encoded pixel buffer succeeds and reproduces the
/// buffer exactly — dimensions, colors (alpha included) and row order.
pub proof fn lemma_tga_round_trip(w: int, h: int, data: Seq<Color>)
    requires
        0 <= w <= DIM_MAX,
        0 <= h <= DIM_MAX,
        data.len() == w * h,
        w < 65536,
        h < 65536,
    ensures
        tga_decode_err(spec_tga_encode(w, h, data)) is None,
        tga_width(spec_tga_encode(w, h, data)) == w,
        tga_height(spec_tga_encode(w, h, data)) == h,
        tga_oriented(
            spec_tga_encode(w, h, data),
            tga_decoded_pixels(spec_tga_encode(w, h, data)),
        ) =~= data,
{
    let enc = spec_tga_encode(w, h, data);
    assert(enc.len() == 18 + 4 * data.len());
    assert(enc[2] == 2u8 && enc[16] == 32u8 && enc[17] == 32u8);
    assert(enc[12] == (w % 256) as u8 && enc[13] == (w / 256) as u8);
    assert(enc[14] == (h % 256) as u8 && enc[15] == (h / 256) as u8);
    assert(0 <= w % 256 < 256 && 0 <= w / 256 < 256) by (nonlinear_arith)
        requires
            0 <= w < 65536,
    ;
    assert(0 <= h % 256 < 256 && 0 <= h / 256 < 256) by (nonlinear_arith)
        requires
            0 <= h < 65536,
    ;
    assert(tga_width(enc) == (w / 256) * 256 + w % 256);
    vstd::arithmetic::div_mod::lemma_fundamental_div_mod(w, 256);
    vstd::arithmetic::div_mod::lemma_fundamental_div_mod(h, 256);
    assert(tga_width(enc) == w);
    assert(tga_height(enc) == h);
    assert(tga_type(enc) == 2);
    assert(tga_bpp(enc) == 4);
    assert(!tga_flip(enc));
    assert(w * h * 4 == 4 * data.len()) by (nonlinear_arith)
        requires
            data.len() == w * h,
    ;
    assert(tga_decode_err(enc) is None);
    let pixels = tga_decoded_pixels(enc);
    assert(pixels.len() == data.len());
    assert forall|i: int| 0 <= i < data.len() implies pixels[i] == data[i] by {
        assert(pixels[i] == tga_pixel_at(enc, 18 + i * 4, 4));
        lemma_enc_channel(w, h, data, i, 0);
        lemma_enc_channel(w, h, data, i, 1);
        lemma_enc_channel(w, h, data, i, 2);
        lemma_enc_channel(w, h, data, i, 3);
        crate::colors::lemma_unpack_pack(data[i]);
    }
    assert(tga_oriented(enc, pixels) =~= data);
}

/// One channel byte of one encoded pixel reads back the channel it encodes.
proof fn lemma_enc_channel(w: int, h: int, data: Seq<Color>, i: int, c: int)
    requires
        0 <= i < data.len(),
        0 <= c < 4,
    ensures
        spec_tga_encode(w, h, data)[18 + i * 4 + c] == (if c == 0 {
            crate::colors::spec_blue(data[i])
        } else if c == 1 {
            crate::colors::spec_green(data[i])
        } else if c == 2 {
            crate::colors::spec_red(data[i])
        } else {
            crate::colors::spec_alpha(data[i])
        }),
{
    let j = 18 + i * 4 + c;
    assert(0 <= 4 * i + c && 4 * i + c < 4 * data.len()) by (nonlinear_arith)
        requires
            0 <= i < data.len(),
            0 <= c < 4,
    ;
    vstd::arithmetic::div_mod::lemma_fundamental_div_mod_converse(i * 4 + c, 4, i, c);
    assert((j - 18) / 4 == i && (j - 18) % 4 == c);
}

} // verus!
