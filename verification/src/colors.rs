use vstd::prelude::*;

verus! {

/// A packed 32-bit color value. Byte layout, from most- to least-significant
/// byte: (alpha, red, green, blue). Alpha 255 is fully opaque, 0 is fully
/// transparent.
pub type Color = u32;

/// The packed value holding the four channels.
pub open spec fn spec_pack_rgba(r: u8, g: u8, b: u8, a: u8) -> u32 {
    ((a as int) * 0x1000000 + (r as int) * 0x10000 + (g as int) * 0x100 + (b as int)) as u32
}

/// The red channel of a packed color.
pub open spec fn spec_red(c: Color) -> u8 {
    (((c as int) / 0x10000) % 0x100) as u8
}

/// The green channel of a packed color.
pub open spec fn spec_green(c: Color) -> u8 {
    (((c as int) / 0x100) % 0x100) as u8
}

/// The blue channel of a packed color.
pub open spec fn spec_blue(c: Color) -> u8 {
    ((c as int) % 0x100) as u8
}

/// The alpha channel of a packed color.
pub open spec fn spec_alpha(c: Color) -> u8 {
    ((c as int) / 0x1000000) as u8
}

/// Packs red, green and blue into a color with alpha 0.
pub fn from_u8_rgb(r: u8, g: u8, b: u8) -> (c: u32)
    ensures
        c == spec_pack_rgba(r, g, b, 0),
{
    let (r, g, b) = (r as u32, g as u32, b as u32);
    let c = (r << 16) | (g << 8) | b;
    proof {
        assert(c == (r * 0x10000 + g * 0x100 + b) as u32) by (bit_vector)
            requires
                r < 256,
                g < 256,
                b < 256,
                c == (r << 16u32) | (g << 8u32) | b,
        ;
    }
    c
}

/// Packs all four channels into a color.
pub fn from_u8_rgba(r: u8, g: u8, b: u8, a: u8) -> (c: u32)
    ensures
        c == spec_pack_rgba(r, g, b, a),
{
    let (r, g, b, a) = (r as u32, g as u32, b as u32, a as u32);
    let c = (a << 24) | (r << 16) | (g << 8) | b;
    proof {
        assert(c == (a * 0x1000000 + r * 0x10000 + g * 0x100 + b) as u32) by (bit_vector)
            requires
                r < 256,
                g < 256,
                b < 256,
                a < 256,
                c == (a << 24u32) | (r << 16u32) | (g << 8u32) | b,
        ;
    }
    c
}

/// Unpacks a color into its (red, green, blue, alpha) channels.
pub fn from_rgba_u8(color: u32) -> (t: (u8, u8, u8, u8))
    ensures
        t.0 == spec_red(color),
        t.1 == spec_green(color),
        t.2 == spec_blue(color),
        t.3 == spec_alpha(color),
{
    let r = ((color >> 16) & 255) as u8;
    let g = ((color >> 8) & 255) as u8;
    let b = (color & 255) as u8;
    let a = ((color >> 24) & 255) as u8;
    proof {
        assert((color >> 16u32) & 255 == (color / 0x10000) % 0x100) by (bit_vector);
        assert((color >> 8u32) & 255 == (color / 0x100) % 0x100) by (bit_vector);
        assert(color & 255 == color % 0x100) by (bit_vector);
        assert((color >> 24u32) & 255 == color / 0x1000000) by (bit_vector);
    }
    (r, g, b, a)
}

/// Unpacking a packed color recovers the four channels exactly.
pub proof fn lemma_pack_unpack(r: u8, g: u8, b: u8, a: u8)
    ensures
        spec_red(spec_pack_rgba(r, g, b, a)) == r,
        spec_green(spec_pack_rgba(r, g, b, a)) == g,
        spec_blue(spec_pack_rgba(r, g, b, a)) == b,
        spec_alpha(spec_pack_rgba(r, g, b, a)) == a,
{
    let c = spec_pack_rgba(r, g, b, a);
    assert(c == (a as int) * 0x1000000 + (r as int) * 0x10000 + (g as int) * 0x100 + (b as int));
    assert(spec_red(c) == r && spec_green(c) == g && spec_blue(c) == b && spec_alpha(c) == a)
        by (nonlinear_arith)
        requires
            c == (a as int) * 0x1000000 + (r as int) * 0x10000 + (g as int) * 0x100 + (b as int),
            r < 256,
            g < 256,
            b < 256,
            a < 256,
            spec_red(c) == ((c as int) / 0x10000) % 0x100,
            spec_green(c) == ((c as int) / 0x100) % 0x100,
            spec_blue(c) == (c as int) % 0x100,
            spec_alpha(c) == (c as int) / 0x1000000,
    ;
}

/// Packing a color's own four channels back together recovers the color.
pub proof fn lemma_unpack_pack(c: Color)
    ensures
        spec_pack_rgba(spec_red(c), spec_green(c), spec_blue(c), spec_alpha(c)) == c,
{
    let ci = c as int;
    vstd::arithmetic::div_mod::lemma_fundamental_div_mod(ci, 256);
    vstd::arithmetic::div_mod::lemma_fundamental_div_mod(ci / 256, 256);
    vstd::arithmetic::div_mod::lemma_fundamental_div_mod(ci / 65536, 256);
    vstd::arithmetic::div_mod::lemma_div_denominator(ci, 256, 256);
    vstd::arithmetic::div_mod::lemma_div_denominator(ci, 65536, 256);
    assert(0 <= ci / 16777216 < 256) by (nonlinear_arith)
        requires
            0 <= ci < 0x100000000,
    ;
    assert(ci == (ci / 16777216) * 16777216 + ((ci / 65536) % 256) * 65536 + ((ci / 256) % 256)
        * 256 + ci % 256) by (nonlinear_arith)
        requires
            ci == 256 * (ci / 256) + ci % 256,
            ci / 256 == 256 * ((ci / 256) / 256) + (ci / 256) % 256,
            ci / 65536 == 256 * ((ci / 65536) / 256) + (ci / 65536) % 256,
            (ci / 256) / 256 == ci / 65536,
            (ci / 65536) / 256 == ci / 16777216,
    ;
}

} // verus!
