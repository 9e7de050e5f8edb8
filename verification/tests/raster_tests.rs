use rasterizer::bitmaps::Bitmap;
use rasterizer::colors::{from_u8_rgb, from_u8_rgba, from_rgba_u8, Color};
use rasterizer::fixed::Fx;
use rasterizer::primitives::{
    draw_filled_triangle, draw_line, draw_textured_triangle, draw_wireframe_triangle, putpixel,
};

fn canvas(w: usize, h: usize, bg: Color) -> Bitmap {
    Bitmap { width: w, height: h, data: vec![bg; w * h] }
}

fn pix(bm: &Bitmap, x: i64, y: i64) -> Color {
    let xi = (bm.width / 2) as i64 + x;
    let yi = (bm.height / 2) as i64 - y;
    bm.data[(yi * bm.width as i64 + xi) as usize]
}

#[test]
fn color_packing_round_trips() {
    let c = from_u8_rgba(12, 34, 56, 78);
    assert_eq!(from_rgba_u8(c), (12, 34, 56, 78));
    let c2 = from_u8_rgb(255, 0, 128);
    assert_eq!(from_rgba_u8(c2), (255, 0, 128, 0));
    assert_eq!(c2, 0x00FF0080);
}

#[test]
fn putpixel_maps_center_origin() {
    let mut bm = canvas(4, 4, 0);
    putpixel(&mut bm, 0, 0, 7);
    // storage index (4/2 - 0) * 4 + (4/2 + 0) = 10
    assert_eq!(bm.data[10], 7);
    // everything else untouched
    assert_eq!(bm.data.iter().filter(|&&c| c == 7).count(), 1);
}

#[test]
fn putpixel_drops_out_of_bounds() {
    let mut bm = canvas(4, 4, 0);
    putpixel(&mut bm, 100, 0, 7);
    putpixel(&mut bm, 0, -100, 7);
    putpixel(&mut bm, 2, 0, 7); // x-range is [-w/2, w/2): right edge excluded
    assert!(bm.data.iter().all(|&c| c == 0));
}

#[test]
fn putpixel_writes_leftmost_column() {
    // the writable x-range includes -w/2
    let mut bm = canvas(4, 4, 0);
    putpixel(&mut bm, -2, 0, 7);
    // storage index (4/2 - 0) * 4 + (4/2 - 2) = 8
    assert_eq!(bm.data[8], 7);
    assert_eq!(bm.data.iter().filter(|&&c| c == 7).count(), 1);
}

#[test]
fn draw_line_horizontal_span() {
    let mut bm = canvas(16, 16, 0);
    draw_line(&mut bm, (-3, 2), (3, 2), 9);
    // one pixel per x step, far endpoint excluded
    for x in -3..3 {
        assert_eq!(pix(&bm, x, 2), 9, "x={}", x);
    }
    assert_eq!(pix(&bm, 3, 2), 0);
}

#[test]
fn draw_line_steep_is_stepped_by_y() {
    let mut bm = canvas(16, 16, 0);
    draw_line(&mut bm, (0, -3), (1, 3), 9);
    let lit = bm.data.iter().filter(|&&c| c == 9).count();
    assert_eq!(lit, 6); // y spans 6 steps
}

/// Replicates the interpolation stepping of one drawn line, to predict the
/// exact pixels the wireframe pass writes.
fn line_pixels(p0: (i64, i64), p1: (i64, i64)) -> Vec<(i64, i64)> {
    fn dt(n: i64, d: i64) -> i64 {
        n / d // Rust division truncates toward zero
    }
    let (dx, dy) = ((p1.0 - p0.0).abs(), (p1.1 - p0.1).abs());
    let mut out = Vec::new();
    if dx > dy {
        let (a, b) = if p0.0 > p1.0 { (p1, p0) } else { (p0, p1) };
        let n = b.0 - a.0;
        for k in 0..n {
            out.push((a.0 + k, dt(a.1 * n + k * (b.1 - a.1), n)));
        }
    } else {
        let (a, b) = if p0.1 > p1.1 { (p1, p0) } else { (p0, p1) };
        let n = b.1 - a.1;
        let den = if n == 0 { 1 } else { n };
        for k in 0..n {
            out.push((dt(a.0 * den + k * (b.0 - a.0), den), a.1 + k));
        }
    }
    out
}

#[test]
fn flat_triangle_fill_scenario() {
    // the flat green triangle with black wireframe edges
    let green = from_u8_rgb(0, 255, 0);
    let black = from_u8_rgb(0, 0, 0);
    let bg = from_u8_rgb(255, 255, 255);
    let p0 = (-200i64, -250i64);
    let p1 = (200i64, 50i64);
    let p2 = (20i64, 250i64);
    let mut fill_only = canvas(600, 600, bg);
    draw_filled_triangle(&mut fill_only, p0, p1, p2, green);
    let mut combined = canvas(600, 600, bg);
    draw_filled_triangle(&mut combined, p0, p1, p2, green);
    draw_wireframe_triangle(&mut combined, p0, p1, p2, black);

    // every pixel strictly inside the triangle (at least two pixels away
    // from each edge, so truncation of the bounds cannot exclude it) is
    // green after the fill
    let cross =
        |a: (i64, i64), b: (i64, i64), p: (i64, i64)| (b.0 - a.0) * (p.1 - a.1) - (b.1 - a.1) * (p.0 - a.0);
    let l1 = |a: (i64, i64), b: (i64, i64)| (b.0 - a.0).abs() + (b.1 - a.1).abs();
    let mut interior = 0u32;
    for y in -260..260 {
        for x in -210..210 {
            let p = (x, y);
            let c0 = cross(p0, p1, p);
            let c1 = cross(p1, p2, p);
            let c2 = cross(p2, p0, p);
            let inside_with_margin = (c0.abs() > 2 * l1(p0, p1)) && (c1.abs() > 2 * l1(p1, p2))
                && (c2.abs() > 2 * l1(p2, p0))
                && ((c0 > 0 && c1 > 0 && c2 > 0) || (c0 < 0 && c1 < 0 && c2 < 0));
            if inside_with_margin {
                interior += 1;
                assert_eq!(pix(&fill_only, x, y), green, "interior pixel ({}, {})", x, y);
            }
        }
    }
    assert!(interior > 50000);

    // every pixel the wireframe pass reaches is black afterwards
    let mut edge_pixels = 0u32;
    for (a, b) in [(p0, p1), (p1, p2), (p2, p0)] {
        for (x, y) in line_pixels(a, b) {
            edge_pixels += 1;
            assert_eq!(pix(&combined, x, y), black, "edge pixel ({}, {})", x, y);
        }
    }
    assert!(edge_pixels > 900);
}

#[test]
fn zero_height_triangle_fills_nothing() {
    let mut bm = canvas(32, 32, 0);
    draw_filled_triangle(&mut bm, (-5, 3), (0, 3), (5, 3), 9);
    assert!(bm.data.iter().all(|&c| c == 0));
}

#[test]
fn textured_triangle_uv_wraps() {
    // a 4x4 texture with one color per column; UV 1.25 tiles to column 1
    let cols = [
        from_u8_rgb(10, 0, 0),
        from_u8_rgb(0, 20, 0),
        from_u8_rgb(0, 0, 30),
        from_u8_rgb(40, 40, 40),
    ];
    let mut tex_data = Vec::new();
    for _row in 0..4 {
        for c in cols {
            tex_data.push(c);
        }
    }
    let texture = Bitmap { width: 4, height: 4, data: tex_data };
    let mut bm = canvas(32, 32, 0);
    // u == 1.25 exactly: raw = 1.25 * 2^20
    let u = Fx { raw: 5 * 1048576 / 4 };
    let v = Fx { raw: 0 };
    draw_textured_triangle(
        &mut bm,
        (0, 0),
        (8, 0),
        (0, 8),
        (u, v),
        (u, v),
        (u, v),
        &texture,
    );
    let mut painted = 0u32;
    for (i, &c) in bm.data.iter().enumerate() {
        if c != 0 {
            painted += 1;
            assert_eq!(c, cols[1], "pixel index {} sampled the wrong column", i);
        }
    }
    assert!(painted > 10);
}

#[test]
fn rectangle_copy_composites_alpha() {
    // an opaque source replaces; a half-transparent source blends
    let mut target = canvas(4, 4, from_u8_rgba(100, 100, 100, 255));
    let src = Bitmap {
        width: 2,
        height: 1,
        data: vec![from_u8_rgba(200, 0, 0, 255), from_u8_rgba(200, 0, 0, 128)],
    };
    src.draw_rectangle_on(&mut target, 0, 0, 0, 0, 2, 1);
    assert_eq!(target.data[0], from_u8_rgba(200, 0, 0, 255));
    let (r, g, b, a) = from_rgba_u8(target.data[1]);
    // source-over: r = (255*200*128 + 100*255*127) / (255*128 + 255*127)
    let num = 255i64 * 200 * 128 + 100 * 255 * 127;
    let den = 255i64 * 128 + 255 * 127;
    assert_eq!(r as i64, num / den);
    assert_eq!(g as i64, (100i64 * 255 * 127) / den);
    assert_eq!(b as i64, (100i64 * 255 * 127) / den);
    assert_eq!(a as i64, den / 255);
}

#[test]
fn transparent_source_leaves_target() {
    let bg = from_u8_rgba(7, 8, 9, 255);
    let mut target = canvas(2, 2, bg);
    let src = Bitmap { width: 1, height: 1, data: vec![from_u8_rgba(200, 200, 200, 0)] };
    src.draw_rectangle_on(&mut target, 0, 0, 0, 0, 1, 1);
    assert_eq!(target.data[0], bg);
}

#[test]
fn draw_on_clamps_to_edges() {
    let mut target = canvas(4, 4, 0);
    let opaque = from_u8_rgba(5, 5, 5, 255);
    let src = Bitmap { width: 2, height: 2, data: vec![opaque; 4] };
    src.draw_on(&mut target, -100, 100);
    // clamped to the top-left corner
    assert_eq!(target.data[0], opaque);
    assert_eq!(target.data[1], opaque);
    assert_eq!(target.data[4], opaque);
    assert_eq!(target.data[5], opaque);
    assert_eq!(target.data.iter().filter(|&&c| c == opaque).count(), 4);
}

#[test]
fn single_row_sliver_fills_between_its_edges() {
    // a one-scanline triangle: its only row spans the two bottom vertices
    let mut bm = canvas(32, 32, 0);
    draw_filled_triangle(&mut bm, (0, 0), (10, 0), (0, 1), 9);
    for x in 0..10 {
        assert_eq!(pix(&bm, x, 0), 9, "x={}", x);
    }
    assert_eq!(pix(&bm, 10, 0), 0);
    assert_eq!(pix(&bm, -1, 0), 0);
}
