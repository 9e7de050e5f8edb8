use rasterizer::bitmaps::Bitmap;
use rasterizer::colors::{from_u8_rgb, Color};
use rasterizer::fixed::{Fx, FX_SCALE};
use rasterizer::font::Font;
use rasterizer::math::{col_mat4_mul, col_mat4_transform, mat4_scale, mat4_translation, Mat4, Vec3, Vec4};
use rasterizer::render_2d::{Polygon2D, Surface2D, Viewport};
use rasterizer::render_3d::{
    draw_filled_polygon, draw_textured_polygon, Instance, MaterialData, Model, PolygonData,
};

fn fx(v: i64) -> Fx {
    Fx { raw: v * FX_SCALE }
}

fn viewport(w: usize, h: usize, bg: Color) -> Viewport {
    Viewport::new(w, h, fx(2), fx(2), fx(1), bg)
}

fn vpix(v: &Viewport, x: i64, y: i64) -> Color {
    let xi = (v.canvas_width / 2) as i64 + x;
    let yi = (v.canvas_height / 2) as i64 - y;
    v.screen.data[(yi * v.canvas_width as i64 + xi) as usize]
}

#[test]
fn center_point_projects_to_center_index() {
    // a point on the view axis projects to canvas (0, 0), which maps to
    // storage index (h/2)*w + w/2
    let v = viewport(64, 64, 0);
    let p = v.project_vertex((fx(0), fx(0), fx(5)));
    assert_eq!(p, (0, 0));
    let idx = (v.canvas_height / 2) * v.canvas_width + v.canvas_width / 2;
    assert_eq!(idx, 32 * 64 + 32);
}

#[test]
fn projection_scales_by_distance_and_viewport() {
    // x=1, z=2, d=1, viewport 2 wide, canvas 64 wide: 1*1/2 / 2 * 64 = 16
    let v = viewport(64, 64, 0);
    let p = v.project_vertex((fx(1), fx(0), fx(2)));
    assert_eq!(p, (16, 0));
}

#[test]
fn depth_buffer_accessors_round_trip() {
    let mut v = viewport(16, 16, 0);
    assert_eq!(v.get_dbuff_val(3, 2), Some(0));
    v.set_dbuff_val(3, 2, 77);
    assert_eq!(v.get_dbuff_val(3, 2), Some(77));
    assert_eq!(v.get_dbuff_val(100, 2), None);
    v.set_dbuff_val(100, 2, 5); // dropped
    assert_eq!(v.get_dbuff_val(0, 0), Some(0));
}

#[test]
fn depth_test_is_monotonic_per_pixel() {
    // once a pixel is written at a reciprocal depth, an equal or farther
    // candidate changes nothing
    let mut v = viewport(16, 16, 0);
    v.put_pixel_if_nearer(1, 1, 100, 7);
    assert_eq!(vpix(&v, 1, 1), 7);
    assert_eq!(v.get_dbuff_val(1, 1), Some(100));
    v.put_pixel_if_nearer(1, 1, 100, 9); // equal: rejected
    assert_eq!(vpix(&v, 1, 1), 7);
    v.put_pixel_if_nearer(1, 1, 40, 9); // farther: rejected
    assert_eq!(vpix(&v, 1, 1), 7);
    assert_eq!(v.get_dbuff_val(1, 1), Some(100));
    v.put_pixel_if_nearer(1, 1, 150, 9); // nearer: accepted
    assert_eq!(vpix(&v, 1, 1), 9);
    assert_eq!(v.get_dbuff_val(1, 1), Some(150));
}

#[test]
fn clear_screen_resets_canvas_and_depth() {
    let bg = from_u8_rgb(9, 9, 9);
    let mut v = viewport(8, 8, bg);
    v.put_pixel_if_nearer(0, 0, 10, 1234);
    v.clear_screen();
    assert!(v.screen.data.iter().all(|&c| c == bg));
    assert!(v.depth_buffer.iter().all(|&d| d == 0));
}

#[test]
fn nearer_polygon_wins_depth_test() {
    let red = from_u8_rgb(255, 0, 0);
    let blue = from_u8_rgb(0, 0, 255);
    let mut v = viewport(64, 64, 0);
    // a far red triangle, then a nearer blue one covering the same pixels
    draw_filled_polygon(&mut v, ((-10, -10), fx(8)), ((10, -10), fx(8)), ((0, 10), fx(8)), red);
    assert_eq!(vpix(&v, 0, 0), red);
    draw_filled_polygon(&mut v, ((-10, -10), fx(2)), ((10, -10), fx(2)), ((0, 10), fx(2)), blue);
    assert_eq!(vpix(&v, 0, 0), blue);
    // drawing the far one again changes nothing
    draw_filled_polygon(&mut v, ((-10, -10), fx(8)), ((10, -10), fx(8)), ((0, 10), fx(8)), red);
    assert_eq!(vpix(&v, 0, 0), blue);
}

#[test]
fn textured_polygon_samples_texture() {
    let cols = [
        from_u8_rgb(10, 0, 0),
        from_u8_rgb(0, 20, 0),
        from_u8_rgb(0, 0, 30),
        from_u8_rgb(40, 40, 40),
    ];
    let mut tex_data = Vec::new();
    for _row in 0..4 {
        for c in cols {
            tex_data.push(c);
        }
    }
    let texture = Bitmap { width: 4, height: 4, data: tex_data };
    let mut v = viewport(32, 32, 0);
    // constant depth, constant u = 0.25 (texel column 1), v = 0
    let u = Fx { raw: FX_SCALE / 4 };
    let z = fx(1);
    draw_textured_polygon(
        &mut v,
        ((0, 0), z),
        ((8, 0), z),
        ((0, 8), z),
        (u, Fx { raw: 0 }),
        (u, Fx { raw: 0 }),
        (u, Fx { raw: 0 }),
        &texture,
    );
    let mut painted = 0;
    for &c in v.screen.data.iter() {
        if c != 0 {
            painted += 1;
            assert_eq!(c, cols[1]);
        }
    }
    assert!(painted > 10);
}

fn cube() -> Model {
    let verts = [
        (1, 1, 1),
        (-1, 1, 1),
        (-1, -1, 1),
        (1, -1, 1),
        (1, 1, -1),
        (-1, 1, -1),
        (-1, -1, -1),
        (1, -1, -1),
    ];
    let tris: [[usize; 3]; 12] = [
        [0, 1, 2],
        [0, 2, 3],
        [4, 0, 3],
        [4, 3, 7],
        [5, 4, 7],
        [5, 7, 6],
        [1, 5, 6],
        [1, 6, 2],
        [4, 5, 1],
        [4, 1, 0],
        [2, 6, 7],
        [2, 7, 3],
    ];
    Model {
        vertices: verts
            .iter()
            .map(|&(x, y, z)| Vec4 { x: fx(x), y: fx(y), z: fx(z), w: fx(1) })
            .collect(),
        uv_map: vec![Vec3 { x: Fx { raw: 0 }, y: Fx { raw: 0 }, z: Fx { raw: 0 } }],
        vertex_normals: vec![],
        triangles: tris
            .iter()
            .map(|&vertex| PolygonData { vertex, normal: [0, 0, 0], uv_coord: [0, 0, 0] })
            .collect(),
    }
}

fn camera_at_z(z: i64) -> Mat4 {
    mat4_translation(fx(0), fx(0), fx(z))
}

#[test]
fn instance_render_flat_cube() {
    let model = cube();
    let colors: Vec<Color> = (0..12).map(|i| from_u8_rgb(20 + i as u8 * 10, 0, 0)).collect();
    let inst = Instance {
        model: &model,
        scale: fx(1),
        r_pitch_sin: Fx { raw: 0 },
        r_pitch_cos: fx(1),
        r_yaw_sin: Fx { raw: 0 },
        r_yaw_cos: fx(1),
        r_roll_sin: Fx { raw: 0 },
        r_roll_cos: fx(1),
        x: fx(0),
        y: fx(0),
        z: fx(0),
        material: MaterialData::Flat(colors),
    };
    let mut v = viewport(128, 128, 0);
    inst.render(&mut v, camera_at_z(4));
    // the cube's front face covers the canvas center
    assert_ne!(vpix(&v, 0, 0), 0);
    // and the depth buffer recorded something positive there
    assert!(v.get_dbuff_val(0, 0).unwrap() > 0);
}

#[test]
fn instance_transform_composes_scale_and_translation() {
    let model = cube();
    let inst = Instance {
        model: &model,
        scale: fx(2),
        r_pitch_sin: Fx { raw: 0 },
        r_pitch_cos: fx(1),
        r_yaw_sin: Fx { raw: 0 },
        r_yaw_cos: fx(1),
        r_roll_sin: Fx { raw: 0 },
        r_roll_cos: fx(1),
        x: fx(3),
        y: fx(0),
        z: fx(0),
        material: MaterialData::Flat(vec![]),
    };
    let m = inst.transform_matrix();
    let p = col_mat4_transform(&m, Vec4 { x: fx(1), y: fx(1), z: fx(1), w: fx(1) });
    // scale doubles, then the translation moves x by 3... but the scale
    // matrix multiplies the translation column too: (2*3 + 2*1, 2, 2)
    assert_eq!(p.x.raw, 8 * FX_SCALE);
    assert_eq!(p.y.raw, 2 * FX_SCALE);
    assert_eq!(p.z.raw, 2 * FX_SCALE);
    assert_eq!(p.w.raw, FX_SCALE);
}

#[test]
fn wireframe_cube_draws_green_edges() {
    let model = cube();
    let mut v = viewport(128, 128, 0);
    model.render_wireframe(&mut v, camera_at_z(4));
    let green = from_u8_rgb(0, 255, 0);
    let lit = v.screen.data.iter().filter(|&&c| c == green).count();
    assert!(lit > 50);
    assert!(v.screen.data.iter().all(|&c| c == 0 || c == green));
}

#[test]
fn polygon2d_transforms_and_draws() {
    let poly = Polygon2D {
        a: Vec3 { x: fx(-4), y: fx(-4), z: fx(1) },
        b: Vec3 { x: fx(4), y: fx(-4), z: fx(1) },
        c: Vec3 { x: fx(0), y: fx(4), z: fx(1) },
    };
    let moved = poly.translate(fx(1), fx(0));
    assert_eq!(moved.a.x.raw, -3 * FX_SCALE);
    assert_eq!(moved.a.y.raw, -4 * FX_SCALE);
    let scaled = poly.scale(fx(2), fx(2), fx(0), fx(0));
    assert_eq!(scaled.b.x.raw, 8 * FX_SCALE);
    let green = from_u8_rgb(0, 255, 0);
    let mut v = viewport(64, 64, 0);
    // with d == 1, z == 1 and viewport size 2 the projection scales by 32
    poly.draw(&mut v, green);
    assert_ne!(vpix(&v, 0, 0), 0);
}

#[test]
fn matrix_multiplication_is_exact_on_integers() {
    let a = mat4_scale(fx(3));
    let b = mat4_translation(fx(1), fx(2), fx(3));
    let m = col_mat4_mul(&a, &b);
    let p = col_mat4_transform(&m, Vec4 { x: fx(0), y: fx(0), z: fx(0), w: fx(1) });
    assert_eq!(p.x.raw, 3 * FX_SCALE);
    assert_eq!(p.y.raw, 6 * FX_SCALE);
    assert_eq!(p.z.raw, 9 * FX_SCALE);
}

#[test]
fn font_draws_one_glyph_rectangle() {
    // a 16x16 grid of 8x16 glyphs, all one color
    let atlas = Bitmap {
        width: 128,
        height: 256,
        data: vec![rasterizer::colors::from_u8_rgba(1, 2, 3, 255); 128 * 256],
    };
    let font = Font {
        bitmap: atlas,
        char_width: 8,
        char_height: 16,
        chars_per_line: 16,
        num_lines: 16,
    };
    let mut target = Bitmap { width: 32, height: 32, data: vec![0; 32 * 32] };
    font.draw_str_line(&mut target, 0, 0, &vec![0u8]);
    let lit = target
        .data
        .iter()
        .filter(|&&c| c == rasterizer::colors::from_u8_rgba(1, 2, 3, 255))
        .count();
    assert_eq!(lit, 8 * 16);
}

#[test]
fn textured_flat_covers_its_square() {
    // a textured square built from one solid texture, drawn whole
    let texture = Bitmap {
        width: 4,
        height: 4,
        data: vec![from_u8_rgb(50, 60, 70); 16],
    };
    let flat = rasterizer::render_2d::TexturedFlat2D::new(
        &texture,
        Vec3 { x: fx(-2), y: fx(-2), z: fx(1) },
    );
    assert_eq!(flat.a.coords.a.x.raw, -2 * FX_SCALE);
    assert_eq!(flat.a.coords.b.x.raw, 2 * FX_SCALE); // side = texture width
    assert_eq!(flat.b.coords.b.y.raw, 2 * FX_SCALE);
    assert_eq!(flat.a.uv_map.b.x.raw, FX_SCALE);
    let mut v = viewport(64, 64, 0);
    // with d == 1, z == 1 and viewport size 2 the projection scales by 32,
    // so the square covers the canvas center region
    flat.draw(&mut v);
    assert_eq!(vpix(&v, 0, 0), from_u8_rgb(50, 60, 70));
}
