use rasterizer::bitmaps::Bitmap;
use rasterizer::colors::{from_u8_rgb, from_u8_rgba};
use rasterizer::load_tga::{decode_tga, encode_tga, TgaError};
use rasterizer::fixed::FX_SCALE;
use rasterizer::model_loading::{load_obj_file, ObjErrorKind};

fn header(w: u16, h: u16, image_type: u8, bits: u8, descriptor: u8) -> Vec<u8> {
    let mut v = vec![0u8; 18];
    v[2] = image_type;
    v[12] = (w & 0xff) as u8;
    v[13] = (w >> 8) as u8;
    v[14] = (h & 0xff) as u8;
    v[15] = (h >> 8) as u8;
    v[16] = bits;
    v[17] = descriptor;
    v
}

#[test]
fn tga_round_trip() {
    // encode a known 2x2 true-color image with alpha, decode it back
    let colors = [
        from_u8_rgba(255, 0, 0, 255),
        from_u8_rgba(0, 255, 0, 200),
        from_u8_rgba(0, 0, 255, 100),
        from_u8_rgba(10, 20, 30, 0),
    ];
    let bm = Bitmap { width: 2, height: 2, data: colors.to_vec() };
    let bytes = encode_tga(&bm);
    assert_eq!(bytes.len(), 18 + 16);
    assert_eq!(bytes[2], 2); // uncompressed true-color
    assert_eq!(bytes[16], 32); // 32 bits per pixel
    assert_eq!(bytes[17] >> 4, 2); // origin bit set: rows stay in order
    let decoded = decode_tga(&bytes).unwrap();
    assert_eq!(decoded.width, 2);
    assert_eq!(decoded.height, 2);
    assert_eq!(decoded.data, colors.to_vec());
}

#[test]
fn tga_bottom_up_rows_flip() {
    // descriptor origin bit clear: row order is flipped after decode
    let mut bytes = header(2, 2, 2, 24, 0);
    // row 0 on disk: blue-green-red per pixel
    bytes.extend_from_slice(&[1, 2, 3, 4, 5, 6]); // first stored row
    bytes.extend_from_slice(&[7, 8, 9, 10, 11, 12]); // second stored row
    let bm = decode_tga(&bytes).unwrap();
    // the second stored row comes out first
    assert_eq!(bm.data[0], from_u8_rgb(9, 8, 7));
    assert_eq!(bm.data[1], from_u8_rgb(12, 11, 10));
    assert_eq!(bm.data[2], from_u8_rgb(3, 2, 1));
    assert_eq!(bm.data[3], from_u8_rgb(6, 5, 4));
}

#[test]
fn tga_rle_packets_decode() {
    let mut bytes = header(2, 2, 10, 24, 32);
    // one run packet: 3 repetitions of one pixel
    bytes.extend_from_slice(&[0x80 + 2, 10, 20, 30]);
    // one raw packet: 1 literal pixel
    bytes.extend_from_slice(&[0x00, 40, 50, 60]);
    let bm = decode_tga(&bytes).unwrap();
    let run = from_u8_rgb(30, 20, 10);
    assert_eq!(bm.data, vec![run, run, run, from_u8_rgb(60, 50, 40)]);
}

#[test]
fn tga_errors_are_reported() {
    assert_eq!(decode_tga(&vec![0u8; 4]), Err(TgaError::Truncated));
    let bad_type = header(1, 1, 3, 24, 32);
    assert_eq!(decode_tga(&bad_type), Err(TgaError::UnsupportedType));
    let bad_depth = header(1, 1, 2, 16, 32);
    assert_eq!(decode_tga(&bad_depth), Err(TgaError::UnsupportedDepth));
    let short = header(2, 2, 2, 24, 32); // header announces 12 pixel bytes, none follow
    assert_eq!(decode_tga(&short), Err(TgaError::Truncated));
    let mut overrun = header(1, 1, 10, 24, 32);
    overrun.extend_from_slice(&[0x80 + 5, 1, 2, 3]); // 6 pixels into a 1-pixel image
    assert_eq!(decode_tga(&overrun), Err(TgaError::Malformed));
}

#[test]
fn obj_parses_vertices_faces_and_defaults() {
    let text = b"# comment line\nv 1 2.5 -3\nv 0.25 0 1\nv -1 -1 -1\nvt 0.5 0.5\nvn 0 1 0\nf 1/1/1 2/1/1 3/1/1\n".to_vec();
    let m = load_obj_file(&text).unwrap();
    assert_eq!(m.vertices.len(), 3);
    assert_eq!(m.vertices[0].x.raw, FX_SCALE);
    assert_eq!(m.vertices[0].y.raw, 2 * FX_SCALE + FX_SCALE / 2);
    assert_eq!(m.vertices[0].z.raw, -3 * FX_SCALE);
    assert_eq!(m.vertices[0].w.raw, FX_SCALE); // w defaults to 1
    assert_eq!(m.vertices[1].x.raw, FX_SCALE / 4);
    assert_eq!(m.uv_map.len(), 1);
    assert_eq!(m.uv_map[0].z.raw, 0); // vt w defaults to 0
    assert_eq!(m.vertex_normals.len(), 1);
    assert_eq!(m.triangles.len(), 1);
    assert_eq!(m.triangles[0].vertex, [0, 1, 2]);
    assert_eq!(m.triangles[0].uv_coord, [0, 0, 0]);
    assert_eq!(m.triangles[0].normal, [0, 0, 0]);
}

#[test]
fn obj_face_slots_may_be_empty() {
    let text = b"v 0 0 0\nv 1 0 0\nv 0 1 0\nf 1 2//1 3/2\n".to_vec();
    let m = load_obj_file(&text).unwrap();
    assert_eq!(m.triangles[0].vertex, [0, 1, 2]);
    assert_eq!(m.triangles[0].uv_coord, [0, 0, 1]);
    assert_eq!(m.triangles[0].normal, [0, 0, 0]);
}

#[test]
fn obj_unknown_directive_is_fatal_with_line() {
    let text = b"v 0 0 0\n\nvx 1 2 3\n".to_vec();
    let err = load_obj_file(&text).unwrap_err();
    assert_eq!(err.line, 2);
    assert_eq!(err.kind, ObjErrorKind::UnknownDirective);
}

#[test]
fn obj_too_many_face_corners_is_fatal() {
    let text = b"v 0 0 0\nf 1 1 1 1\n".to_vec();
    let err = load_obj_file(&text).unwrap_err();
    assert_eq!(err.line, 1);
    assert_eq!(err.kind, ObjErrorKind::TooManyVertices);
}

#[test]
fn obj_missing_field_is_fatal() {
    let text = b"v 1 2\n".to_vec();
    let err = load_obj_file(&text).unwrap_err();
    assert_eq!(err.line, 0);
    assert_eq!(err.kind, ObjErrorKind::MissingField);
}

#[test]
fn tga_oversized_dimensions_are_rejected() {
    let huge = header(40000, 2, 2, 32, 32);
    assert_eq!(decode_tga(&huge), Err(TgaError::TooLarge));
}

#[test]
fn obj_bad_number_is_fatal() {
    let text = b"v 1 2 x\n".to_vec();
    let err = load_obj_file(&text).unwrap_err();
    assert_eq!(err.line, 0);
    assert_eq!(err.kind, ObjErrorKind::BadNumber);
}

#[test]
fn obj_face_may_reference_later_vertices() {
    // index validation happens after the whole file is read, so a face may
    // come before the vertices it references
    let text = b"f 1 2 3
v 0 0 0
v 1 0 0
v 0 1 0
".to_vec();
    let m = load_obj_file(&text).unwrap();
    assert_eq!(m.triangles[0].vertex, [0, 1, 2]);
    assert_eq!(m.vertices.len(), 3);
}

#[test]
fn obj_face_slots_decrement_one_based_indices() {
    let text = b"v 0 0 0
v 1 1 1
v 2 2 2
f 1/2/3 2/3/1 3/1/2
".to_vec();
    let m = load_obj_file(&text).unwrap();
    assert_eq!(m.triangles[0].vertex, [0, 1, 2]);
    assert_eq!(m.triangles[0].uv_coord, [1, 2, 0]);
    assert_eq!(m.triangles[0].normal, [2, 0, 1]);
}

#[test]
fn obj_vertex_index_out_of_range_is_fatal() {
    let text = b"v 0 0 0\nf 1 2 1\n".to_vec();
    let err = load_obj_file(&text).unwrap_err();
    assert_eq!(err.kind, ObjErrorKind::BadIndex);
}
