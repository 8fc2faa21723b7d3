use soft_raster::model::{Face, FaceCorner, Model, ModelError, TexCoord, TextureError};
use soft_raster::obj::{parse_corner, parse_face};
use soft_raster::rasterizer::{Rasterizer, DEPTH_CLEAR};
use soft_raster::screen::NDC_ONE;
use soft_raster::shading::{default_light, face_shade, SHADE_LIMIT};
use soft_raster::util::{dispatch_size, get_output_buffer_size, WORKGROUP_SIZE};
use soft_raster::vec2::Vec2i;
use soft_raster::vec3::Vec3i;

fn v(x: i32, y: i32, z: i32) -> Vec3i {
    Vec3i::new(x, y, z)
}

fn corner(vert: usize, texcoord: usize) -> FaceCorner {
    FaceCorner { vert, texcoord, normal: None }
}

fn face(a: usize, b: usize, c: usize) -> Face {
    Face { a: corner(a, 0), b: corner(b, 0), c: corner(c, 0) }
}

#[test]
fn shade_facing_light_is_white() {
    let r = face_shade(v(0, 0, 0), v(1, 0, 0), v(0, 1, 0), default_light());
    assert_eq!(r, Some(0x00ff_ffff));
}

#[test]
fn shade_facing_away_is_skipped() {
    assert_eq!(face_shade(v(0, 0, 0), v(0, 1, 0), v(1, 0, 0), default_light()), None);
    // Edge-on: the normal is perpendicular to the light.
    assert_eq!(face_shade(v(0, 0, 0), v(1, 0, 0), v(0, 0, 1), default_light()), None);
}

#[test]
fn shade_degenerate_face_is_skipped() {
    assert_eq!(face_shade(v(0, 0, 0), v(1, 1, 1), v(2, 2, 2), default_light()), None);
    assert_eq!(face_shade(v(0, 0, 0), v(1, 0, 0), v(0, 1, 0), v(0, 0, 0)), None);
}

#[test]
fn shade_tilted_face_rounds_intensity() {
    // Normal (0, 4, -3): intensity 3/5, gray 153 = 0x99.
    let r = face_shade(v(0, 0, 0), v(1, 0, 0), v(0, 3, 4), default_light());
    assert_eq!(r, Some(0x0099_9999));
    // Intensity 1/sqrt(2): 255 * 0.7071 = 180.3, gray 180 = 0xb4.
    let s = face_shade(v(0, 0, 0), v(1, 0, 0), v(0, 1, 1), default_light());
    assert_eq!(s, Some(0x00b4_b4b4));
}

#[test]
fn shade_scale_does_not_matter() {
    let k = 1000;
    let a = face_shade(v(0, 0, 0), v(1, 0, 0), v(0, 3, 4), v(0, 0, -1));
    let b = face_shade(v(0, 0, 0), v(k, 0, 0), v(0, 3 * k, 4 * k), v(0, 0, -SHADE_LIMIT));
    assert_eq!(a, b);
}

#[test]
fn model_rejects_bad_vertex() {
    let r = Model::new(vec![v(0, 0, SHADE_LIMIT + 1)], vec![], vec![]);
    assert_eq!(r.err(), Some(ModelError::VertexOutOfRange));
}

#[test]
fn model_rejects_bad_face_index() {
    let tc = vec![TexCoord { u: 0, v: 0 }];
    let r = Model::new(vec![v(0, 0, 0), v(1, 0, 0)], tc.clone(), vec![face(0, 1, 2)]);
    assert_eq!(r.err(), Some(ModelError::FaceIndexOutOfRange));
    let bad_tex = Face { a: corner(0, 0), b: corner(1, 1), c: corner(0, 0) };
    let r2 = Model::new(vec![v(0, 0, 0), v(1, 0, 0)], tc, vec![bad_tex]);
    assert_eq!(r2.err(), Some(ModelError::FaceIndexOutOfRange));
}

#[test]
fn model_accessors() {
    let tc = vec![TexCoord { u: 1, v: 2 }];
    let m = Model::new(vec![v(0, 0, 0), v(1, 0, 0), v(0, 1, 0)], tc, vec![face(0, 1, 2)]).unwrap();
    assert_eq!(m.nfaces(), 1);
    assert_eq!(m.nverts(), 3);
    assert_eq!(m.face(0), face(0, 1, 2));
    assert_eq!(m.vert(1), v(1, 0, 0));
    assert_eq!(m.texcoord(0), TexCoord { u: 1, v: 2 });
    assert!(m.texture().is_none());
}

#[test]
fn texture_packs_rgb_bytes() {
    let mut m = Model::new(vec![], vec![], vec![]).unwrap();
    let bytes = vec![0x12, 0x34, 0x56, 0xff, 0x00, 0x80];
    assert_eq!(m.load_texture(&bytes, 2, 1), Ok(()));
    assert_eq!(m.texture(), Some(&vec![0x0012_3456, 0x00ff_0080]));
    assert_eq!((m.texture_width(), m.texture_height()), (2, 1));
}

#[test]
fn texture_size_mismatch_is_refused() {
    let mut m = Model::new(vec![], vec![], vec![]).unwrap();
    assert_eq!(m.load_texture(&vec![1, 2, 3], 2, 1), Err(TextureError::SizeMismatch));
    assert_eq!(m.load_texture(&vec![], 0, 0), Err(TextureError::SizeMismatch));
    assert!(m.texture().is_none());
}

#[test]
fn draw_model_shades_and_culls() {
    let one = NDC_ONE as i32;
    let verts = vec![v(0, 0, 0), v(1, 0, 0), v(0, 1, 0)];
    let tc = vec![TexCoord { u: 0, v: 0 }];
    // The first face points toward the light, the second away.
    let faces = vec![face(0, 1, 2), face(0, 2, 1)];
    let m = Model::new(verts, tc, faces).unwrap();
    // Device coordinates for a 10 by 10 frame: (0,0), (4,0) and (0,4) on screen.
    let ndc = vec![v(-one, one, 5), v(-one + 4 * one / 5, one, 5), v(-one, one - 4 * one / 5, 5)];
    let mut r = Rasterizer::new(10, 10);
    r.draw_model(&m, &ndc, default_light());
    let white = r.buffer.iter().filter(|&&c| c == 0x00ff_ffff).count();
    assert_eq!(white, 15);
    assert_eq!(r.buffer.iter().filter(|&&c| c != 0 && c != 0x00ff_ffff).count(), 0);
    assert_eq!(r.zbuffer[0], 5);
    assert_eq!(r.zbuffer[99], DEPTH_CLEAR);
}

#[test]
fn dispatch_size_rounds_up() {
    assert_eq!(WORKGROUP_SIZE, 256);
    assert_eq!(dispatch_size(0), 0);
    assert_eq!(dispatch_size(1), 1);
    assert_eq!(dispatch_size(256), 1);
    assert_eq!(dispatch_size(257), 2);
    assert_eq!(dispatch_size(u32::MAX), 16_777_216);
}

#[test]
fn output_buffer_size_counts_bytes() {
    assert_eq!(get_output_buffer_size(800, 600), 1_920_000);
    assert_eq!(get_output_buffer_size(0, 600), 0);
}

#[test]
fn vec2i_new_holds_components() {
    let p = Vec2i::new(-3, 9);
    assert_eq!((p.x, p.y), (-3, 9));
}

#[test]
fn corner_with_normal() {
    let c = parse_corner(b"24/1/24").unwrap();
    assert_eq!(c, FaceCorner { vert: 23, texcoord: 0, normal: Some(23) });
}

#[test]
fn corner_without_normal() {
    let c = parse_corner(b"3/7").unwrap();
    assert_eq!(c, FaceCorner { vert: 2, texcoord: 6, normal: None });
}

#[test]
fn corner_refuses_malformed_fields() {
    assert_eq!(parse_corner(b"12"), None);
    assert_eq!(parse_corner(b"1//3"), None);
    assert_eq!(parse_corner(b"0/1/1"), None);
    assert_eq!(parse_corner(b"1/2/3/4"), None);
    assert_eq!(parse_corner(b"a/2"), None);
    assert_eq!(parse_corner(b""), None);
    assert_eq!(parse_corner(b"1/2/"), None);
    assert_eq!(parse_corner(b"99999999999999999999999/1"), None);
}

#[test]
fn corner_largest_index() {
    let max = format!("{}/1", usize::MAX);
    let c = parse_corner(max.as_bytes()).unwrap();
    assert_eq!(c.vert, usize::MAX - 1);
}

#[test]
fn new_model_has_no_texture_size() {
    let m = Model::new(vec![], vec![], vec![]).unwrap();
    assert!(m.texture().is_none());
    assert_eq!((m.texture_width(), m.texture_height()), (0, 0));
}

#[test]
fn face_line_parses_three_corners() {
    let f = parse_face(b"f 1/2/3 4/5/6\t7/8/9\r").unwrap();
    assert_eq!(f.a, FaceCorner { vert: 0, texcoord: 1, normal: Some(2) });
    assert_eq!(f.b, FaceCorner { vert: 3, texcoord: 4, normal: Some(5) });
    assert_eq!(f.c, FaceCorner { vert: 6, texcoord: 7, normal: Some(8) });
    let g = parse_face(b"  f 1/1 2/1 3/1").unwrap();
    assert_eq!(g, face(0, 1, 2));
}

#[test]
fn face_line_refuses_other_lines() {
    assert_eq!(parse_face(b"f 1/1 2/2"), None);
    assert_eq!(parse_face(b"f 1/1 2/2 3/3 4/4"), None);
    assert_eq!(parse_face(b"v 1/1 2/2 3/3"), None);
    assert_eq!(parse_face(b"ff 1/1 2/2 3/3"), None);
    assert_eq!(parse_face(b"f 1/1 2/x 3/3"), None);
    assert_eq!(parse_face(b""), None);
}
