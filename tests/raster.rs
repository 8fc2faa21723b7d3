use soft_raster::rasterizer::{Rasterizer, DEPTH_CLEAR};
use soft_raster::triangle::{ScreenVertex, TEX_ONE};
use soft_raster::vec2::Vec2i;

const C: u32 = 0x00ff_8040;

fn px(r: &Rasterizer, x: usize, y: usize) -> u32 {
    r.buffer[y * r.width + x]
}

fn flat(x: i32, y: i32, z: i32) -> ScreenVertex {
    ScreenVertex::new(x, y, z, 0, 0)
}

fn count_color(r: &Rasterizer, color: u32) -> usize {
    r.buffer.iter().filter(|&&c| c == color).count()
}

#[test]
fn new_frame_is_black_and_cleared() {
    let r = Rasterizer::new(4, 3);
    assert_eq!(r.buffer.len(), 12);
    assert!(r.buffer.iter().all(|&c| c == 0));
    assert!(r.zbuffer.iter().all(|&z| z == DEPTH_CLEAR));
}

#[test]
fn horizontal_line_scenario() {
    let mut r = Rasterizer::new(10, 10);
    r.draw_line(Vec2i::new(0, 0), Vec2i::new(4, 0), C);
    for y in 0..10 {
        for x in 0..10 {
            let expected = if y == 0 && x <= 4 { C } else { 0 };
            assert_eq!(px(&r, x, y), expected, "pixel ({}, {})", x, y);
        }
    }
}

#[test]
fn line_single_point() {
    let mut r = Rasterizer::new(10, 10);
    r.draw_line(Vec2i::new(3, 7), Vec2i::new(3, 7), C);
    assert_eq!(count_color(&r, C), 1);
    assert_eq!(px(&r, 3, 7), C);
}

#[test]
fn line_diagonal_and_reversed() {
    let mut r = Rasterizer::new(10, 10);
    r.draw_line(Vec2i::new(5, 5), Vec2i::new(1, 1), C);
    assert_eq!(count_color(&r, C), 5);
    for i in 1..=5 {
        assert_eq!(px(&r, i, i), C);
    }
}

#[test]
fn line_shallow_rounds_to_nearest() {
    // From (0,0) to (4,1): the ideal y at x = 0..4 is 0, .25, .5, .75, 1;
    // halves round toward the start.
    let mut r = Rasterizer::new(10, 10);
    r.draw_line(Vec2i::new(0, 0), Vec2i::new(4, 1), C);
    let drawn: Vec<(usize, usize)> = vec![(0, 0), (1, 0), (2, 0), (3, 1), (4, 1)];
    assert_eq!(count_color(&r, C), 5);
    for (x, y) in drawn {
        assert_eq!(px(&r, x, y), C, "pixel ({}, {})", x, y);
    }
}

#[test]
fn line_steep_one_pixel_per_row() {
    let mut r = Rasterizer::new(10, 10);
    r.draw_line(Vec2i::new(2, 0), Vec2i::new(3, 8), C);
    assert_eq!(count_color(&r, C), 9);
    for y in 0..=8 {
        let row: Vec<u32> = (0..10).map(|x| px(&r, x, y)).collect();
        assert_eq!(row.iter().filter(|&&c| c == C).count(), 1, "row {}", y);
    }
    assert_eq!(px(&r, 2, 0), C);
    assert_eq!(px(&r, 3, 8), C);
}

#[test]
fn line_clipped_at_buffer_edge() {
    let mut r = Rasterizer::new(10, 10);
    r.draw_line(Vec2i::new(-5, 2), Vec2i::new(14, 2), C);
    assert_eq!(count_color(&r, C), 10);
    for x in 0..10 {
        assert_eq!(px(&r, x, 2), C);
    }
    let depths = r.zbuffer.clone();
    assert!(depths.iter().all(|&z| z == DEPTH_CLEAR));
}

#[test]
fn right_triangle_scenario() {
    let mut r = Rasterizer::new(10, 10);
    r.fill_triangle(flat(0, 0, 0), flat(4, 0, 0), flat(0, 4, 0), C);
    assert_eq!(count_color(&r, C), 15);
    for y in 0..10 {
        for x in 0..10 {
            let expected = if x + y <= 4 { C } else { 0 };
            assert_eq!(px(&r, x, y), expected, "pixel ({}, {})", x, y);
        }
    }
}

#[test]
fn triangle_winding_does_not_matter() {
    let mut r = Rasterizer::new(10, 10);
    r.fill_triangle(flat(0, 4, 0), flat(4, 0, 0), flat(0, 0, 0), C);
    assert_eq!(count_color(&r, C), 15);
}

#[test]
fn collinear_triangle_fills_nothing() {
    let mut r = Rasterizer::new(10, 10);
    r.fill_triangle(flat(0, 0, 5), flat(2, 2, 5), flat(5, 5, 5), C);
    assert_eq!(count_color(&r, C), 0);
    assert!(r.zbuffer.iter().all(|&z| z == DEPTH_CLEAR));
}

#[test]
fn triangle_partly_off_screen() {
    let mut r = Rasterizer::new(10, 10);
    r.fill_triangle(flat(-20, -20, 1), flat(40, -20, 1), flat(-20, 40, 1), C);
    // Covers every pixel with x + y <= 20, which is the whole buffer.
    assert_eq!(count_color(&r, C), 100);
}

#[test]
fn fill_writes_interpolated_depth() {
    let mut r = Rasterizer::new(10, 10);
    r.fill_triangle(flat(0, 0, 0), flat(8, 0, 80), flat(0, 8, 0), C);
    assert_eq!(r.zbuffer[0], 0);
    assert_eq!(r.zbuffer[4], 40);
    assert_eq!(r.zbuffer[8], 80);
    assert_eq!(r.zbuffer[9], DEPTH_CLEAR);
}

#[test]
fn nearer_triangle_wins_in_either_order() {
    let near = 0x0000_ff00;
    let far = 0x0000_00ff;
    let t_far = [flat(0, 0, 10), flat(9, 0, 10), flat(0, 9, 10)];
    let t_near = [flat(0, 0, 20), flat(6, 0, 20), flat(0, 6, 20)];

    let mut r1 = Rasterizer::new(10, 10);
    r1.fill_triangle(t_far[0], t_far[1], t_far[2], far);
    r1.fill_triangle(t_near[0], t_near[1], t_near[2], near);

    let mut r2 = Rasterizer::new(10, 10);
    r2.fill_triangle(t_near[0], t_near[1], t_near[2], near);
    r2.fill_triangle(t_far[0], t_far[1], t_far[2], far);

    assert_eq!(r1.buffer, r2.buffer);
    for y in 0..10 {
        for x in 0..10 {
            if x + y <= 6 {
                assert_eq!(px(&r1, x, y), near);
            } else if x + y <= 9 {
                assert_eq!(px(&r1, x, y), far);
            } else {
                assert_eq!(px(&r1, x, y), 0);
            }
        }
    }
}

#[test]
fn equal_depth_keeps_first_write() {
    let mut r = Rasterizer::new(10, 10);
    r.fill_triangle(flat(0, 0, 5), flat(4, 0, 5), flat(0, 4, 5), 1);
    r.fill_triangle(flat(0, 0, 5), flat(4, 0, 5), flat(0, 4, 5), 2);
    assert_eq!(count_color(&r, 1), 15);
    assert_eq!(count_color(&r, 2), 0);
}

#[test]
fn clear_resets_both_buffers() {
    let mut r = Rasterizer::new(10, 10);
    r.fill_triangle(flat(0, 0, 5), flat(4, 0, 5), flat(0, 4, 5), C);
    r.clear();
    assert!(r.buffer.iter().all(|&c| c == 0));
    assert!(r.zbuffer.iter().all(|&z| z == DEPTH_CLEAR));
}

fn two_by_two_texture() -> Vec<u32> {
    // Row 0 is the top of the texture (v near 1).
    vec![0x11, 0x22, 0x33, 0x44]
}

#[test]
fn texture_sampled_at_corner() {
    let one = TEX_ONE as i32;
    let mut r = Rasterizer::new(10, 10);
    r.set_texture(Some(two_by_two_texture()), 2, 2);
    // Corner a samples (u, v) = (0, 0): column 0, row 2 clamped to 1.
    let a = ScreenVertex::new(0, 0, 0, 0, 0);
    // Corner b samples (0.75, 0.75): column 1, row 0.
    let b = ScreenVertex::new(8, 0, 0, 3 * one / 4, 3 * one / 4);
    // Corner c samples (0.25, 0.25): column 0, row 1.
    let c = ScreenVertex::new(0, 8, 0, one / 4, one / 4);
    r.fill_triangle(a, b, c, C);
    assert_eq!(px(&r, 0, 0), 0x33);
    assert_eq!(px(&r, 8, 0), 0x22);
    assert_eq!(px(&r, 0, 8), 0x33);
    assert_eq!(count_color(&r, C), 0);
}

#[test]
fn texture_coordinates_out_of_range_are_clamped() {
    let one = TEX_ONE as i32;
    let mut r = Rasterizer::new(4, 4);
    r.set_texture(Some(two_by_two_texture()), 2, 2);
    let a = ScreenVertex::new(0, 0, 0, 5 * one, -3 * one);
    let b = ScreenVertex::new(3, 0, 0, 5 * one, -3 * one);
    let c = ScreenVertex::new(0, 3, 0, 5 * one, -3 * one);
    r.fill_triangle(a, b, c, C);
    // u beyond 1 clamps to the last column, v below 0 to the last row.
    assert_eq!(px(&r, 0, 0), 0x44);
    assert_eq!(px(&r, 1, 1), 0x44);
}

#[test]
fn unbinding_texture_uses_flat_color() {
    let mut r = Rasterizer::new(4, 4);
    r.set_texture(Some(two_by_two_texture()), 2, 2);
    r.set_texture(None, 0, 0);
    r.fill_triangle(flat(0, 0, 0), flat(3, 0, 0), flat(0, 3, 0), C);
    assert_eq!(px(&r, 0, 0), C);
}

#[test]
fn world2screen_maps_device_square() {
    let one = TEX_ONE as i32;
    let r = Rasterizer::new(800, 600);
    let center = r.world2screen(soft_raster::vec3::Vec3i::new(0, 0, 7)).unwrap();
    assert_eq!((center.x, center.y, center.z), (400, 300, 7));
    let top_left = r.world2screen(soft_raster::vec3::Vec3i::new(-one, one, 0)).unwrap();
    assert_eq!((top_left.x, top_left.y), (0, 0));
    let bottom_right = r.world2screen(soft_raster::vec3::Vec3i::new(one, -one, 0)).unwrap();
    assert_eq!((bottom_right.x, bottom_right.y), (800, 600));
    let outside = r.world2screen(soft_raster::vec3::Vec3i::new(3 * one, 0, 0)).unwrap();
    assert_eq!(outside.x, 1600);
}

#[test]
fn world2screen_rounds_halves_away_from_zero() {
    // (ndc + 1) * 3 / 2 with ndc = 0 is 1.5, which rounds to 2.
    let r = Rasterizer::new(3, 3);
    let p = r.world2screen(soft_raster::vec3::Vec3i::new(0, 0, 0)).unwrap();
    assert_eq!((p.x, p.y), (2, 2));
    // ndc = -2 gives -1.5, which rounds to -2.
    let q = r
        .world2screen(soft_raster::vec3::Vec3i::new(-2 * TEX_ONE as i32, 0, 0))
        .unwrap();
    assert_eq!(q.x, -2);
}

#[test]
fn world2screen_refuses_unrepresentable_pixels() {
    let r = Rasterizer::new(1_000_000, 1);
    assert!(r
        .world2screen(soft_raster::vec3::Vec3i::new(i32::MAX, 0, 0))
        .is_none());
}

#[test]
fn line_draws_centers_on_segment_and_stays_connected() {
    let mut r = Rasterizer::new(10, 10);
    r.draw_line(Vec2i::new(0, 0), Vec2i::new(6, 3), C);
    // The segment passes through the centers (0,0), (2,1), (4,2), (6,3).
    for (x, y) in [(0, 0), (2, 1), (4, 2), (6, 3)] {
        assert_eq!(px(&r, x, y), C, "pixel ({}, {})", x, y);
    }
    // One pixel per column, each touching the next.
    let mut last_y: Option<usize> = None;
    for x in 0..=6 {
        let ys: Vec<usize> = (0..10).filter(|&y| px(&r, x, y) == C).collect();
        assert_eq!(ys.len(), 1, "column {}", x);
        if let Some(prev) = last_y {
            assert!(ys[0].abs_diff(prev) <= 1);
        }
        last_y = Some(ys[0]);
    }
    assert_eq!(count_color(&r, C), 7);
}
