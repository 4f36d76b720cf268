use gomu_ori::fixed::UNIT;
use gomu_ori::renderer::{background_color, marker_color, Color, Renderer, RotationTrig};
use gomu_ori::scene::{GomuOriApp, Projection};
use gomu_ori::vector3::vec3;

fn zero_rotation() -> RotationTrig {
    RotationTrig { sin_x: 0, cos_x: UNIT, sin_y: 0, cos_y: UNIT, sin_z: 0, cos_z: UNIT }
}

#[test]
fn create_fills_surface_with_background() {
    let r = Renderer::create(7, 5);
    assert_eq!(r.width, 7);
    assert_eq!(r.height, 5);
    assert_eq!(r.pixels.len(), 35);
    let bg = background_color();
    assert!(r.pixels.iter().all(|p| *p == bg));
    assert_eq!(bg, Color { r: 26, g: 26, b: 26, a: 255 });
}

#[test]
fn pixel_write_at_far_corner_succeeds() {
    let mut r = Renderer::create(4, 4);
    let m = marker_color();
    r.draw_pixel(3 * UNIT, 3 * UNIT, m);
    assert_eq!(r.pixels[15], m);
    let bg = background_color();
    for i in 0..15 {
        assert_eq!(r.pixels[i], bg);
    }
}

#[test]
fn pixel_write_outside_surface_is_dropped() {
    let bg = background_color();
    let m = marker_color();
    let mut r = Renderer::create(4, 4);
    r.draw_pixel(4 * UNIT, 0, m);
    r.draw_pixel(0, 4 * UNIT, m);
    r.draw_pixel(-UNIT, 0, m);
    r.draw_pixel(0, -UNIT, m);
    r.draw_pixel(3 * UNIT + 1, 0, m);
    assert!(r.pixels.iter().all(|p| *p == bg));
}

#[test]
fn single_origin_point_marks_exactly_the_center() {
    let scene = GomuOriApp {
        projection: Projection::Orthographic { scale: UNIT },
        shape: Some(vec![vec3(0, 0, 0)]),
        rotation: vec3(0, 0, 0),
    };
    let mut r = Renderer::create(100, 100);
    r.draw(&scene, &zero_rotation());
    let m = marker_color();
    let bg = background_color();
    for y in 0..100usize {
        for x in 0..100usize {
            let expected = if (x, y) == (50, 50) { m } else { bg };
            assert_eq!(r.pixels[y * 100 + x], expected);
        }
    }
}

#[test]
fn absent_cloud_leaves_uniform_background() {
    let scene = GomuOriApp {
        projection: Projection::default_perspective(),
        shape: None,
        rotation: vec3(0, 0, 0),
    };
    let mut r = Renderer::create(32, 24);
    r.draw(&scene, &zero_rotation());
    let bg = background_color();
    assert!(r.pixels.iter().all(|p| *p == bg));
}

#[test]
fn empty_cloud_leaves_uniform_background() {
    let scene = GomuOriApp {
        projection: Projection::Orthographic { scale: UNIT },
        shape: Some(Vec::new()),
        rotation: vec3(0, 0, 0),
    };
    let mut r = Renderer::create(16, 16);
    r.draw(&scene, &zero_rotation());
    let bg = background_color();
    assert!(r.pixels.iter().all(|p| *p == bg));
}

#[test]
fn perspective_frame_draws_default_cube() {
    // The default scene through the perspective camera: the cube's points
    // land somewhere on a large surface; the buffer is no longer uniform.
    let scene = GomuOriApp::default();
    let mut r = Renderer::create(200, 200);
    r.draw(&scene, &zero_rotation());
    let m = marker_color();
    assert!(r.pixels.iter().any(|p| *p == m));
}

#[test]
fn grid_marks_every_tenth_column_and_row() {
    let mut r = Renderer::create(25, 12);
    let white = Color { r: 255, g: 255, b: 255, a: 255 };
    r.draw_grid(1, white);
    let bg = background_color();
    for y in 0..12usize {
        for x in 0..25usize {
            let expected = if x % 10 == 0 && y % 10 == 0 { white } else { bg };
            assert_eq!(r.pixels[y * 25 + x], expected);
        }
    }
}

#[test]
fn rect_fills_its_pixels_and_clips_at_the_edge() {
    let mut r = Renderer::create(5, 5);
    let red = Color { r: 255, g: 0, b: 0, a: 255 };
    r.draw_rect(3, 3, 4, 4, red);
    let bg = background_color();
    for y in 0..5usize {
        for x in 0..5usize {
            let expected = if x >= 3 && y >= 3 { red } else { bg };
            assert_eq!(r.pixels[y * 5 + x], expected);
        }
    }
}
