use gomu_ori::fixed::UNIT;
use gomu_ori::renderer::{
    center_point, project_point_orthographic, project_point_perspective, rotate_point, Angle,
};
use gomu_ori::scene::{cube, GomuOriApp, Projection, DEFAULT_FOV, QUARTER_UNIT};
use gomu_ori::vector2::{vec2, Vector2};
use gomu_ori::vector3::{vec3, Vector3};

#[test]
fn rotation_zero_angle_is_identity() {
    let p = vec3(12345, -777, 65536);
    assert_eq!(rotate_point(p, Angle::X, 0, UNIT), p);
    assert_eq!(rotate_point(p, Angle::Y, 0, UNIT), p);
    assert_eq!(rotate_point(p, Angle::Z, 0, UNIT), p);
}

#[test]
fn rotation_preserves_plane_norm_within_tolerance() {
    // Sine and cosine of 0.7 radians, in fixed point, as the interface
    // layer would hand them in.
    let s = (0.7f64.sin() * UNIT as f64).round() as i64;
    let c = (0.7f64.cos() * UNIT as f64).round() as i64;
    let p = vec3(UNIT, 0, 30000);
    let r = rotate_point(p, Angle::Z, s, c);
    let before = (p.x as f64).hypot(p.y as f64);
    let after = (r.x as f64).hypot(r.y as f64);
    assert!((after - before).abs() / before < 0.01);
    assert_eq!(r.z, p.z);
}

#[test]
fn rotation_order_x_then_y_differs_from_y_then_x() {
    // A quarter turn about each axis: sine one unit, cosine zero.
    let p = vec3(UNIT, 0, 0);
    let xy = rotate_point(rotate_point(p, Angle::X, UNIT, 0), Angle::Y, UNIT, 0);
    let yx = rotate_point(rotate_point(p, Angle::Y, UNIT, 0), Angle::X, UNIT, 0);
    assert_eq!(xy, vec3(0, 0, UNIT));
    assert_eq!(yx, vec3(0, -UNIT, 0));
    assert_ne!(xy, yx);
}

#[test]
fn orthographic_projection_ignores_depth() {
    let near = vec3(100, 200, 5000);
    let far = vec3(100, 200, -31415);
    let a = project_point_orthographic(near, UNIT);
    let b = project_point_orthographic(far, UNIT);
    assert_eq!(a, b);
    assert_eq!(a, vec2(3000, 6000));
}

#[test]
fn perspective_projection_of_origin_is_origin() {
    let r = project_point_perspective(vec3(0, 0, 0), vec3(0, 0, -UNIT), DEFAULT_FOV);
    assert_eq!(r, Some(vec2(0, 0)));
}

#[test]
fn perspective_projection_at_zero_depth_has_no_image() {
    // The point's z cancels the camera's z exactly: the divide-by-depth
    // has no finite result and the point is reported absent.
    let r = project_point_perspective(vec3(5, 5, UNIT), vec3(0, 0, -UNIT), DEFAULT_FOV);
    assert_eq!(r, None);
    let r0 = project_point_perspective(vec3(0, 0, UNIT), vec3(0, 0, -UNIT), DEFAULT_FOV);
    assert_eq!(r0, None);
}

#[test]
fn centering_maps_origin_to_surface_middle() {
    let r = center_point(vec2(0, 0), 100, 100);
    assert_eq!(r, vec2(50 * UNIT, 50 * UNIT));
}

#[test]
fn vector_constructors_keep_components() {
    let v3 = Vector3::new(1, -2, 3);
    assert_eq!(v3, vec3(1, -2, 3));
    assert_eq!((v3.x, v3.y, v3.z), (1, -2, 3));
    let v2 = Vector2::new(-4, 5);
    assert_eq!(v2, vec2(-4, 5));
    assert_eq!((v2.x, v2.y), (-4, 5));
}

#[test]
fn projection_defaults_hold_documented_parameters() {
    match Projection::default_orthographic() {
        Projection::Orthographic { scale } => assert_eq!(scale, UNIT),
        _ => panic!("wrong variant"),
    }
    match Projection::default_perspective() {
        Projection::Perspective { camera_position, fov } => {
            assert_eq!(camera_position, vec3(0, 0, -UNIT));
            assert_eq!(fov, 120 * UNIT);
        }
        _ => panic!("wrong variant"),
    }
}

#[test]
fn projection_mode_queries_match_variant() {
    let scene = GomuOriApp::default();
    assert!(scene.projection_is_perspective());
    assert!(!scene.projection_is_orthographic());
    let ortho = GomuOriApp { projection: Projection::default_orthographic(), ..scene };
    assert!(ortho.projection_is_orthographic());
    assert!(!ortho.projection_is_perspective());
}

#[test]
fn sample_cube_sweeps_nine_steps_per_axis() {
    let shape = cube();
    assert_eq!(shape.len(), 729);
    assert_eq!(shape[0], vec3(-UNIT, -UNIT, -UNIT));
    assert_eq!(shape[728], vec3(UNIT, UNIT, UNIT));
    // The center of the sweep is the origin.
    assert_eq!(shape[4 * 81 + 4 * 9 + 4], vec3(0, 0, 0));
    // The innermost axis is z.
    assert_eq!(shape[1], vec3(-UNIT, -UNIT, -UNIT + QUARTER_UNIT));
    assert_eq!(shape[9], vec3(-UNIT, -UNIT + QUARTER_UNIT, -UNIT));
}

#[test]
fn default_scene_holds_the_cube() {
    let scene = GomuOriApp::default();
    assert_eq!(scene.rotation, vec3(0, 0, 0));
    let points = scene.shape.expect("default scene has a cloud");
    assert_eq!(points.len(), 729);
    assert_eq!(points[0], vec3(-UNIT, -UNIT, -UNIT));
}
