use vstd::prelude::*;
use vstd::pervasive::VecAdditionalExecFns;

use crate::fixed::{
    fx_div, lemma_mul_bound, lemma_tdiv_bound, lemma_tdiv_exact, lemma_tdiv_magnitude,
    lemma_tdiv_nonneg, tdiv, FX_LIMIT, HALF_UNIT, UNIT,
};
use crate::scene::{GomuOriApp, Projection};
use crate::vector2::{vec2, Vector2};
use crate::vector3::Vector3;

verus! {

/// The orthographic magnification constant: surface units per scene unit at
/// scale 1.
pub const MAG: i64 = 30;

/// Largest accepted surface dimension, in pixels.
pub const DIM_MAX: usize = 16384;

/// Bound on the coordinates of scene points and of the camera position.
pub const COORD_LIMIT: i64 = 0x100_0000;

/// Bound on the coordinates a single rotation step accepts; three chained
/// steps starting from `COORD_LIMIT` stay far below it.
pub const ROT_IN_LIMIT: i64 = 0x100_0000_0000;

/// Bound on the coordinates the projection stage accepts: what three
/// rotation steps can make of a point within `COORD_LIMIT`.
pub const PROJ_IN_LIMIT: i64 = 0x800_0000;

/// Bound on the orthographic scale factor and on the perspective field of
/// view.
pub const SCALE_LIMIT: i64 = 0x100_0000;

/// Bound on the surface coordinates the centering stage accepts; what the
/// projection stage can produce stays below it.
pub const CENTER_IN_LIMIT: i64 = 0x20_0000_0000_0000;

/// An axis of rotation.
#[derive(Clone, Copy, Debug, PartialEq, Eq, Structural)]
pub enum Angle {
    X,
    Y,
    Z,
}

/// The sine and cosine of the scene's three rotation angles, as fixed-point
/// scalars in `[-UNIT, UNIT]`. The pipeline is exact integer arithmetic, so
/// the caller that owns the angles evaluates the two trigonometric functions
/// and hands the results in.
#[derive(Clone, Copy, Debug, PartialEq, Eq, Structural)]
pub struct RotationTrig {
    pub sin_x: i64,
    pub cos_x: i64,
    pub sin_y: i64,
    pub cos_y: i64,
    pub sin_z: i64,
    pub cos_z: i64,
}

/// All coordinates of a point within `[-b, b]`.
pub open spec fn valid_point3(p: (int, int, int), b: int) -> bool {
    -b <= p.0 <= b && -b <= p.1 <= b && -b <= p.2 <= b
}

/// Every sine and cosine within one unit of magnitude.
pub open spec fn valid_trig(t: RotationTrig) -> bool {
    &&& -UNIT <= t.sin_x <= UNIT
    &&& -UNIT <= t.cos_x <= UNIT
    &&& -UNIT <= t.sin_y <= UNIT
    &&& -UNIT <= t.cos_y <= UNIT
    &&& -UNIT <= t.sin_z <= UNIT
    &&& -UNIT <= t.cos_z <= UNIT
}

/// The projection's parameters within the bounds the pipeline accepts.
pub open spec fn valid_projection(p: Projection) -> bool {
    match p {
        Projection::Orthographic { scale } => 0 <= scale <= SCALE_LIMIT,
        Projection::Perspective { camera_position, fov } => valid_point3(
            camera_position@,
            COORD_LIMIT as int,
        ) && 0 <= fov <= SCALE_LIMIT,
    }
}

/// Every point of the cloud within `COORD_LIMIT`.
pub open spec fn valid_shape(shape: Option<Vec<Vector3>>) -> bool {
    match shape {
        None => true,
        Some(points) => forall|k: int|
            0 <= k < points@.len() ==> valid_point3(#[trigger] points@[k]@, COORD_LIMIT as int),
    }
}

/// First coordinate of a plane rotation, before the scale factor is removed:
/// `a * cos - b * sin`.
pub open spec fn rot_a(a: int, b: int, s: int, c: int) -> int {
    a * c - b * s
}

/// Second coordinate of a plane rotation, before the scale factor is
/// removed: `a * sin + b * cos`.
pub open spec fn rot_b(a: int, b: int, s: int, c: int) -> int {
    a * s + b * c
}

/// One rotation step about `angle` with sine `s` and cosine `c`: a plane
/// rotation of the two coordinates perpendicular to the axis, the third
/// unchanged.
pub open spec fn spec_rotate_point(p: (int, int, int), angle: Angle, s: int, c: int) -> (
    int,
    int,
    int,
) {
    let u = UNIT as int;
    match angle {
        Angle::X => (p.0, tdiv(rot_a(p.1, p.2, s, c), u), tdiv(rot_b(p.1, p.2, s, c), u)),
        Angle::Y => (tdiv(rot_a(p.0, p.2, s, c), u), p.1, tdiv(rot_b(p.0, p.2, s, c), u)),
        Angle::Z => (tdiv(rot_a(p.0, p.1, s, c), u), tdiv(rot_b(p.0, p.1, s, c), u), p.2),
    }
}

/// The full rotation: about X, then Y, then Z, each step consuming the
/// previous step's output. The order is fixed and meaningful; the steps do
/// not commute.
pub open spec fn spec_rotate3(p: (int, int, int), t: RotationTrig) -> (int, int, int) {
    spec_rotate_point(
        spec_rotate_point(
            spec_rotate_point(p, Angle::X, t.sin_x as int, t.cos_x as int),
            Angle::Y,
            t.sin_y as int,
            t.cos_y as int,
        ),
        Angle::Z,
        t.sin_z as int,
        t.cos_z as int,
    )
}

/// Orthographic projection: x and y magnified by `MAG * scale`, depth
/// discarded.
pub open spec fn spec_project_orthographic(p: (int, int, int), scale: int) -> (int, int) {
    (
        tdiv(p.0 * (MAG as int) * scale, UNIT as int),
        tdiv(p.1 * (MAG as int) * scale, UNIT as int),
    )
}

/// Perspective projection: x and y scaled by the field of view and divided
/// by the depth `z + camera.z`. A depth of exactly zero has no finite
/// image; the result is `None` and the renderer drops the point, as the
/// bounds check drops every point without a finite surface coordinate.
pub open spec fn spec_project_perspective(p: (int, int, int), camera: (int, int, int), fov: int) -> Option<
    (int, int),
> {
    let d = p.2 + camera.2;
    if d == 0 {
        None
    } else {
        Some((tdiv(p.0 * fov, d), tdiv(p.1 * fov, d)))
    }
}

/// The projection stage: whichever variant the scene holds.
pub open spec fn spec_project(p: (int, int, int), proj: Projection) -> Option<(int, int)> {
    match proj {
        Projection::Orthographic { scale } => Some(spec_project_orthographic(p, scale as int)),
        Projection::Perspective { camera_position, fov } => spec_project_perspective(
            p,
            camera_position@,
            fov as int,
        ),
    }
}

/// Centering: translates a projection-space coordinate (origin at the
/// visual center) into surface space (origin at the top-left corner) by
/// adding half of each surface dimension.
pub open spec fn spec_center(q: (int, int), w: int, h: int) -> (int, int) {
    (w * (HALF_UNIT as int) + q.0, h * (HALF_UNIT as int) + q.1)
}

/// A rotation step about `angle`, exact over the fixed-point model.
pub fn rotate_point(point: Vector3, angle: Angle, s: i64, c: i64) -> (r: Vector3)
    requires
        valid_point3(point@, ROT_IN_LIMIT as int),
        -UNIT <= s <= UNIT,
        -UNIT <= c <= UNIT,
    ensures
        r@ == spec_rotate_point(point@, angle, s as int, c as int),
{
    match angle {
        Angle::X => {
            let (a, b) = rot_pair(point.y, point.z, s, c);
            Vector3 { x: point.x, y: a, z: b }
        },
        Angle::Y => {
            let (a, b) = rot_pair(point.x, point.z, s, c);
            Vector3 { x: a, y: point.y, z: b }
        },
        Angle::Z => {
            let (a, b) = rot_pair(point.x, point.y, s, c);
            Vector3 { x: a, y: b, z: point.z }
        },
    }
}

/// The two mixed coordinates of one rotation step.
fn rot_pair(a: i64, b: i64, s: i64, c: i64) -> (r: (i64, i64))
    requires
        -ROT_IN_LIMIT <= a <= ROT_IN_LIMIT,
        -ROT_IN_LIMIT <= b <= ROT_IN_LIMIT,
        -UNIT <= s <= UNIT,
        -UNIT <= c <= UNIT,
    ensures
        r.0 == tdiv(rot_a(a as int, b as int, s as int, c as int), UNIT as int),
        r.1 == tdiv(rot_b(a as int, b as int, s as int, c as int), UNIT as int),
{
    proof {
        lemma_mul_bound(a as int, c as int, ROT_IN_LIMIT as int, UNIT as int);
        lemma_mul_bound(b as int, s as int, ROT_IN_LIMIT as int, UNIT as int);
        lemma_mul_bound(a as int, s as int, ROT_IN_LIMIT as int, UNIT as int);
        lemma_mul_bound(b as int, c as int, ROT_IN_LIMIT as int, UNIT as int);
    }
    let u = fx_div(a * c - b * s, UNIT);
    let v = fx_div(a * s + b * c, UNIT);
    (u, v)
}

/// A rotation step keeps every coordinate within twice the input bound.
pub proof fn lemma_rotate_point_bound(p: (int, int, int), angle: Angle, s: int, c: int, b: int)
    requires
        valid_point3(p, b),
        0 <= b,
        -(UNIT as int) <= s <= UNIT as int,
        -(UNIT as int) <= c <= UNIT as int,
    ensures
        valid_point3(spec_rotate_point(p, angle, s, c), 2 * b),
{
    let u = UNIT as int;
    lemma_mul_bound(p.0, c, b, u);
    lemma_mul_bound(p.0, s, b, u);
    lemma_mul_bound(p.1, c, b, u);
    lemma_mul_bound(p.1, s, b, u);
    lemma_mul_bound(p.2, c, b, u);
    lemma_mul_bound(p.2, s, b, u);
    assert((2 * b) * u == b * u + b * u) by (nonlinear_arith);
    lemma_tdiv_bound(rot_a(p.0, p.1, s, c), u, 2 * b);
    lemma_tdiv_bound(rot_b(p.0, p.1, s, c), u, 2 * b);
    lemma_tdiv_bound(rot_a(p.0, p.2, s, c), u, 2 * b);
    lemma_tdiv_bound(rot_b(p.0, p.2, s, c), u, 2 * b);
    lemma_tdiv_bound(rot_a(p.1, p.2, s, c), u, 2 * b);
    lemma_tdiv_bound(rot_b(p.1, p.2, s, c), u, 2 * b);
}

/// Rotation by angle zero — sine 0, cosine one unit — is the identity, on
/// every point and about every axis.
pub proof fn lemma_rotate_zero_identity(p: (int, int, int), angle: Angle)
    ensures
        spec_rotate_point(p, angle, 0, UNIT as int) == p,
{
    let u = UNIT as int;
    assert(rot_a(p.0, p.1, 0, u) == p.0 * u && rot_b(p.0, p.1, 0, u) == p.1 * u
        && rot_a(p.0, p.2, 0, u) == p.0 * u && rot_b(p.0, p.2, 0, u) == p.2 * u && rot_a(
        p.1,
        p.2,
        0,
        u,
    ) == p.1 * u && rot_b(p.1, p.2, 0, u) == p.2 * u) by (nonlinear_arith);
    lemma_tdiv_exact(p.0, u);
    lemma_tdiv_exact(p.1, u);
    lemma_tdiv_exact(p.2, u);
}

/// A plane rotation preserves the squared norm of the rotated pair: before
/// the scale factor is removed, the rotated pair's squared norm is the
/// input pair's squared norm times the squared norm of (sine, cosine).
pub proof fn lemma_rotation_preserves_norm(a: int, b: int, s: int, c: int)
    ensures
        rot_a(a, b, s, c) * rot_a(a, b, s, c) + rot_b(a, b, s, c) * rot_b(a, b, s, c) == (a * a + b
            * b) * (s * s + c * c),
{
    let m1: int = a * c;
    let m2: int = b * s;
    let m3: int = a * s;
    let m4: int = b * c;
    let aa: int = a * a;
    let bb: int = b * b;
    let ss: int = s * s;
    let cc: int = c * c;
    assert((m1 - m2) * (m1 - m2) == m1 * m1 - 2 * (m1 * m2) + m2 * m2) by (nonlinear_arith);
    assert((m3 + m4) * (m3 + m4) == m3 * m3 + 2 * (m3 * m4) + m4 * m4) by (nonlinear_arith);
    assert(m1 * m1 == aa * cc) by (nonlinear_arith)
        requires
            m1 == a * c,
            aa == a * a,
            cc == c * c,
    ;
    assert(m2 * m2 == bb * ss) by (nonlinear_arith)
        requires
            m2 == b * s,
            bb == b * b,
            ss == s * s,
    ;
    assert(m3 * m3 == aa * ss) by (nonlinear_arith)
        requires
            m3 == a * s,
            aa == a * a,
            ss == s * s,
    ;
    assert(m4 * m4 == bb * cc) by (nonlinear_arith)
        requires
            m4 == b * c,
            bb == b * b,
            cc == c * c,
    ;
    assert(m1 * m2 == m3 * m4) by (nonlinear_arith)
        requires
            m1 == a * c,
            m2 == b * s,
            m3 == a * s,
            m4 == b * c,
    ;
    assert((aa + bb) * (ss + cc) == aa * ss + aa * cc + bb * ss + bb * cc) by (nonlinear_arith);
}

/// With an exact sine and cosine pair — squared norm one — a plane rotation
/// preserves the rotated pair's squared norm at the fixed-point scale.
pub proof fn lemma_rotation_norm_unit(a: int, b: int, s: int, c: int)
    requires
        s * s + c * c == (UNIT as int) * (UNIT as int),
    ensures
        rot_a(a, b, s, c) * rot_a(a, b, s, c) + rot_b(a, b, s, c) * rot_b(a, b, s, c) == (a * a + b
            * b) * (UNIT as int) * (UNIT as int),
{
    lemma_rotation_preserves_norm(a, b, s, c);
    assert((a * a + b * b) * ((UNIT as int) * (UNIT as int)) == (a * a + b * b) * (UNIT as int) * (
    UNIT as int)) by (nonlinear_arith);
}

/// The executable rotation step loses less than one fixed-point step per
/// coordinate to truncation: scaled back by `UNIT`, each rotated coordinate
/// differs from the exact plane rotation — the one the norm law speaks of —
/// by less than `UNIT`.
pub proof fn lemma_rotate_truncation(a: int, b: int, s: int, c: int)
    ensures
        -(UNIT as int) < rot_a(a, b, s, c) - tdiv(rot_a(a, b, s, c), UNIT as int) * (UNIT as int)
            < UNIT as int,
        -(UNIT as int) < rot_b(a, b, s, c) - tdiv(rot_b(a, b, s, c), UNIT as int) * (UNIT as int)
            < UNIT as int,
{
    crate::fixed::lemma_tdiv_remainder(rot_a(a, b, s, c), UNIT as int);
    crate::fixed::lemma_tdiv_remainder(rot_b(a, b, s, c), UNIT as int);
}

/// Orthographic projection is depth-independent: two points equal in x and
/// y project identically, whatever their z.
pub proof fn lemma_orthographic_depth_independent(
    p: (int, int, int),
    q: (int, int, int),
    scale: int,
)
    requires
        p.0 == q.0,
        p.1 == q.1,
    ensures
        spec_project_orthographic(p, scale) == spec_project_orthographic(q, scale),
{
}

/// Centering maps the projection-space origin exactly to the middle of the
/// surface: half the width and half the height, in fixed-point surface
/// coordinates.
pub proof fn lemma_center_origin(w: int, h: int)
    ensures
        spec_center((0, 0), w, h) == (w * (HALF_UNIT as int), h * (HALF_UNIT as int)),
{
}

/// The orthographic stage.
pub fn project_point_orthographic(point: Vector3, scale: i64) -> (r: Vector2)
    requires
        valid_point3(point@, PROJ_IN_LIMIT as int),
        0 <= scale <= SCALE_LIMIT,
    ensures
        r@ == spec_project_orthographic(point@, scale as int),
        -CENTER_IN_LIMIT <= r.x <= CENTER_IN_LIMIT,
        -CENTER_IN_LIMIT <= r.y <= CENTER_IN_LIMIT,
{
    proof {
        lemma_mul_bound(point.x as int, MAG as int, PROJ_IN_LIMIT as int, MAG as int);
        lemma_mul_bound(point.y as int, MAG as int, PROJ_IN_LIMIT as int, MAG as int);
        lemma_mul_bound(
            point.x as int * MAG as int,
            scale as int,
            PROJ_IN_LIMIT as int * MAG as int,
            SCALE_LIMIT as int,
        );
        lemma_mul_bound(
            point.y as int * MAG as int,
            scale as int,
            PROJ_IN_LIMIT as int * MAG as int,
            SCALE_LIMIT as int,
        );
        lemma_tdiv_bound(
            point.x as int * MAG as int * scale as int,
            UNIT as int,
            CENTER_IN_LIMIT as int,
        );
        lemma_tdiv_bound(
            point.y as int * MAG as int * scale as int,
            UNIT as int,
            CENTER_IN_LIMIT as int,
        );
    }
    let x = fx_div(point.x * MAG * scale, UNIT);
    let y = fx_div(point.y * MAG * scale, UNIT);
    vec2(x, y)
}

/// The perspective stage. The depth `z + camera.z` divides the magnified x
/// and y; at depth exactly zero the division has no finite result and the
/// point projects to `None`, which the renderer drops.
pub fn project_point_perspective(point: Vector3, camera_pos: Vector3, fov: i64) -> (r: Option<
    Vector2,
>)
    requires
        valid_point3(point@, PROJ_IN_LIMIT as int),
        valid_point3(camera_pos@, COORD_LIMIT as int),
        0 <= fov <= SCALE_LIMIT,
    ensures
        (r is None) <==> (point@.2 + camera_pos@.2 == 0),
        match r {
            None => spec_project_perspective(point@, camera_pos@, fov as int) is None,
            Some(q) => spec_project_perspective(point@, camera_pos@, fov as int) == Some(q@)
                && -CENTER_IN_LIMIT <= q.x <= CENTER_IN_LIMIT && -CENTER_IN_LIMIT <= q.y
                <= CENTER_IN_LIMIT,
        },
{
    let d = point.z + camera_pos.z;
    if d == 0 {
        None
    } else {
        proof {
            lemma_mul_bound(point.x as int, fov as int, PROJ_IN_LIMIT as int, SCALE_LIMIT as int);
            lemma_mul_bound(point.y as int, fov as int, PROJ_IN_LIMIT as int, SCALE_LIMIT as int);
            lemma_tdiv_magnitude(point.x as int * fov as int, d as int);
            lemma_tdiv_magnitude(point.y as int * fov as int, d as int);
        }
        let x = fx_div(point.x * fov, d);
        let y = fx_div(point.y * fov, d);
        Some(vec2(x, y))
    }
}

/// The centering stage.
pub fn center_point(point: Vector2, width: usize, height: usize) -> (r: Vector2)
    requires
        1 <= width <= DIM_MAX,
        1 <= height <= DIM_MAX,
        -CENTER_IN_LIMIT <= point.x <= CENTER_IN_LIMIT,
        -CENTER_IN_LIMIT <= point.y <= CENTER_IN_LIMIT,
    ensures
        r@ == spec_center(point@, width as int, height as int),
{
    vec2((width as i64) * HALF_UNIT + point.x, (height as i64) * HALF_UNIT + point.y)
}

/// One pixel's color, with an alpha channel.
#[derive(Clone, Copy, Debug, PartialEq, Eq, Structural)]
pub struct Color {
    pub r: u8,
    pub g: u8,
    pub b: u8,
    pub a: u8,
}

impl Color {
    /// An opaque color from its three channels.
    pub open spec fn rgb(r: u8, g: u8, b: u8) -> Color {
        Color { r, g, b, a: 255 }
    }

    pub fn from_rgb(r: u8, g: u8, b: u8) -> (c: Color)
        ensures
            c == Color::rgb(r, g, b),
    {
        Color { r, g, b, a: 255 }
    }
}

/// The background every frame is cleared to: a dark gray.
pub open spec fn background() -> Color {
    Color::rgb(26, 26, 26)
}

pub fn background_color() -> (c: Color)
    ensures
        c == background(),
{
    Color::from_rgb(26, 26, 26)
}

/// The marker color each projected point is drawn with: yellow.
pub open spec fn marker() -> Color {
    Color::rgb(255, 255, 0)
}

pub fn marker_color() -> (c: Color)
    ensures
        c == marker(),
{
    Color::from_rgb(255, 255, 0)
}

/// The bounds check and pixel rounding of a surface coordinate pair: the
/// row-major index a write lands on, or `None` when the coordinate lies
/// outside the surface and the write is dropped — the deliberate clipping
/// policy for points that leave the visible surface after projection.
pub open spec fn spec_pixel_index(x: int, y: int, w: int, h: int) -> Option<int> {
    let u = UNIT as int;
    if 0 <= x && x <= (w - 1) * u && 0 <= y && y <= (h - 1) * u {
        Some(tdiv(y, u) * w + tdiv(x, u))
    } else {
        None
    }
}

/// A coordinate pair that passes the bounds check indexes into the buffer.
pub proof fn lemma_pixel_index_in_range(x: int, y: int, w: int, h: int)
    requires
        1 <= w,
        1 <= h,
    ensures
        match spec_pixel_index(x, y, w, h) {
            Some(i) => 0 <= i < w * h,
            None => true,
        },
{
    let u = UNIT as int;
    if spec_pixel_index(x, y, w, h) is Some {
        lemma_tdiv_nonneg(x, u);
        lemma_tdiv_nonneg(y, u);
        lemma_tdiv_bound(x, u, w - 1);
        lemma_tdiv_bound(y, u, h - 1);
        assert(0 <= tdiv(y, u) * w + tdiv(x, u) < w * h) by (nonlinear_arith)
            requires
                0 <= tdiv(y, u) <= h - 1,
                0 <= tdiv(x, u) <= w - 1,
                1 <= w,
        ;
    }
}

/// Where one scene point lands: the whole pipeline composed — rotate,
/// project, center, bounds check — ending in the framebuffer index written,
/// or `None` for a point that is dropped.
pub open spec fn target_index(p: Vector3, proj: Projection, t: RotationTrig, w: int, h: int) -> Option<
    int,
> {
    match spec_project(spec_rotate3(p@, t), proj) {
        None => None,
        Some(q) => {
            let cq = spec_center(q, w, h);
            spec_pixel_index(cq.0, cq.1, w, h)
        },
    }
}

/// Whether one of the first `n` points of the cloud lands on framebuffer
/// index `i`.
pub open spec fn hit_upto(
    points: Seq<Vector3>,
    proj: Projection,
    t: RotationTrig,
    w: int,
    h: int,
    n: int,
    i: int,
) -> bool {
    exists|j: int| 0 <= j < n && #[trigger] target_index(points[j], proj, t, w, h) == Some(i)
}

/// Whether any point of the cloud lands on framebuffer index `i`.
pub open spec fn point_hits(
    shape: Option<Vec<Vector3>>,
    proj: Projection,
    t: RotationTrig,
    w: int,
    h: int,
    i: int,
) -> bool {
    match shape {
        None => false,
        Some(points) => hit_upto(points@, proj, t, w, h, points@.len() as int, i),
    }
}

/// Taking one more point into account hits an index exactly when an earlier
/// point already hit it or the new point lands on it.
proof fn lemma_hit_extend(
    points: Seq<Vector3>,
    proj: Projection,
    t: RotationTrig,
    w: int,
    h: int,
    k: int,
    i: int,
)
    requires
        0 <= k,
    ensures
        hit_upto(points, proj, t, w, h, k + 1, i) <==> (hit_upto(points, proj, t, w, h, k, i)
            || target_index(points[k], proj, t, w, h) == Some(i)),
{
    if hit_upto(points, proj, t, w, h, k + 1, i) {
        let j = choose|j: int|
            0 <= j < k + 1 && #[trigger] target_index(points[j], proj, t, w, h) == Some(i);
        if j < k {
            assert(hit_upto(points, proj, t, w, h, k, i));
        }
    }
    if hit_upto(points, proj, t, w, h, k, i) {
        let j = choose|j: int|
            0 <= j < k && #[trigger] target_index(points[j], proj, t, w, h) == Some(i);
        assert(0 <= j < k + 1 && target_index(points[j], proj, t, w, h) == Some(i));
    }
}

/// Whether buffer index `i` lies on the grid of every `m`-th column and row
/// of a surface `w` pixels wide.
pub open spec fn grid_hit(i: int, w: int, m: int) -> bool {
    (i % w) % m == 0 && (i / w) % m == 0
}

/// Whether buffer index `i` lies in the axis-aligned rectangle of `rw`
/// columns and `rh` rows whose top-left pixel is `(x, y)`, on a surface `w`
/// pixels wide.
pub open spec fn rect_hit(i: int, w: int, x: int, y: int, rw: int, rh: int) -> bool {
    x <= i % w < x + rw && y <= i / w < y + rh
}

/// The framebuffer and its dimensions: a row-major `width * height` grid of
/// colors, indexed `y * width + x`, written only through the bounds-checked
/// pixel write.
pub struct Renderer {
    pub width: usize,
    pub height: usize,
    pub pixels: Vec<Color>,
}

impl View for Renderer {
    type V = Seq<Color>;

    open spec fn view(&self) -> Seq<Color> {
        self.pixels@
    }
}

impl Renderer {
    /// Positive dimensions within bounds, and a buffer of exactly
    /// `width * height` pixels.
    pub open spec fn wf(&self) -> bool {
        &&& 1 <= self.width <= DIM_MAX
        &&& 1 <= self.height <= DIM_MAX
        &&& self.pixels@.len() == self.width * self.height
    }

    /// Allocates a `width * height` surface with every pixel set to the
    /// background color. Zero or oversized dimensions are a precondition
    /// violation, not a silent no-op.
    pub fn create(width: usize, height: usize) -> (r: Renderer)
        requires
            1 <= width <= DIM_MAX,
            1 <= height <= DIM_MAX,
        ensures
            r.wf(),
            r.width == width,
            r.height == height,
            forall|i: int| 0 <= i < r@.len() ==> r@[i] == background(),
    {
        proof {
            lemma_mul_bound(width as int, height as int, DIM_MAX as int, DIM_MAX as int);
        }
        let n: usize = width * height;
        let bg = background_color();
        let mut pixels: Vec<Color> = Vec::with_capacity(n);
        for i in 0..n
            invariant
                pixels@.len() == i,
                forall|j: int| 0 <= j < i ==> pixels@[j] == background(),
                bg == background(),
        {
            pixels.push(bg);
        }
        Renderer { width, height, pixels }
    }

    /// Writes `color` at the integer-rounded surface coordinate if and only
    /// if that coordinate lies within the surface; a write outside it is
    /// silently dropped, with the buffer left exactly as it was.
    pub fn draw_pixel(&mut self, x: i64, y: i64, color: Color)
        requires
            old(self).wf(),
            -FX_LIMIT < x < FX_LIMIT,
            -FX_LIMIT < y < FX_LIMIT,
        ensures
            final(self).wf(),
            final(self).width == old(self).width,
            final(self).height == old(self).height,
            final(self)@ == (match spec_pixel_index(
                x as int,
                y as int,
                old(self).width as int,
                old(self).height as int,
            ) {
                Some(i) => old(self)@.update(i, color),
                None => old(self)@,
            }),
    {
        let w = self.width as i64;
        let h = self.height as i64;
        if !(x < 0 || y < 0 || x > (w - 1) * UNIT || y > (h - 1) * UNIT) {
            proof {
                lemma_tdiv_nonneg(x as int, UNIT as int);
                lemma_tdiv_nonneg(y as int, UNIT as int);
                lemma_tdiv_bound(x as int, UNIT as int, w - 1);
                lemma_tdiv_bound(y as int, UNIT as int, h - 1);
            }
            let px = fx_div(x, UNIT);
            let py = fx_div(y, UNIT);
            proof {
                assert((py as int) * (w as int) + (px as int) < (h as int) * (w as int))
                    by (nonlinear_arith)
                    requires
                        0 <= py as int <= h - 1,
                        0 <= px as int <= w - 1,
                        1 <= w as int,
                ;
                assert(0 <= (py as int) * (w as int)) by (nonlinear_arith)
                    requires
                        0 <= py as int,
                        0 <= w as int,
                ;
                lemma_mul_bound(py as int, w as int, DIM_MAX as int, DIM_MAX as int);
            }
            let idx: usize = (py as usize) * self.width + (px as usize);
            self.pixels.set(idx, color);
        }
    }

    /// Renders one frame of the scene into the buffer: every point of the
    /// cloud, in sequence order, is rotated by the angles whose sine and
    /// cosine `trig` holds, projected, centered, and drawn as a single
    /// marker pixel; points without a surface position are dropped. Every
    /// index some point lands on holds the marker color afterwards; every
    /// other pixel is untouched. An absent or empty cloud leaves the whole
    /// buffer as it was.
    pub fn draw(&mut self, state: &GomuOriApp, trig: &RotationTrig)
        requires
            old(self).wf(),
            valid_shape(state.shape),
            valid_projection(state.projection),
            valid_trig(*trig),
        ensures
            final(self).wf(),
            final(self).width == old(self).width,
            final(self).height == old(self).height,
            final(self)@.len() == old(self)@.len(),
            forall|i: int|
                0 <= i < old(self)@.len() ==> final(self)@[i] == (if point_hits(
                    state.shape,
                    state.projection,
                    *trig,
                    old(self).width as int,
                    old(self).height as int,
                    i,
                ) {
                    marker()
                } else {
                    old(self)@[i]
                }),
    {
        let w = self.width;
        let h = self.height;
        let ghost orig = self@;
        let ghost proj = state.projection;
        let ghost tg = *trig;
        if let Some(points) = &state.shape {
            let n = points.len();
            for k in 0..n
                invariant
                    self.wf(),
                    self.width == w,
                    self.height == h,
                    1 <= w <= DIM_MAX,
                    1 <= h <= DIM_MAX,
                    self@.len() == orig.len(),
                    n == points@.len(),
                    proj == state.projection,
                    tg == *trig,
                    valid_projection(proj),
                    valid_trig(tg),
                    forall|j: int|
                        0 <= j < points@.len() ==> valid_point3(
                            #[trigger] points@[j]@,
                            COORD_LIMIT as int,
                        ),
                    forall|i: int|
                        0 <= i < orig.len() ==> self@[i] == (if hit_upto(
                            points@,
                            proj,
                            tg,
                            w as int,
                            h as int,
                            k as int,
                            i,
                        ) {
                            marker()
                        } else {
                            orig[i]
                        }),
            {
                let p = points[k];
                proof {
                    lemma_rotate_point_bound(
                        p@,
                        Angle::X,
                        trig.sin_x as int,
                        trig.cos_x as int,
                        COORD_LIMIT as int,
                    );
                }
                let r1 = rotate_point(p, Angle::X, trig.sin_x, trig.cos_x);
                proof {
                    lemma_rotate_point_bound(
                        r1@,
                        Angle::Y,
                        trig.sin_y as int,
                        trig.cos_y as int,
                        2 * COORD_LIMIT as int,
                    );
                }
                let r2 = rotate_point(r1, Angle::Y, trig.sin_y, trig.cos_y);
                proof {
                    lemma_rotate_point_bound(
                        r2@,
                        Angle::Z,
                        trig.sin_z as int,
                        trig.cos_z as int,
                        4 * COORD_LIMIT as int,
                    );
                }
                let r3 = rotate_point(r2, Angle::Z, trig.sin_z, trig.cos_z);
                let projected: Option<Vector2> = match state.projection {
                    Projection::Orthographic { scale } => Some(
                        project_point_orthographic(r3, scale),
                    ),
                    Projection::Perspective { camera_position, fov } => project_point_perspective(
                        r3,
                        camera_position,
                        fov,
                    ),
                };
                let ghost t_idx = target_index(points@[k as int], proj, tg, w as int, h as int);
                let ghost prev = self@;
                match projected {
                    Some(q) => {
                        let cpt = center_point(q, w, h);
                        self.draw_pixel(cpt.x, cpt.y, marker_color());
                        proof {
                            assert(t_idx == spec_pixel_index(
                                cpt.x as int,
                                cpt.y as int,
                                w as int,
                                h as int,
                            ));
                            lemma_pixel_index_in_range(
                                cpt.x as int,
                                cpt.y as int,
                                w as int,
                                h as int,
                            );
                        }
                    },
                    None => {
                        proof {
                            assert(t_idx is None);
                        }
                    },
                }
                proof {
                    assert forall|i: int| 0 <= i < orig.len() implies self@[i] == (if hit_upto(
                        points@,
                        proj,
                        tg,
                        w as int,
                        h as int,
                        k + 1,
                        i,
                    ) {
                        marker()
                    } else {
                        orig[i]
                    }) by {
                        lemma_hit_extend(points@, proj, tg, w as int, h as int, k as int, i);
                        assert(prev[i] == (if hit_upto(
                            points@,
                            proj,
                            tg,
                            w as int,
                            h as int,
                            k as int,
                            i,
                        ) {
                            marker()
                        } else {
                            orig[i]
                        }));
                        match t_idx {
                            Some(i0) => {
                                assert(0 <= i0 < prev.len());
                                assert(self@ == prev.update(i0, marker()));
                                if i == i0 {
                                    assert(hit_upto(
                                        points@,
                                        proj,
                                        tg,
                                        w as int,
                                        h as int,
                                        k + 1,
                                        i,
                                    ));
                                    assert(self@[i] == marker());
                                } else {
                                    assert(self@[i] == prev[i]);
                                }
                            },
                            None => {
                                assert(self@ == prev);
                            },
                        }
                    }
                }
            }
            proof {
                assert(state.shape == Some(*points));
            }
        }
    }

    /// Overwrites every pixel whose column and row are both multiples of
    /// `10 * scale` with `color`, leaving every other pixel as it was.
    pub fn draw_grid(&mut self, scale: usize, color: Color)
        requires
            old(self).wf(),
            1 <= scale <= DIM_MAX,
        ensures
            final(self).wf(),
            final(self).width == old(self).width,
            final(self).height == old(self).height,
            forall|i: int|
                0 <= i < old(self)@.len() ==> final(self)@[i] == (if grid_hit(
                    i,
                    old(self).width as int,
                    10 * scale as int,
                ) {
                    color
                } else {
                    old(self)@[i]
                }),
    {
        let m: usize = 10 * scale;
        let w = self.width;
        let n = self.pixels.len();
        let ghost orig = self@;
        for i in 0..n
            invariant
                self.wf(),
                self.width == w,
                self.height == old(self).height,
                1 <= m,
                m == 10 * scale,
                n == orig.len(),
                self@.len() == n,
                forall|j: int| i <= j < n ==> self@[j] == orig[j],
                forall|j: int|
                    0 <= j < i ==> self@[j] == (if grid_hit(j, w as int, m as int) {
                        color
                    } else {
                        orig[j]
                    }),
        {
            let px = i % w;
            let py = i / w;
            if px % m == 0 && py % m == 0 {
                self.pixels.set(i, color);
            }
        }
    }

    /// Overwrites the pixels of the axis-aligned rectangle of `rw` columns
    /// and `rh` rows whose top-left pixel is `(x, y)`, clipped to the
    /// surface; every pixel outside the rectangle is left as it was.
    pub fn draw_rect(&mut self, x: usize, y: usize, rw: usize, rh: usize, color: Color)
        requires
            old(self).wf(),
            x <= DIM_MAX,
            y <= DIM_MAX,
            rw <= DIM_MAX,
            rh <= DIM_MAX,
        ensures
            final(self).wf(),
            final(self).width == old(self).width,
            final(self).height == old(self).height,
            forall|i: int|
                0 <= i < old(self)@.len() ==> final(self)@[i] == (if rect_hit(
                    i,
                    old(self).width as int,
                    x as int,
                    y as int,
                    rw as int,
                    rh as int,
                ) {
                    color
                } else {
                    old(self)@[i]
                }),
    {
        let w = self.width;
        let n = self.pixels.len();
        let ghost orig = self@;
        for i in 0..n
            invariant
                self.wf(),
                self.width == w,
                self.height == old(self).height,
                n == orig.len(),
                self@.len() == n,
                x <= DIM_MAX,
                y <= DIM_MAX,
                rw <= DIM_MAX,
                rh <= DIM_MAX,
                forall|j: int| i <= j < n ==> self@[j] == orig[j],
                forall|j: int|
                    0 <= j < i ==> self@[j] == (if rect_hit(
                        j,
                        w as int,
                        x as int,
                        y as int,
                        rw as int,
                        rh as int,
                    ) {
                        color
                    } else {
                        orig[j]
                    }),
        {
            let px = i % w;
            let py = i / w;
            if px >= x && px < x + rw && py >= y && py < y + rh {
                self.pixels.set(i, color);
            }
        }
    }
}

} // verus!
