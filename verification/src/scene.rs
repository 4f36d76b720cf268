use vstd::prelude::*;
use vstd::arithmetic::div_mod::lemma_fundamental_div_mod_converse;

use crate::fixed::UNIT;
use crate::vector3::{vec3, Vector3};

verus! {

/// The step of the sample cube's coordinate sweep: a quarter unit.
pub const QUARTER_UNIT: i64 = 16384;

/// The default field of view of the perspective camera.
pub const DEFAULT_FOV: i64 = 120 * UNIT;

/// The projection mode and its mode-specific parameters. Exactly one
/// variant is active at a time; each carries only its own parameters.
#[derive(Clone, Copy, Debug, PartialEq, Eq, Structural)]
pub enum Projection {
    Orthographic { scale: i64 },
    Perspective { camera_position: Vector3, fov: i64 },
}

impl Projection {
    /// The documented orthographic default: scale 1.
    pub fn default_orthographic() -> (r: Self)
        ensures
            r == (Projection::Orthographic { scale: UNIT }),
    {
        Projection::Orthographic { scale: UNIT }
    }

    /// The documented perspective default: camera at (0, 0, -1), field of
    /// view 120.
    pub fn default_perspective() -> (r: Self)
        ensures
            r == (Projection::Perspective {
                camera_position: Vector3 { x: 0, y: 0, z: (-UNIT) as i64 },
                fov: DEFAULT_FOV,
            }),
    {
        Projection::Perspective { camera_position: vec3(0, 0, -UNIT), fov: DEFAULT_FOV }
    }
}

/// The scene state a frame is rendered from: the projection mode, the
/// optional point cloud, and the three rotation angles (a `Vector3` reused
/// as angles about the X, Y and Z axes, in fixed-point radians). The state
/// is owned and mutated by the surrounding interface layer and only read
/// here.
pub struct GomuOriApp {
    pub projection: Projection,
    pub shape: Option<Vec<Vector3>>,
    pub rotation: Vector3,
}

impl GomuOriApp {
    pub fn projection_is_perspective(&self) -> (r: bool)
        ensures
            r == (self.projection is Perspective),
    {
        match self.projection {
            Projection::Perspective { .. } => true,
            _ => false,
        }
    }

    pub fn projection_is_orthographic(&self) -> (r: bool)
        ensures
            r == (self.projection is Orthographic),
    {
        match self.projection {
            Projection::Orthographic { .. } => true,
            _ => false,
        }
    }
}

impl Default for GomuOriApp {
    /// The default scene: the sample cube, no rotation, the perspective
    /// default camera.
    fn default() -> (r: Self)
        ensures
            r.projection == (Projection::Perspective {
                camera_position: Vector3 { x: 0, y: 0, z: (-UNIT) as i64 },
                fov: DEFAULT_FOV,
            }),
            r.rotation == (Vector3 { x: 0, y: 0, z: 0 }),
            r.shape matches Some(points) && points@.len() == 729 && (forall|i: int|
                0 <= i < 729 ==> points@[i]@ == cube_point(i)),
    {
        GomuOriApp {
            rotation: vec3(0, 0, 0),
            projection: Projection::default_perspective(),
            shape: Some(cube()),
        }
    }
}

/// Coordinate `k` of the sample sweep: nine quarter-unit steps from -1 to 1.
pub open spec fn cube_coord(k: int) -> int {
    -(UNIT as int) + k * (QUARTER_UNIT as int)
}

/// Point `i` of the sample cube, in the order the sweep emits: x outermost,
/// then y, then z.
pub open spec fn cube_point(i: int) -> (int, int, int) {
    (cube_coord(i / 81), cube_coord((i % 81) / 9), cube_coord(i % 9))
}

proof fn lemma_cube_index(ix: int, iy: int, iz: int)
    requires
        0 <= ix < 9,
        0 <= iy < 9,
        0 <= iz < 9,
    ensures
        (ix * 81 + iy * 9 + iz) / 81 == ix,
        ((ix * 81 + iy * 9 + iz) % 81) / 9 == iy,
        (ix * 81 + iy * 9 + iz) % 9 == iz,
{
    let i = ix * 81 + iy * 9 + iz;
    lemma_fundamental_div_mod_converse(i, 81, ix, iy * 9 + iz);
    lemma_fundamental_div_mod_converse(iy * 9 + iz, 9, iy, iz);
    lemma_fundamental_div_mod_converse(i, 9, ix * 9 + iy, iz);
}

/// The sample point cloud: a cube of 9 x 9 x 9 points sweeping each
/// coordinate from -1 to 1 in quarter-unit steps, x outermost, z innermost.
pub fn cube() -> (shape: Vec<Vector3>)
    ensures
        shape@.len() == 729,
        forall|i: int| 0 <= i < 729 ==> shape@[i]@ == cube_point(i),
{
    let mut shape: Vec<Vector3> = Vec::with_capacity(729);
    for ix in 0..9usize
        invariant
            shape@.len() == ix * 81,
            forall|i: int| 0 <= i < shape@.len() ==> shape@[i]@ == cube_point(i),
    {
        for iy in 0..9usize
            invariant
                ix < 9,
                shape@.len() == ix * 81 + iy * 9,
                forall|i: int| 0 <= i < shape@.len() ==> shape@[i]@ == cube_point(i),
        {
            for iz in 0..9usize
                invariant
                    ix < 9,
                    iy < 9,
                    shape@.len() == ix * 81 + iy * 9 + iz,
                    forall|i: int| 0 <= i < shape@.len() ==> shape@[i]@ == cube_point(i),
            {
                let x = -UNIT + (ix as i64) * QUARTER_UNIT;
                let y = -UNIT + (iy as i64) * QUARTER_UNIT;
                let z = -UNIT + (iz as i64) * QUARTER_UNIT;
                proof {
                    lemma_cube_index(ix as int, iy as int, iz as int);
                }
                shape.push(vec3(x, y, z));
            }
        }
    }
    shape
}

} // verus!
