use vstd::prelude::*;

verus! {

/// A point (or a triple of per-axis angles) in the scene. Each coordinate is
/// a fixed-point scalar carrying `crate::fixed::UNIT`.
#[derive(Clone, Copy, Debug, PartialEq, Eq, Structural)]
pub struct Vector3 {
    pub x: i64,
    pub y: i64,
    pub z: i64,
}

impl View for Vector3 {
    type V = (int, int, int);

    open spec fn view(&self) -> (int, int, int) {
        (self.x as int, self.y as int, self.z as int)
    }
}

impl Vector3 {
    pub fn new(x: i64, y: i64, z: i64) -> (r: Self)
        ensures
            r == (Vector3 { x, y, z }),
    {
        Vector3 { x, y, z }
    }
}

/// Shorthand constructor.
pub fn vec3(x: i64, y: i64, z: i64) -> (r: Vector3)
    ensures
        r == (Vector3 { x, y, z }),
{
    Vector3::new(x, y, z)
}

} // verus!
