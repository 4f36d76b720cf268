use vstd::prelude::*;

verus! {

/// A coordinate in surface space, produced by the projection and centering
/// stages. Each component is a fixed-point scalar carrying
/// `crate::fixed::UNIT`; it is not yet rounded to an integer pixel.
#[derive(Clone, Copy, Debug, PartialEq, Eq, Structural)]
pub struct Vector2 {
    pub x: i64,
    pub y: i64,
}

impl View for Vector2 {
    type V = (int, int);

    open spec fn view(&self) -> (int, int) {
        (self.x as int, self.y as int)
    }
}

impl Vector2 {
    pub fn new(x: i64, y: i64) -> (r: Self)
        ensures
            r == (Vector2 { x, y }),
    {
        Vector2 { x, y }
    }
}

/// Shorthand constructor.
pub fn vec2(x: i64, y: i64) -> (r: Vector2)
    ensures
        r == (Vector2 { x, y }),
{
    Vector2::new(x, y)
}

} // verus!
