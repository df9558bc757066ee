//! Points of the scene, in fixed-point integer units.
use vstd::prelude::*;

verus! {

/// A point in space, reused as an interpolable attribute (a colour, a
/// texture coordinate, or a copy of the position).
#[derive(Clone, Copy, Debug, PartialEq, Eq, Structural)]
pub struct Pt3 {
    pub x: i32,
    pub y: i32,
    pub z: i32,
}

} // verus!
