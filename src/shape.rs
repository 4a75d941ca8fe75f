use vstd::prelude::*;

verus! {

/// The primitives a shape can be; `Test` is a stand-in that no ray intersects.
#[derive(Debug, Clone, Copy, PartialEq, Eq, Structural)]
pub enum ShapeType {
    Sphere,
    Plane,
    Test,
}

/// Relies on rand::random: a `u32` drawn from the thread-local generator;
/// nothing is promised of its value. It panics only where the system's
/// entropy source cannot seed that generator.
#[verifier::external_body]
fn random_u32() -> (r: u32) {
    rand::random::<u32>()
}

/// The opaque identity of a newly created shape. Two shapes are the same
/// shape exactly when their handles are equal; handles are drawn at random,
/// so that no two shapes are expected to share one.
pub fn new_handle() -> (h: u32) {
    random_u32()
}

} // verus!
