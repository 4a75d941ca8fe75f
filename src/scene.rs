use crate::pattern::PatternType;
use crate::shape::ShapeType;
use vstd::prelude::*;

verus! {

/// One object of a scene: its primitive, and the pattern on its surface if
/// it has one.
#[derive(Debug, Clone, Copy, PartialEq, Eq, Structural)]
pub struct SceneObject {
    pub kind: ShapeType,
    pub pattern: Option<PatternType>,
}

/// The layout of a scene: the size of the image it is rendered to, and its
/// objects in insertion order.
pub struct Scene {
    pub width: usize,
    pub height: usize,
    pub objects: Vec<SceneObject>,
}

/// The objects of the showcase scene: a checkered floor, two checkered
/// walls, and four plain spheres.
pub open spec fn showcase_objects() -> Seq<SceneObject> {
    let checkered = SceneObject { kind: ShapeType::Plane, pattern: Some(PatternType::Checker) };
    let plain = SceneObject { kind: ShapeType::Sphere, pattern: None };
    seq![checkered, checkered, checkered, plain, plain, plain, plain]
}

/// The layout of the showcase scene, rendered at 800 × 400 pixels.
pub fn world() -> (s: Scene)
    ensures
        s.width == 800,
        s.height == 400,
        s.objects@ == showcase_objects(),
{
    let checkered = SceneObject { kind: ShapeType::Plane, pattern: Some(PatternType::Checker) };
    let plain = SceneObject { kind: ShapeType::Sphere, pattern: None };
    let objects = vec![checkered, checkered, checkered, plain, plain, plain, plain];
    assert(objects@ =~= showcase_objects());
    Scene { width: 800, height: 400, objects }
}

} // verus!
