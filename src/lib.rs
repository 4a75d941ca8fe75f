//! Discrete core of a recursive ray tracer: shape identities, the choice
//! of the hit and the refractive-medium stack walked along a ray, procedural
//! pattern bands, the index arithmetic of matrices, the pixel canvas, and the
//! layout of the showcase scene.

mod canvas;
mod grid;
mod intersections;
mod matrix;
mod pattern;
mod refraction;
mod scene;
mod shape;

pub use canvas::Canvas;
pub use intersections::{
    hit, lemma_hit_idempotent, lemma_hit_order_independent, order_by_distance,
};
pub use matrix::{submatrix, transpose};
pub use pattern::{Band, Cell, PatternType};
pub use refraction::{refraction_boundary, Boundary};
pub use scene::{world, Scene, SceneObject};
pub use shape::{new_handle, ShapeType};
