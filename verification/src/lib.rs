//! The whole-number core of a path tracer, verified: reading meshes and
//! material libraries from text, the tiles of an image, the lattice tables
//! of gradient noise, the split order of a bounding volume hierarchy, the
//! sides of a box, and the steps of following a ray.
pub mod bvh;
pub mod cube;
pub mod effects;
pub mod error;
pub mod mtl;
pub mod number;
pub mod perlin;
pub mod random;
pub mod render;
pub mod rows;
pub mod text;
pub mod texture;
pub mod wavefront_obj;
