//! The octree: its node store, the traversal cursor and the facade over both.

pub mod laws;
pub mod model;
pub mod octant;
pub mod octree;
pub mod path;
pub mod scene;
pub mod shape;
