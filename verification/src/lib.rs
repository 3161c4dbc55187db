//! A sparse voxel octree on an integer grid.
//!
//! Nodes live in one growable array and refer to each other by index. Points
//! and cell edges are whole voxel units; colours are fixed-point numbers with
//! [`tree::octree::MAX_RECURSION`] fractional bits, so that dividing a whole
//! colour by any cell edge of the tree is exact.

pub mod data;
pub mod input;
pub mod interface;
pub mod render;
pub mod service;
pub mod vector;

pub mod tree;
