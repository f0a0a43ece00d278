//! Core of a trajectory viewer: a geodesic sphere mesh built by recursive
//! subdivision of an icosahedron, and a playback engine that parses recorded
//! body positions and advances through them in real time.
//!
//! All geometry is carried in fixed-point coordinates (see [`fixed`]); the
//! rendering host converts them to whatever its graphics API wants.

pub mod fixed;
pub mod mesh;
pub mod parse;
pub mod playback;
pub mod rng;
pub mod vec3;
