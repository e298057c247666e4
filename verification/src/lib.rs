//! Geometry extraction for simple vector drawings: a parsed drawing becomes
//! path descriptors, each path becomes a normalized stream of edge events,
//! and the triangle buffers produced per path are merged into one mesh.
//!
//! Real numbers never take part in arithmetic here. A single-precision value
//! is carried as its IEEE-754 bit pattern in a `u32`, a double-precision
//! value as its bit pattern in a `u64`.

pub mod geometry;
pub mod path;
pub mod vertex_buffer;
pub mod svg;
pub mod loader;
pub mod tessellation;
pub mod mesh_map;
