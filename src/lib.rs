//! Procedural mesh construction and scene-graph composition.
//!
//! Geometry is exact: positions are fixed-point integers, so face orientation
//! is decided without rounding.
pub mod cache;
pub mod camera;
pub mod compose;
pub mod geometry;
pub mod scene;
