//! Monitor layout model for a Wayland compositor: rotation-aware geometry
//! over a set of monitor descriptors, and a line-oriented configuration
//! codec that serializes an arrangement and merges parsed directives back
//! into an existing descriptor set.

pub mod codec;
pub mod digits;
pub mod geometry;
pub mod monitor;
pub mod rotation;
pub mod text;
