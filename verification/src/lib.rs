//! Integer core of a small recursive ray tracer.
//!
//! The floating-point geometry (vectors, intersections, shading weights)
//! lives with the render driver; this crate verifies everything the tracer
//! computes over exact integers: 8-bit color arithmetic, the per-frame
//! pixel enumeration, and the RGBA byte layout of a finished frame.

pub mod color;
pub mod frame;
