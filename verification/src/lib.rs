//! A CPU software rasterizer: Bresenham lines, exact triangle coverage,
//! packed BGRA color, and a depth-tested fragment merge over a framebuffer.
//!
//! Everything here works on plain integer values. The floating-point stages
//! of a full pipeline (vertex transforms, shading, texture filtering) live
//! outside the library and hand it integer screen coordinates, packed colors
//! and totally ordered integer depth keys.

pub mod backbuffer;
pub mod color;
pub mod common;
pub mod framebuffer;
pub mod gl;
pub mod line;
pub mod triangle;
pub mod utils;
