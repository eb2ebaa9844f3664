//! A small software 3D rasterizer: fixed-point vector/matrix algebra,
//! model/view/projection/viewport transform builders, a barycentric
//! triangle rasterizer with z-buffer, Gouraud-style shading, a Bresenham
//! line drawer, and a Wavefront mesh loader.
//!
//! All numeric work is done in 16.16 fixed-point arithmetic (a value `v`
//! stands for the real number `v / SCALE` with `SCALE = 65536`) or in plain
//! integers for screen-space quantities, so every function carries an exact
//! contract.

pub mod buffer;
pub mod fixed;
pub mod geometry;
pub mod line;
pub mod model;
pub mod renderer;

pub use fixed::SCALE;
