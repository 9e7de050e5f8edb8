//! A CPU software rasterizer: canvas and depth-buffer management, exact
//! linear interpolation, scanline triangle filling (wireframe, flat,
//! textured, perspective-correct), viewport projection, a scene layer of
//! models and placed instances, and codecs for the texture and model file
//! formats.
//!
//! Fractional quantities are fixed-point values ([`fixed::Fx`]) and
//! interpolated quantities are exact rational numbers ([`fixed::Frac`]), so
//! every contract states the result of a computation precisely.

pub mod bitmaps;
pub mod colors;
pub mod fixed;
pub mod font;
pub mod load_tga;
pub mod math;
pub mod model_loading;
pub mod primitives;
pub mod render_2d;
pub mod render_3d;

pub use colors::Color;
