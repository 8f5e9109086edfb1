//! Raster painting core: brush-stroke rasterization onto layered pixel
//! surfaces and ordered alpha compositing of the visible layer stack.
//!
//! Pixel surfaces store premultiplied RGBA with 8-bit channels; brush colors
//! are given as straight (unpremultiplied) RGBA and are premultiplied at the
//! moment they are blended onto a surface. All channel math is integer
//! arithmetic with round-to-nearest division, so identical inputs always
//! produce pixel-identical output.

pub mod color;
pub mod color_picker;
pub mod coverage;
pub mod font;
pub mod ids;
pub mod layer_system;
pub mod paint_engine;
pub mod pixmap;
pub mod raster;
pub mod tools;

pub use color::Color;
pub use pixmap::Pixmap;
