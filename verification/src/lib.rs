//! Verified building blocks of a small Logo turtle interpreter and of a
//! Mandelbrot image writer: colours and their text form, command lists,
//! SVG and PPM text, the interpreter's word tables, and random choices.

pub mod text;
pub mod turtle;
pub mod svg_editor;
pub mod fractal;
pub mod ast;
pub mod eval;
pub mod random;
pub mod scope;
