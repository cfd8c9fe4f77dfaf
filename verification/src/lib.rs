//! A renderer of the Mandelbrot set: the control of the escape-time
//! evaluator, palettes and gradients, and the encoders that turn a grid of
//! iteration counts and colors into terminal text or a PPM image.
//!
//! The library works on integers, bytes and text. Real numbers reach it by
//! their bits, and real arithmetic is handed in by the caller.

pub mod colorscheme;
pub mod fractal;
pub mod gradient;
pub mod number;
pub mod renderer;
pub mod terminal;
pub mod text;
