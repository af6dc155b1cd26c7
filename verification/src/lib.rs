//! Escape-time rendering of the Mandelbrot set.
//!
//! The escape-time recurrence z <- z^2 + c is evaluated in fixed-point
//! integer arithmetic, so every iteration count, the grid that collects
//! them, and the grayscale image derived from the grid are fully verified.
//! Device dispatch and file encoding live outside the library: callers hand
//! in a flat buffer of counts and receive plain pixel data back.

pub mod color;
pub mod grid;
pub mod kernel;

pub use color::get_color;
pub use color::Pixel;
pub use grid::evaluate_sequential;
pub use grid::render;
pub use grid::Image;
pub use grid::IterationGrid;
pub use kernel::escape_time;
