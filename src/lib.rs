//! Mandelbrot rendering core: colour schemes, strided pixel fills split into
//! row bands, and the request-coalescing producer state machine.
pub mod colorings;
pub mod fill;
pub mod bands;
pub mod render;
pub mod producer;
