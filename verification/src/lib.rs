//! A verified model of a checkerboard with queen markers.
//!
//! The library owns the grid data: cell coordinates, checkerboard
//! colouring, queen placement (explicit or random), and the mapping
//! from cells to pixel rectangles. Rendering those rectangles is left
//! to the binary around the library.

pub mod board;
