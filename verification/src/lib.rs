//! A toroidal Conway's Game of Life grid.
//!
//! The grid owns a bit-packed cell array (a `fixedbitset::FixedBitSet`) of
//! `width * height` cells in row-major order. `tick` advances one generation
//! synchronously; editing operations toggle single cells, stamp fixed
//! patterns, or reset the whole grid. Every operation is specified against
//! the mathematical model in [`model`].

pub mod bits;
pub mod laws;
pub mod model;

mod grid;

pub use grid::Cell;
pub use grid::GridError;
pub use grid::Universe;
