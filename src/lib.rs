//! Diffusion-limited aggregation on a toroidal lattice.
//!
//! Mobile particles walk at random over a fixed-size lattice until one of
//! their eight neighbouring cells holds a frozen particle; they then freeze in
//! place and take that neighbour's colour. [`Grid::cycle`] advances the whole
//! system by one tick.

mod random;
mod store;

pub mod cell;
pub mod grid;
pub mod laws;
pub mod render;

pub use cell::{Cell, Color};
pub use grid::{clip, Grid, GridError};
pub use render::{draw, set_pixel};
