//! A toroidal two-dimensional cellular automaton (Conway's Game of Life).
//!
//! A [`Universe`] owns a fixed-size grid of cells, each Dead or Alive,
//! stored as a dense bit set together with the ascending list of the
//! indices of the Alive cells. [`Universe::tick`] advances the grid one
//! generation under the classic neighbor-count rule, with wrap-around
//! (toroidal) neighbor addressing. The `rules` module holds the
//! mathematical model that every contract is stated against.

pub mod bits;
pub mod grid;
pub mod rules;

pub use grid::Cell;
pub use grid::GridError;
pub use grid::Universe;


