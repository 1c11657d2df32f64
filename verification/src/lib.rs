//! Selecting text in the grid of a terminal.
//!
//! [`selection`] holds the selection itself: how the cursor moves it, how it moves with the text,
//! and which cells of a terminal it spans. [`term`] holds what it needs of a terminal, [`grid`] the
//! cells, [`index`] the coordinates. [`laws`] states what holds of selections as a whole,
//! and [`outcomes`] what comes of each operation.

pub mod grid;
pub mod index;
pub mod laws;
pub mod outcomes;
pub mod selection;
pub mod term;
