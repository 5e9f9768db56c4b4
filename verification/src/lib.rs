//! A constraint-based word filter for a five-letter guessing puzzle.
//!
//! A [`grid::Filter`] accumulates per-cell feedback signals (letter known at a
//! position, letter present elsewhere, letter absent) over up to six guess
//! rows, and decides which candidate words are consistent with all of them.
//! A [`dict::ValidWords`] holds the immutable dictionary that the grid is
//! matched against.

pub mod dict;
pub mod grid;
