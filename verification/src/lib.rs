//! A grid-intersection engine for casting rays across a 2-D tile board.
//!
//! The board is a rectangular lattice of tiles, each holding a code
//! (0 = open, 1..=4 = wall material). A viewer standing at a fractional
//! position casts rays at arbitrary angles; each ray is resolved against
//! the board by marching the two families of grid lines (horizontal and
//! vertical) independently, confirming the first occupied tile either
//! family crosses, and merging the two candidates by distance.
//!
//! All geometry is done in fixed-point arithmetic: coordinates are tile
//! units scaled by `fixed::SCALE`, and angles are binary angles (a `u32`
//! holding the fraction of a full turn), so axis-aligned directions are
//! represented exactly and every step of the traversal is exact integer
//! arithmetic.

pub mod board;
pub mod display_vec;
pub mod fixed;
pub mod laws;
pub mod maths;
pub mod player;
pub mod point;
pub mod ray;
pub mod trig;
