//! Exhaustive search for every packing of a fixed set of polycube pieces
//! into a 3x3x3 volume.

pub mod geometry;
pub mod placement;
pub mod search;
pub mod display;
pub mod catalogue;
