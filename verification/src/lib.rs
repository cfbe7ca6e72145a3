//! A tile-merging puzzle engine on a fixed-size rectangular grid.
//!
//! Tiles carry unsigned values; `0` marks an empty cell. A move slides every
//! tile one step toward a chosen edge, merging equal neighbours once, and a
//! bounded compaction then closes the remaining gaps.

pub mod board;
pub mod spawn;
pub mod tiles;
