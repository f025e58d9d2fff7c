//! The dungeon generator.

pub mod make_map;
pub mod spawn;
