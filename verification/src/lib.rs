//! The simulation core of a turn-based dungeon crawl: level generation,
//! the entities of a level and what they can do, field-of-view bookkeeping,
//! combat and levelling, monster behaviour, and the use of items.
//!
//! Everything here works on plain values and is verified, but for the
//! calls into the random number generator, whose contracts are believed.
//! Drawing, input and the save file are left to the program around it.

pub mod colors;
pub mod constants;
pub mod controls;
pub mod fov;
pub mod geometry;
pub mod guards;
pub mod map_generation;
pub mod messages;
pub mod misc;
pub mod objects;
pub mod random;
pub mod render;
pub mod text;
pub mod tiles;
pub mod ui;
