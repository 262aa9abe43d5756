//! Procedural generation of a grid of cave rooms whose exits line up.
//!
//! A [`room::Room`] is a fixed-size grid of [`tile::Tile`]s: a ring of walls
//! broken by its open exits, seed walls grown by a cellular automaton, and a
//! few scattered features. A [`map::LevelMap`] is a grid of rooms built in one
//! forward pass so that the exits of neighbouring rooms always agree, with a
//! hand-authored starting room ([`layout`]) at its centre. [`spawn`] lists what
//! a room puts into the world when the player enters it.
//!
//! Every random choice is drawn first and handed to a deterministic builder
//! ([`room::build_room`], [`map::build_map`]), whose result is stated exactly.

pub mod tile;
pub mod random;
pub mod room;
pub mod map;
pub mod layout;
pub mod spawn;
