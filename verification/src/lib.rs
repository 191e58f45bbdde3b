//! Roguelike dungeon generation: a fixed-size tile grid carved with
//! non-overlapping rooms joined by L-shaped tunnels, populated with
//! monsters and items whose counts and kinds scale with dungeon depth.

pub mod dungeon;
pub mod entity;
pub mod entropy;
pub mod geometry;
pub mod grid;
pub mod tables;
