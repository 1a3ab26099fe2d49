//! The simulation core of a box-pushing grid puzzle: a component store,
//! push resolution along a row or column, event interpretation with win
//! detection, and level loading from text.

pub mod components;
pub mod constants;
pub mod entities;
pub mod events;
pub mod game;
pub mod level_text;
pub mod map;
pub mod resources;
pub mod systems;
pub mod world;
