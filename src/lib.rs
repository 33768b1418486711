//! A reaction-time racing game engine: race rooms with their round lifecycle and
//! scoring, a registry of rooms, a log of archived results, and a small
//! number-guessing game.

pub mod text;
pub mod race;
pub mod registry;
pub mod guess;
pub mod records;
