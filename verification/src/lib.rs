//! A cave-crawling role-playing game engine: content catalog, entities with
//! derived stats, cave generation and turn-based encounter resolution.

pub mod dice;
pub mod entities;
pub mod game;
pub mod interface;
pub mod math;
