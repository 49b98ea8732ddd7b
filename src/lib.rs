//! A deterministic falling-block puzzle engine: board geometry, kick-tested
//! moves, a bag randomizer with lookahead and the session rules around them.

pub mod board;
pub mod data;
pub mod game;
pub mod rng;
