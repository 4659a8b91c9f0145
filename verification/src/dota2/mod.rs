//! Dota 2: the game pushes its state, and differences between two states are
//! events.

pub mod config;
pub mod source;
pub mod state;
