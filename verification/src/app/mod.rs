//! The running program: clips waiting to be saved, and what the user is told.

pub mod auto;
pub mod clip_types;
pub mod events;
