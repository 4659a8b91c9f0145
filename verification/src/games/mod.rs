//! What every watched game has in common.

pub mod event;
pub mod source;
