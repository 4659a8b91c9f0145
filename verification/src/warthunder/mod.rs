//! War Thunder: its local telemetry, the battle log, and the events in it.

pub mod client;
pub mod events;
pub mod parser;
pub mod recent;
pub mod source;
