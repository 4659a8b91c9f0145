//! The window of the program: what it shows, and what it asks for.

pub mod app;
pub mod bridge;
pub mod theme;
