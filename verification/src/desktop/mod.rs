//! The desktop application: editing clips, showing them, and its status.

pub mod editor;
pub mod preview;
pub mod gallery;
pub mod status;
pub mod backend;
pub mod updater;
