//! Recording the screen: replay segments, recorders and what they are told.

pub mod audio;
pub mod buffer;
pub mod concat;
pub mod gpu_screen_recorder;
pub mod output;
pub mod quality;
pub mod recorder;
pub mod segments;
pub mod x11;
pub mod x11_window;
