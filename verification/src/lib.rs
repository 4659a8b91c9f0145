//! Watches War Thunder and Dota 2, and saves clips of what happens in them.
//!
//! The library decides and computes: what the games report, which events make a
//! clip, what the recorder and FFmpeg are asked to do, what a diagnosis says. It
//! takes what was read and found as plain values, and gives back what is to be
//! done. The program around it reads, writes, waits and talks to other programs.

pub mod app;
pub mod capture;
pub mod cli;
pub mod commands;
pub mod config;
pub mod desktop;
pub mod doctor;
pub mod dota2;
pub mod games;
pub mod json;
pub mod number;
pub mod order;
pub mod path;
pub mod stamp;
pub mod text;
pub mod time;
pub mod ui;
pub mod warthunder;
