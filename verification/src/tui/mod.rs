//! The terminal interface: its rows, its state and what it shows.

pub mod app;
pub mod columns;
pub mod events;
pub mod glyphs;
pub mod rolling;
pub mod rows;
pub mod spans;
pub mod sysinfo;
pub mod ui;
