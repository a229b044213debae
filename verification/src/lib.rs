pub mod config;
pub mod desktop;
pub mod encode;
pub mod geometry;
pub mod guid;
pub mod hotkey;
pub mod monitor;
pub mod snap;
pub mod state;
pub mod text;
pub mod tiling;
pub mod utf16;
pub mod windows;
