//! Core logic of an Alt+Tab window switcher for wlroots compositors: colour
//! and layout configuration, the most-recently-used window list, the overlay
//! state machine, icon lookup and pixel blending.

pub mod color;
pub mod config;
pub mod toplevel;
pub mod switcher;
pub mod text;
pub mod icons;
pub mod desktop;
pub mod pixels;
pub mod ipc;
