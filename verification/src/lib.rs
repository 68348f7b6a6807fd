//! Verified core of a session manager for the niri Wayland compositor:
//! session model and filters, restore planning, terminal restore commands,
//! process-tree walking, save-loop decisions and configuration checks.
pub mod config;
pub mod niri;
pub mod proc;
pub mod restore;
pub mod save;
pub mod service;
pub mod session;
pub mod span;
pub mod terminal;
pub mod text;
