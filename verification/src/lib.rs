//! Save and restore Hyprland window sessions.

pub mod collections;
pub mod color;
pub mod config;
pub mod delete;
pub mod desktop_entry;
pub mod edit;
pub mod hyprland;
pub mod list;
pub mod lock;
pub mod log;
pub mod order;
pub mod paths;
pub mod restore;
pub mod save;
pub mod session;
pub mod status;
pub mod text;
