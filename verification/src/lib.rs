//! sidetab: a Contexts-style window switcher for Hyprland, as a verified
//! library. The window-list model, the panel's presence state machine, the
//! Hyprland request texts, and the config and desktop-entry parsers live
//! here; the program around them (sockets, files, GPU rendering) is in app/.

pub mod apps;
pub mod assets;
pub mod bindings;
pub mod client;
pub mod config;
pub mod daemon;
pub mod hypr;
pub mod icons;
pub mod order;
pub mod text;
pub mod ui;
pub mod windows;
