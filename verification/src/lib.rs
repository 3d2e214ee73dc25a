//! Dynamic workspaces for the niri compositor: the configuration model, the
//! workspace naming scheme, program templates, and the decisions the
//! workspace actions take on compositor state.

pub mod text;
pub mod naming;
pub mod order;
pub mod config;
pub mod template;
pub mod layout;
pub mod keybind;
pub mod theme;
pub mod resolve;
pub mod hotkeys;
pub mod assoc;
pub mod loading;
pub mod ipc;
pub mod niri;
pub mod commands;
pub mod backend;
pub mod actions;
pub mod overlay;
pub mod hyprland;
pub mod grid;
pub mod session;
pub mod select;
pub mod keypress;
