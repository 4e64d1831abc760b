//! The menu bar app: preferences, what the menu and the settings window show,
//! and what a click asks for.

pub mod batch;
pub mod client;
pub mod config;
pub mod menu;
pub mod login;
pub mod mediakeys;
pub mod refresh;

pub mod settings;
