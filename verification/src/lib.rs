//! Display control over DDC/CI: protocol, display model, daemon logic and
//! client-side presentation, each with machine-checked contracts.

pub mod text;
pub mod trace;
pub mod keyed;
pub mod paths;
pub mod ddc;
pub mod model;
pub mod api;
pub mod daemon;
pub mod macos;
pub mod ctl;
pub mod probe;
pub mod gui;
