//! The daemon's logic: what a request does to the displays, and what a rule
//! fires.

pub mod actions;
pub mod apply;
pub mod automation;
pub mod clock;
pub mod engine;
pub mod restore;
pub mod rpc;
pub mod selection;
pub mod snapshot;
pub mod worker;
