//! The macOS side that can be decided from plain values: which registry nodes
//! make up a service, which service belongs to which display, and how a display
//! is driven.

pub mod ioreg;
pub mod matching;
pub mod routing;
