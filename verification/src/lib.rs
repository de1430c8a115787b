//! Overlay bookkeeping for regional-indicator dashboard tiles.

pub mod calendar;
pub mod catalog;
pub mod client;
pub mod error;
pub mod names;
pub mod protocol;
pub mod store;
