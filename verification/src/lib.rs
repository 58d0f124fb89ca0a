//! Verified core of a terminal system monitor: configuration, formatting,
//! snapshot helpers, collector decoding rules and the terminal layout logic.

pub mod config;
pub mod control;
pub mod error;
pub mod event;
pub mod format;
pub mod history;
pub mod metrics;
pub mod snapshot;
pub mod surface;
pub mod text;
pub mod ui;
