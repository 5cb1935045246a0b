//! Watches an append-only game log, turns its lines into structured events
//! and decides which of those events become join / leave notifications.

pub mod text;
pub mod log;
pub mod notifier;
pub mod reader;
pub mod time;
pub mod vrc;
pub mod xsoverlay;
