//! Core of a local keyboard-telemetry collector.
//!
//! The library turns normalized key events and periodic ticks into
//! minute-bucketed typing statistics and shortcut-frequency aggregates,
//! keeps a compact replay log of input events, and plans the daily-sharded
//! persistence of both. Platform bridges (event taps, window queries,
//! file I/O) live outside the library and hand it plain values.

pub mod api;
pub mod clock;
pub mod codec;
pub mod config;
pub mod context;
pub mod event;
pub mod format;
pub mod laws;
pub mod events;
pub mod modifier;
pub mod persist;
pub mod shortcut;
pub mod sort;
pub mod state;
pub mod text;
