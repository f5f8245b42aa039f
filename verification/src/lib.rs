//! A small engine that watches remote text resources for meaningful changes
//! and scans changed content for configured keywords.
//!
//! The library holds the verified core: change detection, keyword scanning
//! with bounded context windows, the watcher registry with its persistence
//! format, the cache store model, and the per-cycle decision logic. I/O
//! shells (network fetch, terminal interface, file system, notifications)
//! live outside the library and hand it plain values.

pub mod cache;
pub mod config;
pub mod diff;
pub mod engine;
pub mod json;
pub mod matcher;
pub mod notify;
pub mod numbers;
pub mod text;
pub mod ui;
pub mod watcher;
