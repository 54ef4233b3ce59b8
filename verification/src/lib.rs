//! Watch-set reconciliation and event routing for a clipboard screenshot watcher.
//!
//! The crate holds the decisions of the watch pipeline as verified functions on
//! plain values: resolving matched paths into an ordered target list, keeping
//! the set of live watches in step with that list, classifying raw filesystem
//! events, and splitting routed events between the copy sink and the reload
//! loop. The `watcher` module holds the same decisions for a pipeline with a
//! single channel, in which a reload replaces every watch. Threads, channels,
//! the operating system's watch facility and the clipboard stay with the
//! caller.

pub mod config;
pub mod copier;
pub mod error;
pub mod filters;
pub mod laws;
pub mod notifier;
pub mod order;
pub mod router;
pub mod runner;
pub mod transfer;
pub mod watcher;
