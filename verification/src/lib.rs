//! Core engine of a terminal connection-statistics dashboard: named filter
//! tabs over per-connection key/value statistics, a time-bounded retention
//! window of snapshots, sum/distinct-count aggregation of the latest
//! snapshot, and the interaction state machine that drives the event loop.
pub mod aggregate;
pub mod pattern;
pub mod stats;
pub mod text;
pub mod ui;
pub mod window;
