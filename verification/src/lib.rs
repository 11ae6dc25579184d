//! Tracking of the instances of one named executable.
//!
//! The crate holds the decisions of a process tracker: which of the processes
//! that are running when tracking starts are announced, which notifications of
//! the operating system become events, when an attempt at live tracking is
//! over, and what the supervisor of those attempts does next. Each decision is
//! a function from plain values to plain values. The caller owns the channel,
//! the connection and the worker thread: it performs the action that a
//! decision names and reports what came of it.

pub mod errors;
pub mod tracker;
pub mod utils;
