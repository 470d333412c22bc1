//! Incremental extraction of mempool transactions into per-contract logs.
//!
//! The crate holds the decisions of a long-running poller: how far the
//! transaction store has been read (the watermark), which partition a
//! transaction belongs to, what a partition document holds after a merge, and
//! which step the poll loop takes next. Reading the store and writing files is
//! left to the caller, which performs the actions that the poll loop hands out
//! and reports back what happened.
//!
//! - [`transaction`]: transactions and store rows as plain values.
//! - [`partition_key`]: from a payload to a partition key and a file path.
//! - [`watermark`]: the watermark and its text form.
//! - [`transaction_source`]: what a fetch from the store returns.
//! - [`file_processing`]: partition documents, merging and separating.
//! - [`poll_loop`]: the poll loop as a state machine.
//! - [`config`]: the configured paths and their expansion.
//! - [`error_handler`]: the error type.
//! - [`exactly_once`], [`fault_tolerance`]: what the loop guarantees, with
//!   and without failures.

pub mod config;
pub mod error_handler;
pub mod exactly_once;
pub mod fault_tolerance;
pub mod file_processing;
pub mod partition_key;
pub mod poll_loop;
pub mod transaction;
pub mod transaction_source;
pub mod watermark;
