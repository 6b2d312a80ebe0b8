//! Verified core of a semantic process-management command-line tool.
//!
//! The library interprets user-supplied target strings (`:port`, pid, or
//! name), resolves them against point-in-time snapshots of the process and
//! listening-socket tables, classifies stuck processes, and drives a graduated
//! signal-escalation recovery state machine to a terminal outcome.  All
//! operating-system access (process enumeration, socket scans, signal
//! delivery, rendering) happens outside this crate; the functions here are
//! pure over the snapshot values they are handed, and each carries a contract
//! stating exactly what it computes.

pub mod commands;
pub mod error;
pub mod port;
pub mod process;
pub mod recovery;
pub mod target;
pub mod text;
