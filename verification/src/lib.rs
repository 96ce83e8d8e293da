//! Parser for the Linux `/proc/stat` text format.
//!
//! The library turns one snapshot of the file's bytes into a typed record:
//! per-CPU scheduler counters, the aggregate counters, and the five
//! single-value lines (`ctxt`, `btime`, `processes`, `procs_running`,
//! `procs_blocked`).  Reading the live file is left to the caller, who hands
//! the bytes to [`stat::Stat::from_reader`].

pub mod error;
pub mod laws;
pub mod stat;
pub mod util;
