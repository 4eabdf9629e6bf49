//! What `/proc/<PID>` says of a process.

pub mod io;
pub mod loader;
pub mod smaps_rollup;
pub mod stat;
pub mod status;
pub mod threads;
