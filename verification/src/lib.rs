//! Verified core of an asynchronous bash process server: command and
//! working-directory validation, the process registry with incremental
//! output delivery, progress messages and per-process log formatting.
pub mod text;
pub mod disk;
pub mod validation;
pub mod process;
pub mod history;
pub mod clock;
pub mod logging;
pub mod server;
