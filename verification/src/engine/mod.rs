//! The orchestration layer: a registry of commands keyed by id, and the
//! configuration that decides which of them may run.
//!
//! Running a command means sending its shell lines to a device, which the
//! program owning the connection does; what is decided here is which command
//! an id names, whether it may run, and on which device.

pub mod config;
pub mod registry;

pub use config::EngineConfig;
pub use registry::Registry;
