//! Runnable commands against an Android device.
//!
//! A command knows three things: the shell line(s) it sends over a transport,
//! how to decode the resulting text (delegating to the parsers), and enough
//! metadata (`id`, `description`, `category`, `mutating`) for the registry,
//! the TUI and the MCP server to reason about it.
//!
//! Sending a line to a device is I/O and happens outside this library: a
//! command here is the pure part on either side of that exchange, so the same
//! device output always decodes to the same result.

pub mod catalog;
pub mod error;
pub mod meta;
pub mod transport;
pub mod validate;

pub use error::{CommandError, CommandResult};
pub use meta::{Category, CommandMeta, Describe, TypedDyn};
pub use transport::MockTransport;
