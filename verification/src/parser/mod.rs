//! Pure parsing of textual `adb` / `dumpsys` / `getprop` output into
//! structured types. Nothing here runs a command or performs I/O: every
//! parser is a function from the text to a value, so the same input always
//! gives the same result.

pub mod error;
pub mod model;
pub mod battery;
pub mod cpuinfo;
pub mod decimal;
pub mod getprop;
pub mod imei;
pub mod logcat;
pub mod meminfo;
pub mod package_dump;
pub mod packages;
pub mod props;
pub mod screen;
pub mod storage;

use vstd::prelude::*;

pub use error::{ParseError, ParseResult};

verus! {

/// Transforms raw command output text into a structured value.
///
/// Each implementation states in its own contract what it returns.
pub trait Parse {
    /// The structured type produced by this parser.
    type Output;

    /// Parse `raw` (the stdout of some adb command).
    fn parse(raw: &str) -> ParseResult<Self::Output>;
}

} // verus!
