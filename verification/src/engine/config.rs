//! Execution settings: the read-only safety boundary and the default device.

use vstd::prelude::*;

use crate::text::{chars_of, string_of};

verus! {

/// Execution settings.
#[derive(Debug, Clone)]
pub struct EngineConfig {
    /// When true, any command whose metadata says it is mutating is refused.
    /// Defaults to true: safety first, especially for the MCP server.
    pub read_only: bool,
    /// Default device serial when a caller doesn't specify one.
    pub default_serial: Option<String>,
}

impl Default for EngineConfig {
    fn default() -> (r: Self)
        ensures
            r.read_only,
            r.default_serial is None,
    {
        EngineConfig { read_only: true, default_serial: None }
    }
}

impl EngineConfig {
    /// The serial a run targets: the one given for the call, else the default.
    pub fn effective_serial(&self, serial: Option<&str>) -> (r: Option<String>)
        ensures
            match serial {
                Some(s) => r matches Some(x) && x@ == s@,
                None => match self.default_serial {
                    Some(d) => r matches Some(x) && x@ == d@,
                    None => r is None,
                },
            },
    {
        match serial {
            Some(s) => Some(string_of(chars_of(s).as_slice())),
            None => match &self.default_serial {
                Some(d) => Some(d.clone()),
                None => None,
            },
        }
    }
}

} // verus!
