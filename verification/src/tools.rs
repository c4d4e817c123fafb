//! Arguments of the MCP tools, which expose the commands to an agent.

use vstd::prelude::*;

use crate::command::catalog::LogcatArgs as SnapshotArgs;

verus! {

/// Args accepting an optional device serial, shared by no-arg device tools.
#[derive(Debug)]
pub struct SerialArgs {
    /// Target device serial. Omit when only one device is connected.
    pub serial: Option<String>,
}

/// Args for package detail lookup.
#[derive(Debug)]
pub struct PackageArgs {
    /// The package name, e.g. `com.example.app`.
    pub package: String,
    pub serial: Option<String>,
}

/// Args for a logcat snapshot.
#[derive(Debug)]
pub struct LogcatArgs {
    /// Maximum number of most-recent lines to return.
    pub limit: Option<usize>,
    pub serial: Option<String>,
}

impl LogcatArgs {
    /// The snapshot command's arguments: the same limit.
    pub fn snapshot_args(&self) -> (r: SnapshotArgs)
        ensures
            r.limit == self.limit,
    {
        SnapshotArgs { limit: self.limit }
    }
}

} // verus!
