//! Descriptive metadata shared by every command.

use vstd::prelude::*;

verus! {

/// Broad grouping used by the TUI to organize commands into tabs/menus.
#[derive(Debug, Clone, Copy, PartialEq, Eq, Structural, Hash)]
pub enum Category {
    Device,
    Battery,
    Memory,
    Cpu,
    Process,
    Package,
    Network,
    Log,
    Other,
}

/// Static, cheap-to-clone descriptive metadata about a command.
#[derive(Debug, Clone, Copy)]
pub struct CommandMeta {
    /// Stable unique identifier, e.g. `"battery.status"`. Used as the registry
    /// key and (for MCP) the tool name.
    pub id: &'static str,
    /// One-line human/agent-facing description.
    pub description: &'static str,
    pub category: Category,
    /// True if running this changes device state (install, reboot, set prop).
    /// The registry refuses these in read-only mode; the MCP server hides them
    /// unless explicitly opted in.
    pub mutating: bool,
}

/// The metadata of `m` is exactly the given one.
pub open spec fn meta_is(
    m: CommandMeta,
    id: Seq<char>,
    description: Seq<char>,
    category: Category,
    mutating: bool,
) -> bool {
    &&& m.id@ == id
    &&& m.description@ == description
    &&& m.category == category
    &&& m.mutating == mutating
}

/// Something that can say what command it is. Every built-in command
/// implements it, and states its metadata in its own contract; a registry
/// keys its entries by the id it reports.
pub trait Describe {
    /// Descriptive metadata; constant for a given value.
    fn meta(&self) -> CommandMeta;
}

/// Adapter that carries a typed command to where commands are handled
/// uniformly (JSON in, JSON out).
pub struct TypedDyn<C>(pub C);

impl<C: Describe> Describe for TypedDyn<C> {
    /// The wrapped command's metadata.
    fn meta(&self) -> (m: CommandMeta)
        ensures
            call_ensures(C::meta, (&self.0,), m),
    {
        self.0.meta()
    }
}

} // verus!
