//! The views that validation passes share: the label being validated and
//! the command being checked.

use crate::ast::{ArgSlot, Node};
use crate::diag::{SeverityRegistry, Span};
use crate::profile::Profile;
use crate::state::DeviceState;
use crate::tables::CommandEntry;
use vstd::prelude::*;

verus! {

/// Shared immutable context threaded through validation passes.
#[derive(Clone, Copy)]
pub struct ValidationContext<'a> {
    /// The printer profile, if any.
    pub profile: Option<&'a Profile>,
    /// The nodes of the label being validated.
    pub label_nodes: &'a [Node],
    /// The codes of the commands in the label.
    pub label_codes: &'a Vec<String>,
    /// Device state carried across labels.
    pub device_state: &'a DeviceState,
    /// The registered severity of each diagnostic identifier.
    pub severities: &'a SeverityRegistry,
}

/// Per-command view used by validation helpers.
#[derive(Clone, Copy)]
pub struct CommandCtx<'a> {
    /// The command's code.
    pub code: &'a str,
    /// The command's arguments.
    pub args: &'a [ArgSlot],
    /// The command's spec entry.
    pub cmd: &'a CommandEntry,
    /// The command's source span.
    pub span: Option<Span>,
    /// The index of the command's node in the label.
    pub node_idx: usize,
}

} // verus!
