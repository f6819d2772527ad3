//! ZPL abstract syntax tree types.

use crate::diag::Span;
use vstd::prelude::*;

verus! {

/// A parsed ZPL document: one or more labels.
#[derive(Debug, Clone, PartialEq)]
pub struct Ast {
    /// Ordered list of labels found in the input.
    pub labels: Vec<Label>,
}

/// A single ZPL label, delimited by `^XA` and `^XZ`.
#[derive(Debug, Clone, PartialEq)]
pub struct Label {
    /// Ordered list of nodes within this label.
    pub nodes: Vec<Node>,
}

/// A node of the AST: a command, field data, a raw payload or trivia.
#[derive(Debug, Clone, PartialEq)]
#[non_exhaustive]
pub enum Node {
    /// A ZPL command (e.g. `^FO`, `^PW`, `~DG`).
    Command {
        /// Canonical command code including leader (e.g. `"^FO"`).
        code: String,
        /// Parsed arguments for this command.
        args: Vec<ArgSlot>,
        /// Source span of the entire command.
        span: Span,
    },
    /// Field data content (text between `^FD`/`^FV` and `^FS`).
    FieldData {
        /// The raw text of the field.
        content: String,
        /// Whether `^FH` hex escapes apply to it.
        hex_escaped: bool,
        /// Source span of the content.
        span: Span,
    },
    /// Raw binary/hex payload (e.g. graphic data after `^GF` or `~DG`).
    RawData {
        /// The command code that started the raw payload (e.g. `"^GF"`).
        command: String,
        /// The payload, if any was collected.
        data: Option<String>,
        /// Source span of the payload.
        span: Span,
    },
    /// Preserved trivia: comments, whitespace, content outside labels.
    Trivia {
        /// The trivia text.
        text: String,
        /// Source span of the trivia.
        span: Span,
    },
}

/// A single argument slot of a parsed command.
#[derive(Debug, Clone, PartialEq)]
pub struct ArgSlot {
    /// Spec-defined parameter name, if known from the signature.
    pub key: Option<String>,
    /// Whether the argument was provided, left empty, or absent.
    pub presence: Presence,
    /// The raw value of the argument, if present.
    pub value: Option<String>,
}

/// Whether a command argument was provided, left empty, or absent.
#[derive(Debug, Clone, Copy, PartialEq, Eq, Structural)]
pub enum Presence {
    /// The argument was not present in the source at all.
    Unset,
    /// The argument position existed but was empty (e.g. `^FO,100`).
    Empty,
    /// The argument was provided with a value.
    Value,
}

impl Default for Presence {
    fn default() -> (p: Presence)
        ensures
            p == Presence::Unset,
    {
        Presence::Unset
    }
}

impl Node {
    /// The source span of any node.
    pub open spec fn spec_span(self) -> Span {
        match self {
            Node::Command { span, .. } => span,
            Node::FieldData { span, .. } => span,
            Node::RawData { span, .. } => span,
            Node::Trivia { span, .. } => span,
        }
    }
}

} // verus!
