//! The structured log sink that resolve, embed and geometry recovery report
//! warnings and errors into.

use vstd::prelude::*;

use crate::handles::NodeHandle;

verus! {

/// Severity of a log entry.
#[derive(Clone, Copy, PartialEq, Eq, Structural, Debug)]
pub enum MessageKind {
    Information,
    Warning,
    Error,
}

/// One entry of the log: a severity, a fixed message, and the scene node it
/// concerns when one is known.
#[derive(Clone, PartialEq, Debug)]
pub struct LogEntry {
    pub kind: MessageKind,
    pub message: String,
    pub node: Option<NodeHandle>,
}

} // verus!
