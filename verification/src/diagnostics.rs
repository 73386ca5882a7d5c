//! Diagnostics that checking, solving and compiling a graph report.
use vstd::prelude::*;

use crate::ids::{ANodeId, SocketId};

verus! {

/// How serious a diagnostic is.
#[derive(Clone, Copy, Debug, PartialEq, Eq, Structural)]
pub enum DiagnosticSeverity {
    Info,
    Warning,
    Error,
}

/// What a diagnostic is about.
#[derive(Clone, Debug, PartialEq, Eq)]
pub enum DiagnosticOrigin {
    Graph,
    Node(ANodeId),
    Socket { node: ANodeId, socket: SocketId },
    Registry,
    Runtime,
}

/// A finding, with a stable code and a human-readable message.
#[derive(Clone, Debug, PartialEq, Eq)]
pub struct Diagnostic {
    pub code: String,
    pub message: String,
    pub severity: DiagnosticSeverity,
    pub origin: DiagnosticOrigin,
}

impl Diagnostic {
    /// An error with the given code, message and origin.
    pub fn error(code: &str, message: String, origin: DiagnosticOrigin) -> (d: Self)
        ensures
            d.code@ == code@,
            d.message == message,
            d.severity == DiagnosticSeverity::Error,
            d.origin == origin,
    {
        Diagnostic { code: code.to_owned(), message, severity: DiagnosticSeverity::Error, origin }
    }
}

/// Whether some diagnostic of `diagnostics` is an error.
pub open spec fn any_error(diagnostics: Seq<Diagnostic>) -> bool {
    exists|i: int| 0 <= i < diagnostics.len() && diagnostics[i].severity == DiagnosticSeverity::Error
}

/// Whether some diagnostic is an error.
pub fn has_errors(diagnostics: &Vec<Diagnostic>) -> (r: bool)
    ensures
        r == any_error(diagnostics@),
{
    let mut i: usize = 0;
    while i < diagnostics.len()
        invariant
            i <= diagnostics.len(),
            forall|j: int| 0 <= j < i ==> diagnostics@[j].severity != DiagnosticSeverity::Error,
        decreases diagnostics.len() - i,
    {
        if diagnostics[i].severity == DiagnosticSeverity::Error {
            return true;
        }
        i = i + 1;
    }
    false
}

} // verus!
