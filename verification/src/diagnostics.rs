//! Diagnostics reported by the compiler phases.

use vstd::prelude::*;
use crate::span::SourceSpan;

verus! {

/// The compiler phase that produced a diagnostic.
#[derive(Debug, Clone, Copy, PartialEq, Eq, Structural)]
pub enum DiagnosticPhase {
    ModuleResolver,
    Parser,
    Mir,
}

/// The stable code of a diagnostic.
#[derive(Debug, Clone, Copy, PartialEq, Eq, Structural)]
pub enum DiagnosticCode {
    /// A module file could not be read.
    E1002,
    /// A module file has no module declaration.
    E1003,
    /// A module file has an invalid module declaration.
    E1004,
    /// A syntax error.
    E3001,
    /// A token that cannot start an expression.
    E3002,
    /// An enum match pattern whose enum cannot be resolved.
    E4005,
    /// A compile-time expression could not be evaluated.
    E4009,
    /// An inline call could not be lowered.
    E4010,
    /// An inline `for` has bounds that are not known at compile time.
    E4011,
    /// An expression that cannot be inlined.
    E4012,
    /// A malformed MIR control-flow structure.
    E5001,
    /// A malformed MIR value or data-flow fact.
    E5003,
}

/// How serious a diagnostic is.
#[derive(Debug, Clone, Copy, PartialEq, Eq, Structural)]
pub enum Severity {
    Error,
}

/// A label that points at a file, optionally at a span in it.
#[derive(Debug, Clone, PartialEq, Eq)]
pub struct DiagnosticLabel {
    pub file: String,
    pub span: Option<SourceSpan>,
    pub message: String,
}

/// A message about the input, with its phase and code.
#[derive(Debug, Clone, PartialEq, Eq)]
pub struct Diagnostic {
    pub severity: Severity,
    pub phase: DiagnosticPhase,
    pub code: DiagnosticCode,
    pub message: String,
    pub primary_label: Option<DiagnosticLabel>,
}

impl Diagnostic {
    /// An error diagnostic without a label.
    pub fn error(phase: DiagnosticPhase, code: DiagnosticCode, message: String) -> (r: Diagnostic)
        ensures
            r.severity == Severity::Error,
            r.phase == phase,
            r.code == code,
            r.message@ == message@,
            r.primary_label is None,
    {
        Diagnostic { severity: Severity::Error, phase, code, message, primary_label: None }
    }

    /// The same diagnostic with a primary label on `file` at `span`.
    pub fn with_primary_file_label(self, file: String, span: Option<SourceSpan>, message: String) -> (r: Diagnostic)
        ensures
            r.severity == self.severity,
            r.phase == self.phase,
            r.code == self.code,
            r.message == self.message,
            r.primary_label == Some(DiagnosticLabel { file, span, message }),
    {
        Diagnostic {
            severity: self.severity,
            phase: self.phase,
            code: self.code,
            message: self.message,
            primary_label: Some(DiagnosticLabel { file, span, message }),
        }
    }
}

/// Some diagnostic in `ds` has code `c`.
pub open spec fn has_code(ds: Seq<Diagnostic>, c: DiagnosticCode) -> bool {
    exists|i: int| 0 <= i < ds.len() && (#[trigger] ds[i]).code == c
}

} // verus!
