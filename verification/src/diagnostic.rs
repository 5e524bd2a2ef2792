//! Diagnostics addressed to product owners and engineers in their own language.
use vstd::prelude::*;

use crate::text::owned;

verus! {

/// Severity of a diagnostic.
#[derive(Clone, Copy, Debug, PartialEq, Eq, Structural)]
pub enum DiagnosticLevel {
    Notice,
    Warning,
    Error,
}

/// A diagnostic about one subject.
#[derive(Clone, Debug, PartialEq, Eq)]
pub struct Diagnostic {
    pub level: DiagnosticLevel,
    pub subject: String,
    pub message: String,
}

/// The content of a diagnostic: its level, subject and message.
pub ghost struct DiagnosticView {
    pub level: DiagnosticLevel,
    pub subject: Seq<char>,
    pub message: Seq<char>,
}

impl View for Diagnostic {
    type V = DiagnosticView;

    open spec fn view(&self) -> DiagnosticView {
        DiagnosticView { level: self.level, subject: self.subject@, message: self.message@ }
    }
}

/// An error diagnostic's content.
pub open spec fn error_view(subject: Seq<char>, message: Seq<char>) -> DiagnosticView {
    DiagnosticView { level: DiagnosticLevel::Error, subject, message }
}

/// The contents of a list of diagnostics.
pub open spec fn diagnostics_view(ds: Seq<Diagnostic>) -> Seq<DiagnosticView> {
    ds.map_values(|d: Diagnostic| d@)
}

impl Diagnostic {
    /// A notice about `subject`.
    pub fn notice(subject: &str, message: &str) -> (r: Self)
        ensures
            r.level == DiagnosticLevel::Notice,
            r.subject@ == subject@,
            r.message@ == message@,
    {
        Diagnostic { level: DiagnosticLevel::Notice, subject: owned(subject), message: owned(message) }
    }

    /// A warning about `subject`.
    pub fn warning(subject: &str, message: &str) -> (r: Self)
        ensures
            r.level == DiagnosticLevel::Warning,
            r.subject@ == subject@,
            r.message@ == message@,
    {
        Diagnostic { level: DiagnosticLevel::Warning, subject: owned(subject), message: owned(message) }
    }

    /// An error about `subject`.
    pub fn error(subject: &str, message: &str) -> (r: Self)
        ensures
            r.level == DiagnosticLevel::Error,
            r.subject@ == subject@,
            r.message@ == message@,
    {
        Diagnostic { level: DiagnosticLevel::Error, subject: owned(subject), message: owned(message) }
    }
}

/// An outside boundary that a re-encoding may affect.
#[derive(Clone, Copy, Debug, PartialEq, Eq, Structural)]
pub enum ImpactArea {
    Database,
    Api,
    Dictionary,
    DeviceBinding,
}

/// A breaking change derived from a semantic difference.
#[derive(Clone, Debug, PartialEq, Eq)]
pub struct BreakingChange {
    pub subject: String,
    pub previous_code: String,
    pub current_code: String,
    pub impacts: Vec<ImpactArea>,
    pub message: String,
}

} // verus!
