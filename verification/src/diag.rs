//! Diagnostics and the places they point at.

use crate::text::names_of;
use vstd::prelude::*;

verus! {

/// A stretch of a source file, by byte offsets.
#[derive(Copy, Clone, PartialEq, Eq, Debug, Structural)]
pub struct Span {
    pub file: u32,
    pub start: u32,
    pub end: u32,
}

impl Span {
    /// A place in the file without a stretch of its own.
    pub fn synthetic(file: u32) -> (r: Span)
        ensures
            r == (Span { file, start: 0, end: 0 }),
    {
        Span { file, start: 0, end: 0 }
    }
}

/// How serious a diagnostic is.
#[derive(Copy, Clone, PartialEq, Eq, Debug, Structural)]
pub enum Severity {
    Error,
    Warning,
}

/// A message about the source, with further notes.
#[derive(Debug, PartialEq, Eq)]
pub struct Diagnostic {
    pub severity: Severity,
    pub span: Span,
    pub code: String,
    pub message: String,
    pub notes: Vec<String>,
}

/// What a [`Diagnostic`] stands for.
pub struct DiagnosticView {
    pub severity: Severity,
    pub span: Span,
    pub code: Seq<char>,
    pub message: Seq<char>,
    pub notes: Seq<Seq<char>>,
}

/// An error without notes.
pub open spec fn error_view(span: Span, code: Seq<char>, message: Seq<char>) -> DiagnosticView {
    DiagnosticView { severity: Severity::Error, span, code, message, notes: Seq::empty() }
}

/// What a list of diagnostics stands for.
pub open spec fn diagnostics_view(s: Seq<Diagnostic>) -> Seq<DiagnosticView> {
    Seq::new(s.len(), |i: int| s[i]@)
}

/// Whether one of the diagnostics is an error.
pub open spec fn any_error(s: Seq<DiagnosticView>) -> bool {
    exists|i: int| 0 <= i < s.len() && (#[trigger] s[i]).severity == Severity::Error
}

impl Diagnostic {
    pub open spec fn view(&self) -> DiagnosticView {
        DiagnosticView {
            severity: self.severity,
            span: self.span,
            code: self.code@,
            message: self.message@,
            notes: names_of(self.notes@),
        }
    }

    /// An error without notes.
    pub fn error(span: Span, code: &str, message: String) -> (r: Diagnostic)
        ensures
            r@ == error_view(span, code@, message@),
    {
        let r = Diagnostic {
            severity: Severity::Error,
            span,
            code: code.to_owned(),
            message,
            notes: Vec::new(),
        };
        assert(r@.notes =~= Seq::<Seq<char>>::empty());
        r
    }

    /// Adds a note.
    pub fn with_note(self, note: String) -> (r: Diagnostic)
        ensures
            r@ == (DiagnosticView { notes: self@.notes.push(note@), ..self@ }),
    {
        let mut r = self;
        r.notes.push(note);
        assert(r@.notes =~= self@.notes.push(note@));
        r
    }
}

/// Whether one of the diagnostics is an error.
pub fn has_errors(diagnostics: &Vec<Diagnostic>) -> (r: bool)
    ensures
        r == any_error(diagnostics_view(diagnostics@)),
{
    let mut i: usize = 0;
    while i < diagnostics.len()
        invariant
            i <= diagnostics.len(),
            forall|j: int|
                0 <= j < i ==> (#[trigger] diagnostics_view(diagnostics@)[j]).severity
                    != Severity::Error,
        decreases diagnostics.len() - i,
    {
        if diagnostics[i].severity == Severity::Error {
            assert(diagnostics_view(diagnostics@)[i as int].severity == Severity::Error);
            return true;
        }
        i += 1;
    }
    false
}

} // verus!
