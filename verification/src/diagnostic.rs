//! Diagnostics for SylJS lexing and parsing.

use crate::span::{SourceId, Span};
use crate::text::{append_str, decimal, decimal_string, owned};
use vstd::prelude::*;

verus! {

/// High-level diagnostic kind.
#[derive(Debug, Clone, Copy, PartialEq, Eq)]
pub enum DiagnosticKind {
    /// Lexer error.
    Lex,
    /// Parser error.
    Parse,
}

/// Structured diagnostic.
#[derive(Debug, Clone, PartialEq, Eq)]
pub struct Diagnostic {
    /// Diagnostic kind.
    pub kind: DiagnosticKind,
    /// Human-readable message.
    pub message: String,
    /// Source span.
    pub span: Span,
}

impl Diagnostic {
    /// Creates a lexer diagnostic.
    pub fn lex(message: &str, span: Span) -> (d: Self)
        ensures
            d.kind == DiagnosticKind::Lex,
            d.message@ == message@,
            d.span == span,
    {
        Self { kind: DiagnosticKind::Lex, message: owned(message), span }
    }

    /// Creates a parser diagnostic.
    pub fn parse(message: &str, span: Span) -> (d: Self)
        ensures
            d.kind == DiagnosticKind::Parse,
            d.message@ == message@,
            d.span == span,
    {
        Self { kind: DiagnosticKind::Parse, message: owned(message), span }
    }

    /// A field-by-field copy.
    pub fn duplicate(&self) -> (d: Self)
        ensures
            d.kind == self.kind,
            d.message@ == self.message@,
            d.span == self.span,
    {
        Self { kind: self.kind, message: self.message.clone(), span: self.span }
    }
}

/// SylJS frontend error.
#[derive(Debug, Clone, PartialEq, Eq)]
pub struct SylJsError {
    /// Human-readable message.
    pub message: String,
    /// Start byte offset.
    pub start: usize,
    /// End byte offset.
    pub end: usize,
    /// Diagnostics emitted before failure.
    pub diagnostics: Vec<Diagnostic>,
}

/// Message used when an error carries no diagnostic.
pub open spec fn unknown_frontend_error() -> Seq<char> {
    "unknown SylJS frontend error"@
}

impl SylJsError {
    /// Creates an error from one diagnostic.
    pub fn from_diagnostic(diagnostic: Diagnostic) -> (e: Self)
        ensures
            e.message@ == diagnostic.message@,
            e.start == diagnostic.span.start,
            e.end == diagnostic.span.end,
            e.diagnostics@ == seq![diagnostic],
    {
        let message = diagnostic.message.clone();
        let start = diagnostic.span.start;
        let end = diagnostic.span.end;
        let diagnostics = vec![diagnostic];
        Self { message, start, end, diagnostics }
    }

    /// Creates an error from many diagnostics; the first one gives the message and offsets.
    pub fn from_diagnostics(diagnostics: Vec<Diagnostic>) -> (e: Self)
        ensures
            e.diagnostics@ == diagnostics@,
            diagnostics@.len() > 0 ==> e.message@ == diagnostics@[0].message@ && e.start
                == diagnostics@[0].span.start && e.end == diagnostics@[0].span.end,
            diagnostics@.len() == 0 ==> e.message@ == unknown_frontend_error() && e.start == 0
                && e.end == 0,
    {
        let first = if diagnostics.len() > 0 {
            diagnostics[0].duplicate()
        } else {
            Diagnostic::parse("unknown SylJS frontend error", Span::new(SourceId(0), 0, 0))
        };
        Self { message: first.message, start: first.span.start, end: first.span.end, diagnostics }
    }

    /// Human-readable rendering: `"{message} at {start}..{end}"`.
    pub fn describe(&self) -> (s: String)
        ensures
            s@ == self.message@ + " at "@ + decimal(self.start as nat) + ".."@ + decimal(
                self.end as nat,
            ),
    {
        let mut s = self.message.clone();
        append_str(&mut s, " at ");
        let a = decimal_string(self.start as u64);
        append_str(&mut s, a.as_str());
        append_str(&mut s, "..");
        let b = decimal_string(self.end as u64);
        append_str(&mut s, b.as_str());
        s
    }
}

} // verus!
