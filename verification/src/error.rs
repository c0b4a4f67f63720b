//! Diagnostics: what the scanner reports about input that it had to skip.

use vstd::prelude::*;

verus! {

/// Why a piece of input was skipped.
#[derive(Debug, Clone, Copy, PartialEq, Eq, Structural)]
pub enum ScannerErrorKind {
    /// A character that begins no token.
    UnexpectedCharacter,
    /// A string literal whose closing quote is missing.
    UnterminatedString,
}

/// The text that describes a kind of error.
pub open spec fn message_text(kind: ScannerErrorKind) -> Seq<char> {
    match kind {
        ScannerErrorKind::UnexpectedCharacter => "Unexpected character"@,
        ScannerErrorKind::UnterminatedString => "Unterminated string"@,
    }
}

/// A diagnostic as a mathematical value: its kind and the line on which the
/// skipped input starts.
pub struct ErrorView {
    pub kind: ScannerErrorKind,
    pub line: nat,
}

/// A diagnostic: the kind of the error and the 1-based line on which the
/// skipped input starts.
#[derive(Debug, Clone, Copy, PartialEq, Eq)]
pub struct ScannerError {
    kind: ScannerErrorKind,
    line: usize,
}

impl View for ScannerError {
    type V = ErrorView;

    closed spec fn view(&self) -> ErrorView {
        ErrorView { kind: self.kind, line: self.line as nat }
    }
}

impl DeepView for ScannerError {
    type V = ErrorView;

    open spec fn deep_view(&self) -> ErrorView {
        self.view()
    }
}

impl ScannerError {
    /// Makes a diagnostic of the given kind for the given line.
    pub fn new(kind: ScannerErrorKind, line: usize) -> (error: Self)
        ensures
            error@ == (ErrorView { kind, line: line as nat }),
    {
        ScannerError { kind, line }
    }

    /// The kind of the error.
    pub fn kind(&self) -> (kind: ScannerErrorKind)
        ensures
            kind == self@.kind,
    {
        self.kind
    }

    /// The 1-based line on which the skipped input starts.
    pub fn line(&self) -> (line: usize)
        ensures
            line as nat == self@.line,
    {
        self.line
    }

    /// The text that describes the error.
    pub fn message(&self) -> (message: String)
        ensures
            message@ == message_text(self@.kind),
    {
        match self.kind {
            ScannerErrorKind::UnexpectedCharacter => "Unexpected character".to_owned(),
            ScannerErrorKind::UnterminatedString => "Unterminated string".to_owned(),
        }
    }
}

} // verus!
