//! The error taxonomy of a preprocessing session. Every error is fatal to
//! the session that detects it and is handed to the caller unchanged; a
//! failing run yields no partial output.

use vstd::prelude::*;

verus! {

/// The errors as the specifications see them.
pub enum ErrView {
    /// A directive line misses a required argument.
    MalformedDirective { line: int },
    /// The first word starts with the marker but names no known directive.
    UnknownDirective { line: int },
    /// A closer was met during normal execution rather than a skip scan.
    UnexpectedEndif { line: int },
    /// End of input was reached while scanning for a matching closer.
    UnterminatedConditional,
    /// `#with` named a dollar-prefixed library that is not registered.
    UnknownLibrary { line: int, name: Seq<char> },
    /// `#with` named a file whose text was not supplied to the session.
    FileUnavailable { line: int, path: Seq<char> },
    /// Includes were nested deeper than the session allows.
    IncludeDepthExceeded { line: int },
}

/// The error a failing session reports, carrying the offending line's index
/// and, for an unresolvable inclusion, the name that failed to resolve.
#[derive(Debug)]
pub enum PpError {
    MalformedDirective { line: usize },
    UnknownDirective { line: usize },
    UnexpectedEndif { line: usize },
    UnterminatedConditional,
    UnknownLibrary { line: usize, name: String },
    FileUnavailable { line: usize, path: String },
    IncludeDepthExceeded { line: usize },
}

impl View for PpError {
    type V = ErrView;

    open spec fn view(&self) -> ErrView {
        match self {
            PpError::MalformedDirective { line } => ErrView::MalformedDirective {
                line: *line as int,
            },
            PpError::UnknownDirective { line } => ErrView::UnknownDirective { line: *line as int },
            PpError::UnexpectedEndif { line } => ErrView::UnexpectedEndif { line: *line as int },
            PpError::UnterminatedConditional => ErrView::UnterminatedConditional,
            PpError::UnknownLibrary { line, name } => ErrView::UnknownLibrary {
                line: *line as int,
                name: name@,
            },
            PpError::FileUnavailable { line, path } => ErrView::FileUnavailable {
                line: *line as int,
                path: path@,
            },
            PpError::IncludeDepthExceeded { line } => ErrView::IncludeDepthExceeded {
                line: *line as int,
            },
        }
    }
}

} // verus!
