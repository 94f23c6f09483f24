//! The one shape in which errors and warnings are handed to tools.

use crate::parser::analyzer::error::ParseError;
use crate::parser::analyzer::error::ParseErrorView;
use crate::parser::analyzer::warning::ParseWarning;
use crate::parser::analyzer::warning::ParseWarningView;
use vstd::prelude::*;
use vstd::std_specs::convert::FromSpecImpl;

verus! {

#[derive(Debug, Clone, Copy, PartialEq, Eq, Structural)]
pub enum DiagnosticLevel {
    Error,
    Warn,
    Info,
    Hint,
}

/// A leveled message with its position: line, column and length in bytes.
#[derive(Debug, Clone)]
pub struct Diagnostic {
    pub line: usize,
    pub length: usize,
    pub column: usize,
    pub message: String,
    pub level: DiagnosticLevel,
}

/// What a [`Diagnostic`] denotes.
pub struct DiagnosticView {
    pub line: usize,
    pub length: usize,
    pub column: usize,
    pub message: Seq<char>,
    pub level: DiagnosticLevel,
}

impl View for Diagnostic {
    type V = DiagnosticView;

    open spec fn view(&self) -> DiagnosticView {
        DiagnosticView {
            line: self.line,
            length: self.length,
            column: self.column,
            message: self.message@,
            level: self.level,
        }
    }
}

impl DiagnosticView {
    /// The diagnostic of a fatal error: level `Error`, the rendered message,
    /// the line and start column of the error's context and the length of its
    /// span. `TooMuchRecursion` has no context: its line is the byte position
    /// and its column is 0.
    pub open spec fn of_error(error: ParseErrorView) -> DiagnosticView {
        DiagnosticView {
            level: DiagnosticLevel::Error,
            message: error.render(),
            line: match error {
                ParseErrorView::TooMuchRecursion { position, .. } => position,
                _ => error.context().unwrap().line_number,
            },
            column: match error {
                ParseErrorView::TooMuchRecursion { .. } => 0,
                _ => error.context().unwrap().column_start,
            },
            length: error.length(),
        }
    }

    /// The diagnostic of a warning: level `Warn`, the rendered message, the
    /// line and start column of its context and the length of its span.
    pub open spec fn of_warning(warning: ParseWarningView) -> DiagnosticView {
        DiagnosticView {
            level: DiagnosticLevel::Warn,
            message: warning.render(),
            line: warning.context().line_number,
            column: warning.context().column_start,
            length: warning.length(),
        }
    }
}

impl From<ParseError> for Diagnostic {
    fn from(value: ParseError) -> (r: Diagnostic)
        ensures
            r@ == DiagnosticView::of_error(value@),
    {
        let message = value.to_string();
        let length = value.length();
        match &value {
            ParseError::TooMuchRecursion { position, .. } => Diagnostic {
                level: DiagnosticLevel::Error,
                message,
                line: *position,
                column: 0,
                length,
            },
            _ => {
                match value.context() {
                    Some(context) => Diagnostic {
                        level: DiagnosticLevel::Error,
                        message,
                        line: context.line_number,
                        column: context.column_start,
                        length,
                    },
                    None => Diagnostic {
                        level: DiagnosticLevel::Error,
                        message,
                        line: 0,
                        column: 0,
                        length,
                    },
                }
            },
        }
    }
}

impl FromSpecImpl<ParseError> for Diagnostic {
    open spec fn obeys_from_spec() -> bool {
        false
    }

    open spec fn from_spec(v: ParseError) -> Diagnostic {
        arbitrary()
    }
}

impl From<ParseWarning> for Diagnostic {
    fn from(value: ParseWarning) -> (r: Diagnostic)
        ensures
            r@ == DiagnosticView::of_warning(value@),
    {
        Diagnostic {
            level: DiagnosticLevel::Warn,
            message: value.to_string(),
            line: value.context().line_number,
            column: value.context().column_start,
            length: value.length(),
        }
    }
}

impl FromSpecImpl<ParseWarning> for Diagnostic {
    open spec fn obeys_from_spec() -> bool {
        false
    }

    open spec fn from_spec(v: ParseWarning) -> Diagnostic {
        arbitrary()
    }
}


} // verus!
