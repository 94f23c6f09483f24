//! The records that are handed to an editor.

use crate::parser::ParseResult;
use crate::parser::analyzer::error::ParseError;
use crate::parser::analyzer::error::ParseErrorView;
use vstd::prelude::*;
use vstd::std_specs::convert::FromSpecImpl;

verus! {

/// An error as an editor shows it: the message, the line and column where it
/// starts and the number of bytes it covers.
#[derive(Debug, Clone)]
pub struct VsCodeError {
    pub message: String,
    pub line: usize,
    pub column: usize,
    pub length: usize,
}

/// What a [`VsCodeError`] denotes.
pub struct VsCodeErrorView {
    pub message: Seq<char>,
    pub line: usize,
    pub column: usize,
    pub length: usize,
}

impl View for VsCodeError {
    type V = VsCodeErrorView;

    open spec fn view(&self) -> VsCodeErrorView {
        VsCodeErrorView {
            message: self.message@,
            line: self.line,
            column: self.column,
            length: self.length,
        }
    }
}

impl VsCodeErrorView {
    /// The record of a fatal error: the rendered message, the line and start
    /// column of the error's context and the length of its span.
    /// `TooMuchRecursion` has no context: its line is the byte position and
    /// its column is 0.
    pub open spec fn of_error(error: ParseErrorView) -> VsCodeErrorView {
        VsCodeErrorView {
            message: error.render(),
            line: match error {
                ParseErrorView::TooMuchRecursion { position, .. } => position,
                _ => error.context().unwrap().line_number,
            },
            column: match error {
                ParseErrorView::TooMuchRecursion { .. } => 0,
                _ => error.context().unwrap().column_start,
            },
            length: error.length(),
        }
    }
}

impl From<ParseError> for VsCodeError {
    fn from(value: ParseError) -> (r: VsCodeError)
        ensures
            r@ == VsCodeErrorView::of_error(value@),
    {
        let message = value.to_string();
        let length = value.length();
        match &value {
            ParseError::TooMuchRecursion { position, .. } => VsCodeError {
                message,
                line: *position,
                column: 0,
                length,
            },
            _ => {
                match value.context() {
                    Some(context) => VsCodeError {
                        message,
                        line: context.line_number,
                        column: context.column_start,
                        length,
                    },
                    None => VsCodeError { message, line: 0, column: 0, length },
                }
            },
        }
    }
}

impl FromSpecImpl<ParseError> for VsCodeError {
    open spec fn obeys_from_spec() -> bool {
        false
    }

    open spec fn from_spec(v: ParseError) -> VsCodeError {
        arbitrary()
    }
}

/// The outcome of a parse as an editor needs it: whether it succeeded, and
/// the error where it did not.
#[derive(Debug, Clone)]
pub struct VsCodeResult {
    pub success: bool,
    pub errors: Vec<VsCodeError>,
}

/// The views of a list of errors.
pub open spec fn errors_view(list: Seq<VsCodeError>) -> Seq<VsCodeErrorView> {
    Seq::new(list.len(), |i: int| list[i]@)
}

impl From<Result<ParseResult, ParseError>> for VsCodeResult {
    fn from(value: Result<ParseResult, ParseError>) -> (r: VsCodeResult)
        ensures
            r.success == value.is_ok(),
            errors_view(r.errors@) == match value {
                Ok(_) => Seq::<VsCodeErrorView>::empty(),
                Err(error) => seq![VsCodeErrorView::of_error(error@)],
            },
    {
        match value {
            Ok(_) => {
                let r = VsCodeResult { success: true, errors: Vec::new() };
                assert(errors_view(r.errors@) =~= Seq::<VsCodeErrorView>::empty());
                r
            },
            Err(error) => {
                let ghost shown = VsCodeErrorView::of_error(error@);
                let mut errors: Vec<VsCodeError> = Vec::new();
                errors.push(VsCodeError::from(error));
                assert(errors_view(errors@) =~= seq![shown]);
                VsCodeResult { success: false, errors }
            },
        }
    }
}

impl FromSpecImpl<Result<ParseResult, ParseError>> for VsCodeResult {
    open spec fn obeys_from_spec() -> bool {
        false
    }

    open spec fn from_spec(v: Result<ParseResult, ParseError>) -> VsCodeResult {
        arbitrary()
    }
}

} // verus!
