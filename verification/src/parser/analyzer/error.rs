//! Fatal errors of lexing and parsing.

use crate::lexer::name_shown;
use crate::lexer::shown_name;
use crate::parser::analyzer::context::ParseContext;
use crate::parser::analyzer::context::ParseContextView;
use crate::text::decimal;
use crate::text::push_str;
use crate::text::push_usize;
use std::ops::Range;
use vstd::prelude::*;

verus! {

/// Why a source text could not be turned into a syntax tree. The first error
/// ends the whole call: nothing is recovered and no partial tree is returned.
#[derive(Debug)]
#[allow(inconsistent_fields)]
pub enum ParseError {
    /// Lexer encountered an invalid token
    BuildError { message: String, invalid_text: String, span: Range<usize>, context: ParseContext },
    /// Unexpected token during parsing
    UnexpectedToken {
        expected: Option<String>,
        found: String,
        span: Range<usize>,
        context: ParseContext,
    },
    /// Unexpected end of file
    UnexpectedEof { expected: String, position: usize, context: ParseContext },
    /// Invalid syntax
    InvalidSyntax { message: String, span: Range<usize>, context: ParseContext },
    /// Missing required token
    MissingToken { expected: String, span: Range<usize>, context: ParseContext },
    /// Too much recursion (stack overflow prevention)
    TooMuchRecursion { max_depth: usize, position: usize },
}

/// What a [`ParseError`] denotes.
#[allow(inconsistent_fields)]
pub enum ParseErrorView {
    BuildError {
        message: Seq<char>,
        invalid_text: Seq<char>,
        start: usize,
        end: usize,
        context: ParseContextView,
    },
    UnexpectedToken {
        expected: Option<Seq<char>>,
        found: Seq<char>,
        start: usize,
        end: usize,
        context: ParseContextView,
    },
    UnexpectedEof { expected: Seq<char>, position: usize, context: ParseContextView },
    InvalidSyntax { message: Seq<char>, start: usize, end: usize, context: ParseContextView },
    MissingToken { expected: Seq<char>, start: usize, end: usize, context: ParseContextView },
    TooMuchRecursion { max_depth: usize, position: usize },
}

impl View for ParseError {
    type V = ParseErrorView;

    open spec fn view(&self) -> ParseErrorView {
        match self {
            ParseError::BuildError { message, invalid_text, span, context } => {
                ParseErrorView::BuildError {
                    message: message@,
                    invalid_text: invalid_text@,
                    start: span.start,
                    end: span.end,
                    context: context@,
                }
            },
            ParseError::UnexpectedToken { expected, found, span, context } => {
                ParseErrorView::UnexpectedToken {
                    expected: match expected {
                        Some(e) => Some(e@),
                        None => None,
                    },
                    found: found@,
                    start: span.start,
                    end: span.end,
                    context: context@,
                }
            },
            ParseError::UnexpectedEof { expected, position, context } => {
                ParseErrorView::UnexpectedEof {
                    expected: expected@,
                    position: *position,
                    context: context@,
                }
            },
            ParseError::InvalidSyntax { message, span, context } => ParseErrorView::InvalidSyntax {
                message: message@,
                start: span.start,
                end: span.end,
                context: context@,
            },
            ParseError::MissingToken { expected, span, context } => ParseErrorView::MissingToken {
                expected: expected@,
                start: span.start,
                end: span.end,
                context: context@,
            },
            ParseError::TooMuchRecursion { max_depth, position } => {
                ParseErrorView::TooMuchRecursion { max_depth: *max_depth, position: *position }
            },
        }
    }
}

impl ParseErrorView {
    /// The first line of the message: what went wrong. What was expected is
    /// shown by name: the spelling of a keyword or a symbol as the name of
    /// that token, any other text as it is.
    pub open spec fn headline(self) -> Seq<char> {
        match self {
            ParseErrorView::BuildError { message, invalid_text, .. } => "Lexer error: "@ + message
                + " ('"@ + invalid_text + "')"@,
            ParseErrorView::UnexpectedToken { expected: Some(e), found, .. } => "Expected "@
                + shown_name(e) + ", found "@ + found,
            ParseErrorView::UnexpectedToken { expected: None, found, .. } => "Unexpected token "@
                + found,
            ParseErrorView::UnexpectedEof { expected, .. } => "Unexpected end of file, expected "@
                + shown_name(expected),
            ParseErrorView::InvalidSyntax { message, .. } => "Syntax error: "@ + message,
            ParseErrorView::MissingToken { expected, .. } => "Missing "@ + shown_name(expected),
            ParseErrorView::TooMuchRecursion { max_depth, position } => "Maximum recursion depth ("@
                + decimal(max_depth as nat) + ") exceeded at position "@ + decimal(position as nat),
        }
    }

    /// Where the error lies, for every error but `TooMuchRecursion`.
    pub open spec fn context(self) -> Option<ParseContextView> {
        match self {
            ParseErrorView::BuildError { context, .. } => Some(context),
            ParseErrorView::UnexpectedToken { context, .. } => Some(context),
            ParseErrorView::UnexpectedEof { context, .. } => Some(context),
            ParseErrorView::InvalidSyntax { context, .. } => Some(context),
            ParseErrorView::MissingToken { context, .. } => Some(context),
            ParseErrorView::TooMuchRecursion { .. } => None,
        }
    }

    /// The whole message: the headline and, on the next line, the position
    /// with the source line. `TooMuchRecursion` has the headline only.
    pub open spec fn render(self) -> Seq<char> {
        match self.context() {
            Some(context) => self.headline() + "\n"@ + context.render(),
            None => self.headline(),
        }
    }

    /// Number of bytes that the error covers: the span's length, and 1 where
    /// the error has a position only.
    pub open spec fn length(self) -> usize {
        match self {
            ParseErrorView::BuildError { start, end, .. } => distance(start, end),
            ParseErrorView::UnexpectedToken { start, end, .. } => distance(start, end),
            ParseErrorView::UnexpectedEof { .. } => 1,
            ParseErrorView::InvalidSyntax { start, end, .. } => distance(start, end),
            ParseErrorView::MissingToken { start, end, .. } => distance(start, end),
            ParseErrorView::TooMuchRecursion { .. } => 1,
        }
    }
}

/// Length of the span `start..end`; an inverted span is empty.
pub open spec fn distance(start: usize, end: usize) -> usize {
    if start <= end {
        (end - start) as usize
    } else {
        0
    }
}

/// Length of the span.
pub fn span_length(span: &Range<usize>) -> (r: usize)
    ensures
        r == distance(span.start, span.end),
{
    if span.start <= span.end {
        span.end - span.start
    } else {
        0
    }
}

impl ParseError {
    /// The error's context, where it has one.
    pub fn context(&self) -> (r: Option<&ParseContext>)
        ensures
            match r {
                Some(c) => self@.context() == Some(c@),
                None => self@.context().is_none(),
            },
    {
        match self {
            ParseError::BuildError { context, .. } => Some(context),
            ParseError::UnexpectedToken { context, .. } => Some(context),
            ParseError::UnexpectedEof { context, .. } => Some(context),
            ParseError::InvalidSyntax { context, .. } => Some(context),
            ParseError::MissingToken { context, .. } => Some(context),
            ParseError::TooMuchRecursion { .. } => None,
        }
    }

    /// Number of bytes that the error covers.
    pub fn length(&self) -> (r: usize)
        ensures
            r == self@.length(),
    {
        match self {
            ParseError::BuildError { span, .. } => span_length(span),
            ParseError::UnexpectedToken { span, .. } => span_length(span),
            ParseError::UnexpectedEof { .. } => 1,
            ParseError::InvalidSyntax { span, .. } => span_length(span),
            ParseError::MissingToken { span, .. } => span_length(span),
            ParseError::TooMuchRecursion { .. } => 1,
        }
    }

    /// The message shown to the user.
    pub fn to_string(&self) -> (r: String)
        ensures
            r@ == self@.render(),
    {
        let mut out = String::new();
        match self {
            ParseError::BuildError { message, invalid_text, .. } => {
                push_str(&mut out, "Lexer error: ");
                push_str(&mut out, message.as_str());
                push_str(&mut out, " ('");
                push_str(&mut out, invalid_text.as_str());
                push_str(&mut out, "')");
            },
            ParseError::UnexpectedToken { expected, found, .. } => {
                match expected {
                    Some(e) => {
                        push_str(&mut out, "Expected ");
                        let name = name_shown(e.as_str());
                        push_str(&mut out, name.as_str());
                        push_str(&mut out, ", found ");
                        push_str(&mut out, found.as_str());
                    },
                    None => {
                        push_str(&mut out, "Unexpected token ");
                        push_str(&mut out, found.as_str());
                    },
                }
            },
            ParseError::UnexpectedEof { expected, .. } => {
                push_str(&mut out, "Unexpected end of file, expected ");
                let name = name_shown(expected.as_str());
                push_str(&mut out, name.as_str());
            },
            ParseError::InvalidSyntax { message, .. } => {
                push_str(&mut out, "Syntax error: ");
                push_str(&mut out, message.as_str());
            },
            ParseError::MissingToken { expected, .. } => {
                push_str(&mut out, "Missing ");
                let name = name_shown(expected.as_str());
                push_str(&mut out, name.as_str());
            },
            ParseError::TooMuchRecursion { max_depth, position } => {
                push_str(&mut out, "Maximum recursion depth (");
                push_usize(&mut out, *max_depth);
                push_str(&mut out, ") exceeded at position ");
                push_usize(&mut out, *position);
            },
        }
        assert(out@ == self@.headline());
        match self.context() {
            Some(context) => {
                push_str(&mut out, "\n");
                let shown = context.render();
                push_str(&mut out, shown.as_str());
            },
            None => {},
        }
        out
    }
}

impl Clone for ParseError {
    fn clone(&self) -> (r: ParseError)
        ensures
            r@ == self@,
    {
        match self {
            ParseError::BuildError { message, invalid_text, span, context } => {
                ParseError::BuildError {
                    message: message.clone(),
                    invalid_text: invalid_text.clone(),
                    span: span.start..span.end,
                    context: context.clone(),
                }
            },
            ParseError::UnexpectedToken { expected, found, span, context } => {
                ParseError::UnexpectedToken {
                    expected: match expected {
                        Some(e) => Some(e.clone()),
                        None => None,
                    },
                    found: found.clone(),
                    span: span.start..span.end,
                    context: context.clone(),
                }
            },
            ParseError::UnexpectedEof { expected, position, context } => {
                ParseError::UnexpectedEof {
                    expected: expected.clone(),
                    position: *position,
                    context: context.clone(),
                }
            },
            ParseError::InvalidSyntax { message, span, context } => ParseError::InvalidSyntax {
                message: message.clone(),
                span: span.start..span.end,
                context: context.clone(),
            },
            ParseError::MissingToken { expected, span, context } => ParseError::MissingToken {
                expected: expected.clone(),
                span: span.start..span.end,
                context: context.clone(),
            },
            ParseError::TooMuchRecursion { max_depth, position } => ParseError::TooMuchRecursion {
                max_depth: *max_depth,
                position: *position,
            },
        }
    }
}

} // verus!
