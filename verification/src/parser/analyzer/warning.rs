//! Advisory findings that never stop a parse.

use crate::parser::analyzer::context::ParseContext;
use crate::parser::analyzer::context::ParseContextView;
use crate::parser::analyzer::error::distance;
use crate::parser::analyzer::error::span_length;
use crate::text::push_str;
use std::ops::Range;
use vstd::prelude::*;

verus! {

/// A finding of the lint pass.
#[derive(Debug)]
#[allow(inconsistent_fields)]
pub enum ParseWarning {
    /// Variable declared but never used
    UnusedVariable { name: String, span: Range<usize>, context: ParseContext },
    /// Function declared but never used
    UnusedFunction { name: String, span: Range<usize>, context: ParseContext },
    /// Code after return statement
    UnreachableCode { span: Range<usize>, context: ParseContext },
    /// Naming convention violation
    NamingConvention { message: String, span: Range<usize>, context: ParseContext },
}

/// What a [`ParseWarning`] denotes.
#[allow(inconsistent_fields)]
pub enum ParseWarningView {
    UnusedVariable { name: Seq<char>, start: usize, end: usize, context: ParseContextView },
    UnusedFunction { name: Seq<char>, start: usize, end: usize, context: ParseContextView },
    UnreachableCode { start: usize, end: usize, context: ParseContextView },
    NamingConvention { message: Seq<char>, start: usize, end: usize, context: ParseContextView },
}

impl View for ParseWarning {
    type V = ParseWarningView;

    open spec fn view(&self) -> ParseWarningView {
        match self {
            ParseWarning::UnusedVariable { name, span, context } => {
                ParseWarningView::UnusedVariable {
                    name: name@,
                    start: span.start,
                    end: span.end,
                    context: context@,
                }
            },
            ParseWarning::UnusedFunction { name, span, context } => {
                ParseWarningView::UnusedFunction {
                    name: name@,
                    start: span.start,
                    end: span.end,
                    context: context@,
                }
            },
            ParseWarning::UnreachableCode { span, context } => ParseWarningView::UnreachableCode {
                start: span.start,
                end: span.end,
                context: context@,
            },
            ParseWarning::NamingConvention { message, span, context } => {
                ParseWarningView::NamingConvention {
                    message: message@,
                    start: span.start,
                    end: span.end,
                    context: context@,
                }
            },
        }
    }
}

impl ParseWarningView {
    /// The first line of the message.
    pub open spec fn headline(self) -> Seq<char> {
        match self {
            ParseWarningView::UnusedVariable { name, .. } => "Variable '"@ + name
                + "' is declared but never used"@,
            ParseWarningView::UnusedFunction { name, .. } => "Function '"@ + name
                + "' is declared but never used"@,
            ParseWarningView::UnreachableCode { .. } => "Unreachable code"@,
            ParseWarningView::NamingConvention { message, .. } => message,
        }
    }

    /// Where the warning lies.
    pub open spec fn context(self) -> ParseContextView {
        match self {
            ParseWarningView::UnusedVariable { context, .. } => context,
            ParseWarningView::UnusedFunction { context, .. } => context,
            ParseWarningView::UnreachableCode { context, .. } => context,
            ParseWarningView::NamingConvention { context, .. } => context,
        }
    }

    /// The whole message: the headline and, on the next line, the position
    /// with the source line.
    pub open spec fn render(self) -> Seq<char> {
        self.headline() + "\n"@ + self.context().render()
    }

    /// Number of bytes that the warning covers.
    pub open spec fn length(self) -> usize {
        match self {
            ParseWarningView::UnusedVariable { start, end, .. } => distance(start, end),
            ParseWarningView::UnusedFunction { start, end, .. } => distance(start, end),
            ParseWarningView::UnreachableCode { start, end, .. } => distance(start, end),
            ParseWarningView::NamingConvention { start, end, .. } => distance(start, end),
        }
    }
}

impl ParseWarning {
    /// Where the warning lies.
    pub fn context(&self) -> (r: &ParseContext)
        ensures
            r@ == self@.context(),
    {
        match self {
            ParseWarning::UnusedVariable { context, .. } => context,
            ParseWarning::UnusedFunction { context, .. } => context,
            ParseWarning::UnreachableCode { context, .. } => context,
            ParseWarning::NamingConvention { context, .. } => context,
        }
    }

    /// Number of bytes that the warning covers.
    pub fn length(&self) -> (r: usize)
        ensures
            r == self@.length(),
    {
        match self {
            ParseWarning::UnusedVariable { span, .. } => span_length(span),
            ParseWarning::UnusedFunction { span, .. } => span_length(span),
            ParseWarning::UnreachableCode { span, .. } => span_length(span),
            ParseWarning::NamingConvention { span, .. } => span_length(span),
        }
    }

    /// The message shown to the user.
    pub fn to_string(&self) -> (r: String)
        ensures
            r@ == self@.render(),
    {
        let mut out = String::new();
        match self {
            ParseWarning::UnusedVariable { name, .. } => {
                push_str(&mut out, "Variable '");
                push_str(&mut out, name.as_str());
                push_str(&mut out, "' is declared but never used");
            },
            ParseWarning::UnusedFunction { name, .. } => {
                push_str(&mut out, "Function '");
                push_str(&mut out, name.as_str());
                push_str(&mut out, "' is declared but never used");
            },
            ParseWarning::UnreachableCode { .. } => {
                push_str(&mut out, "Unreachable code");
            },
            ParseWarning::NamingConvention { message, .. } => {
                push_str(&mut out, message.as_str());
            },
        }
        push_str(&mut out, "\n");
        let shown = self.context().render();
        push_str(&mut out, shown.as_str());
        out
    }
}

impl Clone for ParseWarning {
    fn clone(&self) -> (r: ParseWarning)
        ensures
            r@ == self@,
    {
        match self {
            ParseWarning::UnusedVariable { name, span, context } => ParseWarning::UnusedVariable {
                name: name.clone(),
                span: span.start..span.end,
                context: context.clone(),
            },
            ParseWarning::UnusedFunction { name, span, context } => ParseWarning::UnusedFunction {
                name: name.clone(),
                span: span.start..span.end,
                context: context.clone(),
            },
            ParseWarning::UnreachableCode { span, context } => ParseWarning::UnreachableCode {
                span: span.start..span.end,
                context: context.clone(),
            },
            ParseWarning::NamingConvention { message, span, context } => {
                ParseWarning::NamingConvention {
                    message: message.clone(),
                    span: span.start..span.end,
                    context: context.clone(),
                }
            },
        }
    }
}

} // verus!
