//! Positions, errors, warnings and the naming lint.

use crate::ast::stmt::Stmt;
use crate::ast::stmt::StmtView;
use crate::parser::analyzer::context::ParseContextView;
use crate::parser::analyzer::diagnostic::DiagnosticView;
use crate::parser::analyzer::warning::ParseWarningView;
use crate::text::push_str;
use std::ops::Range;
use vstd::prelude::*;

pub mod context;
pub mod diagnostic;
pub mod error;
pub mod warning;

pub use context::ParseContext;
pub use diagnostic::Diagnostic;
pub use diagnostic::DiagnosticLevel;
pub use error::ParseError;
pub use warning::ParseWarning;

verus! {

/// The snake_case spelling of a name, as `inflections::case::to_snake_case`
/// gives it.
pub uninterp spec fn snake_case(name: Seq<char>) -> Seq<char>;

/// The CONSTANT_CASE spelling of a name, as
/// `inflections::case::to_constant_case` gives it.
pub uninterp spec fn constant_case(name: Seq<char>) -> Seq<char>;

/// `inflections::case::to_snake_case`: the result is `snake_case` of the
/// name, a function of the name's characters alone.
#[verifier::external_body]
fn to_snake_case(name: &str) -> (r: String)
    ensures
        r@ == snake_case(name@),
{
    inflections::case::to_snake_case(name)
}

/// `inflections::case::is_snake_case`: true exactly when the name equals its
/// own snake_case spelling.
#[verifier::external_body]
fn is_snake_case(name: &str) -> (r: bool)
    ensures
        r == (snake_case(name@) == name@),
{
    inflections::case::is_snake_case(name)
}

/// `inflections::case::to_constant_case`: the result is `constant_case` of
/// the name, a function of the name's characters alone.
#[verifier::external_body]
fn to_constant_case(name: &str) -> (r: String)
    ensures
        r@ == constant_case(name@),
{
    inflections::case::to_constant_case(name)
}

/// `inflections::case::is_constant_case`: true exactly when the name equals
/// its own CONSTANT_CASE spelling.
#[verifier::external_body]
fn is_constant_case(name: &str) -> (r: bool)
    ensures
        r == (constant_case(name@) == name@),
{
    inflections::case::is_constant_case(name)
}

/// The warning that a name should be spelled `wanted`, for the statement
/// whose span is `start..end` in `src`.
pub open spec fn naming_warning(wanted: Seq<char>, start: usize, end: usize, src: Seq<char>)
    -> DiagnosticView {
    DiagnosticView::of_warning(
        ParseWarningView::NamingConvention {
            message: "expected '"@ + wanted + "'"@,
            start,
            end,
            context: ParseContextView::of_span(src, start, end),
        },
    )
}

/// The findings for a name that is bound by `let` or `fn`: nothing where it
/// is snake_case, else one warning with the snake_case spelling.
pub open spec fn snake_findings(name: Seq<char>, start: usize, end: usize, src: Seq<char>) -> Seq<
    DiagnosticView,
> {
    if snake_case(name) == name {
        Seq::empty()
    } else {
        seq![naming_warning(snake_case(name), start, end, src)]
    }
}

/// The findings for a name that is bound by `const`: nothing where it is
/// CONSTANT_CASE, else one warning with the CONSTANT_CASE spelling.
pub open spec fn constant_findings(name: Seq<char>, start: usize, end: usize, src: Seq<char>)
    -> Seq<DiagnosticView> {
    if constant_case(name) == name {
        Seq::empty()
    } else {
        seq![naming_warning(constant_case(name), start, end, src)]
    }
}

/// The findings of the naming lint for a statement, in the order in which the
/// names stand in it. The lint looks at the statement itself, into the body
/// of a function, into every statement of a block and into the first part and
/// the body of a `for`; it does not look into `if`, `while` or `export`.
/// Every finding carries the span `start..end` of the top-level statement.
pub open spec fn findings(stmt: StmtView, start: usize, end: usize, src: Seq<char>) -> Seq<
    DiagnosticView,
>
    decreases stmt, 1int,
{
    match stmt {
        StmtView::Let { name, .. } => snake_findings(name, start, end, src),
        StmtView::Const { name, .. } => constant_findings(name, start, end, src),
        StmtView::Function { name, body, .. } => snake_findings(name, start, end, src) + findings(
            *body,
            start,
            end,
            src,
        ),
        StmtView::Block { .. } => findings_of_each(stmt, start, end, src).flatten_alt(),
        StmtView::For { init, body, .. } => (match init {
            Some(first) => findings(*first, start, end, src),
            None => Seq::empty(),
        }) + findings(*body, start, end, src),
        _ => Seq::empty(),
    }
}

/// The findings for each statement of the block `block`, in order.
pub open spec fn findings_of_each(block: StmtView, start: usize, end: usize, src: Seq<char>)
    -> Seq<Seq<DiagnosticView>>
    decreases block, 0int,
{
    match block {
        StmtView::Block { statements } => Seq::new(
            statements.len(),
            |i: int|
                if 0 <= i < statements.len() {
                    findings(statements[i], start, end, src)
                } else {
                    Seq::empty()
                },
        ),
        _ => Seq::empty(),
    }
}

/// The views of a list of diagnostics.
pub open spec fn diagnostics_view(list: Seq<Diagnostic>) -> Seq<DiagnosticView> {
    Seq::new(list.len(), |i: int| list[i]@)
}

/// The lint pass: it collects warnings on naming and never changes or
/// rejects a statement.
pub struct Analyzer<'a> {
    source: &'a str,
    diagnostics: Vec<Diagnostic>,
}

impl<'a> Analyzer<'a> {
    /// The source that the analyzer resolves spans in.
    pub closed spec fn text(&self) -> Seq<char> {
        self.source@
    }

    /// What the analyzer has found so far.
    pub closed spec fn found(&self) -> Seq<DiagnosticView> {
        diagnostics_view(self.diagnostics@)
    }

    /// An analyzer for statements of `source` that has found nothing yet.
    pub fn new(source: &'a str) -> (r: Self)
        ensures
            r.text() == source@,
            r.found() == Seq::<DiagnosticView>::empty(),
    {
        let r = Self { source, diagnostics: Vec::new() };
        assert(r.found() =~= Seq::<DiagnosticView>::empty());
        r
    }

    /// Adds the warning that the name should be spelled `wanted`.
    fn warn(&mut self, wanted: String, span: &Range<usize>)
        ensures
            final(self).text() == old(self).text(),
            final(self).found() == old(self).found().push(
                naming_warning(wanted@, span.start, span.end, old(self).text()),
            ),
    {
        let mut message = String::new();
        push_str(&mut message, "expected '");
        push_str(&mut message, wanted.as_str());
        push_str(&mut message, "'");
        let warning = ParseWarning::NamingConvention {
            message,
            span: span.start..span.end,
            context: ParseContext::from_span(self.source, span),
        };
        let diagnostic = Diagnostic::from(warning);
        let ghost before = self.found();
        self.diagnostics.push(diagnostic);
        assert(self.found() =~= before.push(diagnostic@));
    }

    /// Checks a name that `let` or `fn` binds.
    fn check_snake(&mut self, name: &String, span: &Range<usize>)
        ensures
            final(self).text() == old(self).text(),
            final(self).found() == old(self).found() + snake_findings(
                name@,
                span.start,
                span.end,
                old(self).text(),
            ),
    {
        if !is_snake_case(name.as_str()) {
            self.warn(to_snake_case(name.as_str()), span);
            assert(final(self).found() =~= old(self).found() + snake_findings(
                name@,
                span.start,
                span.end,
                old(self).text(),
            ));
        } else {
            assert(self.found() =~= self.found() + Seq::<DiagnosticView>::empty());
        }
    }

    /// Checks a name that `const` binds.
    fn check_constant(&mut self, name: &String, span: &Range<usize>)
        ensures
            final(self).text() == old(self).text(),
            final(self).found() == old(self).found() + constant_findings(
                name@,
                span.start,
                span.end,
                old(self).text(),
            ),
    {
        if !is_constant_case(name.as_str()) {
            self.warn(to_constant_case(name.as_str()), span);
            assert(final(self).found() =~= old(self).found() + constant_findings(
                name@,
                span.start,
                span.end,
                old(self).text(),
            ));
        } else {
            assert(self.found() =~= self.found() + Seq::<DiagnosticView>::empty());
        }
    }

    /// Adds the findings of the naming lint for `statement`, whose top-level
    /// statement covers `span`.
    #[verifier::rlimit(40)]
    pub fn analyze(&mut self, statement: &Stmt, span: &Range<usize>)
        ensures
            final(self).text() == old(self).text(),
            final(self).found() == old(self).found() + findings(
                statement@,
                span.start,
                span.end,
                old(self).text(),
            ),
        decreases statement, 1int,
    {
        let ghost before = self.found();
        let ghost src = self.text();
        match statement {
            Stmt::Let { name, .. } => {
                self.check_snake(name, span);
            },
            Stmt::Const { name, .. } => {
                self.check_constant(name, span);
            },
            Stmt::Function { name, body, .. } => {
                self.check_snake(name, span);
                self.analyze(body, span);
                assert(self.found() =~= before + (snake_findings(
                    name@,
                    span.start,
                    span.end,
                    src,
                ) + findings(body@, span.start, span.end, src)));
            },
            Stmt::Block { statements } => {
                self.analyze_all(statement, statements, span);
            },
            Stmt::For { init, body, .. } => {
                match init {
                    Some(first) => {
                        self.analyze(first, span);
                    },
                    None => {
                        assert(self.found() =~= before + Seq::<DiagnosticView>::empty());
                    },
                }
                self.analyze(body, span);
                assert(self.found() =~= before + ((match statement@->For_init {
                    Some(first) => findings(*first, span.start, span.end, src),
                    None => Seq::empty(),
                }) + findings(body@, span.start, span.end, src)));
            },
            _ => {
                assert(self.found() =~= before + Seq::<DiagnosticView>::empty());
            },
        }
    }

    /// Adds the findings for every statement of the block `block`.
    #[verifier::rlimit(40)]
    fn analyze_all(&mut self, block: &Stmt, statements: &Vec<Stmt>, span: &Range<usize>)
        requires
            *block == (Stmt::Block { statements: *statements }),
        ensures
            final(self).text() == old(self).text(),
            final(self).found() == old(self).found() + findings(
                block@,
                span.start,
                span.end,
                old(self).text(),
            ),
        decreases block, 0int,
    {
        let ghost before = self.found();
        let ghost src = self.text();
        let ghost each = findings_of_each(block@, span.start, span.end, src);
        let mut at: usize = 0;
        proof {
            assert(each.take(0) =~= Seq::<Seq<DiagnosticView>>::empty());
            assert(before + each.take(0).flatten_alt() =~= before);
        }
        while at < statements.len()
            invariant
                at <= statements.len(),
                *block == (Stmt::Block { statements: *statements }),
                self.text() == src,
                each == findings_of_each(block@, span.start, span.end, src),
                each.len() == statements.len(),
                forall|i: int|
                    0 <= i < statements.len() ==> each[i] == findings(
                        statements@[i]@,
                        span.start,
                        span.end,
                        src,
                    ),
                self.found() == before + each.take(at as int).flatten_alt(),
            decreases statements.len() - at,
        {
            proof {
                assert(decreases_to!(*statements => statements[at as int]));
                assert(decreases_to!(*block => *statements));
            }
            self.analyze(&statements[at], span);
            proof {
                assert(each.take(at + 1).drop_last() =~= each.take(at as int));
                assert(self.found() =~= before + each.take(at + 1).flatten_alt());
            }
            at += 1;
        }
        assert(each.take(at as int) =~= each);
    }

    /// Hands out what was found.
    pub fn finalize(self) -> (r: Vec<Diagnostic>)
        ensures
            diagnostics_view(r@) == self.found(),
    {
        self.diagnostics
    }
}

} // verus!
