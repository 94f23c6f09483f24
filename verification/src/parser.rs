//! The parser: a cursor over the token stream with a recursion guard, its
//! configuration, and the errors and diagnostics it reports.

use crate::ast::expr::Expr;
use crate::ast::expr::ExprView;
use crate::ast::expr::Grammar;
use crate::ast::stmt::Stmt;
use crate::ast::stmt::StmtView;
use crate::ast::stmt::guarded;
use crate::ast::stmt::stmts_view;
use crate::lexer::Token;
use crate::lexer::TokenSpan;
use crate::lexer::TokenSpanView;
use crate::lexer::TokenView;
use crate::lexer::invalid_token;
use crate::lexer::lex;
use crate::lexer::views;
use crate::parser::analyzer::Analyzer;
use crate::parser::analyzer::diagnostic::DiagnosticView;
use crate::parser::analyzer::diagnostics_view;
use crate::parser::analyzer::error::ParseErrorView;
use crate::parser::analyzer::findings;
use crate::parser::stream::Fault;
use crate::parser::stream::consumed;
use crate::parser::stream::end_of_input;
use crate::parser::stream::fault_error;
use crate::parser::stream::lemma_consumed_all;
use crate::parser::stream::lemma_significant_at;
use crate::parser::stream::lemma_significant_prefix;
use crate::parser::stream::lemma_significant_step;
use crate::parser::stream::significant;
use crate::parser::stream::stream_of;
use crate::parser::stream::token_at;
use vstd::prelude::*;
use vstd::string::StringExecFns;

pub mod analyzer;
pub mod builder;
pub mod config;
pub mod stream;

pub use analyzer::Diagnostic;
pub use analyzer::ParseContext;
pub use analyzer::ParseError;
pub use analyzer::ParseWarning;
pub use builder::ParserBuilder;
pub use config::ParserConfig;

verus! {

/// Parser with configuration and safety features: the tokens of one source,
/// a position in them and the number of guarded productions that are open.
#[derive(Clone)]
pub struct Parser<'a> {
    pub tokens: Vec<TokenSpan>,
    pub config: ParserConfig,
    pub source: &'a str,
    pub pos: usize,
    pub depth: usize,
}

impl<'a> Parser<'a> {
    /// The number of guarded productions that are open.
    pub open spec fn level(&self) -> nat {
        self.depth as nat
    }

    /// The position lies within the tokens and the depth within its limit.
    pub open spec fn wf(&self) -> bool {
        &&& self.pos <= self.tokens.len()
        &&& self.level() <= self.config.max_recursion_depth
    }

    /// The significant tokens, as the grammar sees them.
    pub open spec fn stream(&self) -> Seq<TokenView> {
        stream_of(views(self.tokens@))
    }

    /// The index in the stream of the token that is read next.
    pub open spec fn cursor(&self) -> int {
        consumed(views(self.tokens@), self.pos as int) as int
    }

    /// The error by which this parser reports `fault`.
    pub open spec fn report(&self, fault: Fault) -> ParseErrorView {
        fault_error(fault, views(self.tokens@), self.source@, self.config.max_recursion_depth)
    }

    /// `self` reads the same input under the same configuration and at the
    /// same depth as `other`; only the position may differ.
    pub open spec fn moved_from(&self, other: &Parser<'a>) -> bool {
        &&& self.tokens == other.tokens
        &&& self.config == other.config
        &&& self.source@ == other.source@
        &&& self.level() == other.level()
        &&& self.pos >= other.pos
        &&& self.cursor() >= other.cursor()
    }

    /// A parser at the start of `tokens`.
    pub fn new(tokens: Vec<TokenSpan>, config: ParserConfig, source: &'a str) -> (r: Parser<'a>)
        ensures
            r.wf(),
            r.tokens == tokens,
            r.config == config,
            r.source@ == source@,
            r.pos == 0,
            r.level() == 0,
            r.cursor() == 0,
    {
        proof {
            lemma_consumed_all(views(tokens@));
        }
        Parser { tokens, config, source, pos: 0, depth: 0 }
    }

    /// The index of the next significant token, if there is one.
    #[verifier::rlimit(40)]
    pub fn next_index(&self) -> (r: Option<usize>)
        requires
            self.pos <= self.tokens.len(),
        ensures
            0 <= self.cursor() <= self.stream().len(),
            match r {
                Some(index) => {
                    &&& self.pos <= index < self.tokens.len()
                    &&& self.cursor() < self.stream().len()
                    &&& significant(views(self.tokens@))[self.cursor()] == self.tokens@[index as int]@
                    &&& self.stream()[self.cursor()] == self.tokens@[index as int].token@
                    &&& consumed(views(self.tokens@), index + 1) == self.cursor() + 1
                },
                None => self.cursor() == self.stream().len(),
            },
    {
        let mut index = self.pos;
        proof {
            lemma_significant_prefix(views(self.tokens@), self.pos as int);
            lemma_consumed_all(views(self.tokens@));
        }
        while index < self.tokens.len()
            invariant
                self.pos <= index <= self.tokens.len(),
                consumed(views(self.tokens@), index as int) == self.cursor(),
                0 <= self.cursor() <= self.stream().len(),
            decreases self.tokens.len() - index,
        {
            if !self.tokens[index].token.is_comment() {
                proof {
                    lemma_significant_at(views(self.tokens@), index as int);
                }
                return Some(index);
            }
            proof {
                lemma_significant_step(views(self.tokens@), index as int);
            }
            index += 1;
        }
        proof {
            lemma_consumed_all(views(self.tokens@));
        }
        None
    }

    /// The next significant token with its span.
    pub fn span(&self) -> (r: Option<&TokenSpan>)
        requires
            self.pos <= self.tokens.len(),
        ensures
            match r {
                Some(found) => 0 <= self.cursor() < self.stream().len() && found@ == significant(
                    views(self.tokens@),
                )[self.cursor()],
                None => self.cursor() == self.stream().len(),
            },
    {
        match self.next_index() {
            Some(index) => Some(&self.tokens[index]),
            None => None,
        }
    }

    /// True when no significant token is left.
    pub fn eof(&self) -> (r: bool)
        requires
            self.pos <= self.tokens.len(),
        ensures
            r == (self.cursor() >= self.stream().len()),
            r == token_at(self.stream(), self.cursor()).is_none(),
    {
        self.next_index().is_none()
    }

    /// Where the input ends: behind the last token.
    pub fn eof_position(&self) -> (r: usize)
        ensures
            r == end_of_input(views(self.tokens@)),
    {
        let n = self.tokens.len();
        if n == 0 {
            0
        } else {
            self.tokens[n - 1].span.end
        }
    }

    /// The next significant token.
    pub fn peek(&self) -> (r: Option<&Token>)
        requires
            self.pos <= self.tokens.len(),
        ensures
            match r {
                Some(token) => token_at(self.stream(), self.cursor()) == Some(token@),
                None => token_at(self.stream(), self.cursor()).is_none(),
            },
    {
        match self.next_index() {
            Some(index) => Some(&self.tokens[index].token),
            None => None,
        }
    }

    /// The error for the next token, or for the end of input where none is
    /// left: with `expected`, that it was found where `expected` should stand;
    /// without, that `message` forbids it.
    #[verifier::rlimit(40)]
    pub fn error(&self, message: &str, expected: Option<&str>) -> (r: ParseError)
        requires
            self.pos <= self.tokens.len(),
        ensures
            r@ == self.report(
                match expected {
                    Some(text) => Fault::Unexpected { expected: text@, at: self.cursor() },
                    None => Fault::Forbidden { message: message@, at: self.cursor() },
                },
            ),
    {
        reveal(fault_error);
        match self.next_index() {
            Some(index) => {
                let found = &self.tokens[index];
                let span = found.span.start..found.span.end;
                let context = ParseContext::from_span(self.source, &span);
                match expected {
                    Some(text) => ParseError::UnexpectedToken {
                        expected: Some(String::from_str(text)),
                        found: found.token.description(),
                        span,
                        context,
                    },
                    None => ParseError::InvalidSyntax {
                        message: String::from_str(message),
                        span,
                        context,
                    },
                }
            },
            None => {
                let position = self.eof_position();
                let context = ParseContext::from_span(self.source, &(position..position));
                match expected {
                    Some(text) => ParseError::UnexpectedEof {
                        expected: String::from_str(text),
                        position,
                        context,
                    },
                    None => ParseError::UnexpectedEof {
                        expected: String::from_str("token"),
                        position,
                        context,
                    },
                }
            },
        }
    }

    /// Takes the next significant token and returns its index.
    pub fn advance(&mut self) -> (r: Option<usize>)
        requires
            old(self).wf(),
        ensures
            final(self).wf(),
            final(self).moved_from(old(self)),
            match r {
                Some(index) => {
                    &&& index < old(self).tokens.len()
                    &&& final(self).pos == index + 1
                    &&& old(self).cursor() < old(self).stream().len()
                    &&& significant(views(old(self).tokens@))[old(self).cursor()] == old(self).tokens@[index as int]@
                    &&& old(self).stream()[old(self).cursor()] == old(self).tokens@[index as int].token@
                    &&& final(self).cursor() == old(self).cursor() + 1
                },
                None => {
                    &&& old(self).cursor() == old(self).stream().len()
                    &&& final(self).cursor() == old(self).cursor()
                },
            },
    {
        match self.next_index() {
            Some(index) => {
                self.pos = index + 1;
                Some(index)
            },
            None => {
                proof {
                    lemma_consumed_all(views(self.tokens@));
                }
                self.pos = self.tokens.len();
                None
            },
        }
    }

    /// Takes the next token where it is `token`, and says whether it did.
    pub fn consume(&mut self, token: &Token) -> (r: bool)
        requires
            old(self).wf(),
        ensures
            final(self).wf(),
            final(self).moved_from(old(self)),
            r == (token_at(old(self).stream(), old(self).cursor()) == Some(token@)),
            final(self).cursor() == if r {
                old(self).cursor() + 1
            } else {
                old(self).cursor()
            },
    {
        let hit = match self.peek() {
            Some(found) => *found == *token,
            None => false,
        };
        if hit {
            self.advance();
        }
        hit
    }

    /// Takes the next token, which must be `expected`.
    pub fn expect(&mut self, expected: Token) -> (r: Result<(), ParseError>)
        requires
            old(self).wf(),
        ensures
            final(self).wf(),
            final(self).moved_from(old(self)),
            match r {
                Ok(_) => Grammar::expect(old(self).stream(), old(self).cursor(), expected@) == Ok::<
                    int,
                    Fault,
                >(final(self).cursor()),
                Err(error) => Grammar::expect(old(self).stream(), old(self).cursor(), expected@)
                    matches Err(fault) && error@ == old(self).report(fault),
            },
    {
        let hit = match self.peek() {
            Some(found) => *found == expected,
            None => false,
        };
        if hit {
            self.advance();
            Ok(())
        } else {
            let wanted = expected.spelling();
            Err(self.error("", Some(wanted.as_str())))
        }
    }

    /// Opens a guarded production: one level deeper, unless the limit is
    /// reached.
    pub fn enter(&mut self) -> (r: Result<(), ParseError>)
        requires
            old(self).wf(),
        ensures
            final(self).wf(),
            final(self).tokens == old(self).tokens,
            final(self).config == old(self).config,
            final(self).source@ == old(self).source@,
            final(self).pos == old(self).pos,
            match r {
                Ok(_) => old(self).level() < old(self).config.max_recursion_depth && final(self).level() == old(self).level() + 1,
                Err(error) => old(self).level() >= old(self).config.max_recursion_depth && final(self).level() == old(self).level() && error@ == old(self).report(
                    Fault::TooDeep { at: old(self).cursor() },
                ),
            },
    {
        reveal(fault_error);
        if self.depth >= self.config.max_recursion_depth {
            let position = match self.next_index() {
                Some(index) => self.tokens[index].span.start,
                None => self.eof_position(),
            };
            Err(
                ParseError::TooMuchRecursion {
                    max_depth: self.config.max_recursion_depth,
                    position,
                },
            )
        } else {
            self.depth = self.depth + 1;
            Ok(())
        }
    }

    /// Closes a guarded production: one level up, unless none is open.
    pub fn leave(&mut self)
        requires
            old(self).wf(),
        ensures
            final(self).wf(),
            final(self).tokens == old(self).tokens,
            final(self).config == old(self).config,
            final(self).source@ == old(self).source@,
            final(self).pos == old(self).pos,
            final(self).level() == if old(self).level() > 0 {
                old(self).level() - 1
            } else {
                0
            },
    {
        if self.depth > 0 {
            self.depth = self.depth - 1;
        }
    }
}

/// The context of an error: another name for [`ParseContext`].
pub type ErrorContext = ParseContext;

/// The statements of a program and the warnings of the lint pass.
#[derive(Debug)]
pub struct ParseResult {
    statements: Vec<Stmt>,
    diagnostics: Vec<Diagnostic>,
}

impl ParseResult {
    /// The statements, in source order.
    pub closed spec fn program(&self) -> Seq<StmtView> {
        stmts_view(self.statements@)
    }

    /// The warnings, in the order in which the lint found them.
    pub closed spec fn warnings(&self) -> Seq<DiagnosticView> {
        diagnostics_view(self.diagnostics@)
    }

    /// The statements, in source order.
    pub fn statements(&self) -> (r: &[Stmt])
        ensures
            stmts_view(r@) == self.program(),
    {
        self.statements.as_slice()
    }

    /// The warnings of the lint pass.
    pub fn diagnositcs(&self) -> (r: &[Diagnostic])
        ensures
            diagnostics_view(r@) == self.warnings(),
    {
        self.diagnostics.as_slice()
    }
}

/// What a program denotes: its statements and the warnings on them.
pub struct ProgramView {
    pub statements: Seq<StmtView>,
    pub diagnostics: Seq<DiagnosticView>,
}

/// The statements of the located statements `items`.
pub open spec fn statements_of(items: Seq<(StmtView, int)>) -> Seq<StmtView> {
    Seq::new(items.len(), |i: int| items[i].0)
}

/// The findings of the lint for each of the located statements `items`. The
/// span of a finding is that of the first token of its top-level statement.
pub open spec fn findings_of(
    items: Seq<(StmtView, int)>,
    tokens: Seq<TokenSpanView>,
    src: Seq<char>,
) -> Seq<Seq<DiagnosticView>> {
    Seq::new(
        items.len(),
        |i: int|
            findings(
                items[i].0,
                significant(tokens)[items[i].1].start,
                significant(tokens)[items[i].1].end,
                src,
            ),
    )
}

/// What parsing `src` as a program gives under `config`: the statements
/// with the warnings of the lint, or the first error.
pub open spec fn parsed_program(src: Seq<char>, config: ParserConfig) -> Result<
    ProgramView,
    ParseErrorView,
> {
    match lex(src) {
        Ok(tokens) => match Grammar::program(stream_of(tokens), 0, 0, config) {
            Ok(items) => Ok(
                ProgramView {
                    statements: statements_of(items),
                    diagnostics: findings_of(items, tokens, src).flatten_alt(),
                },
            ),
            Err(fault) => Err(fault_error(fault, tokens, src, config.max_recursion_depth)),
        },
        Err(rejected) => Err(invalid_token(src, rejected)),
    }
}

/// What parsing `src` as one expression gives under `config`.
pub open spec fn parsed_expression(src: Seq<char>, config: ParserConfig) -> Result<
    ExprView,
    ParseErrorView,
> {
    match lex(src) {
        Ok(tokens) => match Grammar::sole_expression(stream_of(tokens), config) {
            Ok(expr) => Ok(expr),
            Err(fault) => Err(fault_error(fault, tokens, src, config.max_recursion_depth)),
        },
        Err(rejected) => Err(invalid_token(src, rejected)),
    }
}

/// What parsing the first statement of `src` gives under `config`.
pub open spec fn parsed_statement(src: Seq<char>, config: ParserConfig) -> Result<
    StmtView,
    ParseErrorView,
> {
    match lex(src) {
        Ok(tokens) => match Grammar::sole_statement(stream_of(tokens), config) {
            Ok(statement) => Ok(statement),
            Err(fault) => Err(fault_error(fault, tokens, src, config.max_recursion_depth)),
        },
        Err(rejected) => Err(invalid_token(src, rejected)),
    }
}

/// The located statements `rest` behind those of `head`.
pub open spec fn after_statements(
    head: Seq<(StmtView, int)>,
    rest: Result<Seq<(StmtView, int)>, Fault>,
) -> Result<Seq<(StmtView, int)>, Fault> {
    match rest {
        Ok(more) => Ok(head + more),
        Err(fault) => Err(fault),
    }
}

impl<'a> Parser<'a> {
    /// Parses the statements from the position on up to the end of input and
    /// runs the lint over each. The first error ends the parse; warnings
    /// never do.
    #[verifier::rlimit(40)]
    pub fn parse(&mut self) -> (r: Result<ParseResult, ParseError>)
        requires
            old(self).wf(),
        ensures
            final(self).wf(),
            final(self).moved_from(old(self)),
            match r {
                Ok(result) => {
                    &&& Grammar::program(
                        old(self).stream(),
                        old(self).cursor(),
                        old(self).level(),
                        old(self).config,
                    ) matches Ok(items)
                    &&& result.program() == statements_of(items)
                    &&& result.warnings() == findings_of(
                        items,
                        views(old(self).tokens@),
                        old(self).source@,
                    ).flatten_alt()
                },
                Err(error) => Grammar::program(
                    old(self).stream(),
                    old(self).cursor(),
                    old(self).level(),
                    old(self).config,
                ) matches Err(fault) && error@ == old(self).report(fault),
            },
    {
        let ghost goal = Grammar::program(self.stream(), self.cursor(), self.level(), self.config);
        let ghost tokens = views(self.tokens@);
        let ghost src = self.source@;
        let mut statements: Vec<Stmt> = Vec::new();
        let mut analyzer = Analyzer::new(self.source);
        let ghost mut items: Seq<(StmtView, int)> = Seq::empty();
        proof {
            match goal {
                Ok(more) => {
                    assert(items + more =~= more);
                },
                Err(_) => {},
            }
            assert(stmts_view(statements@) =~= statements_of(items));
            assert(findings_of(items, tokens, src) =~= Seq::<Seq<DiagnosticView>>::empty());
        }
        loop
            invariant
                self.wf(),
                self.moved_from(old(self)),
                tokens == views(self.tokens@),
                src == self.source@,
                analyzer.text() == src,
                goal == Grammar::program(
                    old(self).stream(),
                    old(self).cursor(),
                    old(self).level(),
                    old(self).config,
                ),
                after_statements(
                    items,
                    Grammar::program(self.stream(), self.cursor(), self.level(), self.config),
                ) == goal,
                stmts_view(statements@) == statements_of(items),
                analyzer.found() == findings_of(items, tokens, src).flatten_alt(),
            ensures
                self.wf(),
                self.moved_from(old(self)),
                analyzer.text() == src,
                goal == Ok::<Seq<(StmtView, int)>, Fault>(items),
                stmts_view(statements@) == statements_of(items),
                analyzer.found() == findings_of(items, tokens, src).flatten_alt(),
            decreases self.tokens.len() - self.pos,
        {
            let index = match self.next_index() {
                Some(index) => index,
                None => {
                    proof {
                        assert(items + Seq::<(StmtView, int)>::empty() =~= items);
                    }
                    break;
                },
            };
            let span = self.tokens[index].span.start..self.tokens[index].span.end;
            let ghost at = self.cursor();
            match self.enter() {
                Err(error) => {
                    return Err(error);
                },
                Ok(_) => {},
            }
            let outcome = Stmt::parse_statement(self);
            self.leave();
            match outcome {
                Ok(statement) => {
                    analyzer.analyze(&statement, &span);
                    proof {
                        lemma_significant_prefix(tokens, self.pos as int);
                        lemma_consumed_all(tokens);
                        let more = items.push((statement@, at));
                        match Grammar::program(
                            self.stream(),
                            self.cursor(),
                            self.level(),
                            self.config,
                        ) {
                            Ok(rest) => {
                                assert(more + rest =~= items + (seq![(statement@, at)] + rest));
                            },
                            Err(_) => {},
                        }
                        assert(stmts_view(statements@).len() == statements@.len());
                        assert(statements_of(items).len() == items.len());
                        assert forall|i: int| 0 <= i < statements@.len() implies statements@[i]@
                            == items[i].0 by {
                            assert(stmts_view(statements@)[i] == statements_of(items)[i]);
                        }
                        assert(stmts_view(statements@.push(statement)) =~= statements_of(more));
                        assert(findings_of(more, tokens, src).drop_last() =~= findings_of(
                            items,
                            tokens,
                            src,
                        ));
                        items = more;
                    }
                    statements.push(statement);
                },
                Err(error) => {
                    return Err(error);
                },
            }
        }
        let diagnostics = analyzer.finalize();
        Ok(ParseResult { statements, diagnostics })
    }

    /// Parses the rest of the input as one expression: behind it the input
    /// must end.
    pub fn sole_expression(&mut self) -> (r: Result<Expr, ParseError>)
        requires
            old(self).wf(),
        ensures
            final(self).wf(),
            final(self).moved_from(old(self)),
            match r {
                Ok(expr) => Grammar::rest_expression(
                    old(self).stream(),
                    old(self).cursor(),
                    old(self).level(),
                    old(self).config,
                ) == Ok::<ExprView, Fault>(expr@),
                Err(error) => Grammar::rest_expression(
                    old(self).stream(),
                    old(self).cursor(),
                    old(self).level(),
                    old(self).config,
                ) matches Err(fault) && error@ == old(self).report(fault),
            },
    {
        match self.enter() {
            Err(error) => {
                return Err(error);
            },
            Ok(_) => {},
        }
        let outcome = Expr::parse_assignment(self);
        self.leave();
        match outcome {
            Ok(expr) => {
                if self.eof() {
                    Ok(expr)
                } else {
                    Err(self.error("unexpected tokens after expression", Some("end of input")))
                }
            },
            Err(error) => Err(error),
        }
    }

    /// Parses the statement at the position. What follows it is not read.
    pub fn sole_statement(&mut self) -> (r: Result<Stmt, ParseError>)
        requires
            old(self).wf(),
        ensures
            final(self).wf(),
            final(self).moved_from(old(self)),
            match r {
                Ok(statement) => Grammar::first_statement(
                    old(self).stream(),
                    old(self).cursor(),
                    old(self).level(),
                    old(self).config,
                ) == Ok::<StmtView, Fault>(statement@),
                Err(error) => Grammar::first_statement(
                    old(self).stream(),
                    old(self).cursor(),
                    old(self).level(),
                    old(self).config,
                ) matches Err(fault) && error@ == old(self).report(fault),
            },
    {
        match self.enter() {
            Err(error) => {
                return Err(error);
            },
            Ok(_) => {},
        }
        let outcome = Stmt::parse_statement(self);
        self.leave();
        outcome
    }

    /// A builder for a parser of `source`, with the default configuration.
    pub fn builder(source: &'a str) -> (r: ParserBuilder<'a>)
        ensures
            r.text() == source@,
            r.settings() == ParserConfig::initial(),
    {
        ParserBuilder::new(source)
    }

    /// Parses a program under the default configuration.
    pub fn parse_src(source: &'a str) -> (r: Result<ParseResult, ParseError>)
        ensures
            match r {
                Ok(result) => parsed_program(source@, ParserConfig::initial()) == Ok::<
                    ProgramView,
                    ParseErrorView,
                >(ProgramView { statements: result.program(), diagnostics: result.warnings() }),
                Err(error) => parsed_program(source@, ParserConfig::initial()) == Err::<
                    ProgramView,
                    ParseErrorView,
                >(error@),
            },
    {
        let mut parser = match Self::builder(source).build() {
            Ok(parser) => parser,
            Err(error) => {
                return Err(error);
            },
        };
        parser.parse()
    }

    /// Parses one expression under the default configuration; the source
    /// must hold nothing else.
    pub fn parse_expr(source: &'a str) -> (r: Result<Expr, ParseError>)
        ensures
            match r {
                Ok(expr) => parsed_expression(source@, ParserConfig::initial()) == Ok::<
                    ExprView,
                    ParseErrorView,
                >(expr@),
                Err(error) => parsed_expression(source@, ParserConfig::initial()) == Err::<
                    ExprView,
                    ParseErrorView,
                >(error@),
            },
    {
        let mut parser = match Self::builder(source).build() {
            Ok(parser) => parser,
            Err(error) => {
                return Err(error);
            },
        };
        parser.sole_expression()
    }

    /// Parses the first statement of the source under the default
    /// configuration.
    pub fn parse_stmt(source: &'a str) -> (r: Result<Stmt, ParseError>)
        ensures
            match r {
                Ok(statement) => parsed_statement(source@, ParserConfig::initial()) == Ok::<
                    StmtView,
                    ParseErrorView,
                >(statement@),
                Err(error) => parsed_statement(source@, ParserConfig::initial()) == Err::<
                    StmtView,
                    ParseErrorView,
                >(error@),
            },
    {
        let mut parser = match Self::builder(source).build() {
            Ok(parser) => parser,
            Err(error) => {
                return Err(error);
            },
        };
        parser.sole_statement()
    }
}

/// What can be parsed from the tokens at a parser's position.
pub trait Parse: Sized {
    fn parse<'a>(parser: &mut Parser<'a>) -> (r: Result<Self, ParseError>)
        requires
            old(parser).wf(),
        ensures
            final(parser).wf(),
            final(parser).moved_from(old(parser)),
    ;
}

impl Parse for Expr {
    /// Parses an expression at the position.
    fn parse<'a>(parser: &mut Parser<'a>) -> (r: Result<Self, ParseError>)
        ensures
            crate::ast::expr::yields(
                old(parser),
                final(parser),
                r,
                Grammar::expression(
                    old(parser).stream(),
                    old(parser).cursor(),
                    old(parser).level(),
                    old(parser).config,
                ),
            ),
    {
        Expr::parse_assignment(parser)
    }
}

impl Parse for Stmt {
    /// Parses a statement at the position.
    fn parse<'a>(parser: &mut Parser<'a>) -> (r: Result<Self, ParseError>)
        ensures
            crate::ast::stmt::yields_stmt(
                old(parser),
                final(parser),
                r,
                Grammar::statement(
                    old(parser).stream(),
                    old(parser).cursor(),
                    old(parser).level(),
                    old(parser).config,
                ),
            ),
    {
        Stmt::parse_statement(parser)
    }
}

} // verus!
