//! Statements: the tree, the grammar that says which tokens form which
//! statement, and the parser that follows that grammar.

use crate::ast::expr::Expr;
use crate::ast::expr::ExprView;
use crate::ast::expr::Grammar;
use crate::ast::value::Value;
use crate::ast::value::ValueView;
use crate::lexer::Token;
use crate::lexer::TokenView;
use crate::lexer::views;
use crate::parser::Parser;
use crate::parser::analyzer::error::ParseError;
use crate::parser::config::ParserConfig;
use crate::parser::stream::Fault;
use crate::parser::stream::Outcome;
use crate::parser::stream::lemma_consumed_all;
use crate::parser::stream::lemma_significant_prefix;
use crate::parser::stream::progress;
use crate::parser::stream::token_at;
use vstd::prelude::*;

verus! {

/// A statement. Every node owns its children.
#[derive(Debug, PartialEq)]
#[allow(inconsistent_fields)]
pub enum Stmt {
    /// let name = value;
    Let { name: String, value: Expr },
    /// const name = value;
    Const { name: String, value: Expr },
    /// fn name(params) { body }
    Function { name: String, params: Vec<String>, body: Box<Stmt> },
    /// if condition { then_branch } else { else_branch }
    If { condition: Expr, then_branch: Box<Stmt>, else_branch: Option<Box<Stmt>> },
    /// return value;
    Return { value: Option<Expr> },
    /// { statements }
    Block { statements: Vec<Stmt> },
    /// expr;
    Expression { expr: Expr },
    /// import "module" or import module;
    Import { module: String },
    /// export statement;
    Export { statement: Box<Stmt> },
    /// while condition { body }
    While { condition: Expr, body: Box<Stmt> },
    /// for (init; condition; update) { body }
    For { init: Option<Box<Stmt>>, condition: Option<Expr>, update: Option<Expr>, body: Box<Stmt> },
    /// break;
    Break,
    /// continue;
    Continue,
}

/// What a [`Stmt`] denotes: the same tree over sequences.
#[allow(inconsistent_fields)]
pub enum StmtView {
    Let { name: Seq<char>, value: ExprView },
    Const { name: Seq<char>, value: ExprView },
    Function { name: Seq<char>, params: Seq<Seq<char>>, body: Box<StmtView> },
    If { condition: ExprView, then_branch: Box<StmtView>, else_branch: Option<Box<StmtView>> },
    Return { value: Option<ExprView> },
    Block { statements: Seq<StmtView> },
    Expression { expr: ExprView },
    Import { module: Seq<char> },
    Export { statement: Box<StmtView> },
    While { condition: ExprView, body: Box<StmtView> },
    For {
        init: Option<Box<StmtView>>,
        condition: Option<ExprView>,
        update: Option<ExprView>,
        body: Box<StmtView>,
    },
    Break,
    Continue,
}

/// The view of an optional expression.
pub open spec fn optional_view(e: Option<Expr>) -> Option<ExprView> {
    match e {
        Some(expr) => Some(expr@),
        None => None,
    }
}

/// The views of a list of names.
pub open spec fn names_view(names: Seq<String>) -> Seq<Seq<char>> {
    Seq::new(names.len(), |i: int| names[i]@)
}

/// The view of a statement.
pub open spec fn stmt_view(s: Stmt) -> StmtView
    decreases s,
{
    match s {
        Stmt::Let { name, value } => StmtView::Let { name: name@, value: value@ },
        Stmt::Const { name, value } => StmtView::Const { name: name@, value: value@ },
        Stmt::Function { name, params, body } => StmtView::Function {
            name: name@,
            params: names_view(params@),
            body: Box::new(stmt_view(*body)),
        },
        Stmt::If { condition, then_branch, else_branch } => StmtView::If {
            condition: condition@,
            then_branch: Box::new(stmt_view(*then_branch)),
            else_branch: match else_branch {
                Some(other) => Some(Box::new(stmt_view(*other))),
                None => None,
            },
        },
        Stmt::Return { value } => StmtView::Return { value: optional_view(value) },
        Stmt::Block { statements } => StmtView::Block {
            statements: Seq::new(
                statements@.len(),
                |i: int|
                    if 0 <= i < statements@.len() {
                        stmt_view(statements@[i])
                    } else {
                        StmtView::Break
                    },
            ),
        },
        Stmt::Expression { expr } => StmtView::Expression { expr: expr@ },
        Stmt::Import { module } => StmtView::Import { module: module@ },
        Stmt::Export { statement } => StmtView::Export { statement: Box::new(stmt_view(*statement)) },
        Stmt::While { condition, body } => StmtView::While {
            condition: condition@,
            body: Box::new(stmt_view(*body)),
        },
        Stmt::For { init, condition, update, body } => StmtView::For {
            init: match init {
                Some(first) => Some(Box::new(stmt_view(*first))),
                None => None,
            },
            condition: optional_view(condition),
            update: optional_view(update),
            body: Box::new(stmt_view(*body)),
        },
        Stmt::Break => StmtView::Break,
        Stmt::Continue => StmtView::Continue,
    }
}

impl View for Stmt {
    type V = StmtView;

    open spec fn view(&self) -> StmtView {
        stmt_view(*self)
    }
}

/// A copy of an optional expression.
fn duplicate_optional(e: &Option<Expr>) -> (r: Option<Expr>)
    ensures
        optional_view(r) == optional_view(*e),
{
    match e {
        Some(expr) => Some(expr.duplicate()),
        None => None,
    }
}

/// A copy of a list of names.
fn duplicate_names(names: &Vec<String>) -> (r: Vec<String>)
    ensures
        names_view(r@) == names_view(names@),
{
    let mut copies: Vec<String> = Vec::new();
    let mut at: usize = 0;
    while at < names.len()
        invariant
            at <= names.len(),
            copies.len() == at,
            forall|i: int| 0 <= i < at ==> copies@[i]@ == names@[i]@,
        decreases names.len() - at,
    {
        copies.push(names[at].clone());
        at += 1;
    }
    assert(names_view(copies@) =~= names_view(names@));
    copies
}

impl Stmt {
    /// A copy of the tree.
    #[verifier::rlimit(40)]
    pub fn duplicate(&self) -> (r: Stmt)
        ensures
            r@ == self@,
        decreases self,
    {
        match self {
            Stmt::Let { name, value } => Stmt::Let { name: name.clone(), value: value.duplicate() },
            Stmt::Const { name, value } => Stmt::Const {
                name: name.clone(),
                value: value.duplicate(),
            },
            Stmt::Function { name, params, body } => Stmt::Function {
                name: name.clone(),
                params: duplicate_names(params),
                body: Box::new(body.duplicate()),
            },
            Stmt::If { condition, then_branch, else_branch } => Stmt::If {
                condition: condition.duplicate(),
                then_branch: Box::new(then_branch.duplicate()),
                else_branch: match else_branch {
                    Some(other) => Some(Box::new(other.duplicate())),
                    None => None,
                },
            },
            Stmt::Return { value } => Stmt::Return { value: duplicate_optional(value) },
            Stmt::Block { statements } => {
                let copies = Stmt::duplicate_all(self, statements);
                assert forall|i: int| 0 <= i < statements.len() implies stmt_view(copies@[i])
                    == stmt_view(statements@[i]) by {
                    assert(copies[i]@ == statements[i]@);
                }
                let r = Stmt::Block { statements: copies };
                assert(r@->statements =~= self@->statements);
                r
            },
            Stmt::Expression { expr } => Stmt::Expression { expr: expr.duplicate() },
            Stmt::Import { module } => Stmt::Import { module: module.clone() },
            Stmt::Export { statement } => Stmt::Export {
                statement: Box::new(statement.duplicate()),
            },
            Stmt::While { condition, body } => Stmt::While {
                condition: condition.duplicate(),
                body: Box::new(body.duplicate()),
            },
            Stmt::For { init, condition, update, body } => Stmt::For {
                init: match init {
                    Some(first) => Some(Box::new(first.duplicate())),
                    None => None,
                },
                condition: duplicate_optional(condition),
                update: duplicate_optional(update),
                body: Box::new(body.duplicate()),
            },
            Stmt::Break => Stmt::Break,
            Stmt::Continue => Stmt::Continue,
        }
    }

    /// Copies of the statements `list`, which are the children of `parent`.
    fn duplicate_all(parent: &Stmt, list: &Vec<Stmt>) -> (r: Vec<Stmt>)
        requires
            forall|i: int| 0 <= i < list.len() ==> decreases_to!(*parent => #[trigger] list[i]),
        ensures
            r.len() == list.len(),
            forall|i: int| 0 <= i < list.len() ==> #[trigger] r[i]@ == list[i]@,
        decreases parent, 0int,
    {
        let mut copies: Vec<Stmt> = Vec::new();
        let mut at: usize = 0;
        while at < list.len()
            invariant
                at <= list.len(),
                copies.len() == at,
                forall|i: int| 0 <= i < list.len() ==> decreases_to!(*parent => #[trigger] list[i]),
                forall|i: int| 0 <= i < at ==> #[trigger] copies[i]@ == list[i]@,
            decreases list.len() - at,
        {
            proof {
                assert(decreases_to!(*parent => list[at as int]));
            }
            copies.push(list[at].duplicate());
            at += 1;
        }
        copies
    }
}

impl Clone for Stmt {
    fn clone(&self) -> (r: Stmt)
        ensures
            r@ == self@,
    {
        self.duplicate()
    }
}

/// The views of a list of statements.
pub open spec fn stmts_view(list: Seq<Stmt>) -> Seq<StmtView> {
    Seq::new(list.len(), |i: int| list[i]@)
}

/// The outcome `inner` of a guarded production that is entered at `depth`:
/// at the configured limit the production fails before it reads a token.
pub open spec fn guarded<T>(depth: nat, config: ParserConfig, at: int, inner: Outcome<T>)
    -> Outcome<T> {
    if depth >= config.max_recursion_depth {
        Err(Fault::TooDeep { at })
    } else {
        inner
    }
}

/// `value` behind the token `want`, which must stand at `at`.
pub open spec fn closed_by<T>(stream: Seq<TokenView>, at: int, want: TokenView, value: T)
    -> Outcome<T> {
    match Grammar::expect(stream, at, want) {
        Ok(after) => Ok((value, after)),
        Err(fault) => Err(fault),
    }
}

/// The grammar of statements. Every statement but `break` and `continue` is a
/// guarded production: its rule is entered one level deeper.
impl Grammar {
    /// The identifier at `at`, or the fault that names `expected`.
    pub open spec fn name(stream: Seq<TokenView>, at: int, expected: Seq<char>) -> Result<
        Seq<char>,
        Fault,
    > {
        match token_at(stream, at) {
            Some(TokenView::Identifier(name)) => Ok(name),
            _ => Err(Fault::Unexpected { expected, at }),
        }
    }

    /// `let` name, optionally `=` and a value, `;`. Without a value the
    /// variable is bound to the `Null` literal.
    pub open spec fn let_rule(stream: Seq<TokenView>, at: int, depth: nat, config: ParserConfig)
        -> Outcome<StmtView> {
        match Grammar::expect(stream, at, TokenView::Let) {
            Ok(named) => match Grammar::name(stream, named, "identifier"@) {
                Ok(name) => if token_at(stream, named + 1) == Some(TokenView::Equal) {
                    match Grammar::expression(stream, named + 2, depth, config) {
                        Ok((value, next)) => closed_by(
                            stream,
                            next,
                            TokenView::Semicolon,
                            StmtView::Let { name, value },
                        ),
                        Err(fault) => Err(fault),
                    }
                } else {
                    closed_by(
                        stream,
                        named + 1,
                        TokenView::Semicolon,
                        StmtView::Let { name, value: ExprView::Literal(ValueView::Null) },
                    )
                },
                Err(fault) => Err(fault),
            },
            Err(fault) => Err(fault),
        }
    }

    /// `const` name `=` value `;`.
    pub open spec fn const_rule(
        stream: Seq<TokenView>,
        at: int,
        depth: nat,
        config: ParserConfig,
    ) -> Outcome<StmtView> {
        match Grammar::expect(stream, at, TokenView::Const) {
            Ok(named) => match Grammar::name(stream, named, "identifier"@) {
                Ok(name) => match Grammar::expect(stream, named + 1, TokenView::Equal) {
                    Ok(valued) => match Grammar::expression(stream, valued, depth, config) {
                        Ok((value, next)) => closed_by(
                            stream,
                            next,
                            TokenView::Semicolon,
                            StmtView::Const { name, value },
                        ),
                        Err(fault) => Err(fault),
                    },
                    Err(fault) => Err(fault),
                },
                Err(fault) => Err(fault),
            },
            Err(fault) => Err(fault),
        }
    }

    /// The parameter names of a function up to the closing parenthesis, which
    /// is not taken: identifiers separated by commas, with a trailing comma
    /// where the configuration allows one.
    pub open spec fn params(stream: Seq<TokenView>, at: int, config: ParserConfig) -> Outcome<
        Seq<Seq<char>>,
    >
        decreases stream.len() - at,
    {
        if token_at(stream, at) == Some(TokenView::RightParen) {
            Ok((Seq::empty(), at))
        } else {
            match Grammar::name(stream, at, "parameter name"@) {
                Ok(name) => {
                    if token_at(stream, at + 1) == Some(TokenView::Comma) {
                        if token_at(stream, at + 2) == Some(TokenView::RightParen) {
                            if config.allow_trailing_commas {
                                Ok((seq![name], at + 2))
                            } else {
                                Err(
                                    Fault::Forbidden {
                                        message: Grammar::trailing_comma_message(
                                            TokenView::RightParen,
                                        ),
                                        at: at + 2,
                                    },
                                )
                            }
                        } else {
                            match Grammar::params(stream, at + 2, config) {
                                Ok((rest, after)) => Ok((seq![name] + rest, after)),
                                Err(fault) => Err(fault),
                            }
                        }
                    } else if token_at(stream, at + 1) == Some(TokenView::RightParen) {
                        Ok((seq![name], at + 1))
                    } else {
                        Err(
                            Fault::Unexpected {
                                expected: Grammar::separator_hint(TokenView::RightParen),
                                at: at + 1,
                            },
                        )
                    }
                },
                Err(fault) => Err(fault),
            }
        }
    }

    /// `fn` name `(` parameters `)` block.
    pub open spec fn function_rule(
        stream: Seq<TokenView>,
        at: int,
        depth: nat,
        config: ParserConfig,
    ) -> Outcome<StmtView>
        decreases stream.len() - at, 10int,
    {
        match Grammar::expect(stream, at, TokenView::Fn) {
            Ok(named) => match Grammar::name(stream, named, "function name"@) {
                Ok(name) => match Grammar::expect(stream, named + 1, TokenView::LeftParen) {
                    Ok(listed) => match progress(
                        Grammar::params(stream, listed, config),
                        at,
                        stream.len(),
                    ) {
                        Ok((params, next)) => match Grammar::expect(
                            stream,
                            next,
                            TokenView::RightParen,
                        ) {
                            Ok(bodied) => match Grammar::block(stream, bodied, depth, config) {
                                Ok((body, after)) => Ok(
                                    (StmtView::Function { name, params, body: Box::new(body) }, after),
                                ),
                                Err(fault) => Err(fault),
                            },
                            Err(fault) => Err(fault),
                        },
                        Err(fault) => Err(fault),
                    },
                    Err(fault) => Err(fault),
                },
                Err(fault) => Err(fault),
            },
            Err(fault) => Err(fault),
        }
    }

    /// `if` condition block, optionally `else` and another `if` or a block.
    /// Every arm of an else-if chain is an `If` node of its own.
    pub open spec fn if_rule(stream: Seq<TokenView>, at: int, depth: nat, config: ParserConfig)
        -> Outcome<StmtView>
        decreases stream.len() - at, 10int,
    {
        match Grammar::expect(stream, at, TokenView::If) {
            Ok(tested) => match progress(
                Grammar::expression(stream, tested, depth, config),
                at,
                stream.len(),
            ) {
                Ok((condition, next)) => match progress(
                    Grammar::block(stream, next, depth, config),
                    at,
                    stream.len(),
                ) {
                    Ok((then_branch, after)) => {
                        if token_at(stream, after) == Some(TokenView::Else) {
                            let other = if token_at(stream, after + 1) == Some(TokenView::If) {
                                Grammar::if_statement(stream, after + 1, depth, config)
                            } else {
                                Grammar::block(stream, after + 1, depth, config)
                            };
                            match other {
                                Ok((else_branch, end)) => Ok(
                                    (
                                        StmtView::If {
                                            condition,
                                            then_branch: Box::new(then_branch),
                                            else_branch: Some(Box::new(else_branch)),
                                        },
                                        end,
                                    ),
                                ),
                                Err(fault) => Err(fault),
                            }
                        } else {
                            Ok(
                                (
                                    StmtView::If {
                                        condition,
                                        then_branch: Box::new(then_branch),
                                        else_branch: None,
                                    },
                                    after,
                                ),
                            )
                        }
                    },
                    Err(fault) => Err(fault),
                },
                Err(fault) => Err(fault),
            },
            Err(fault) => Err(fault),
        }
    }

    /// `return`, optionally a value, `;`.
    pub open spec fn return_rule(
        stream: Seq<TokenView>,
        at: int,
        depth: nat,
        config: ParserConfig,
    ) -> Outcome<StmtView> {
        match Grammar::expect(stream, at, TokenView::Return) {
            Ok(valued) => {
                if token_at(stream, valued) == Some(TokenView::Semicolon) || token_at(
                    stream,
                    valued,
                ).is_none() {
                    closed_by(
                        stream,
                        valued,
                        TokenView::Semicolon,
                        StmtView::Return { value: None },
                    )
                } else {
                    match Grammar::expression(stream, valued, depth, config) {
                        Ok((value, next)) => closed_by(
                            stream,
                            next,
                            TokenView::Semicolon,
                            StmtView::Return { value: Some(value) },
                        ),
                        Err(fault) => Err(fault),
                    }
                }
            },
            Err(fault) => Err(fault),
        }
    }

    /// The statements of a block up to its closing brace or the end of input.
    pub open spec fn block_items(
        stream: Seq<TokenView>,
        at: int,
        depth: nat,
        config: ParserConfig,
    ) -> Outcome<Seq<StmtView>>
        decreases stream.len() - at, 21int,
    {
        if token_at(stream, at) == Some(TokenView::RightBrace) || token_at(stream, at).is_none() {
            Ok((Seq::empty(), at))
        } else {
            match progress(Grammar::statement(stream, at, depth, config), at, stream.len()) {
                Ok((first, next)) => match Grammar::block_items(stream, next, depth, config) {
                    Ok((rest, after)) => Ok((seq![first] + rest, after)),
                    Err(fault) => Err(fault),
                },
                Err(fault) => Err(fault),
            }
        }
    }

    /// `{` statements `}`.
    pub open spec fn block_rule(
        stream: Seq<TokenView>,
        at: int,
        depth: nat,
        config: ParserConfig,
    ) -> Outcome<StmtView>
        decreases stream.len() - at, 10int,
    {
        match Grammar::expect(stream, at, TokenView::LeftBrace) {
            Ok(inside) => match Grammar::block_items(stream, inside, depth, config) {
                Ok((statements, next)) => closed_by(
                    stream,
                    next,
                    TokenView::RightBrace,
                    StmtView::Block { statements },
                ),
                Err(fault) => Err(fault),
            },
            Err(fault) => Err(fault),
        }
    }

    /// `import`, a string literal or an identifier, `;`.
    pub open spec fn import_rule(stream: Seq<TokenView>, at: int) -> Outcome<StmtView> {
        match Grammar::expect(stream, at, TokenView::Import) {
            Ok(named) => match token_at(stream, named) {
                Some(TokenView::StringLiteral(module)) => closed_by(
                    stream,
                    named + 1,
                    TokenView::Semicolon,
                    StmtView::Import { module },
                ),
                Some(TokenView::Identifier(module)) => closed_by(
                    stream,
                    named + 1,
                    TokenView::Semicolon,
                    StmtView::Import { module },
                ),
                _ => Err(Fault::Unexpected { expected: "module name"@, at: named }),
            },
            Err(fault) => Err(fault),
        }
    }

    /// `export` and the statement that is exported.
    pub open spec fn export_rule(
        stream: Seq<TokenView>,
        at: int,
        depth: nat,
        config: ParserConfig,
    ) -> Outcome<StmtView>
        decreases stream.len() - at, 10int,
    {
        match Grammar::expect(stream, at, TokenView::Export) {
            Ok(inner) => match Grammar::statement(stream, inner, depth, config) {
                Ok((statement, after)) => Ok(
                    (StmtView::Export { statement: Box::new(statement) }, after),
                ),
                Err(fault) => Err(fault),
            },
            Err(fault) => Err(fault),
        }
    }

    /// An expression and `;`.
    pub open spec fn expression_rule(
        stream: Seq<TokenView>,
        at: int,
        depth: nat,
        config: ParserConfig,
    ) -> Outcome<StmtView> {
        match Grammar::expression(stream, at, depth, config) {
            Ok((expr, next)) => closed_by(
                stream,
                next,
                TokenView::Semicolon,
                StmtView::Expression { expr },
            ),
            Err(fault) => Err(fault),
        }
    }

    /// `while` condition block.
    pub open spec fn while_rule(
        stream: Seq<TokenView>,
        at: int,
        depth: nat,
        config: ParserConfig,
    ) -> Outcome<StmtView>
        decreases stream.len() - at, 10int,
    {
        match Grammar::expect(stream, at, TokenView::While) {
            Ok(tested) => match progress(
                Grammar::expression(stream, tested, depth, config),
                at,
                stream.len(),
            ) {
                Ok((condition, next)) => match Grammar::block(stream, next, depth, config) {
                    Ok((body, after)) => Ok(
                        (StmtView::While { condition, body: Box::new(body) }, after),
                    ),
                    Err(fault) => Err(fault),
                },
                Err(fault) => Err(fault),
            },
            Err(fault) => Err(fault),
        }
    }

    /// The first part of a `for` head: `;` alone, or a statement, which
    /// brings its own `;`.
    pub open spec fn for_init(stream: Seq<TokenView>, at: int, depth: nat, config: ParserConfig)
        -> Outcome<Option<Box<StmtView>>>
        decreases stream.len() - at, 22int,
    {
        if token_at(stream, at) == Some(TokenView::Semicolon) {
            Ok((None, at + 1))
        } else {
            match Grammar::statement(stream, at, depth, config) {
                Ok((init, next)) => Ok((Some(Box::new(init)), next)),
                Err(fault) => Err(fault),
            }
        }
    }

    /// The second part of a `for` head: `;` alone, or a condition and `;`.
    pub open spec fn for_condition(
        stream: Seq<TokenView>,
        at: int,
        depth: nat,
        config: ParserConfig,
    ) -> Outcome<Option<ExprView>> {
        if token_at(stream, at) == Some(TokenView::Semicolon) {
            Ok((None, at + 1))
        } else {
            match Grammar::expression(stream, at, depth, config) {
                Ok((condition, next)) => closed_by(
                    stream,
                    next,
                    TokenView::Semicolon,
                    Some(condition),
                ),
                Err(fault) => Err(fault),
            }
        }
    }

    /// The third part of a `for` head: nothing before `)`, or an update.
    pub open spec fn for_update(
        stream: Seq<TokenView>,
        at: int,
        depth: nat,
        config: ParserConfig,
    ) -> Outcome<Option<ExprView>> {
        if token_at(stream, at) == Some(TokenView::RightParen) {
            Ok((None, at))
        } else {
            match Grammar::expression(stream, at, depth, config) {
                Ok((update, next)) => Ok((Some(update), next)),
                Err(fault) => Err(fault),
            }
        }
    }

    /// `for` `(` init condition update `)` block.
    pub open spec fn for_rule(stream: Seq<TokenView>, at: int, depth: nat, config: ParserConfig)
        -> Outcome<StmtView>
        decreases stream.len() - at, 10int,
    {
        match Grammar::expect(stream, at, TokenView::For) {
            Ok(opened) => match Grammar::expect(stream, opened, TokenView::LeftParen) {
                Ok(first) => match progress(
                    Grammar::for_init(stream, first, depth, config),
                    at,
                    stream.len(),
                ) {
                    Ok((init, second)) => match progress(
                        Grammar::for_condition(stream, second, depth, config),
                        at,
                        stream.len(),
                    ) {
                        Ok((condition, third)) => match progress(
                            Grammar::for_update(stream, third, depth, config),
                            at,
                            stream.len(),
                        ) {
                            Ok((update, next)) => match Grammar::expect(
                                stream,
                                next,
                                TokenView::RightParen,
                            ) {
                                Ok(bodied) => match Grammar::block(stream, bodied, depth, config) {
                                    Ok((body, after)) => Ok(
                                        (
                                            StmtView::For {
                                                init,
                                                condition,
                                                update,
                                                body: Box::new(body),
                                            },
                                            after,
                                        ),
                                    ),
                                    Err(fault) => Err(fault),
                                },
                                Err(fault) => Err(fault),
                            },
                            Err(fault) => Err(fault),
                        },
                        Err(fault) => Err(fault),
                    },
                    Err(fault) => Err(fault),
                },
                Err(fault) => Err(fault),
            },
            Err(fault) => Err(fault),
        }
    }

    /// The keyword `word` and `;`: `break` and `continue`.
    pub open spec fn simple(stream: Seq<TokenView>, at: int, word: TokenView, value: StmtView)
        -> Outcome<StmtView> {
        match Grammar::expect(stream, at, word) {
            Ok(next) => closed_by(stream, next, TokenView::Semicolon, value),
            Err(fault) => Err(fault),
        }
    }

    /// A guarded `if` statement.
    pub open spec fn if_statement(
        stream: Seq<TokenView>,
        at: int,
        depth: nat,
        config: ParserConfig,
    ) -> Outcome<StmtView>
        decreases stream.len() - at, 11int,
    {
        guarded(depth, config, at, Grammar::if_rule(stream, at, depth + 1, config))
    }

    /// A guarded block.
    pub open spec fn block(stream: Seq<TokenView>, at: int, depth: nat, config: ParserConfig)
        -> Outcome<StmtView>
        decreases stream.len() - at, 11int,
    {
        guarded(depth, config, at, Grammar::block_rule(stream, at, depth + 1, config))
    }

    /// A statement, chosen by its first token: `let`, `const`, `fn`, `if`,
    /// `while`, `for`, `break`, `continue`, `return`, `{`, `import`,
    /// `export`; anything else starts an expression statement.
    pub open spec fn statement(
        stream: Seq<TokenView>,
        at: int,
        depth: nat,
        config: ParserConfig,
    ) -> Outcome<StmtView>
        decreases stream.len() - at, 20int,
    {
        match token_at(stream, at) {
            Some(TokenView::Let) => guarded(
                depth,
                config,
                at,
                Grammar::let_rule(stream, at, depth + 1, config),
            ),
            Some(TokenView::Const) => guarded(
                depth,
                config,
                at,
                Grammar::const_rule(stream, at, depth + 1, config),
            ),
            Some(TokenView::Fn) => guarded(
                depth,
                config,
                at,
                Grammar::function_rule(stream, at, depth + 1, config),
            ),
            Some(TokenView::If) => Grammar::if_statement(stream, at, depth, config),
            Some(TokenView::While) => guarded(
                depth,
                config,
                at,
                Grammar::while_rule(stream, at, depth + 1, config),
            ),
            Some(TokenView::For) => guarded(
                depth,
                config,
                at,
                Grammar::for_rule(stream, at, depth + 1, config),
            ),
            Some(TokenView::Break) => Grammar::simple(stream, at, TokenView::Break, StmtView::Break),
            Some(TokenView::Continue) => Grammar::simple(
                stream,
                at,
                TokenView::Continue,
                StmtView::Continue,
            ),
            Some(TokenView::Return) => guarded(
                depth,
                config,
                at,
                Grammar::return_rule(stream, at, depth + 1, config),
            ),
            Some(TokenView::LeftBrace) => Grammar::block(stream, at, depth, config),
            Some(TokenView::Import) => guarded(
                depth,
                config,
                at,
                Grammar::import_rule(stream, at),
            ),
            Some(TokenView::Export) => guarded(
                depth,
                config,
                at,
                Grammar::export_rule(stream, at, depth + 1, config),
            ),
            _ => guarded(depth, config, at, Grammar::expression_rule(stream, at, depth + 1, config)),
        }
    }

    /// The statement that starts at `at`, guarded. What follows it is not
    /// read.
    pub open spec fn first_statement(
        stream: Seq<TokenView>,
        at: int,
        depth: nat,
        config: ParserConfig,
    ) -> Result<StmtView, Fault> {
        match guarded(depth, config, at, Grammar::statement(stream, at, depth + 1, config)) {
            Ok((statement, _)) => Ok(statement),
            Err(fault) => Err(fault),
        }
    }

    /// A source that begins with a statement.
    pub open spec fn sole_statement(stream: Seq<TokenView>, config: ParserConfig) -> Result<
        StmtView,
        Fault,
    > {
        Grammar::first_statement(stream, 0, 0, config)
    }

    /// The statements of a program from `at` on, each with the index of its
    /// first token, up to the end of the stream. Every statement is a guarded
    /// production entered at `depth`.
    pub open spec fn program(stream: Seq<TokenView>, at: int, depth: nat, config: ParserConfig)
        -> Result<Seq<(StmtView, int)>, Fault>
        decreases stream.len() - at,
    {
        if at < 0 || at >= stream.len() {
            Ok(Seq::empty())
        } else {
            match progress(
                guarded(depth, config, at, Grammar::statement(stream, at, depth + 1, config)),
                at,
                stream.len(),
            ) {
                Ok((first, next)) => match Grammar::program(stream, next, depth, config) {
                    Ok(rest) => Ok(seq![(first, at)] + rest),
                    Err(fault) => Err(fault),
                },
                Err(fault) => Err(fault),
            }
        }
    }
}


/// `result`, reached with the parser in state `after`, is what the grammar's
/// outcome `want` says for the parser that started in state `before`.
pub open spec fn yields_stmt(
    before: &Parser,
    after: &Parser,
    result: Result<Stmt, ParseError>,
    want: Outcome<StmtView>,
) -> bool {
    match result {
        Ok(stmt) => want == Ok::<(StmtView, int), Fault>((stmt@, after.cursor())),
        Err(error) => want matches Err(fault) && error@ == before.report(fault),
    }
}

/// The list `rest` behind the items `head` that are already read.
pub open spec fn after_items<T>(head: Seq<T>, rest: Outcome<Seq<T>>) -> Outcome<Seq<T>> {
    match rest {
        Ok((more, next)) => Ok((head + more, next)),
        Err(fault) => Err(fault),
    }
}

proof fn lemma_cursor_in_stream(parser: &Parser)
    requires
        parser.pos <= parser.tokens.len(),
    ensures
        0 <= parser.cursor() <= parser.stream().len(),
{
    lemma_significant_prefix(views(parser.tokens@), parser.pos as int);
    lemma_consumed_all(views(parser.tokens@));
}

impl Stmt {
    /// Takes the identifier that must stand next; `expected` names it in the
    /// error.
    fn take_name<'a>(parser: &mut Parser<'a>, expected: &str) -> (r: Result<String, ParseError>)
        requires
            old(parser).wf(),
        ensures
            final(parser).wf(),
            final(parser).moved_from(old(parser)),
            match r {
                Ok(name) => {
                    &&& Grammar::name(old(parser).stream(), old(parser).cursor(), expected@) == Ok::<
                        Seq<char>,
                        Fault,
                    >(name@)
                    &&& final(parser).cursor() == old(parser).cursor() + 1
                    &&& final(parser).pos > old(parser).pos
                },
                Err(error) => Grammar::name(old(parser).stream(), old(parser).cursor(), expected@)
                    matches Err(fault) && error@ == old(parser).report(fault),
            },
    {
        let name = match parser.peek() {
            Some(Token::Identifier(name)) => Some(name.clone()),
            _ => None,
        };
        match name {
            Some(name) => {
                parser.advance();
                Ok(name)
            },
            None => Err(parser.error("", Some(expected))),
        }
    }

    /// Parses `let` name, optionally `=` and a value, `;`.
    pub fn parse_let<'a>(parser: &mut Parser<'a>) -> (r: Result<Self, ParseError>)
        requires
            old(parser).wf(),
        ensures
            final(parser).wf(),
            final(parser).moved_from(old(parser)),
            yields_stmt(old(parser), final(parser), r, guarded(old(parser).level(), old(parser).config, old(parser).cursor(), Grammar::let_rule(old(parser).stream(), old(parser).cursor(), old(parser).level() + 1, old(parser).config))),
            r is Ok ==> final(parser).pos > old(parser).pos && final(parser).cursor() > old(parser).cursor(),
        decreases old(parser).tokens.len() - old(parser).pos, 12int,
    {
        match parser.enter() {
            Err(error) => {
                return Err(error);
            },
            Ok(_) => {},
        }
        let result = Self::let_rule(parser);
        parser.leave();
        result
    }

    #[verifier::rlimit(40)]
    fn let_rule<'a>(parser: &mut Parser<'a>) -> (r: Result<Self, ParseError>)
        requires
            old(parser).wf(),
        ensures
            final(parser).wf(),
            final(parser).moved_from(old(parser)),
            yields_stmt(old(parser), final(parser), r, Grammar::let_rule(old(parser).stream(), old(parser).cursor(), old(parser).level(), old(parser).config)),
            r is Ok ==> final(parser).pos > old(parser).pos && final(parser).cursor() > old(parser).cursor(),
        decreases old(parser).tokens.len() - old(parser).pos, 10int,
    {
        match parser.expect(Token::Let) {
            Err(error) => {
                return Err(error);
            },
            Ok(_) => {},
        }
        let name = match Self::take_name(parser, "identifier") {
            Ok(name) => name,
            Err(error) => {
                return Err(error);
            },
        };
        let has_value = match parser.peek() {
            Some(token) => matches!(token, Token::Equal),
            None => false,
        };
        let value = if has_value {
            parser.advance();
            match Expr::parse_assignment(parser) {
                Ok(value) => value,
                Err(error) => {
                    return Err(error);
                },
            }
        } else {
            Expr::Literal(Value::Null)
        };
        match parser.expect(Token::Semicolon) {
            Ok(_) => Ok(Stmt::Let { name, value }),
            Err(error) => Err(error),
        }
    }

    /// Parses `const` name `=` value `;`.
    pub fn parse_const<'a>(parser: &mut Parser<'a>) -> (r: Result<Self, ParseError>)
        requires
            old(parser).wf(),
        ensures
            final(parser).wf(),
            final(parser).moved_from(old(parser)),
            yields_stmt(old(parser), final(parser), r, guarded(old(parser).level(), old(parser).config, old(parser).cursor(), Grammar::const_rule(old(parser).stream(), old(parser).cursor(), old(parser).level() + 1, old(parser).config))),
            r is Ok ==> final(parser).pos > old(parser).pos && final(parser).cursor() > old(parser).cursor(),
        decreases old(parser).tokens.len() - old(parser).pos, 12int,
    {
        match parser.enter() {
            Err(error) => {
                return Err(error);
            },
            Ok(_) => {},
        }
        let result = Self::const_rule(parser);
        parser.leave();
        result
    }

    fn const_rule<'a>(parser: &mut Parser<'a>) -> (r: Result<Self, ParseError>)
        requires
            old(parser).wf(),
        ensures
            final(parser).wf(),
            final(parser).moved_from(old(parser)),
            yields_stmt(old(parser), final(parser), r, Grammar::const_rule(old(parser).stream(), old(parser).cursor(), old(parser).level(), old(parser).config)),
            r is Ok ==> final(parser).pos > old(parser).pos && final(parser).cursor() > old(parser).cursor(),
        decreases old(parser).tokens.len() - old(parser).pos, 10int,
    {
        match parser.expect(Token::Const) {
            Err(error) => {
                return Err(error);
            },
            Ok(_) => {},
        }
        let name = match Self::take_name(parser, "identifier") {
            Ok(name) => name,
            Err(error) => {
                return Err(error);
            },
        };
        match parser.expect(Token::Equal) {
            Err(error) => {
                return Err(error);
            },
            Ok(_) => {},
        }
        let value = match Expr::parse_assignment(parser) {
            Ok(value) => value,
            Err(error) => {
                return Err(error);
            },
        };
        match parser.expect(Token::Semicolon) {
            Ok(_) => Ok(Stmt::Const { name, value }),
            Err(error) => Err(error),
        }
    }

    /// Parses `fn` name `(` parameters `)` block.
    pub fn parse_function<'a>(parser: &mut Parser<'a>) -> (r: Result<Self, ParseError>)
        requires
            old(parser).wf(),
        ensures
            final(parser).wf(),
            final(parser).moved_from(old(parser)),
            yields_stmt(old(parser), final(parser), r, guarded(old(parser).level(), old(parser).config, old(parser).cursor(), Grammar::function_rule(old(parser).stream(), old(parser).cursor(), old(parser).level() + 1, old(parser).config))),
            r is Ok ==> final(parser).pos > old(parser).pos && final(parser).cursor() > old(parser).cursor(),
        decreases old(parser).tokens.len() - old(parser).pos, 12int,
    {
        match parser.enter() {
            Err(error) => {
                return Err(error);
            },
            Ok(_) => {},
        }
        let result = Self::function_rule(parser);
        parser.leave();
        result
    }

    #[verifier::rlimit(40)]
    fn function_rule<'a>(parser: &mut Parser<'a>) -> (r: Result<Self, ParseError>)
        requires
            old(parser).wf(),
        ensures
            final(parser).wf(),
            final(parser).moved_from(old(parser)),
            yields_stmt(old(parser), final(parser), r, Grammar::function_rule(old(parser).stream(), old(parser).cursor(), old(parser).level(), old(parser).config)),
            r is Ok ==> final(parser).pos > old(parser).pos && final(parser).cursor() > old(parser).cursor(),
        decreases old(parser).tokens.len() - old(parser).pos, 10int,
    {
        match parser.expect(Token::Fn) {
            Err(error) => {
                return Err(error);
            },
            Ok(_) => {},
        }
        let name = match Self::take_name(parser, "function name") {
            Ok(name) => name,
            Err(error) => {
                return Err(error);
            },
        };
        match parser.expect(Token::LeftParen) {
            Err(error) => {
                return Err(error);
            },
            Ok(_) => {},
        }
        let params = match Self::parse_parameter_list(parser) {
            Ok(params) => params,
            Err(error) => {
                return Err(error);
            },
        };
        proof {
            lemma_cursor_in_stream(parser);
        }
        match parser.expect(Token::RightParen) {
            Err(error) => {
                return Err(error);
            },
            Ok(_) => {},
        }
        match Self::parse_block(parser) {
            Ok(body) => Ok(Stmt::Function { name, params, body: Box::new(body) }),
            Err(error) => Err(error),
        }
    }

    /// Parses the parameter names of a function up to the closing
    /// parenthesis, which it leaves.
    #[verifier::rlimit(40)]
    pub fn parse_parameter_list<'a>(parser: &mut Parser<'a>) -> (r: Result<
        Vec<String>,
        ParseError,
    >)
        requires
            old(parser).wf(),
        ensures
            final(parser).wf(),
            final(parser).moved_from(old(parser)),
            match r {
                Ok(params) => Grammar::params(
                    old(parser).stream(),
                    old(parser).cursor(),
                    old(parser).config,
                ) == Ok::<(Seq<Seq<char>>, int), Fault>((names_view(params@), final(parser).cursor())),
                Err(error) => Grammar::params(
                    old(parser).stream(),
                    old(parser).cursor(),
                    old(parser).config,
                ) matches Err(fault) && error@ == old(parser).report(fault),
            },
    {
        let ghost goal = Grammar::params(parser.stream(), parser.cursor(), parser.config);
        let mut params: Vec<String> = Vec::new();
        proof {
            assert(names_view(params@) =~= Seq::<Seq<char>>::empty());
            match goal {
                Ok((more, next)) => {
                    assert(names_view(params@) + more =~= more);
                },
                Err(_) => {},
            }
        }
        loop
            invariant
                parser.wf(),
                parser.moved_from(old(parser)),
                goal == Grammar::params(
                    old(parser).stream(),
                    old(parser).cursor(),
                    old(parser).config,
                ),
                after_items(
                    names_view(params@),
                    Grammar::params(parser.stream(), parser.cursor(), parser.config),
                ) == goal,
            ensures
                parser.wf(),
                parser.moved_from(old(parser)),
                goal == Ok::<(Seq<Seq<char>>, int), Fault>((names_view(params@), parser.cursor())),
            decreases parser.tokens.len() - parser.pos,
        {
            let ghost head = names_view(params@);
            let at_end = match parser.peek() {
                Some(token) => matches!(token, Token::RightParen),
                None => false,
            };
            if at_end {
                proof {
                    assert(head + Seq::<Seq<char>>::empty() =~= head);
                }
                break;
            }
            let ghost at = parser.cursor();
            match Self::take_name(parser, "parameter name") {
                Ok(name) => {
                    proof {
                        assert(names_view(params@.push(name)) =~= head.push(name@));
                        assert(head + seq![name@] =~= head.push(name@));
                    }
                    let ghost shown = name@;
                    params.push(name);
                    let comma = match parser.peek() {
                        Some(token) => matches!(token, Token::Comma),
                        None => false,
                    };
                    let closing = match parser.peek() {
                        Some(token) => matches!(token, Token::RightParen),
                        None => false,
                    };
                    if comma {
                        parser.advance();
                        let trailing = match parser.peek() {
                            Some(token) => matches!(token, Token::RightParen),
                            None => false,
                        };
                        if trailing {
                            // Handle trailing comma if configured
                            if parser.config.allow_trailing_commas() {
                                break;
                            } else {
                                return Err(
                                    parser.error("trailing ',' before ')' is not allowed", None),
                                );
                            }
                        } else {
                            proof {
                                match Grammar::params(parser.stream(), at + 2, parser.config) {
                                    Ok((rest, after)) => {
                                        assert(head.push(shown) + rest =~= head + (seq![shown]
                                            + rest));
                                    },
                                    Err(_) => {},
                                }
                            }
                        }
                    } else if closing {
                        break;
                    } else {
                        return Err(parser.error("", Some("',' or ')'")));
                    }
                },
                Err(error) => {
                    return Err(error);
                },
            }
        }
        Ok(params)
    }

    /// Parses `if` condition block and what follows `else`.
    pub fn parse_if<'a>(parser: &mut Parser<'a>) -> (r: Result<Self, ParseError>)
        requires
            old(parser).wf(),
        ensures
            final(parser).wf(),
            final(parser).moved_from(old(parser)),
            yields_stmt(old(parser), final(parser), r, Grammar::if_statement(old(parser).stream(), old(parser).cursor(), old(parser).level(), old(parser).config)),
            r is Ok ==> final(parser).pos > old(parser).pos && final(parser).cursor() > old(parser).cursor(),
        decreases old(parser).tokens.len() - old(parser).pos, 11int,
    {
        match parser.enter() {
            Err(error) => {
                return Err(error);
            },
            Ok(_) => {},
        }
        let result = Self::if_rule(parser);
        parser.leave();
        result
    }

    #[verifier::rlimit(40)]
    fn if_rule<'a>(parser: &mut Parser<'a>) -> (r: Result<Self, ParseError>)
        requires
            old(parser).wf(),
        ensures
            final(parser).wf(),
            final(parser).moved_from(old(parser)),
            yields_stmt(old(parser), final(parser), r, Grammar::if_rule(old(parser).stream(), old(parser).cursor(), old(parser).level(), old(parser).config)),
            r is Ok ==> final(parser).pos > old(parser).pos && final(parser).cursor() > old(parser).cursor(),
        decreases old(parser).tokens.len() - old(parser).pos, 10int,
    {
        match parser.expect(Token::If) {
            Err(error) => {
                return Err(error);
            },
            Ok(_) => {},
        }
        let condition = match Expr::parse_assignment(parser) {
            Ok(condition) => condition,
            Err(error) => {
                return Err(error);
            },
        };
        proof {
            lemma_cursor_in_stream(parser);
        }
        let then_branch = match Self::parse_block(parser) {
            Ok(block) => block,
            Err(error) => {
                return Err(error);
            },
        };
        proof {
            lemma_cursor_in_stream(parser);
        }
        if parser.consume(&Token::Else) {
            let chained = match parser.peek() {
                Some(token) => matches!(token, Token::If),
                None => false,
            };
            let other = if chained {
                Self::parse_if(parser)
            } else {
                Self::parse_block(parser)
            };
            match other {
                Ok(else_branch) => Ok(
                    Stmt::If {
                        condition,
                        then_branch: Box::new(then_branch),
                        else_branch: Some(Box::new(else_branch)),
                    },
                ),
                Err(error) => Err(error),
            }
        } else {
            Ok(Stmt::If { condition, then_branch: Box::new(then_branch), else_branch: None })
        }
    }

    /// Parses `return`, optionally a value, `;`.
    pub fn parse_return<'a>(parser: &mut Parser<'a>) -> (r: Result<Self, ParseError>)
        requires
            old(parser).wf(),
        ensures
            final(parser).wf(),
            final(parser).moved_from(old(parser)),
            yields_stmt(old(parser), final(parser), r, guarded(old(parser).level(), old(parser).config, old(parser).cursor(), Grammar::return_rule(old(parser).stream(), old(parser).cursor(), old(parser).level() + 1, old(parser).config))),
            r is Ok ==> final(parser).pos > old(parser).pos && final(parser).cursor() > old(parser).cursor(),
        decreases old(parser).tokens.len() - old(parser).pos, 12int,
    {
        match parser.enter() {
            Err(error) => {
                return Err(error);
            },
            Ok(_) => {},
        }
        let result = Self::return_rule(parser);
        parser.leave();
        result
    }

    fn return_rule<'a>(parser: &mut Parser<'a>) -> (r: Result<Self, ParseError>)
        requires
            old(parser).wf(),
        ensures
            final(parser).wf(),
            final(parser).moved_from(old(parser)),
            yields_stmt(old(parser), final(parser), r, Grammar::return_rule(old(parser).stream(), old(parser).cursor(), old(parser).level(), old(parser).config)),
            r is Ok ==> final(parser).pos > old(parser).pos && final(parser).cursor() > old(parser).cursor(),
        decreases old(parser).tokens.len() - old(parser).pos, 10int,
    {
        match parser.expect(Token::Return) {
            Err(error) => {
                return Err(error);
            },
            Ok(_) => {},
        }
        let bare = match parser.peek() {
            Some(token) => matches!(token, Token::Semicolon),
            None => true,
        };
        let value = if bare {
            None
        } else {
            match Expr::parse_assignment(parser) {
                Ok(value) => Some(value),
                Err(error) => {
                    return Err(error);
                },
            }
        };
        match parser.expect(Token::Semicolon) {
            Ok(_) => Ok(Stmt::Return { value }),
            Err(error) => Err(error),
        }
    }

    /// Parses `{` statements `}`.
    pub fn parse_block<'a>(parser: &mut Parser<'a>) -> (r: Result<Self, ParseError>)
        requires
            old(parser).wf(),
        ensures
            final(parser).wf(),
            final(parser).moved_from(old(parser)),
            yields_stmt(old(parser), final(parser), r, Grammar::block(old(parser).stream(), old(parser).cursor(), old(parser).level(), old(parser).config)),
            r is Ok ==> final(parser).pos > old(parser).pos && final(parser).cursor() > old(parser).cursor(),
        decreases old(parser).tokens.len() - old(parser).pos, 11int,
    {
        match parser.enter() {
            Err(error) => {
                return Err(error);
            },
            Ok(_) => {},
        }
        let result = Self::block_rule(parser);
        parser.leave();
        result
    }

    #[verifier::rlimit(40)]
    fn block_rule<'a>(parser: &mut Parser<'a>) -> (r: Result<Self, ParseError>)
        requires
            old(parser).wf(),
        ensures
            final(parser).wf(),
            final(parser).moved_from(old(parser)),
            yields_stmt(old(parser), final(parser), r, Grammar::block_rule(old(parser).stream(), old(parser).cursor(), old(parser).level(), old(parser).config)),
            r is Ok ==> final(parser).pos > old(parser).pos && final(parser).cursor() > old(parser).cursor(),
        decreases old(parser).tokens.len() - old(parser).pos, 10int,
    {
        match parser.expect(Token::LeftBrace) {
            Err(error) => {
                return Err(error);
            },
            Ok(_) => {},
        }
        let ghost goal = Grammar::block_items(
            parser.stream(),
            parser.cursor(),
            parser.level(),
            parser.config,
        );
        let ghost inside = parser.cursor();
        let mut statements: Vec<Stmt> = Vec::new();
        proof {
            assert(stmts_view(statements@) =~= Seq::<StmtView>::empty());
            match goal {
                Ok((more, next)) => {
                    assert(stmts_view(statements@) + more =~= more);
                },
                Err(_) => {},
            }
        }
        loop
            invariant
                parser.wf(),
                parser.moved_from(old(parser)),
                parser.pos > old(parser).pos,
                parser.cursor() > old(parser).cursor(),
                inside == old(parser).cursor() + 1,
                Grammar::expect(old(parser).stream(), old(parser).cursor(), TokenView::LeftBrace)
                    == Ok::<int, Fault>(inside),
                goal == Grammar::block_items(
                    old(parser).stream(),
                    inside,
                    old(parser).level(),
                    old(parser).config,
                ),
                after_items(
                    stmts_view(statements@),
                    Grammar::block_items(
                        parser.stream(),
                        parser.cursor(),
                        parser.level(),
                        parser.config,
                    ),
                ) == goal,
            ensures
                parser.wf(),
                parser.moved_from(old(parser)),
                parser.pos > old(parser).pos,
                parser.cursor() > old(parser).cursor(),
                goal == Ok::<(Seq<StmtView>, int), Fault>(
                    (stmts_view(statements@), parser.cursor()),
                ),
            decreases parser.tokens.len() - parser.pos,
        {
            let ghost head = stmts_view(statements@);
            let at_end = match parser.peek() {
                Some(token) => matches!(token, Token::RightBrace),
                None => true,
            };
            if at_end {
                proof {
                    assert(head + Seq::<StmtView>::empty() =~= head);
                }
                break;
            }
            proof {
                lemma_cursor_in_stream(parser);
            }
            match Self::parse_statement(parser) {
                Ok(statement) => {
                    proof {
                        lemma_cursor_in_stream(parser);
                        assert(stmts_view(statements@.push(statement)) =~= head.push(statement@));
                        match Grammar::block_items(
                            parser.stream(),
                            parser.cursor(),
                            parser.level(),
                            parser.config,
                        ) {
                            Ok((rest, after)) => {
                                assert(head.push(statement@) + rest =~= head + (seq![statement@]
                                    + rest));
                            },
                            Err(_) => {},
                        }
                    }
                    statements.push(statement);
                },
                Err(error) => {
                    return Err(error);
                },
            }
        }
        let ghost shown = stmts_view(statements@);
        match parser.expect(Token::RightBrace) {
            Ok(_) => {
                let block = Stmt::Block { statements };
                assert(block@->statements =~= shown);
                Ok(block)
            },
            Err(error) => Err(error),
        }
    }

    /// Parses `import`, a string literal or an identifier, `;`.
    pub fn parse_import<'a>(parser: &mut Parser<'a>) -> (r: Result<Self, ParseError>)
        requires
            old(parser).wf(),
        ensures
            final(parser).wf(),
            final(parser).moved_from(old(parser)),
            yields_stmt(old(parser), final(parser), r, guarded(old(parser).level(), old(parser).config, old(parser).cursor(), Grammar::import_rule(old(parser).stream(), old(parser).cursor()))),
            r is Ok ==> final(parser).pos > old(parser).pos && final(parser).cursor() > old(parser).cursor(),
        decreases old(parser).tokens.len() - old(parser).pos, 12int,
    {
        match parser.enter() {
            Err(error) => {
                return Err(error);
            },
            Ok(_) => {},
        }
        let result = Self::import_rule(parser);
        parser.leave();
        result
    }

    fn import_rule<'a>(parser: &mut Parser<'a>) -> (r: Result<Self, ParseError>)
        requires
            old(parser).wf(),
        ensures
            final(parser).wf(),
            final(parser).moved_from(old(parser)),
            yields_stmt(old(parser), final(parser), r, Grammar::import_rule(old(parser).stream(), old(parser).cursor())),
            r is Ok ==> final(parser).pos > old(parser).pos && final(parser).cursor() > old(parser).cursor(),
        decreases old(parser).tokens.len() - old(parser).pos, 10int,
    {
        match parser.expect(Token::Import) {
            Err(error) => {
                return Err(error);
            },
            Ok(_) => {},
        }
        let named = match parser.peek() {
            Some(Token::StringLiteral(module)) => Some(module.clone()),
            Some(Token::Identifier(module)) => Some(module.clone()),
            _ => None,
        };
        let module = match named {
            Some(module) => {
                parser.advance();
                module
            },
            None => {
                return Err(parser.error("", Some("module name")));
            },
        };
        match parser.expect(Token::Semicolon) {
            Ok(_) => Ok(Stmt::Import { module }),
            Err(error) => Err(error),
        }
    }

    /// Parses `export` and the statement that is exported.
    pub fn parse_export<'a>(parser: &mut Parser<'a>) -> (r: Result<Self, ParseError>)
        requires
            old(parser).wf(),
        ensures
            final(parser).wf(),
            final(parser).moved_from(old(parser)),
            yields_stmt(old(parser), final(parser), r, guarded(old(parser).level(), old(parser).config, old(parser).cursor(), Grammar::export_rule(old(parser).stream(), old(parser).cursor(), old(parser).level() + 1, old(parser).config))),
            r is Ok ==> final(parser).pos > old(parser).pos && final(parser).cursor() > old(parser).cursor(),
        decreases old(parser).tokens.len() - old(parser).pos, 12int,
    {
        match parser.enter() {
            Err(error) => {
                return Err(error);
            },
            Ok(_) => {},
        }
        let result = Self::export_rule(parser);
        parser.leave();
        result
    }

    fn export_rule<'a>(parser: &mut Parser<'a>) -> (r: Result<Self, ParseError>)
        requires
            old(parser).wf(),
        ensures
            final(parser).wf(),
            final(parser).moved_from(old(parser)),
            yields_stmt(old(parser), final(parser), r, Grammar::export_rule(old(parser).stream(), old(parser).cursor(), old(parser).level(), old(parser).config)),
            r is Ok ==> final(parser).pos > old(parser).pos && final(parser).cursor() > old(parser).cursor(),
        decreases old(parser).tokens.len() - old(parser).pos, 10int,
    {
        match parser.expect(Token::Export) {
            Err(error) => {
                return Err(error);
            },
            Ok(_) => {},
        }
        match Self::parse_statement(parser) {
            Ok(statement) => Ok(Stmt::Export { statement: Box::new(statement) }),
            Err(error) => Err(error),
        }
    }

    /// Parses an expression and `;`.
    pub fn parse_expression_stmt<'a>(parser: &mut Parser<'a>) -> (r: Result<Self, ParseError>)
        requires
            old(parser).wf(),
        ensures
            final(parser).wf(),
            final(parser).moved_from(old(parser)),
            yields_stmt(old(parser), final(parser), r, guarded(old(parser).level(), old(parser).config, old(parser).cursor(), Grammar::expression_rule(old(parser).stream(), old(parser).cursor(), old(parser).level() + 1, old(parser).config))),
            r is Ok ==> final(parser).pos > old(parser).pos && final(parser).cursor() > old(parser).cursor(),
        decreases old(parser).tokens.len() - old(parser).pos, 12int,
    {
        match parser.enter() {
            Err(error) => {
                return Err(error);
            },
            Ok(_) => {},
        }
        let result = Self::expression_rule(parser);
        parser.leave();
        result
    }

    fn expression_rule<'a>(parser: &mut Parser<'a>) -> (r: Result<Self, ParseError>)
        requires
            old(parser).wf(),
        ensures
            final(parser).wf(),
            final(parser).moved_from(old(parser)),
            yields_stmt(old(parser), final(parser), r, Grammar::expression_rule(old(parser).stream(), old(parser).cursor(), old(parser).level(), old(parser).config)),
            r is Ok ==> final(parser).pos > old(parser).pos && final(parser).cursor() > old(parser).cursor(),
        decreases old(parser).tokens.len() - old(parser).pos, 10int,
    {
        let expr = match Expr::parse_assignment(parser) {
            Ok(expr) => expr,
            Err(error) => {
                return Err(error);
            },
        };
        match parser.expect(Token::Semicolon) {
            Ok(_) => Ok(Stmt::Expression { expr }),
            Err(error) => Err(error),
        }
    }

    /// Parses `while` condition block.
    pub fn parse_while<'a>(parser: &mut Parser<'a>) -> (r: Result<Self, ParseError>)
        requires
            old(parser).wf(),
        ensures
            final(parser).wf(),
            final(parser).moved_from(old(parser)),
            yields_stmt(old(parser), final(parser), r, guarded(old(parser).level(), old(parser).config, old(parser).cursor(), Grammar::while_rule(old(parser).stream(), old(parser).cursor(), old(parser).level() + 1, old(parser).config))),
            r is Ok ==> final(parser).pos > old(parser).pos && final(parser).cursor() > old(parser).cursor(),
        decreases old(parser).tokens.len() - old(parser).pos, 12int,
    {
        match parser.enter() {
            Err(error) => {
                return Err(error);
            },
            Ok(_) => {},
        }
        let result = Self::while_rule(parser);
        parser.leave();
        result
    }

    fn while_rule<'a>(parser: &mut Parser<'a>) -> (r: Result<Self, ParseError>)
        requires
            old(parser).wf(),
        ensures
            final(parser).wf(),
            final(parser).moved_from(old(parser)),
            yields_stmt(old(parser), final(parser), r, Grammar::while_rule(old(parser).stream(), old(parser).cursor(), old(parser).level(), old(parser).config)),
            r is Ok ==> final(parser).pos > old(parser).pos && final(parser).cursor() > old(parser).cursor(),
        decreases old(parser).tokens.len() - old(parser).pos, 10int,
    {
        match parser.expect(Token::While) {
            Err(error) => {
                return Err(error);
            },
            Ok(_) => {},
        }
        let condition = match Expr::parse_assignment(parser) {
            Ok(condition) => condition,
            Err(error) => {
                return Err(error);
            },
        };
        proof {
            lemma_cursor_in_stream(parser);
        }
        match Self::parse_block(parser) {
            Ok(body) => Ok(Stmt::While { condition, body: Box::new(body) }),
            Err(error) => Err(error),
        }
    }

    /// Parses `for` `(` init condition update `)` block.
    pub fn parse_for<'a>(parser: &mut Parser<'a>) -> (r: Result<Self, ParseError>)
        requires
            old(parser).wf(),
        ensures
            final(parser).wf(),
            final(parser).moved_from(old(parser)),
            yields_stmt(old(parser), final(parser), r, guarded(old(parser).level(), old(parser).config, old(parser).cursor(), Grammar::for_rule(old(parser).stream(), old(parser).cursor(), old(parser).level() + 1, old(parser).config))),
            r is Ok ==> final(parser).pos > old(parser).pos && final(parser).cursor() > old(parser).cursor(),
        decreases old(parser).tokens.len() - old(parser).pos, 12int,
    {
        match parser.enter() {
            Err(error) => {
                return Err(error);
            },
            Ok(_) => {},
        }
        let result = Self::for_rule(parser);
        parser.leave();
        result
    }

    #[verifier::rlimit(40)]
    fn for_rule<'a>(parser: &mut Parser<'a>) -> (r: Result<Self, ParseError>)
        requires
            old(parser).wf(),
        ensures
            final(parser).wf(),
            final(parser).moved_from(old(parser)),
            yields_stmt(old(parser), final(parser), r, Grammar::for_rule(old(parser).stream(), old(parser).cursor(), old(parser).level(), old(parser).config)),
            r is Ok ==> final(parser).pos > old(parser).pos && final(parser).cursor() > old(parser).cursor(),
        decreases old(parser).tokens.len() - old(parser).pos, 10int,
    {
        match parser.expect(Token::For) {
            Err(error) => {
                return Err(error);
            },
            Ok(_) => {},
        }
        match parser.expect(Token::LeftParen) {
            Err(error) => {
                return Err(error);
            },
            Ok(_) => {},
        }
        // Parse init (optional)
        let no_init = match parser.peek() {
            Some(token) => matches!(token, Token::Semicolon),
            None => false,
        };
        let init = if no_init {
            parser.advance();
            None
        } else {
            match Self::parse_statement(parser) {
                Ok(statement) => Some(Box::new(statement)),
                Err(error) => {
                    return Err(error);
                },
            }
        };
        proof {
            lemma_cursor_in_stream(parser);
        }
        // Parse condition (optional)
        let no_condition = match parser.peek() {
            Some(token) => matches!(token, Token::Semicolon),
            None => false,
        };
        let condition = if no_condition {
            parser.advance();
            None
        } else {
            match Expr::parse_assignment(parser) {
                Ok(condition) => match parser.expect(Token::Semicolon) {
                    Ok(_) => Some(condition),
                    Err(error) => {
                        return Err(error);
                    },
                },
                Err(error) => {
                    return Err(error);
                },
            }
        };
        proof {
            lemma_cursor_in_stream(parser);
        }
        // Parse update (optional)
        let no_update = match parser.peek() {
            Some(token) => matches!(token, Token::RightParen),
            None => false,
        };
        let update = if no_update {
            None
        } else {
            match Expr::parse_assignment(parser) {
                Ok(update) => Some(update),
                Err(error) => {
                    return Err(error);
                },
            }
        };
        proof {
            lemma_cursor_in_stream(parser);
        }
        match parser.expect(Token::RightParen) {
            Err(error) => {
                return Err(error);
            },
            Ok(_) => {},
        }
        match Self::parse_block(parser) {
            Ok(body) => Ok(Stmt::For { init, condition, update, body: Box::new(body) }),
            Err(error) => Err(error),
        }
    }

    /// Parses `break` `;`.
    pub fn parse_break<'a>(parser: &mut Parser<'a>) -> (r: Result<Self, ParseError>)
        requires
            old(parser).wf(),
        ensures
            final(parser).wf(),
            final(parser).moved_from(old(parser)),
            yields_stmt(old(parser), final(parser), r, Grammar::simple(old(parser).stream(), old(parser).cursor(), TokenView::Break, StmtView::Break)),
            r is Ok ==> final(parser).pos > old(parser).pos && final(parser).cursor() > old(parser).cursor(),
    {
        match parser.expect(Token::Break) {
            Err(error) => {
                return Err(error);
            },
            Ok(_) => {},
        }
        match parser.expect(Token::Semicolon) {
            Ok(_) => Ok(Stmt::Break),
            Err(error) => Err(error),
        }
    }

    /// Parses `continue` `;`.
    pub fn parse_continue<'a>(parser: &mut Parser<'a>) -> (r: Result<Self, ParseError>)
        requires
            old(parser).wf(),
        ensures
            final(parser).wf(),
            final(parser).moved_from(old(parser)),
            yields_stmt(old(parser), final(parser), r, Grammar::simple(old(parser).stream(), old(parser).cursor(), TokenView::Continue, StmtView::Continue)),
            r is Ok ==> final(parser).pos > old(parser).pos && final(parser).cursor() > old(parser).cursor(),
    {
        match parser.expect(Token::Continue) {
            Err(error) => {
                return Err(error);
            },
            Ok(_) => {},
        }
        match parser.expect(Token::Semicolon) {
            Ok(_) => Ok(Stmt::Continue),
            Err(error) => Err(error),
        }
    }

    /// Parses one statement, chosen by its first token.
    #[verifier::rlimit(40)]
    pub fn parse_statement<'a>(parser: &mut Parser<'a>) -> (r: Result<Self, ParseError>)
        requires
            old(parser).wf(),
        ensures
            final(parser).wf(),
            final(parser).moved_from(old(parser)),
            yields_stmt(old(parser), final(parser), r, Grammar::statement(old(parser).stream(), old(parser).cursor(), old(parser).level(), old(parser).config)),
            r is Ok ==> final(parser).pos > old(parser).pos && final(parser).cursor() > old(parser).cursor(),
        decreases old(parser).tokens.len() - old(parser).pos, 20int,
    {
        let kind: u8 = match parser.peek() {
            Some(Token::Let) => 1,
            Some(Token::Const) => 2,
            Some(Token::Fn) => 3,
            Some(Token::If) => 4,
            Some(Token::While) => 5,
            Some(Token::For) => 6,
            Some(Token::Break) => 7,
            Some(Token::Continue) => 8,
            Some(Token::Return) => 9,
            Some(Token::LeftBrace) => 10,
            Some(Token::Import) => 11,
            Some(Token::Export) => 12,
            _ => 0,
        };
        if kind == 1 {
            Self::parse_let(parser)
        } else if kind == 2 {
            Self::parse_const(parser)
        } else if kind == 3 {
            Self::parse_function(parser)
        } else if kind == 4 {
            Self::parse_if(parser)
        } else if kind == 5 {
            Self::parse_while(parser)
        } else if kind == 6 {
            Self::parse_for(parser)
        } else if kind == 7 {
            Self::parse_break(parser)
        } else if kind == 8 {
            Self::parse_continue(parser)
        } else if kind == 9 {
            Self::parse_return(parser)
        } else if kind == 10 {
            Self::parse_block(parser)
        } else if kind == 11 {
            Self::parse_import(parser)
        } else if kind == 12 {
            Self::parse_export(parser)
        } else {
            Self::parse_expression_stmt(parser)
        }
    }
}

} // verus!
