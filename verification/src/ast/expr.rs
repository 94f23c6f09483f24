//! Expressions: the tree, the grammar that says which tokens form which
//! expression, and the parser that follows that grammar.

use crate::ast::op::BinaryOp;
use crate::ast::op::Precedence;
use crate::ast::op::UnaryOp;
use crate::ast::value::Value;
use crate::ast::value::ValueView;
use crate::lexer::Token;
use crate::lexer::TokenView;
use crate::lexer::views;
use crate::parser::Parser;
use crate::parser::analyzer::error::ParseError;
use crate::parser::config::ParserConfig;
use crate::parser::stream::Fault;
use crate::parser::stream::Outcome;
use crate::parser::stream::lemma_consumed_all;
use crate::parser::stream::lemma_significant_prefix;
use crate::parser::stream::progress;
use crate::parser::stream::token_at;
use vstd::prelude::*;

verus! {

/// An expression. Every node owns its children; parentheses are kept as
/// `Group`, so that `(a + b) * c` and `a + b * c` stay apart.
#[derive(Debug, PartialEq)]
#[allow(inconsistent_fields)]
pub enum Expr {
    // Literals and variables
    Literal(Value),
    Variable(String),
    // Binary operations
    Binary { op: BinaryOp, left: Box<Expr>, right: Box<Expr> },
    // Unary operations
    Unary { op: UnaryOp, operand: Box<Expr> },
    // Grouping
    Group(Box<Expr>),
    // Function calls
    Call { callee: Box<Expr>, args: Vec<Expr> },
    // Member access
    Member { object: Box<Expr>, property: String },
    // Array/object indexing
    Index { object: Box<Expr>, index: Box<Expr> },
    // Array literal
    Array { elements: Vec<Expr> },
    // Assignment
    Assignment { target: Box<Expr>, value: Box<Expr> },
    // Compound assignment (+=, -=, etc.)
    CompoundAssignment { target: Box<Expr>, op: BinaryOp, value: Box<Expr> },
    // Increment/Decrement
    PreIncrement { operand: Box<Expr> },
    PostIncrement { operand: Box<Expr> },
    PreDecrement { operand: Box<Expr> },
    PostDecrement { operand: Box<Expr> },
}

/// What an [`Expr`] denotes: the same tree over sequences.
#[allow(inconsistent_fields)]
pub enum ExprView {
    Literal(ValueView),
    Variable(Seq<char>),
    Binary { op: BinaryOp, left: Box<ExprView>, right: Box<ExprView> },
    Unary { op: UnaryOp, operand: Box<ExprView> },
    Group(Box<ExprView>),
    Call { callee: Box<ExprView>, args: Seq<ExprView> },
    Member { object: Box<ExprView>, property: Seq<char> },
    Index { object: Box<ExprView>, index: Box<ExprView> },
    Array { elements: Seq<ExprView> },
    Assignment { target: Box<ExprView>, value: Box<ExprView> },
    CompoundAssignment { target: Box<ExprView>, op: BinaryOp, value: Box<ExprView> },
    PreIncrement { operand: Box<ExprView> },
    PostIncrement { operand: Box<ExprView> },
    PreDecrement { operand: Box<ExprView> },
    PostDecrement { operand: Box<ExprView> },
}

/// The view of an expression.
pub open spec fn expr_view(e: Expr) -> ExprView
    decreases e,
{
    match e {
        Expr::Literal(value) => ExprView::Literal(value@),
        Expr::Variable(name) => ExprView::Variable(name@),
        Expr::Binary { op, left, right } => ExprView::Binary {
            op,
            left: Box::new(expr_view(*left)),
            right: Box::new(expr_view(*right)),
        },
        Expr::Unary { op, operand } => ExprView::Unary { op, operand: Box::new(expr_view(*operand)) },
        Expr::Group(inner) => ExprView::Group(Box::new(expr_view(*inner))),
        Expr::Call { callee, args } => ExprView::Call {
            callee: Box::new(expr_view(*callee)),
            args: Seq::new(
                args@.len(),
                |i: int|
                    if 0 <= i < args@.len() {
                        expr_view(args@[i])
                    } else {
                        ExprView::Literal(ValueView::Null)
                    },
            ),
        },
        Expr::Member { object, property } => ExprView::Member {
            object: Box::new(expr_view(*object)),
            property: property@,
        },
        Expr::Index { object, index } => ExprView::Index {
            object: Box::new(expr_view(*object)),
            index: Box::new(expr_view(*index)),
        },
        Expr::Array { elements } => ExprView::Array {
            elements: Seq::new(
                elements@.len(),
                |i: int|
                    if 0 <= i < elements@.len() {
                        expr_view(elements@[i])
                    } else {
                        ExprView::Literal(ValueView::Null)
                    },
            ),
        },
        Expr::Assignment { target, value } => ExprView::Assignment {
            target: Box::new(expr_view(*target)),
            value: Box::new(expr_view(*value)),
        },
        Expr::CompoundAssignment { target, op, value } => ExprView::CompoundAssignment {
            target: Box::new(expr_view(*target)),
            op,
            value: Box::new(expr_view(*value)),
        },
        Expr::PreIncrement { operand } => ExprView::PreIncrement {
            operand: Box::new(expr_view(*operand)),
        },
        Expr::PostIncrement { operand } => ExprView::PostIncrement {
            operand: Box::new(expr_view(*operand)),
        },
        Expr::PreDecrement { operand } => ExprView::PreDecrement {
            operand: Box::new(expr_view(*operand)),
        },
        Expr::PostDecrement { operand } => ExprView::PostDecrement {
            operand: Box::new(expr_view(*operand)),
        },
    }
}

impl View for Expr {
    type V = ExprView;

    open spec fn view(&self) -> ExprView {
        expr_view(*self)
    }
}

impl Expr {
    /// A copy of the tree.
    #[verifier::rlimit(40)]
    pub fn duplicate(&self) -> (r: Expr)
        ensures
            r@ == self@,
        decreases self,
    {
        match self {
            Expr::Literal(value) => Expr::Literal(value.clone()),
            Expr::Variable(name) => Expr::Variable(name.clone()),
            Expr::Binary { op, left, right } => Expr::Binary {
                op: *op,
                left: Box::new(left.duplicate()),
                right: Box::new(right.duplicate()),
            },
            Expr::Unary { op, operand } => Expr::Unary {
                op: *op,
                operand: Box::new(operand.duplicate()),
            },
            Expr::Group(inner) => Expr::Group(Box::new(inner.duplicate())),
            Expr::Call { callee, args } => {
                let copies = Expr::duplicate_all(self, args);
                assert forall|i: int| 0 <= i < args.len() implies expr_view(copies@[i])
                    == expr_view(args@[i]) by {
                    assert(copies[i]@ == args[i]@);
                }
                let r = Expr::Call { callee: Box::new(callee.duplicate()), args: copies };
                assert(r@->args =~= self@->args);
                r
            },
            Expr::Member { object, property } => Expr::Member {
                object: Box::new(object.duplicate()),
                property: property.clone(),
            },
            Expr::Index { object, index } => Expr::Index {
                object: Box::new(object.duplicate()),
                index: Box::new(index.duplicate()),
            },
            Expr::Array { elements } => {
                let copies = Expr::duplicate_all(self, elements);
                assert forall|i: int| 0 <= i < elements.len() implies expr_view(copies@[i])
                    == expr_view(elements@[i]) by {
                    assert(copies[i]@ == elements[i]@);
                }
                let r = Expr::Array { elements: copies };
                assert(r@->elements =~= self@->elements);
                r
            },
            Expr::Assignment { target, value } => Expr::Assignment {
                target: Box::new(target.duplicate()),
                value: Box::new(value.duplicate()),
            },
            Expr::CompoundAssignment { target, op, value } => Expr::CompoundAssignment {
                target: Box::new(target.duplicate()),
                op: *op,
                value: Box::new(value.duplicate()),
            },
            Expr::PreIncrement { operand } => Expr::PreIncrement {
                operand: Box::new(operand.duplicate()),
            },
            Expr::PostIncrement { operand } => Expr::PostIncrement {
                operand: Box::new(operand.duplicate()),
            },
            Expr::PreDecrement { operand } => Expr::PreDecrement {
                operand: Box::new(operand.duplicate()),
            },
            Expr::PostDecrement { operand } => Expr::PostDecrement {
                operand: Box::new(operand.duplicate()),
            },
        }
    }

    /// Copies of the expressions `list`, which are the children of `parent`.
    fn duplicate_all(parent: &Expr, list: &Vec<Expr>) -> (r: Vec<Expr>)
        requires
            forall|i: int| 0 <= i < list.len() ==> decreases_to!(*parent => #[trigger] list[i]),
        ensures
            r.len() == list.len(),
            forall|i: int| 0 <= i < list.len() ==> #[trigger] r[i]@ == list[i]@,
        decreases parent, 0int,
    {
        let mut copies: Vec<Expr> = Vec::new();
        let mut at: usize = 0;
        while at < list.len()
            invariant
                at <= list.len(),
                copies.len() == at,
                forall|i: int| 0 <= i < list.len() ==> decreases_to!(*parent => #[trigger] list[i]),
                forall|i: int| 0 <= i < at ==> #[trigger] copies[i]@ == list[i]@,
            decreases list.len() - at,
        {
            proof {
                assert(decreases_to!(*parent => list[at as int]));
            }
            copies.push(list[at].duplicate());
            at += 1;
        }
        copies
    }
}

impl Clone for Expr {
    fn clone(&self) -> (r: Expr)
        ensures
            r@ == self@,
    {
        self.duplicate()
    }
}

/// The views of a list of expressions.
pub open spec fn exprs_view(list: Seq<Expr>) -> Seq<ExprView> {
    Seq::new(list.len(), |i: int| list[i]@)
}

/// The grammar of expressions, as functions from a token stream and a start
/// index to what is built and where it ends.
///
/// `depth` counts the guarded productions (`assignment` and `binary`) that
/// are open; entering one at the configured limit fails with `TooDeep`.
pub struct Grammar;

impl Grammar {
    /// Takes the token `want` at `at`, or fails with its spelling as what
    /// was expected.
    pub open spec fn expect(stream: Seq<TokenView>, at: int, want: TokenView) -> Result<
        int,
        Fault,
    > {
        if token_at(stream, at) == Some(want) {
            Ok(at + 1)
        } else {
            Err(Fault::Unexpected { expected: want.spelling(), at })
        }
    }

    /// A literal, a variable, a parenthesized expression or an array literal.
    pub open spec fn primary(
        stream: Seq<TokenView>,
        at: int,
        depth: nat,
        config: ParserConfig,
    ) -> Outcome<ExprView>
        decreases stream.len() - at, 1int,
    {
        match token_at(stream, at) {
            Some(TokenView::IntLiteral(i)) => Ok((ExprView::Literal(ValueView::Int(i)), at + 1)),
            Some(TokenView::FloatLiteral(s)) => Ok(
                (ExprView::Literal(ValueView::Float(s)), at + 1),
            ),
            Some(TokenView::BoolTrue) => Ok((ExprView::Literal(ValueView::Bool(true)), at + 1)),
            Some(TokenView::BoolFalse) => Ok((ExprView::Literal(ValueView::Bool(false)), at + 1)),
            Some(TokenView::StringLiteral(s)) => Ok(
                (ExprView::Literal(ValueView::Str(s)), at + 1),
            ),
            Some(TokenView::Identifier(name)) => Ok((ExprView::Variable(name), at + 1)),
            Some(TokenView::LeftParen) => match Grammar::assignment(stream, at + 1, depth, config) {
                Ok((inner, next)) => match Grammar::expect(stream, next, TokenView::RightParen) {
                    Ok(after) => Ok((ExprView::Group(Box::new(inner)), after)),
                    Err(fault) => Err(fault),
                },
                Err(fault) => Err(fault),
            },
            Some(TokenView::LeftBracket) => Grammar::array_literal(stream, at, depth, config),
            _ => Err(Fault::Unexpected { expected: "expression"@, at }),
        }
    }

    /// `[`, elements separated by commas, `]`.
    pub open spec fn array_literal(
        stream: Seq<TokenView>,
        at: int,
        depth: nat,
        config: ParserConfig,
    ) -> Outcome<ExprView>
        decreases stream.len() - at, 0int,
    {
        match Grammar::expect(stream, at, TokenView::LeftBracket) {
            Ok(inside) => match Grammar::items(
                stream,
                inside,
                depth,
                config,
                TokenView::RightBracket,
            ) {
                Ok((elements, next)) => match Grammar::expect(
                    stream,
                    next,
                    TokenView::RightBracket,
                ) {
                    Ok(after) => Ok((ExprView::Array { elements }, after)),
                    Err(fault) => Err(fault),
                },
                Err(fault) => Err(fault),
            },
            Err(fault) => Err(fault),
        }
    }

    /// What a list names as missing where neither a comma nor its closing
    /// bracket follows an item.
    pub open spec fn separator_hint(closer: TokenView) -> Seq<char> {
        if closer == TokenView::RightBracket {
            "',' or ']'"@
        } else {
            "',' or ')'"@
        }
    }

    /// What a list says of a comma directly before its closing bracket where
    /// the configuration forbids one.
    pub open spec fn trailing_comma_message(closer: TokenView) -> Seq<char> {
        if closer == TokenView::RightBracket {
            "trailing ',' before ']' is not allowed"@
        } else {
            "trailing ',' before ')' is not allowed"@
        }
    }

    /// The items of a list up to its closing bracket `closer`, which is not
    /// taken: expressions separated by commas. A comma directly before the
    /// closing bracket is taken where the configuration allows trailing
    /// commas, and is `Forbidden` where it does not.
    pub open spec fn items(
        stream: Seq<TokenView>,
        at: int,
        depth: nat,
        config: ParserConfig,
        closer: TokenView,
    ) -> Outcome<Seq<ExprView>>
        decreases stream.len() - at, 7int,
    {
        if token_at(stream, at) == Some(closer) {
            Ok((Seq::empty(), at))
        } else {
            match progress(Grammar::assignment(stream, at, depth, config), at, stream.len()) {
                Ok((item, next)) => {
                    if token_at(stream, next) == Some(TokenView::Comma) {
                        if token_at(stream, next + 1) == Some(closer) {
                            if config.allow_trailing_commas {
                                Ok((seq![item], next + 1))
                            } else {
                                Err(
                                    Fault::Forbidden {
                                        message: Grammar::trailing_comma_message(closer),
                                        at: next + 1,
                                    },
                                )
                            }
                        } else {
                            match Grammar::items(stream, next + 1, depth, config, closer) {
                                Ok((rest, after)) => Ok((seq![item] + rest, after)),
                                Err(fault) => Err(fault),
                            }
                        }
                    } else if token_at(stream, next) == Some(closer) {
                        Ok((seq![item], next))
                    } else {
                        Err(
                            Fault::Unexpected {
                                expected: Grammar::separator_hint(closer),
                                at: next,
                            },
                        )
                    }
                },
                Err(fault) => Err(fault),
            }
        }
    }

    /// The call of `callee` whose opening parenthesis stands at `at`: the
    /// arguments and the closing parenthesis.
    pub open spec fn call(
        stream: Seq<TokenView>,
        at: int,
        depth: nat,
        config: ParserConfig,
        callee: ExprView,
    ) -> Outcome<ExprView>
        decreases stream.len() - at, 2int,
    {
        if 0 <= at < stream.len() {
            match Grammar::items(stream, at + 1, depth, config, TokenView::RightParen) {
                Ok((args, next)) => match Grammar::expect(stream, next, TokenView::RightParen) {
                    Ok(after) => Ok((ExprView::Call { callee: Box::new(callee), args }, after)),
                    Err(fault) => Err(fault),
                },
                Err(fault) => Err(fault),
            }
        } else {
            Err(Fault::Unexpected { expected: TokenView::LeftParen.spelling(), at })
        }
    }

    /// A primary followed by its postfix chain.
    pub open spec fn postfix(
        stream: Seq<TokenView>,
        at: int,
        depth: nat,
        config: ParserConfig,
    ) -> Outcome<ExprView>
        decreases stream.len() - at, 3int,
    {
        match progress(Grammar::primary(stream, at, depth, config), at, stream.len()) {
            Ok((operand, next)) => Grammar::postfix_chain(stream, next, depth, config, operand),
            Err(fault) => Err(fault),
        }
    }

    /// The postfix chain behind `operand`: `++`, `--`, `[index]`, `.name` and
    /// `(arguments)`, each applied to all that stands before it.
    pub open spec fn postfix_chain(
        stream: Seq<TokenView>,
        at: int,
        depth: nat,
        config: ParserConfig,
        operand: ExprView,
    ) -> Outcome<ExprView>
        decreases stream.len() - at, 8int,
    {
        match token_at(stream, at) {
            Some(TokenView::PlusPlus) => Grammar::postfix_chain(
                stream,
                at + 1,
                depth,
                config,
                ExprView::PostIncrement { operand: Box::new(operand) },
            ),
            Some(TokenView::MinusMinus) => Grammar::postfix_chain(
                stream,
                at + 1,
                depth,
                config,
                ExprView::PostDecrement { operand: Box::new(operand) },
            ),
            Some(TokenView::LeftBracket) => match progress(
                Grammar::assignment(stream, at + 1, depth, config),
                at,
                stream.len(),
            ) {
                Ok((index, next)) => match Grammar::expect(stream, next, TokenView::RightBracket) {
                    Ok(after) => Grammar::postfix_chain(
                        stream,
                        after,
                        depth,
                        config,
                        ExprView::Index { object: Box::new(operand), index: Box::new(index) },
                    ),
                    Err(fault) => Err(fault),
                },
                Err(fault) => Err(fault),
            },
            Some(TokenView::Dot) => match token_at(stream, at + 1) {
                Some(TokenView::Identifier(name)) => Grammar::postfix_chain(
                    stream,
                    at + 2,
                    depth,
                    config,
                    ExprView::Member { object: Box::new(operand), property: name },
                ),
                Some(_) => Err(Fault::Unexpected { expected: "identifier"@, at: at + 1 }),
                None => Err(Fault::Unexpected { expected: "property name"@, at: at + 1 }),
            },
            Some(TokenView::LeftParen) => match progress(
                Grammar::call(stream, at, depth, config, operand),
                at,
                stream.len(),
            ) {
                Ok((call, after)) => Grammar::postfix_chain(stream, after, depth, config, call),
                Err(fault) => Err(fault),
            },
            _ => Ok((operand, at)),
        }
    }

    /// Prefix operators: `!` and `-` before a unary expression, `++` and `--`
    /// before a postfix expression.
    pub open spec fn unary(
        stream: Seq<TokenView>,
        at: int,
        depth: nat,
        config: ParserConfig,
    ) -> Outcome<ExprView>
        decreases stream.len() - at, 4int,
    {
        match token_at(stream, at) {
            Some(token) => match UnaryOp::of_token(token) {
                Some(op) => match Grammar::unary(stream, at + 1, depth, config) {
                    Ok((operand, next)) => Ok(
                        (ExprView::Unary { op, operand: Box::new(operand) }, next),
                    ),
                    Err(fault) => Err(fault),
                },
                None => if token == TokenView::PlusPlus {
                    match Grammar::postfix(stream, at + 1, depth, config) {
                        Ok((operand, next)) => Ok(
                            (ExprView::PreIncrement { operand: Box::new(operand) }, next),
                        ),
                        Err(fault) => Err(fault),
                    }
                } else if token == TokenView::MinusMinus {
                    match Grammar::postfix(stream, at + 1, depth, config) {
                        Ok((operand, next)) => Ok(
                            (ExprView::PreDecrement { operand: Box::new(operand) }, next),
                        ),
                        Err(fault) => Err(fault),
                    }
                } else {
                    Grammar::postfix(stream, at, depth, config)
                },
            },
            None => Grammar::postfix(stream, at, depth, config),
        }
    }

    /// A chain of binary operators none of which binds looser than `min`: a
    /// unary expression, then by precedence climbing every operator of
    /// precedence `min` or more with its right operand. Guarded.
    pub open spec fn binary(
        stream: Seq<TokenView>,
        at: int,
        depth: nat,
        config: ParserConfig,
        min: u8,
    ) -> Outcome<ExprView>
        decreases stream.len() - at, 5int,
    {
        if depth >= config.max_recursion_depth {
            Err(Fault::TooDeep { at })
        } else {
            match progress(Grammar::unary(stream, at, depth + 1, config), at, stream.len()) {
                Ok((left, next)) => Grammar::climb(stream, next, depth + 1, config, min, left),
                Err(fault) => Err(fault),
            }
        }
    }

    /// The operators behind the left operand `left`. An operator that binds
    /// looser than `min` ends the chain. Any other takes as its right operand
    /// a chain whose floor is the operator's own precedence where it groups to
    /// the right and one more where it groups to the left; the two become the
    /// left operand of what follows.
    pub open spec fn climb(
        stream: Seq<TokenView>,
        at: int,
        depth: nat,
        config: ParserConfig,
        min: u8,
        left: ExprView,
    ) -> Outcome<ExprView>
        decreases stream.len() - at, 9int,
    {
        match token_at(stream, at) {
            Some(token) => match BinaryOp::of_token(token) {
                Some(op) => if op.spec_precedence() < min {
                    Ok((left, at))
                } else {
                    match progress(
                        Grammar::binary(stream, at + 1, depth, config, op.right_operand_floor()),
                        at,
                        stream.len(),
                    ) {
                        Ok((right, next)) => Grammar::climb(
                            stream,
                            next,
                            depth,
                            config,
                            min,
                            ExprView::Binary { op, left: Box::new(left), right: Box::new(right) },
                        ),
                        Err(fault) => Err(fault),
                    }
                },
                None => Ok((left, at)),
            },
            None => Ok((left, at)),
        }
    }

    /// A binary chain, and behind it `=` or a compound-assignment operator
    /// with the assignment that is its value: assignments group to the right,
    /// and any expression may stand as the target. Guarded.
    pub open spec fn assignment(
        stream: Seq<TokenView>,
        at: int,
        depth: nat,
        config: ParserConfig,
    ) -> Outcome<ExprView>
        decreases stream.len() - at, 6int,
    {
        if depth >= config.max_recursion_depth {
            Err(Fault::TooDeep { at })
        } else {
            match progress(Grammar::binary(stream, at, depth + 1, config, 0), at, stream.len()) {
                Ok((target, next)) => match token_at(stream, next) {
                    Some(TokenView::Equal) => match Grammar::assignment(
                        stream,
                        next + 1,
                        depth + 1,
                        config,
                    ) {
                        Ok((value, after)) => Ok(
                            (
                                ExprView::Assignment {
                                    target: Box::new(target),
                                    value: Box::new(value),
                                },
                                after,
                            ),
                        ),
                        Err(fault) => Err(fault),
                    },
                    Some(token) => match BinaryOp::of_compound(token) {
                        Some(op) => match Grammar::assignment(
                            stream,
                            next + 1,
                            depth + 1,
                            config,
                        ) {
                            Ok((value, after)) => Ok(
                                (
                                    ExprView::CompoundAssignment {
                                        target: Box::new(target),
                                        op,
                                        value: Box::new(value),
                                    },
                                    after,
                                ),
                            ),
                            Err(fault) => Err(fault),
                        },
                        None => Ok((target, next)),
                    },
                    None => Ok((target, next)),
                },
                Err(fault) => Err(fault),
            }
        }
    }

    /// An expression: an assignment.
    pub open spec fn expression(
        stream: Seq<TokenView>,
        at: int,
        depth: nat,
        config: ParserConfig,
    ) -> Outcome<ExprView> {
        Grammar::assignment(stream, at, depth, config)
    }

    /// The rest of the stream from `at` on as one expression: a guarded
    /// expression, behind which the stream must end.
    pub open spec fn rest_expression(
        stream: Seq<TokenView>,
        at: int,
        depth: nat,
        config: ParserConfig,
    ) -> Result<ExprView, Fault> {
        if depth >= config.max_recursion_depth {
            Err(Fault::TooDeep { at })
        } else {
            match Grammar::expression(stream, at, depth + 1, config) {
                Ok((expr, next)) => if next < stream.len() {
                    Err(Fault::Unexpected { expected: "end of input"@, at: next })
                } else {
                    Ok(expr)
                },
                Err(fault) => Err(fault),
            }
        }
    }

    /// A whole source that is one expression.
    pub open spec fn sole_expression(stream: Seq<TokenView>, config: ParserConfig) -> Result<
        ExprView,
        Fault,
    > {
        Grammar::rest_expression(stream, 0, 0, config)
    }
}


/// `result`, reached with the parser in state `after`, is what the grammar's
/// outcome `want` says for the parser that started in state `before`: the
/// same tree and end on success, the report of the same fault on failure.
pub open spec fn yields(
    before: &Parser,
    after: &Parser,
    result: Result<Expr, ParseError>,
    want: Outcome<ExprView>,
) -> bool {
    match result {
        Ok(expr) => want == Ok::<(ExprView, int), Fault>((expr@, after.cursor())),
        Err(error) => want matches Err(fault) && error@ == before.report(fault),
    }
}

/// As [`yields`], for a list of expressions.
pub open spec fn yields_list(
    before: &Parser,
    after: &Parser,
    result: Result<Vec<Expr>, ParseError>,
    want: Outcome<Seq<ExprView>>,
) -> bool {
    match result {
        Ok(list) => want == Ok::<(Seq<ExprView>, int), Fault>((exprs_view(list@), after.cursor())),
        Err(error) => want matches Err(fault) && error@ == before.report(fault),
    }
}

/// `items` behind the items `head` that a list already holds.
pub open spec fn behind(head: Seq<ExprView>, rest: Outcome<Seq<ExprView>>) -> Outcome<
    Seq<ExprView>,
> {
    match rest {
        Ok((more, next)) => Ok((head + more, next)),
        Err(fault) => Err(fault),
    }
}

proof fn lemma_cursor_in_stream(parser: &Parser)
    requires
        parser.pos <= parser.tokens.len(),
    ensures
        0 <= parser.cursor() <= parser.stream().len(),
{
    lemma_significant_prefix(views(parser.tokens@), parser.pos as int);
    lemma_consumed_all(views(parser.tokens@));
}

/// The leaf expression that a token is by itself, if it is one.
fn leaf_of(token: &Token) -> (r: Option<Expr>)
    ensures
        match r {
            Some(expr) => match token@ {
                TokenView::IntLiteral(i) => expr@ == ExprView::Literal(ValueView::Int(i)),
                TokenView::FloatLiteral(s) => expr@ == ExprView::Literal(ValueView::Float(s)),
                TokenView::BoolTrue => expr@ == ExprView::Literal(ValueView::Bool(true)),
                TokenView::BoolFalse => expr@ == ExprView::Literal(ValueView::Bool(false)),
                TokenView::StringLiteral(s) => expr@ == ExprView::Literal(ValueView::Str(s)),
                TokenView::Identifier(name) => expr@ == ExprView::Variable(name),
                _ => false,
            },
            None => !(token@ is IntLiteral || token@ is FloatLiteral || token@ is BoolTrue
                || token@ is BoolFalse || token@ is StringLiteral || token@ is Identifier),
        },
{
    match token {
        Token::IntLiteral(i) => Some(Expr::Literal(Value::Int(*i))),
        Token::FloatLiteral(s) => Some(Expr::Literal(Value::Float(s.clone()))),
        Token::BoolTrue => Some(Expr::Literal(Value::Bool(true))),
        Token::BoolFalse => Some(Expr::Literal(Value::Bool(false))),
        Token::StringLiteral(s) => Some(Expr::Literal(Value::Str(s.clone()))),
        Token::Identifier(name) => Some(Expr::Variable(name.clone())),
        _ => None,
    }
}

impl Expr {
    /// Parses a chain of binary operators none of which binds looser than
    /// `min_precedence`.
    pub fn parse_expression<'a>(parser: &mut Parser<'a>, min_precedence: u8) -> (r: Result<
        Self,
        ParseError,
    >)
        requires
            old(parser).wf(),
        ensures
            final(parser).wf(),
            final(parser).moved_from(old(parser)),
            yields(
                old(parser),
                final(parser),
                r,
                Grammar::binary(
                    old(parser).stream(),
                    old(parser).cursor(),
                    old(parser).level(),
                    old(parser).config,
                    min_precedence,
                ),
            ),
            r is Ok ==> final(parser).pos > old(parser).pos && final(parser).cursor() > old(parser).cursor(),
        decreases old(parser).tokens.len() - old(parser).pos, 5int,
    {
        match parser.enter() {
            Err(error) => {
                return Err(error);
            },
            Ok(_) => {},
        }
        proof {
            lemma_cursor_in_stream(parser);
        }
        let result = match Self::parse_unary(parser) {
            Ok(left) => {
                proof {
                    lemma_cursor_in_stream(parser);
                }
                Self::parse_climb(parser, min_precedence, left)
            },
            Err(error) => Err(error),
        };
        parser.leave();
        result
    }

    /// Parses the operators behind the left operand `left`.
    #[verifier::rlimit(40)]
    fn parse_climb<'a>(parser: &mut Parser<'a>, min_precedence: u8, left: Expr) -> (r: Result<
        Self,
        ParseError,
    >)
        requires
            old(parser).wf(),
        ensures
            final(parser).wf(),
            final(parser).moved_from(old(parser)),
            yields(
                old(parser),
                final(parser),
                r,
                Grammar::climb(
                    old(parser).stream(),
                    old(parser).cursor(),
                    old(parser).level(),
                    old(parser).config,
                    min_precedence,
                    left@,
                ),
            ),
        decreases old(parser).tokens.len() - old(parser).pos, 9int,
    {
        let ghost goal = Grammar::climb(
            parser.stream(),
            parser.cursor(),
            parser.level(),
            parser.config,
            min_precedence,
            left@,
        );
        let mut node = left;
        loop
            invariant
                parser.wf(),
                parser.moved_from(old(parser)),
                goal == Grammar::climb(
                    old(parser).stream(),
                    old(parser).cursor(),
                    old(parser).level(),
                    old(parser).config,
                    min_precedence,
                    left@,
                ),
                Grammar::climb(
                    parser.stream(),
                    parser.cursor(),
                    parser.level(),
                    parser.config,
                    min_precedence,
                    node@,
                ) == goal,
            ensures
                parser.wf(),
                parser.moved_from(old(parser)),
                goal == Ok::<(ExprView, int), Fault>((node@, parser.cursor())),
            decreases parser.tokens.len() - parser.pos,
        {
            let op = match parser.peek() {
                Some(token) => BinaryOp::from_token(token),
                None => None,
            };
            match op {
                Some(op) => {
                    let precedence = op.precedence();
                    if precedence < min_precedence {
                        break;
                    }
                    parser.advance();
                    // For right-associative operators, use same precedence
                    // For left-associative, use precedence + 1
                    let floor = if op.is_right_associative() {
                        precedence
                    } else {
                        precedence + 1
                    };
                    match Self::parse_expression(parser, floor) {
                        Ok(right) => {
                            proof {
                                lemma_cursor_in_stream(parser);
                            }
                            node = Expr::Binary { op, left: Box::new(node), right: Box::new(right) };
                        },
                        Err(error) => {
                            return Err(error);
                        },
                    }
                },
                None => {
                    break;
                },
            }
        }
        Ok(node)
    }

    /// Parses an assignment: a binary chain and, behind `=` or a
    /// compound-assignment operator, the assignment that is its value.
    #[verifier::rlimit(40)]
    pub fn parse_assignment<'a>(parser: &mut Parser<'a>) -> (r: Result<Self, ParseError>)
        requires
            old(parser).wf(),
        ensures
            final(parser).wf(),
            final(parser).moved_from(old(parser)),
            yields(
                old(parser),
                final(parser),
                r,
                Grammar::assignment(
                    old(parser).stream(),
                    old(parser).cursor(),
                    old(parser).level(),
                    old(parser).config,
                ),
            ),
            r is Ok ==> final(parser).pos > old(parser).pos && final(parser).cursor() > old(parser).cursor(),
        decreases old(parser).tokens.len() - old(parser).pos, 6int,
    {
        match parser.enter() {
            Err(error) => {
                return Err(error);
            },
            Ok(_) => {},
        }
        // Start with minimum precedence
        let result = match Self::parse_expression(parser, 0) {
            Ok(target) => {
                proof {
                    lemma_cursor_in_stream(parser);
                }
                let is_plain = match parser.peek() {
                    Some(token) => matches!(token, Token::Equal),
                    None => false,
                };
                let compound = match parser.peek() {
                    Some(token) => BinaryOp::from_compound_token(token),
                    None => None,
                };
                if is_plain {
                    parser.advance();
                    match Self::parse_assignment(parser) {
                        Ok(value) => Ok(
                            Expr::Assignment { target: Box::new(target), value: Box::new(value) },
                        ),
                        Err(error) => Err(error),
                    }
                } else {
                    match compound {
                        Some(op) => {
                            parser.advance();
                            match Self::parse_assignment(parser) {
                                Ok(value) => Ok(
                                    Expr::CompoundAssignment {
                                        target: Box::new(target),
                                        op,
                                        value: Box::new(value),
                                    },
                                ),
                                Err(error) => Err(error),
                            }
                        },
                        None => Ok(target),
                    }
                }
            },
            Err(error) => Err(error),
        };
        parser.leave();
        result
    }

    /// Parses the prefix operators and what they apply to.
    #[verifier::rlimit(40)]
    pub fn parse_unary<'a>(parser: &mut Parser<'a>) -> (r: Result<Self, ParseError>)
        requires
            old(parser).wf(),
        ensures
            final(parser).wf(),
            final(parser).moved_from(old(parser)),
            yields(
                old(parser),
                final(parser),
                r,
                Grammar::unary(
                    old(parser).stream(),
                    old(parser).cursor(),
                    old(parser).level(),
                    old(parser).config,
                ),
            ),
            r is Ok ==> final(parser).pos > old(parser).pos && final(parser).cursor() > old(parser).cursor(),
        decreases old(parser).tokens.len() - old(parser).pos, 4int,
    {
        let op = match parser.peek() {
            Some(token) => UnaryOp::from_token(token),
            None => None,
        };
        let increment = match parser.peek() {
            Some(token) => matches!(token, Token::PlusPlus),
            None => false,
        };
        let decrement = match parser.peek() {
            Some(token) => matches!(token, Token::MinusMinus),
            None => false,
        };
        match op {
            Some(op) => {
                parser.advance();
                match Self::parse_unary(parser) {
                    Ok(operand) => Ok(Expr::Unary { op, operand: Box::new(operand) }),
                    Err(error) => Err(error),
                }
            },
            None => {
                if increment {
                    parser.advance();
                    match Self::parse_postfix(parser) {
                        Ok(operand) => Ok(Expr::PreIncrement { operand: Box::new(operand) }),
                        Err(error) => Err(error),
                    }
                } else if decrement {
                    parser.advance();
                    match Self::parse_postfix(parser) {
                        Ok(operand) => Ok(Expr::PreDecrement { operand: Box::new(operand) }),
                        Err(error) => Err(error),
                    }
                } else {
                    Self::parse_postfix(parser)
                }
            },
        }
    }

    /// Parses a primary with its postfix chain.
    pub fn parse_postfix<'a>(parser: &mut Parser<'a>) -> (r: Result<Self, ParseError>)
        requires
            old(parser).wf(),
        ensures
            final(parser).wf(),
            final(parser).moved_from(old(parser)),
            yields(
                old(parser),
                final(parser),
                r,
                Grammar::postfix(
                    old(parser).stream(),
                    old(parser).cursor(),
                    old(parser).level(),
                    old(parser).config,
                ),
            ),
            r is Ok ==> final(parser).pos > old(parser).pos && final(parser).cursor() > old(parser).cursor(),
        decreases old(parser).tokens.len() - old(parser).pos, 3int,
    {
        match Self::parse_primary(parser) {
            Ok(operand) => {
                proof {
                    lemma_cursor_in_stream(parser);
                }
                Self::parse_postfix_chain(parser, operand)
            },
            Err(error) => Err(error),
        }
    }

    /// Parses the postfix chain behind `operand`.
    #[verifier::rlimit(40)]
    fn parse_postfix_chain<'a>(parser: &mut Parser<'a>, operand: Expr) -> (r: Result<
        Self,
        ParseError,
    >)
        requires
            old(parser).wf(),
        ensures
            final(parser).wf(),
            final(parser).moved_from(old(parser)),
            yields(
                old(parser),
                final(parser),
                r,
                Grammar::postfix_chain(
                    old(parser).stream(),
                    old(parser).cursor(),
                    old(parser).level(),
                    old(parser).config,
                    operand@,
                ),
            ),
        decreases old(parser).tokens.len() - old(parser).pos, 8int,
    {
        let ghost goal = Grammar::postfix_chain(
            parser.stream(),
            parser.cursor(),
            parser.level(),
            parser.config,
            operand@,
        );
        let mut expr = operand;
        loop
            invariant
                parser.wf(),
                parser.moved_from(old(parser)),
                goal == Grammar::postfix_chain(
                    old(parser).stream(),
                    old(parser).cursor(),
                    old(parser).level(),
                    old(parser).config,
                    operand@,
                ),
                Grammar::postfix_chain(
                    parser.stream(),
                    parser.cursor(),
                    parser.level(),
                    parser.config,
                    expr@,
                ) == goal,
            ensures
                parser.wf(),
                parser.moved_from(old(parser)),
                goal == Ok::<(ExprView, int), Fault>((expr@, parser.cursor())),
            decreases parser.tokens.len() - parser.pos,
        {
            let kind: u8 = match parser.peek() {
                Some(Token::PlusPlus) => 1,
                Some(Token::MinusMinus) => 2,
                Some(Token::LeftBracket) => 3,
                Some(Token::Dot) => 4,
                Some(Token::LeftParen) => 5,
                _ => 0,
            };
            if kind == 1 {
                parser.advance();
                expr = Expr::PostIncrement { operand: Box::new(expr) };
            } else if kind == 2 {
                parser.advance();
                expr = Expr::PostDecrement { operand: Box::new(expr) };
            } else if kind == 3 {
                parser.advance();
                match Self::parse_assignment(parser) {
                    Ok(index) => {
                        proof {
                            lemma_cursor_in_stream(parser);
                        }
                        match parser.expect(Token::RightBracket) {
                            Ok(_) => {
                                expr = Expr::Index {
                                    object: Box::new(expr),
                                    index: Box::new(index),
                                };
                            },
                            Err(error) => {
                                return Err(error);
                            },
                        }
                    },
                    Err(error) => {
                        return Err(error);
                    },
                }
            } else if kind == 4 {
                parser.advance();
                let name = match parser.peek() {
                    Some(Token::Identifier(name)) => Some(name.clone()),
                    _ => None,
                };
                match name {
                    Some(property) => {
                        parser.advance();
                        expr = Expr::Member { object: Box::new(expr), property };
                    },
                    None => {
                        if parser.eof() {
                            return Err(parser.error("", Some("property name")));
                        } else {
                            return Err(parser.error("", Some("identifier")));
                        }
                    },
                }
            } else if kind == 5 {
                match Self::parse_call(parser, expr) {
                    Ok(call) => {
                        proof {
                            lemma_cursor_in_stream(parser);
                        }
                        expr = call;
                    },
                    Err(error) => {
                        return Err(error);
                    },
                }
            } else {
                break;
            }
        }
        Ok(expr)
    }

    /// Parses `(`, the arguments and `)` behind the callee `callee`.
    fn parse_call<'a>(parser: &mut Parser<'a>, callee: Expr) -> (r: Result<Self, ParseError>)
        requires
            old(parser).wf(),
            token_at(old(parser).stream(), old(parser).cursor()) == Some(TokenView::LeftParen),
        ensures
            final(parser).wf(),
            final(parser).moved_from(old(parser)),
            yields(
                old(parser),
                final(parser),
                r,
                Grammar::call(
                    old(parser).stream(),
                    old(parser).cursor(),
                    old(parser).level(),
                    old(parser).config,
                    callee@,
                ),
            ),
            r is Ok ==> final(parser).pos > old(parser).pos && final(parser).cursor() > old(parser).cursor(),
        decreases old(parser).tokens.len() - old(parser).pos, 7int,
    {
        parser.advance();
        match Self::parse_argument_list(parser) {
            Ok(args) => match parser.expect(Token::RightParen) {
                Ok(_) => {
                    let ghost shown = exprs_view(args@);
                    let call = Expr::Call { callee: Box::new(callee), args };
                    assert(call@->args =~= shown);
                    Ok(call)
                },
                Err(error) => Err(error),
            },
            Err(error) => Err(error),
        }
    }

    /// Parses the arguments of a call up to its closing parenthesis.
    pub fn parse_argument_list<'a>(parser: &mut Parser<'a>) -> (r: Result<Vec<Expr>, ParseError>)
        requires
            old(parser).wf(),
        ensures
            final(parser).wf(),
            final(parser).moved_from(old(parser)),
            yields_list(
                old(parser),
                final(parser),
                r,
                Grammar::items(
                    old(parser).stream(),
                    old(parser).cursor(),
                    old(parser).level(),
                    old(parser).config,
                    TokenView::RightParen,
                ),
            ),
        decreases old(parser).tokens.len() - old(parser).pos, 8int,
    {
        Self::parse_items(parser, Token::RightParen)
    }

    /// Parses the items of a list up to its closing bracket `closer`, which
    /// it leaves: the one routine behind call arguments and array elements.
    #[verifier::rlimit(40)]
    fn parse_items<'a>(parser: &mut Parser<'a>, closer: Token) -> (r: Result<
        Vec<Expr>,
        ParseError,
    >)
        requires
            old(parser).wf(),
            closer@ == TokenView::RightParen || closer@ == TokenView::RightBracket,
        ensures
            final(parser).wf(),
            final(parser).moved_from(old(parser)),
            yields_list(
                old(parser),
                final(parser),
                r,
                Grammar::items(
                    old(parser).stream(),
                    old(parser).cursor(),
                    old(parser).level(),
                    old(parser).config,
                    closer@,
                ),
            ),
        decreases old(parser).tokens.len() - old(parser).pos, 7int,
    {
        let ghost goal = Grammar::items(
            parser.stream(),
            parser.cursor(),
            parser.level(),
            parser.config,
            closer@,
        );
        let square = matches!(closer, Token::RightBracket);
        let mut list: Vec<Expr> = Vec::new();
        proof {
            assert(exprs_view(list@) =~= Seq::<ExprView>::empty());
            match goal {
                Ok((more, next)) => {
                    assert(exprs_view(list@) + more =~= more);
                },
                Err(_) => {},
            }
        }
        loop
            invariant
                parser.wf(),
                parser.moved_from(old(parser)),
                closer@ == TokenView::RightParen || closer@ == TokenView::RightBracket,
                square == (closer@ == TokenView::RightBracket),
                goal == Grammar::items(
                    old(parser).stream(),
                    old(parser).cursor(),
                    old(parser).level(),
                    old(parser).config,
                    closer@,
                ),
                behind(
                    exprs_view(list@),
                    Grammar::items(
                        parser.stream(),
                        parser.cursor(),
                        parser.level(),
                        parser.config,
                        closer@,
                    ),
                ) == goal,
            ensures
                parser.wf(),
                parser.moved_from(old(parser)),
                goal == Ok::<(Seq<ExprView>, int), Fault>((exprs_view(list@), parser.cursor())),
            decreases parser.tokens.len() - parser.pos,
        {
            let ghost head = exprs_view(list@);
            let at_end = match parser.peek() {
                Some(token) => *token == closer,
                None => false,
            };
            if at_end {
                proof {
                    assert(head + Seq::<ExprView>::empty() =~= head);
                }
                break;
            }
            proof {
                lemma_cursor_in_stream(parser);
            }
            match Self::parse_assignment(parser) {
                Ok(item) => {
                    proof {
                        lemma_cursor_in_stream(parser);
                        assert(exprs_view(list@.push(item)) =~= head.push(item@));
                        assert(head + seq![item@] =~= head.push(item@));
                    }
                    let ghost shown = item@;
                    list.push(item);
                    let comma = match parser.peek() {
                        Some(token) => matches!(token, Token::Comma),
                        None => false,
                    };
                    let closing = match parser.peek() {
                        Some(token) => *token == closer,
                        None => false,
                    };
                    if comma {
                        let ghost next = parser.cursor();
                        parser.advance();
                        let trailing = match parser.peek() {
                            Some(token) => *token == closer,
                            None => false,
                        };
                        if trailing {
                            // Handle trailing comma if configured
                            if parser.config.allow_trailing_commas() {
                                break;
                            } else if square {
                                return Err(
                                    parser.error("trailing ',' before ']' is not allowed", None),
                                );
                            } else {
                                return Err(
                                    parser.error("trailing ',' before ')' is not allowed", None),
                                );
                            }
                        } else {
                            proof {
                                match Grammar::items(
                                    parser.stream(),
                                    next + 1,
                                    parser.level(),
                                    parser.config,
                                    closer@,
                                ) {
                                    Ok((rest, after)) => {
                                        assert(head.push(shown) + rest =~= head + (seq![shown]
                                            + rest));
                                    },
                                    Err(_) => {},
                                }
                            }
                        }
                    } else if closing {
                        break;
                    } else if square {
                        return Err(parser.error("", Some("',' or ']'")));
                    } else {
                        return Err(parser.error("", Some("',' or ')'")));
                    }
                },
                Err(error) => {
                    return Err(error);
                },
            }
        }
        Ok(list)
    }

    /// Parses a literal, a variable, a parenthesized expression or an array
    /// literal.
    #[verifier::rlimit(40)]
    pub fn parse_primary<'a>(parser: &mut Parser<'a>) -> (r: Result<Self, ParseError>)
        requires
            old(parser).wf(),
        ensures
            final(parser).wf(),
            final(parser).moved_from(old(parser)),
            yields(
                old(parser),
                final(parser),
                r,
                Grammar::primary(
                    old(parser).stream(),
                    old(parser).cursor(),
                    old(parser).level(),
                    old(parser).config,
                ),
            ),
            r is Ok ==> final(parser).pos > old(parser).pos && final(parser).cursor() > old(parser).cursor(),
        decreases old(parser).tokens.len() - old(parser).pos, 1int,
    {
        let leaf = match parser.peek() {
            Some(token) => leaf_of(token),
            None => None,
        };
        let kind: u8 = match parser.peek() {
            Some(Token::LeftParen) => 1,
            Some(Token::LeftBracket) => 2,
            _ => 0,
        };
        match leaf {
            Some(expr) => {
                parser.advance();
                Ok(expr)
            },
            None => {
                if kind == 1 {
                    parser.advance();
                    match Self::parse_assignment(parser) {
                        Ok(inner) => match parser.expect(Token::RightParen) {
                            Ok(_) => Ok(Expr::Group(Box::new(inner))),
                            Err(error) => Err(error),
                        },
                        Err(error) => Err(error),
                    }
                } else if kind == 2 {
                    Self::parse_array_literal(parser)
                } else {
                    Err(parser.error("", Some("expression")))
                }
            },
        }
    }

    /// Parses `[`, the elements and `]`.
    pub fn parse_array_literal<'a>(parser: &mut Parser<'a>) -> (r: Result<Self, ParseError>)
        requires
            old(parser).wf(),
        ensures
            final(parser).wf(),
            final(parser).moved_from(old(parser)),
            yields(
                old(parser),
                final(parser),
                r,
                Grammar::array_literal(
                    old(parser).stream(),
                    old(parser).cursor(),
                    old(parser).level(),
                    old(parser).config,
                ),
            ),
            r is Ok ==> final(parser).pos > old(parser).pos && final(parser).cursor() > old(parser).cursor(),
        decreases old(parser).tokens.len() - old(parser).pos, 0int,
    {
        match parser.expect(Token::LeftBracket) {
            Ok(_) => {},
            Err(error) => {
                return Err(error);
            },
        }
        match Self::parse_items(parser, Token::RightBracket) {
            Ok(elements) => match parser.expect(Token::RightBracket) {
                Ok(_) => {
                    let ghost shown = exprs_view(elements@);
                    let array = Expr::Array { elements };
                    assert(array@->elements =~= shown);
                    Ok(array)
                },
                Err(error) => Err(error),
            },
            Err(error) => Err(error),
        }
    }
}

} // verus!
