//! What it means that a tree is a reading of tokens, stated without the
//! parser: each node says which tokens it is made of. The parser is sound
//! for it: the tree that it builds is a reading of exactly the tokens that
//! it took.

use crate::ast::expr::ExprView;
use crate::ast::expr::Grammar;
use crate::ast::op::BinaryOp;
use crate::ast::op::UnaryOp;
use crate::ast::stmt::StmtView;
use crate::ast::value::ValueView;
use crate::lexer::TokenView;
use crate::parser::config::ParserConfig;
use crate::parser::stream::Outcome;
use crate::parser::stream::progress;
use crate::parser::stream::token_at;
use vstd::prelude::*;

verus! {

/// The token of a literal; `null` has none in an expression.
pub open spec fn literal_token(value: ValueView) -> Option<TokenView> {
    match value {
        ValueView::Int(i) => Some(TokenView::IntLiteral(i)),
        ValueView::Float(s) => Some(TokenView::FloatLiteral(s)),
        ValueView::Bool(b) => Some(
            if b {
                TokenView::BoolTrue
            } else {
                TokenView::BoolFalse
            },
        ),
        ValueView::Str(s) => Some(TokenView::StringLiteral(s)),
        ValueView::Null => None,
    }
}

/// The tokens `tokens` are the expression `e`:
///
/// - a literal or a variable is its one token;
/// - a group is `(`, its inner expression and `)`;
/// - a prefix operator stands before its operand, a postfix step behind it;
/// - a binary operator or an assignment stands between its two operands;
/// - a member access ends in `.` and the name, an index in `[`, the index and
///   `]`, a call in `(`, the arguments and `)`;
/// - an array is `[`, its elements and `]`.
pub open spec fn reads(tokens: Seq<TokenView>, e: ExprView) -> bool
    decreases e,
{
    let len = tokens.len() as int;
    match e {
        ExprView::Literal(value) => literal_token(value) matches Some(token) && tokens
            == seq![token],
        ExprView::Variable(name) => tokens == seq![TokenView::Identifier(name)],
        ExprView::Group(inner) => len >= 2 && tokens[0] == TokenView::LeftParen && tokens[len - 1]
            == TokenView::RightParen && reads(tokens.subrange(1, len - 1), *inner),
        ExprView::Unary { op, operand } => len >= 1 && UnaryOp::of_token(tokens[0]) == Some(op)
            && reads(tokens.subrange(1, len), *operand),
        ExprView::PreIncrement { operand } => len >= 1 && tokens[0] == TokenView::PlusPlus
            && reads(tokens.subrange(1, len), *operand),
        ExprView::PreDecrement { operand } => len >= 1 && tokens[0] == TokenView::MinusMinus
            && reads(tokens.subrange(1, len), *operand),
        ExprView::PostIncrement { operand } => len >= 1 && tokens[len - 1] == TokenView::PlusPlus
            && reads(tokens.subrange(0, len - 1), *operand),
        ExprView::PostDecrement { operand } => len >= 1 && tokens[len - 1]
            == TokenView::MinusMinus && reads(tokens.subrange(0, len - 1), *operand),
        ExprView::Member { object, property } => len >= 2 && tokens[len - 2] == TokenView::Dot
            && tokens[len - 1] == TokenView::Identifier(property) && reads(
            tokens.subrange(0, len - 2),
            *object,
        ),
        ExprView::Binary { op, left, right } => exists|k: int|
            0 <= k < len && BinaryOp::of_token(tokens[k]) == Some(op) && reads(
                #[trigger] tokens.subrange(0, k),
                *left,
            ) && reads(tokens.subrange(k + 1, len), *right),
        ExprView::Assignment { target, value } => exists|k: int|
            0 <= k < len && tokens[k] == TokenView::Equal && reads(
                #[trigger] tokens.subrange(0, k),
                *target,
            ) && reads(tokens.subrange(k + 1, len), *value),
        ExprView::CompoundAssignment { target, op, value } => exists|k: int|
            0 <= k < len && BinaryOp::of_compound(tokens[k]) == Some(op) && reads(
                #[trigger] tokens.subrange(0, k),
                *target,
            ) && reads(tokens.subrange(k + 1, len), *value),
        ExprView::Index { object, index } => exists|k: int|
            0 <= k < len - 1 && tokens[k] == TokenView::LeftBracket && tokens[len - 1]
                == TokenView::RightBracket && reads(#[trigger] tokens.subrange(0, k), *object)
                && reads(tokens.subrange(k + 1, len - 1), *index),
        ExprView::Call { callee, args } => exists|k: int|
            0 <= k < len - 1 && tokens[k] == TokenView::LeftParen && tokens[len - 1]
                == TokenView::RightParen && reads(#[trigger] tokens.subrange(0, k), *callee)
                && reads_list(tokens.subrange(k + 1, len - 1), args),
        ExprView::Array { elements } => len >= 2 && tokens[0] == TokenView::LeftBracket
            && tokens[len - 1] == TokenView::RightBracket && reads_list(
            tokens.subrange(1, len - 1),
            elements,
        ),
    }
}

/// The tokens `tokens` are the items of a list: each item, a comma between
/// two of them, and at most one comma behind the last.
pub open spec fn reads_list(tokens: Seq<TokenView>, items: Seq<ExprView>) -> bool
    decreases items,
{
    let len = tokens.len() as int;
    if items.len() == 0 {
        len == 0
    } else if items.len() == 1 {
        reads(tokens, items[0]) || (len >= 1 && tokens[len - 1] == TokenView::Comma && reads(
            tokens.subrange(0, len - 1),
            items[0],
        ))
    } else {
        exists|k: int|
            0 <= k < len && tokens[k] == TokenView::Comma && reads(
                #[trigger] tokens.subrange(0, k),
                items[0],
            ) && reads_list(tokens.subrange(k + 1, len), items.subrange(1, items.len() as int))
    }
}

/// Where a rule succeeded, what it built is a reading of the tokens that it
/// took, `at..next`.
pub open spec fn sound(stream: Seq<TokenView>, at: int, outcome: Outcome<ExprView>) -> bool {
    match outcome {
        Ok((e, next)) => at < next <= stream.len() && reads(stream.subrange(at, next), e),
        Err(_) => true,
    }
}

/// Where a rule that goes on behind an expression succeeded, what it built
/// is a reading of the tokens `from..next`: those of the expression that it
/// went on from, and those that it took.
pub open spec fn sound_from(
    stream: Seq<TokenView>,
    from: int,
    at: int,
    outcome: Outcome<ExprView>,
) -> bool {
    match outcome {
        Ok((e, next)) => at <= next <= stream.len() && reads(stream.subrange(from, next), e),
        Err(_) => true,
    }
}

/// Where a list succeeded, its items are a reading of the tokens that it
/// took.
pub open spec fn sound_list(stream: Seq<TokenView>, at: int, outcome: Outcome<Seq<ExprView>>)
    -> bool {
    match outcome {
        Ok((items, next)) => at <= next <= stream.len() && reads_list(
            stream.subrange(at, next),
            items,
        ),
        Err(_) => true,
    }
}

#[verifier::rlimit(60)]
proof fn lemma_primary(stream: Seq<TokenView>, at: int, depth: nat, config: ParserConfig)
    requires
        0 <= at,
    ensures
        sound(stream, at, Grammar::primary(stream, at, depth, config)),
    decreases stream.len() - at, 1int,
{
    match token_at(stream, at) {
        Some(TokenView::LeftParen) => {
            lemma_assignment(stream, at + 1, depth, config);
            match Grammar::assignment(stream, at + 1, depth, config) {
                Ok((inner, next)) => {
                    if token_at(stream, next) == Some(TokenView::RightParen) {
                        let tokens = stream.subrange(at, next + 1);
                        assert(tokens.subrange(1, tokens.len() - 1) =~= stream.subrange(
                            at + 1,
                            next,
                        ));
                    }
                },
                Err(_) => {},
            }
        },
        Some(TokenView::LeftBracket) => {
            lemma_array_literal(stream, at, depth, config);
        },
        Some(token) => {
            assert(stream.subrange(at, at + 1) =~= seq![token]);
        },
        None => {},
    }
}

#[verifier::rlimit(60)]
proof fn lemma_array_literal(stream: Seq<TokenView>, at: int, depth: nat, config: ParserConfig)
    requires
        0 <= at,
    ensures
        sound(stream, at, Grammar::array_literal(stream, at, depth, config)),
    decreases stream.len() - at, 0int,
{
    if token_at(stream, at) == Some(TokenView::LeftBracket) {
        lemma_items(stream, at + 1, depth, config, TokenView::RightBracket);
        match Grammar::items(stream, at + 1, depth, config, TokenView::RightBracket) {
            Ok((elements, next)) => {
                if token_at(stream, next) == Some(TokenView::RightBracket) {
                    let tokens = stream.subrange(at, next + 1);
                    assert(tokens.subrange(1, tokens.len() - 1) =~= stream.subrange(
                        at + 1,
                        next,
                    ));
                }
            },
            Err(_) => {},
        }
    }
}

#[verifier::rlimit(60)]
proof fn lemma_items(
    stream: Seq<TokenView>,
    at: int,
    depth: nat,
    config: ParserConfig,
    closer: TokenView,
)
    requires
        0 <= at <= stream.len(),
    ensures
        sound_list(stream, at, Grammar::items(stream, at, depth, config, closer)),
        Grammar::items(stream, at, depth, config, closer) matches Ok((items, _)) ==> (items.len()
            == 0 <==> token_at(stream, at) == Some(closer)),
    decreases stream.len() - at, 7int,
{
    if token_at(stream, at) == Some(closer) {
        assert(stream.subrange(at, at) =~= Seq::<TokenView>::empty());
    } else {
        lemma_assignment(stream, at, depth, config);
        match progress(Grammar::assignment(stream, at, depth, config), at, stream.len()) {
            Ok((item, next)) => {
                if token_at(stream, next) == Some(TokenView::Comma) {
                    if token_at(stream, next + 1) == Some(closer) {
                        let tokens = stream.subrange(at, next + 1);
                        assert(tokens.subrange(0, tokens.len() - 1) =~= stream.subrange(at, next));
                    } else {
                        lemma_items(stream, next + 1, depth, config, closer);
                        match Grammar::items(stream, next + 1, depth, config, closer) {
                            Ok((rest, after)) => {
                                let tokens = stream.subrange(at, after);
                                let all = seq![item] + rest;
                                let k = next - at;
                                assert(all.subrange(1, all.len() as int) =~= rest);
                                assert(tokens.subrange(0, k) =~= stream.subrange(at, next));
                                assert(tokens.subrange(k + 1, tokens.len() as int)
                                    =~= stream.subrange(next + 1, after));
                                assert(tokens[k] == TokenView::Comma);
                            },
                            Err(_) => {},
                        }
                    }
                }
            },
            Err(_) => {},
        }
    }
}

#[verifier::rlimit(60)]
proof fn lemma_call(
    stream: Seq<TokenView>,
    from: int,
    at: int,
    depth: nat,
    config: ParserConfig,
    callee: ExprView,
)
    requires
        0 <= from <= at,
        token_at(stream, at) == Some(TokenView::LeftParen),
        reads(stream.subrange(from, at), callee),
    ensures
        sound_from(stream, from, at, Grammar::call(stream, at, depth, config, callee)),
    decreases stream.len() - at, 2int,
{
    lemma_items(stream, at + 1, depth, config, TokenView::RightParen);
    match Grammar::items(stream, at + 1, depth, config, TokenView::RightParen) {
        Ok((args, next)) => {
            if token_at(stream, next) == Some(TokenView::RightParen) {
                let tokens = stream.subrange(from, next + 1);
                let k = at - from;
                assert(tokens.subrange(0, k) =~= stream.subrange(from, at));
                assert(tokens.subrange(k + 1, tokens.len() - 1) =~= stream.subrange(at + 1, next));
                assert(tokens[k] == TokenView::LeftParen);
            }
        },
        Err(_) => {},
    }
}

#[verifier::rlimit(60)]
proof fn lemma_postfix(stream: Seq<TokenView>, at: int, depth: nat, config: ParserConfig)
    requires
        0 <= at,
    ensures
        sound(stream, at, Grammar::postfix(stream, at, depth, config)),
    decreases stream.len() - at, 3int,
{
    lemma_primary(stream, at, depth, config);
    match progress(Grammar::primary(stream, at, depth, config), at, stream.len()) {
        Ok((found, next)) => {
            lemma_postfix_chain(stream, at, next, depth, config, found);
        },
        Err(_) => {},
    }
}

#[verifier::rlimit(60)]
proof fn lemma_postfix_chain(
    stream: Seq<TokenView>,
    from: int,
    at: int,
    depth: nat,
    config: ParserConfig,
    found: ExprView,
)
    requires
        0 <= from <= at <= stream.len(),
        reads(stream.subrange(from, at), found),
    ensures
        sound_from(stream, from, at, Grammar::postfix_chain(stream, at, depth, config, found)),
    decreases stream.len() - at, 8int,
{
    match token_at(stream, at) {
        Some(TokenView::PlusPlus) => {
            let more = ExprView::PostIncrement { operand: Box::new(found) };
            let tokens = stream.subrange(from, at + 1);
            assert(tokens.subrange(0, tokens.len() - 1) =~= stream.subrange(from, at));
            lemma_postfix_chain(stream, from, at + 1, depth, config, more);
        },
        Some(TokenView::MinusMinus) => {
            let more = ExprView::PostDecrement { operand: Box::new(found) };
            let tokens = stream.subrange(from, at + 1);
            assert(tokens.subrange(0, tokens.len() - 1) =~= stream.subrange(from, at));
            lemma_postfix_chain(stream, from, at + 1, depth, config, more);
        },
        Some(TokenView::LeftBracket) => {
            lemma_assignment(stream, at + 1, depth, config);
            match progress(Grammar::assignment(stream, at + 1, depth, config), at, stream.len()) {
                Ok((index, next)) => {
                    if token_at(stream, next) == Some(TokenView::RightBracket) {
                        let more = ExprView::Index {
                            object: Box::new(found),
                            index: Box::new(index),
                        };
                        let tokens = stream.subrange(from, next + 1);
                        let k = at - from;
                        assert(tokens.subrange(0, k) =~= stream.subrange(from, at));
                        assert(tokens.subrange(k + 1, tokens.len() - 1) =~= stream.subrange(
                            at + 1,
                            next,
                        ));
                        assert(tokens[k] == TokenView::LeftBracket);
                        lemma_postfix_chain(stream, from, next + 1, depth, config, more);
                    }
                },
                Err(_) => {},
            }
        },
        Some(TokenView::Dot) => {
            match token_at(stream, at + 1) {
                Some(TokenView::Identifier(name)) => {
                    let more = ExprView::Member { object: Box::new(found), property: name };
                    let tokens = stream.subrange(from, at + 2);
                    assert(tokens.subrange(0, tokens.len() - 2) =~= stream.subrange(from, at));
                    lemma_postfix_chain(stream, from, at + 2, depth, config, more);
                },
                _ => {},
            }
        },
        Some(TokenView::LeftParen) => {
            lemma_call(stream, from, at, depth, config, found);
            match progress(Grammar::call(stream, at, depth, config, found), at, stream.len()) {
                Ok((call, after)) => {
                    lemma_postfix_chain(stream, from, after, depth, config, call);
                },
                Err(_) => {},
            }
        },
        _ => {},
    }
}

/// A prefix token before a reading of its operand is a reading of both.
#[verifier::rlimit(60)]
proof fn lemma_prefixed(stream: Seq<TokenView>, at: int, next: int, found: ExprView)
    requires
        0 <= at,
        at + 1 < next <= stream.len(),
        reads(stream.subrange(at + 1, next), found),
    ensures
        UnaryOp::of_token(stream[at]) matches Some(op) ==> reads(
            stream.subrange(at, next),
            ExprView::Unary { op, operand: Box::new(found) },
        ),
        stream[at] == TokenView::PlusPlus ==> reads(
            stream.subrange(at, next),
            ExprView::PreIncrement { operand: Box::new(found) },
        ),
        stream[at] == TokenView::MinusMinus ==> reads(
            stream.subrange(at, next),
            ExprView::PreDecrement { operand: Box::new(found) },
        ),
{
    let tokens = stream.subrange(at, next);
    assert(tokens.subrange(1, tokens.len() as int) =~= stream.subrange(at + 1, next));
    assert(tokens[0] == stream[at]);
}

#[verifier::rlimit(60)]
proof fn lemma_unary(stream: Seq<TokenView>, at: int, depth: nat, config: ParserConfig)
    requires
        0 <= at,
    ensures
        sound(stream, at, Grammar::unary(stream, at, depth, config)),
    decreases stream.len() - at, 4int,
{
    match token_at(stream, at) {
        Some(token) => {
            if UnaryOp::of_token(token).is_some() {
                lemma_unary(stream, at + 1, depth, config);
                match Grammar::unary(stream, at + 1, depth, config) {
                    Ok((found, next)) => {
                        lemma_prefixed(stream, at, next, found);
                    },
                    Err(_) => {},
                }
            } else if token == TokenView::PlusPlus || token == TokenView::MinusMinus {
                lemma_postfix(stream, at + 1, depth, config);
                match Grammar::postfix(stream, at + 1, depth, config) {
                    Ok((found, next)) => {
                        lemma_prefixed(stream, at, next, found);
                    },
                    Err(_) => {},
                }
            } else {
                lemma_postfix(stream, at, depth, config);
            }
        },
        None => {
            lemma_postfix(stream, at, depth, config);
        },
    }
}

#[verifier::rlimit(60)]
proof fn lemma_binary(stream: Seq<TokenView>, at: int, depth: nat, config: ParserConfig, min: u8)
    requires
        0 <= at,
    ensures
        sound(stream, at, Grammar::binary(stream, at, depth, config, min)),
    decreases stream.len() - at, 5int,
{
    if depth < config.max_recursion_depth {
        lemma_unary(stream, at, depth + 1, config);
        match progress(Grammar::unary(stream, at, depth + 1, config), at, stream.len()) {
            Ok((left, next)) => {
                lemma_climb(stream, at, next, depth + 1, config, min, left);
            },
            Err(_) => {},
        }
    }
}

#[verifier::rlimit(60)]
proof fn lemma_climb(
    stream: Seq<TokenView>,
    from: int,
    at: int,
    depth: nat,
    config: ParserConfig,
    min: u8,
    left: ExprView,
)
    requires
        0 <= from <= at <= stream.len(),
        reads(stream.subrange(from, at), left),
    ensures
        sound_from(stream, from, at, Grammar::climb(stream, at, depth, config, min, left)),
    decreases stream.len() - at, 9int,
{
    match token_at(stream, at) {
        Some(token) => match BinaryOp::of_token(token) {
            Some(op) => {
                if op.spec_precedence() >= min {
                    let floor = op.right_operand_floor();
                    lemma_binary(stream, at + 1, depth, config, floor);
                    match progress(
                        Grammar::binary(stream, at + 1, depth, config, floor),
                        at,
                        stream.len(),
                    ) {
                        Ok((right, next)) => {
                            let both = ExprView::Binary {
                                op,
                                left: Box::new(left),
                                right: Box::new(right),
                            };
                            let tokens = stream.subrange(from, next);
                            let k = at - from;
                            assert(tokens.subrange(0, k) =~= stream.subrange(from, at));
                            assert(tokens.subrange(k + 1, tokens.len() as int)
                                =~= stream.subrange(at + 1, next));
                            assert(tokens[k] == token);
                            assert(reads(tokens, both));
                            lemma_climb(stream, from, next, depth, config, min, both);
                        },
                        Err(_) => {},
                    }
                }
            },
            None => {},
        },
        None => {},
    }
}

#[verifier::rlimit(60)]
proof fn lemma_assignment(stream: Seq<TokenView>, at: int, depth: nat, config: ParserConfig)
    requires
        0 <= at,
    ensures
        sound(stream, at, Grammar::assignment(stream, at, depth, config)),
    decreases stream.len() - at, 6int,
{
    if depth < config.max_recursion_depth {
        lemma_binary(stream, at, depth + 1, config, 0);
        match progress(Grammar::binary(stream, at, depth + 1, config, 0), at, stream.len()) {
            Ok((target, next)) => {
                match token_at(stream, next) {
                    Some(token) => {
                        if token == TokenView::Equal || BinaryOp::of_compound(token).is_some() {
                            lemma_assignment(stream, next + 1, depth + 1, config);
                            match Grammar::assignment(stream, next + 1, depth + 1, config) {
                                Ok((value, after)) => {
                                    let tokens = stream.subrange(at, after);
                                    let k = next - at;
                                    assert(tokens.subrange(0, k) =~= stream.subrange(at, next));
                                    assert(tokens.subrange(k + 1, tokens.len() as int)
                                        =~= stream.subrange(next + 1, after));
                                    assert(tokens[k] == token);
                                },
                                Err(_) => {},
                            }
                        }
                    },
                    None => {},
                }
            },
            Err(_) => {},
        }
    }
}

/// The parser is sound. The tree of a source that is one expression is a
/// reading of all its tokens.
pub proof fn law_expression_is_read(stream: Seq<TokenView>, config: ParserConfig)
    requires
        Grammar::sole_expression(stream, config) is Ok,
    ensures
        reads(stream, Grammar::sole_expression(stream, config)->Ok_0),
{
    lemma_assignment(stream, 0, 1, config);
    match Grammar::assignment(stream, 0, 1, config) {
        Ok((e, next)) => {
            assert(stream.subrange(0, next) =~= stream);
        },
        Err(_) => {},
    }
}

/// The tokens `tokens` are the parameter names `names` of a function: each
/// name, a comma between two of them, and at most one comma behind the last.
pub open spec fn reads_names(tokens: Seq<TokenView>, names: Seq<Seq<char>>) -> bool
    decreases names.len(),
{
    let len = tokens.len() as int;
    if names.len() == 0 {
        len == 0
    } else if names.len() == 1 {
        tokens == seq![TokenView::Identifier(names[0])] || tokens == seq![
            TokenView::Identifier(names[0]),
            TokenView::Comma,
        ]
    } else {
        len >= 2 && tokens[0] == TokenView::Identifier(names[0]) && tokens[1] == TokenView::Comma
            && reads_names(tokens.subrange(2, len), names.subrange(1, names.len() as int))
    }
}

/// The tokens `tokens` are the statement `s`:
///
/// - `let` and `const` are the keyword, the name, `=`, the value and `;`; a
///   `let` without a value binds `null`;
/// - a function is `fn`, the name, `(`, the parameters, `)` and the body;
/// - `if` is the keyword, the condition, a block and, behind `else`, another
///   statement; `while` is the keyword, the condition and a block;
/// - `for` is the keyword, `(`, the three parts of its head, `)` and a block;
/// - `return` is the keyword, the value where it has one, and `;`;
/// - a block is `{`, its statements and `}`;
/// - an expression statement is the expression and `;`;
/// - `import` is the keyword, the module as a string or a name, and `;`;
///   `export` is the keyword and a statement;
/// - `break` and `continue` are the keyword and `;`.
pub open spec fn reads_statement(tokens: Seq<TokenView>, s: StmtView) -> bool
    decreases s,
{
    let len = tokens.len() as int;
    match s {
        StmtView::Let { name, value } => (value == ExprView::Literal(ValueView::Null) && tokens
            == seq![TokenView::Let, TokenView::Identifier(name), TokenView::Semicolon]) || (len
            >= 4 && tokens[0] == TokenView::Let && tokens[1] == TokenView::Identifier(name)
            && tokens[2] == TokenView::Equal && tokens[len - 1] == TokenView::Semicolon && reads(
            tokens.subrange(3, len - 1),
            value,
        )),
        StmtView::Const { name, value } => len >= 4 && tokens[0] == TokenView::Const && tokens[1]
            == TokenView::Identifier(name) && tokens[2] == TokenView::Equal && tokens[len - 1]
            == TokenView::Semicolon && reads(tokens.subrange(3, len - 1), value),
        StmtView::Function { name, params, body } => len >= 3 && tokens[0] == TokenView::Fn
            && tokens[1] == TokenView::Identifier(name) && tokens[2] == TokenView::LeftParen
            && exists|k: int|
            3 <= k < len && tokens[k] == TokenView::RightParen && reads_names(
                #[trigger] tokens.subrange(3, k),
                params,
            ) && reads_statement(tokens.subrange(k + 1, len), *body),
        StmtView::If { condition, then_branch, else_branch } => len >= 1 && tokens[0]
            == TokenView::If && exists|k: int, m: int|
            #![trigger tokens.subrange(1, k), tokens.subrange(k, m)]
            1 <= k <= m <= len && reads(tokens.subrange(1, k), condition) && reads_statement(
                tokens.subrange(k, m),
                *then_branch,
            ) && match else_branch {
                Some(other) => m < len && tokens[m] == TokenView::Else && reads_statement(
                    tokens.subrange(m + 1, len),
                    *other,
                ),
                None => m == len,
            },
        StmtView::Return { value } => match value {
            Some(found) => len >= 2 && tokens[0] == TokenView::Return && tokens[len - 1]
                == TokenView::Semicolon && reads(tokens.subrange(1, len - 1), found),
            None => tokens == seq![TokenView::Return, TokenView::Semicolon],
        },
        StmtView::Block { statements } => len >= 2 && tokens[0] == TokenView::LeftBrace
            && tokens[len - 1] == TokenView::RightBrace && reads_statements(
            tokens.subrange(1, len - 1),
            statements,
        ),
        StmtView::Expression { expr } => len >= 1 && tokens[len - 1] == TokenView::Semicolon
            && reads(tokens.subrange(0, len - 1), expr),
        StmtView::Import { module } => tokens == seq![
            TokenView::Import,
            TokenView::StringLiteral(module),
            TokenView::Semicolon,
        ] || tokens == seq![
            TokenView::Import,
            TokenView::Identifier(module),
            TokenView::Semicolon,
        ],
        StmtView::Export { statement } => len >= 1 && tokens[0] == TokenView::Export
            && reads_statement(tokens.subrange(1, len), *statement),
        StmtView::While { condition, body } => len >= 1 && tokens[0] == TokenView::While
            && exists|k: int|
            1 <= k <= len && reads(#[trigger] tokens.subrange(1, k), condition) && reads_statement(
                tokens.subrange(k, len),
                *body,
            ),
        StmtView::For { init, condition, update, body } => len >= 2 && tokens[0] == TokenView::For
            && tokens[1] == TokenView::LeftParen && exists|a: int, b: int, c: int|
            #![trigger tokens.subrange(2, a), tokens.subrange(a, b), tokens.subrange(b, c)]
            2 <= a <= b <= c < len && (match init {
                Some(first) => reads_statement(tokens.subrange(2, a), *first),
                None => tokens.subrange(2, a) == seq![TokenView::Semicolon],
            }) && (match condition {
                Some(test) => a < b && tokens[b - 1] == TokenView::Semicolon && reads(
                    tokens.subrange(a, b - 1),
                    test,
                ),
                None => tokens.subrange(a, b) == seq![TokenView::Semicolon],
            }) && (match update {
                Some(step) => reads(tokens.subrange(b, c), step),
                None => b == c,
            }) && tokens[c] == TokenView::RightParen && reads_statement(
                tokens.subrange(c + 1, len),
                *body,
            ),
        StmtView::Break => tokens == seq![TokenView::Break, TokenView::Semicolon],
        StmtView::Continue => tokens == seq![TokenView::Continue, TokenView::Semicolon],
    }
}

/// The tokens `tokens` are the statements `items`, one behind the other.
pub open spec fn reads_statements(tokens: Seq<TokenView>, items: Seq<StmtView>) -> bool
    decreases items,
{
    let len = tokens.len() as int;
    if items.len() == 0 {
        len == 0
    } else {
        exists|k: int|
            0 <= k <= len && reads_statement(#[trigger] tokens.subrange(0, k), items[0])
                && reads_statements(
                tokens.subrange(k, len),
                items.subrange(1, items.len() as int),
            )
    }
}

/// Where a rule succeeded, the statement that it built is a reading of the
/// tokens that it took.
pub open spec fn sound_statement(stream: Seq<TokenView>, at: int, outcome: Outcome<StmtView>)
    -> bool {
    match outcome {
        Ok((s, next)) => at < next <= stream.len() && reads_statement(
            stream.subrange(at, next),
            s,
        ),
        Err(_) => true,
    }
}

#[verifier::rlimit(60)]
proof fn lemma_let(stream: Seq<TokenView>, at: int, depth: nat, config: ParserConfig)
    requires
        0 <= at,
    ensures
        sound_statement(stream, at, Grammar::let_rule(stream, at, depth, config)),
{
    match Grammar::let_rule(stream, at, depth, config) {
        Ok((found, end)) => {
            let name = stream[at + 1]->Identifier_0;
            if token_at(stream, at + 2) == Some(TokenView::Equal) {
                lemma_assignment(stream, at + 3, depth, config);
                let tokens = stream.subrange(at, end);
                assert(tokens.subrange(3, tokens.len() - 1) =~= stream.subrange(at + 3, end - 1));
            } else {
                assert(stream.subrange(at, at + 3) =~= seq![
                    TokenView::Let,
                    TokenView::Identifier(name),
                    TokenView::Semicolon,
                ]);
            }
        },
        Err(_) => {},
    }
}

#[verifier::rlimit(60)]
proof fn lemma_const(stream: Seq<TokenView>, at: int, depth: nat, config: ParserConfig)
    requires
        0 <= at,
    ensures
        sound_statement(stream, at, Grammar::const_rule(stream, at, depth, config)),
{
    match Grammar::const_rule(stream, at, depth, config) {
        Ok((found, end)) => {
            lemma_assignment(stream, at + 3, depth, config);
            let tokens = stream.subrange(at, end);
            assert(tokens.subrange(3, tokens.len() - 1) =~= stream.subrange(at + 3, end - 1));
        },
        Err(_) => {},
    }
}

#[verifier::rlimit(60)]
proof fn lemma_params(stream: Seq<TokenView>, at: int, config: ParserConfig)
    requires
        0 <= at <= stream.len(),
    ensures
        Grammar::params(stream, at, config) matches Ok((names, next)) ==> at <= next
            <= stream.len() && reads_names(stream.subrange(at, next), names) && (names.len() == 0
            <==> token_at(stream, at) == Some(TokenView::RightParen)),
    decreases stream.len() - at,
{
    match Grammar::params(stream, at, config) {
        Ok((names, next)) => {
            if token_at(stream, at) == Some(TokenView::RightParen) {
                assert(stream.subrange(at, at) =~= Seq::<TokenView>::empty());
            } else {
                let name = stream[at]->Identifier_0;
                if token_at(stream, at + 1) == Some(TokenView::Comma) {
                    if token_at(stream, at + 2) == Some(TokenView::RightParen) {
                        assert(stream.subrange(at, at + 2) =~= seq![
                            TokenView::Identifier(name),
                            TokenView::Comma,
                        ]);
                    } else {
                        lemma_params(stream, at + 2, config);
                        let rest = Grammar::params(stream, at + 2, config)->Ok_0.0;
                        let tokens = stream.subrange(at, next);
                        assert(names.subrange(1, names.len() as int) =~= rest);
                        assert(tokens.subrange(2, tokens.len() as int) =~= stream.subrange(
                            at + 2,
                            next,
                        ));
                    }
                } else {
                    assert(stream.subrange(at, at + 1) =~= seq![TokenView::Identifier(name)]);
                }
            }
        },
        Err(_) => {},
    }
}

#[verifier::rlimit(60)]
proof fn lemma_return(stream: Seq<TokenView>, at: int, depth: nat, config: ParserConfig)
    requires
        0 <= at,
    ensures
        sound_statement(stream, at, Grammar::return_rule(stream, at, depth, config)),
{
    match Grammar::return_rule(stream, at, depth, config) {
        Ok((found, end)) => {
            if token_at(stream, at + 1) == Some(TokenView::Semicolon) {
                assert(stream.subrange(at, at + 2) =~= seq![
                    TokenView::Return,
                    TokenView::Semicolon,
                ]);
            } else {
                lemma_assignment(stream, at + 1, depth, config);
                let tokens = stream.subrange(at, end);
                assert(tokens.subrange(1, tokens.len() - 1) =~= stream.subrange(at + 1, end - 1));
            }
        },
        Err(_) => {},
    }
}

#[verifier::rlimit(60)]
proof fn lemma_import(stream: Seq<TokenView>, at: int)
    requires
        0 <= at,
    ensures
        sound_statement(stream, at, Grammar::import_rule(stream, at)),
{
    match Grammar::import_rule(stream, at) {
        Ok((found, end)) => {
            assert(stream.subrange(at, at + 3) =~= seq![
                stream[at],
                stream[at + 1],
                stream[at + 2],
            ]);
        },
        Err(_) => {},
    }
}

#[verifier::rlimit(60)]
proof fn lemma_expression_statement(
    stream: Seq<TokenView>,
    at: int,
    depth: nat,
    config: ParserConfig,
)
    requires
        0 <= at,
    ensures
        sound_statement(stream, at, Grammar::expression_rule(stream, at, depth, config)),
{
    match Grammar::expression_rule(stream, at, depth, config) {
        Ok((found, end)) => {
            lemma_assignment(stream, at, depth, config);
            let tokens = stream.subrange(at, end);
            assert(tokens.subrange(0, tokens.len() - 1) =~= stream.subrange(at, end - 1));
        },
        Err(_) => {},
    }
}

#[verifier::rlimit(60)]
proof fn lemma_simple(stream: Seq<TokenView>, at: int, word: TokenView, value: StmtView)
    requires
        0 <= at,
        (word == TokenView::Break && value == StmtView::Break) || (word == TokenView::Continue
            && value == StmtView::Continue),
    ensures
        sound_statement(stream, at, Grammar::simple(stream, at, word, value)),
{
    match Grammar::simple(stream, at, word, value) {
        Ok((found, end)) => {
            assert(stream.subrange(at, at + 2) =~= seq![word, TokenView::Semicolon]);
        },
        Err(_) => {},
    }
}

#[verifier::rlimit(60)]
proof fn lemma_function(stream: Seq<TokenView>, at: int, depth: nat, config: ParserConfig)
    requires
        0 <= at,
    ensures
        sound_statement(stream, at, Grammar::function_rule(stream, at, depth, config)),
    decreases stream.len() - at, 10int,
{
    match Grammar::function_rule(stream, at, depth, config) {
        Ok((found, end)) => {
            lemma_params(stream, at + 3, config);
            let close = Grammar::params(stream, at + 3, config)->Ok_0.1;
            lemma_block(stream, close + 1, depth, config);
            let tokens = stream.subrange(at, end);
            let k = close - at;
            assert(tokens.subrange(3, k) =~= stream.subrange(at + 3, close));
            assert(tokens.subrange(k + 1, tokens.len() as int) =~= stream.subrange(
                close + 1,
                end,
            ));
            assert(tokens[k] == TokenView::RightParen);
        },
        Err(_) => {},
    }
}

#[verifier::rlimit(60)]
proof fn lemma_if(stream: Seq<TokenView>, at: int, depth: nat, config: ParserConfig)
    requires
        0 <= at,
    ensures
        sound_statement(stream, at, Grammar::if_rule(stream, at, depth, config)),
    decreases stream.len() - at, 10int,
{
    match Grammar::if_rule(stream, at, depth, config) {
        Ok((found, end)) => {
            lemma_assignment(stream, at + 1, depth, config);
            let tested = Grammar::assignment(stream, at + 1, depth, config)->Ok_0.1;
            lemma_block(stream, tested, depth, config);
            let done = Grammar::block(stream, tested, depth, config)->Ok_0.1;
            let tokens = stream.subrange(at, end);
            let k = tested - at;
            let m = done - at;
            if token_at(stream, done) == Some(TokenView::Else) {
                if token_at(stream, done + 1) == Some(TokenView::If) {
                    lemma_if_statement(stream, done + 1, depth, config);
                } else {
                    lemma_block(stream, done + 1, depth, config);
                }
                assert(tokens.subrange(m + 1, tokens.len() as int) =~= stream.subrange(
                    done + 1,
                    end,
                ));
                assert(tokens[m] == TokenView::Else);
            }
            assert(tokens.subrange(1, k) =~= stream.subrange(at + 1, tested));
            assert(tokens.subrange(k, m) =~= stream.subrange(tested, done));
        },
        Err(_) => {},
    }
}

#[verifier::rlimit(60)]
proof fn lemma_block_items(stream: Seq<TokenView>, at: int, depth: nat, config: ParserConfig)
    requires
        0 <= at <= stream.len(),
    ensures
        Grammar::block_items(stream, at, depth, config) matches Ok((items, next)) ==> at <= next
            <= stream.len() && reads_statements(stream.subrange(at, next), items),
    decreases stream.len() - at, 21int,
{
    match Grammar::block_items(stream, at, depth, config) {
        Ok((items, next)) => {
            if token_at(stream, at) == Some(TokenView::RightBrace) || token_at(
                stream,
                at,
            ).is_none() {
                assert(stream.subrange(at, at) =~= Seq::<TokenView>::empty());
            } else {
                lemma_statement(stream, at, depth, config);
                let (first, middle) = Grammar::statement(stream, at, depth, config)->Ok_0;
                lemma_block_items(stream, middle, depth, config);
                let rest = Grammar::block_items(stream, middle, depth, config)->Ok_0.0;
                let tokens = stream.subrange(at, next);
                let k = middle - at;
                assert(items.subrange(1, items.len() as int) =~= rest);
                assert(tokens.subrange(0, k) =~= stream.subrange(at, middle));
                assert(tokens.subrange(k, tokens.len() as int) =~= stream.subrange(middle, next));
            }
        },
        Err(_) => {},
    }
}

#[verifier::rlimit(60)]
proof fn lemma_block_rule(stream: Seq<TokenView>, at: int, depth: nat, config: ParserConfig)
    requires
        0 <= at,
    ensures
        sound_statement(stream, at, Grammar::block_rule(stream, at, depth, config)),
    decreases stream.len() - at, 10int,
{
    match Grammar::block_rule(stream, at, depth, config) {
        Ok((found, end)) => {
            lemma_block_items(stream, at + 1, depth, config);
            let tokens = stream.subrange(at, end);
            assert(tokens.subrange(1, tokens.len() - 1) =~= stream.subrange(at + 1, end - 1));
        },
        Err(_) => {},
    }
}

#[verifier::rlimit(60)]
proof fn lemma_export(stream: Seq<TokenView>, at: int, depth: nat, config: ParserConfig)
    requires
        0 <= at,
    ensures
        sound_statement(stream, at, Grammar::export_rule(stream, at, depth, config)),
    decreases stream.len() - at, 10int,
{
    match Grammar::export_rule(stream, at, depth, config) {
        Ok((found, end)) => {
            lemma_statement(stream, at + 1, depth, config);
            let tokens = stream.subrange(at, end);
            assert(tokens.subrange(1, tokens.len() as int) =~= stream.subrange(at + 1, end));
        },
        Err(_) => {},
    }
}

#[verifier::rlimit(60)]
proof fn lemma_while(stream: Seq<TokenView>, at: int, depth: nat, config: ParserConfig)
    requires
        0 <= at,
    ensures
        sound_statement(stream, at, Grammar::while_rule(stream, at, depth, config)),
    decreases stream.len() - at, 10int,
{
    match Grammar::while_rule(stream, at, depth, config) {
        Ok((found, end)) => {
            lemma_assignment(stream, at + 1, depth, config);
            let tested = Grammar::assignment(stream, at + 1, depth, config)->Ok_0.1;
            lemma_block(stream, tested, depth, config);
            let tokens = stream.subrange(at, end);
            let k = tested - at;
            assert(tokens.subrange(1, k) =~= stream.subrange(at + 1, tested));
            assert(tokens.subrange(k, tokens.len() as int) =~= stream.subrange(tested, end));
        },
        Err(_) => {},
    }
}

#[verifier::rlimit(80)]
proof fn lemma_for(stream: Seq<TokenView>, at: int, depth: nat, config: ParserConfig)
    requires
        0 <= at,
    ensures
        sound_statement(stream, at, Grammar::for_rule(stream, at, depth, config)),
    decreases stream.len() - at, 10int,
{
    match Grammar::for_rule(stream, at, depth, config) {
        Ok((found, end)) => {
            let second = Grammar::for_init(stream, at + 2, depth, config)->Ok_0.1;
            let third = Grammar::for_condition(stream, second, depth, config)->Ok_0.1;
            let close = Grammar::for_update(stream, third, depth, config)->Ok_0.1;
            let tokens = stream.subrange(at, end);
            let a = second - at;
            let b = third - at;
            let c = close - at;
            lemma_block(stream, close + 1, depth, config);
            if token_at(stream, at + 2) == Some(TokenView::Semicolon) {
                assert(stream.subrange(at + 2, second) =~= seq![TokenView::Semicolon]);
            } else {
                lemma_statement(stream, at + 2, depth, config);
            }
            if token_at(stream, third) != Some(TokenView::RightParen) {
                lemma_assignment(stream, third, depth, config);
            }
            if token_at(stream, second) == Some(TokenView::Semicolon) {
                assert(stream.subrange(second, third) =~= seq![TokenView::Semicolon]);
            } else {
                lemma_assignment(stream, second, depth, config);
                assert(tokens.subrange(a, b - 1) =~= stream.subrange(second, third - 1));
            }
            assert(tokens.subrange(2, a) =~= stream.subrange(at + 2, second));
            assert(tokens.subrange(a, b) =~= stream.subrange(second, third));
            assert(tokens.subrange(b, c) =~= stream.subrange(third, close));
            assert(tokens.subrange(c + 1, tokens.len() as int) =~= stream.subrange(
                close + 1,
                end,
            ));
            assert(tokens[c] == TokenView::RightParen);
        },
        Err(_) => {},
    }
}

#[verifier::rlimit(60)]
proof fn lemma_if_statement(stream: Seq<TokenView>, at: int, depth: nat, config: ParserConfig)
    requires
        0 <= at,
    ensures
        sound_statement(stream, at, Grammar::if_statement(stream, at, depth, config)),
    decreases stream.len() - at, 11int,
{
    lemma_if(stream, at, depth + 1, config);
}

#[verifier::rlimit(60)]
proof fn lemma_block(stream: Seq<TokenView>, at: int, depth: nat, config: ParserConfig)
    requires
        0 <= at,
    ensures
        sound_statement(stream, at, Grammar::block(stream, at, depth, config)),
    decreases stream.len() - at, 11int,
{
    lemma_block_rule(stream, at, depth + 1, config);
}

#[verifier::rlimit(60)]
proof fn lemma_statement(stream: Seq<TokenView>, at: int, depth: nat, config: ParserConfig)
    requires
        0 <= at,
    ensures
        sound_statement(stream, at, Grammar::statement(stream, at, depth, config)),
    decreases stream.len() - at, 20int,
{
    match token_at(stream, at) {
        Some(TokenView::Let) => {
            lemma_let(stream, at, depth + 1, config);
        },
        Some(TokenView::Const) => {
            lemma_const(stream, at, depth + 1, config);
        },
        Some(TokenView::Fn) => {
            lemma_function(stream, at, depth + 1, config);
        },
        Some(TokenView::If) => {
            lemma_if_statement(stream, at, depth, config);
        },
        Some(TokenView::While) => {
            lemma_while(stream, at, depth + 1, config);
        },
        Some(TokenView::For) => {
            lemma_for(stream, at, depth + 1, config);
        },
        Some(TokenView::Break) => {
            lemma_simple(stream, at, TokenView::Break, StmtView::Break);
        },
        Some(TokenView::Continue) => {
            lemma_simple(stream, at, TokenView::Continue, StmtView::Continue);
        },
        Some(TokenView::Return) => {
            lemma_return(stream, at, depth + 1, config);
        },
        Some(TokenView::LeftBrace) => {
            lemma_block(stream, at, depth, config);
        },
        Some(TokenView::Import) => {
            lemma_import(stream, at);
        },
        Some(TokenView::Export) => {
            lemma_export(stream, at, depth + 1, config);
        },
        _ => {
            lemma_expression_statement(stream, at, depth + 1, config);
        },
    }
}

/// The statements of located statements.
pub open spec fn unlocated(items: Seq<(StmtView, int)>) -> Seq<StmtView> {
    Seq::new(items.len(), |i: int| items[i].0)
}

#[verifier::rlimit(60)]
proof fn lemma_program(stream: Seq<TokenView>, at: int, depth: nat, config: ParserConfig)
    requires
        0 <= at <= stream.len(),
        Grammar::program(stream, at, depth, config) is Ok,
    ensures
        reads_statements(
            stream.subrange(at, stream.len() as int),
            unlocated(Grammar::program(stream, at, depth, config)->Ok_0),
        ),
    decreases stream.len() - at,
{
    let items = Grammar::program(stream, at, depth, config)->Ok_0;
    if at < stream.len() {
        lemma_statement(stream, at, depth + 1, config);
        let (first, middle) = Grammar::statement(stream, at, depth + 1, config)->Ok_0;
        lemma_program(stream, middle, depth, config);
        let rest = Grammar::program(stream, middle, depth, config)->Ok_0;
        let tokens = stream.subrange(at, stream.len() as int);
        let k = middle - at;
        assert(unlocated(items).subrange(1, items.len() as int) =~= unlocated(rest));
        assert(tokens.subrange(0, k) =~= stream.subrange(at, middle));
        assert(tokens.subrange(k, tokens.len() as int) =~= stream.subrange(
            middle,
            stream.len() as int,
        ));
        assert(unlocated(items)[0] == first);
    } else {
        assert(stream.subrange(at, stream.len() as int) =~= Seq::<TokenView>::empty());
        assert(unlocated(items) =~= Seq::<StmtView>::empty());
    }
}

/// The parser is sound. The statements of a source that is a program are a
/// reading of all its tokens: each statement of its own tokens, one behind
/// the other.
pub proof fn law_program_is_read(stream: Seq<TokenView>, config: ParserConfig)
    requires
        Grammar::program(stream, 0, 0, config) is Ok,
    ensures
        reads_statements(stream, unlocated(Grammar::program(stream, 0, 0, config)->Ok_0)),
{
    lemma_program(stream, 0, 0, config);
    assert(stream.subrange(0, stream.len() as int) =~= stream);
}

} // verus!
