//! A shape that every accepted stream has: behind each `/` stands an
//! operand, so no `/` stands directly before a `*`, `**` or `*=`.

use crate::ast::expr::ExprView;
use crate::ast::expr::Grammar;
use crate::ast::op::BinaryOp;
use crate::ast::op::UnaryOp;
use crate::ast::stmt::StmtView;
use crate::ast::stmt::guarded;
use crate::lexer::TokenView;
use crate::parser::config::ParserConfig;
use crate::parser::stream::Outcome;
use crate::parser::stream::progress;
use crate::parser::stream::token_at;
use vstd::prelude::*;

verus! {

/// True for the tokens that begin with a star.
pub open spec fn star_like(token: TokenView) -> bool {
    token == TokenView::Star || token == TokenView::DoubleStar || token == TokenView::StarEqual
}

/// In the tokens `from..to` every `/` is followed by a token that begins
/// with no star.
pub open spec fn divides(stream: Seq<TokenView>, from: int, to: int) -> bool {
    &&& 0 <= from <= to <= stream.len()
    &&& forall|i: int|
        from <= i < to && #[trigger] stream[i] == TokenView::Slash ==> i + 1 < to && !star_like(
            stream[i + 1],
        )
}

/// What a rule took, where it succeeded, has the shape.
pub open spec fn clean<T>(stream: Seq<TokenView>, at: int, outcome: Outcome<T>) -> bool {
    match outcome {
        Ok((_, next)) => divides(stream, at, next),
        Err(_) => true,
    }
}

/// What a rule took, where it succeeded, has the shape, is not empty and
/// begins with no star and no `/`.
pub open spec fn operand<T>(stream: Seq<TokenView>, at: int, outcome: Outcome<T>) -> bool {
    match outcome {
        Ok((_, next)) => {
            &&& divides(stream, at, next)
            &&& at < next
            &&& !star_like(stream[at])
            &&& stream[at] != TokenView::Slash
        },
        Err(_) => true,
    }
}

proof fn lemma_join(stream: Seq<TokenView>, from: int, mid: int, to: int)
    requires
        divides(stream, from, mid),
        divides(stream, mid, to),
    ensures
        divides(stream, from, to),
{
}

/// One token that is no `/` has the shape.
proof fn lemma_one(stream: Seq<TokenView>, at: int)
    requires
        0 <= at < stream.len(),
        stream[at] != TokenView::Slash,
    ensures
        divides(stream, at, at + 1),
{
}

/// What has the shape still has it with one more token that is no `/`.
proof fn lemma_more(stream: Seq<TokenView>, from: int, to: int)
    requires
        divides(stream, from, to),
        to < stream.len(),
        stream[to] != TokenView::Slash,
    ensures
        divides(stream, from, to + 1),
{
}

proof fn lemma_primary(stream: Seq<TokenView>, at: int, depth: nat, config: ParserConfig)
    requires
        0 <= at,
    ensures
        operand(stream, at, Grammar::primary(stream, at, depth, config)),
    decreases stream.len() - at, 1int,
{
    match token_at(stream, at) {
        Some(TokenView::LeftParen) => {
            lemma_assignment(stream, at + 1, depth, config);
            match Grammar::assignment(stream, at + 1, depth, config) {
                Ok((inner, next)) => {
                    if token_at(stream, next) == Some(TokenView::RightParen) {
                        lemma_one(stream, at);
                        lemma_join(stream, at, at + 1, next);
                        lemma_more(stream, at, next);
                    }
                },
                Err(_) => {},
            }
        },
        Some(TokenView::LeftBracket) => {
            lemma_array_literal(stream, at, depth, config);
        },
        Some(token) => {
            if token != TokenView::Slash {
                lemma_one(stream, at);
            }
        },
        None => {},
    }
}

proof fn lemma_array_literal(stream: Seq<TokenView>, at: int, depth: nat, config: ParserConfig)
    requires
        0 <= at,
    ensures
        operand(stream, at, Grammar::array_literal(stream, at, depth, config)),
    decreases stream.len() - at, 0int,
{
    if token_at(stream, at) == Some(TokenView::LeftBracket) {
        lemma_items(stream, at + 1, depth, config, TokenView::RightBracket);
        match Grammar::items(stream, at + 1, depth, config, TokenView::RightBracket) {
            Ok((elements, next)) => {
                if token_at(stream, next) == Some(TokenView::RightBracket) {
                    lemma_one(stream, at);
                    lemma_join(stream, at, at + 1, next);
                    lemma_more(stream, at, next);
                }
            },
            Err(_) => {},
        }
    }
}

proof fn lemma_items(
    stream: Seq<TokenView>,
    at: int,
    depth: nat,
    config: ParserConfig,
    closer: TokenView,
)
    requires
        0 <= at <= stream.len(),
    ensures
        clean(stream, at, Grammar::items(stream, at, depth, config, closer)),
    decreases stream.len() - at, 7int,
{
    if token_at(stream, at) != Some(closer) {
        lemma_assignment(stream, at, depth, config);
        match progress(Grammar::assignment(stream, at, depth, config), at, stream.len()) {
            Ok((item, next)) => {
                if token_at(stream, next) == Some(TokenView::Comma) {
                    lemma_more(stream, at, next);
                    if token_at(stream, next + 1) != Some(closer) {
                        lemma_items(stream, next + 1, depth, config, closer);
                        match Grammar::items(stream, next + 1, depth, config, closer) {
                            Ok((rest, after)) => {
                                lemma_join(stream, at, next + 1, after);
                            },
                            Err(_) => {},
                        }
                    }
                }
            },
            Err(_) => {},
        }
    }
}

proof fn lemma_call(
    stream: Seq<TokenView>,
    at: int,
    depth: nat,
    config: ParserConfig,
    callee: ExprView,
)
    requires
        token_at(stream, at) == Some(TokenView::LeftParen),
    ensures
        clean(stream, at, Grammar::call(stream, at, depth, config, callee)),
    decreases stream.len() - at, 2int,
{
    lemma_items(stream, at + 1, depth, config, TokenView::RightParen);
    match Grammar::items(stream, at + 1, depth, config, TokenView::RightParen) {
        Ok((args, next)) => {
            if token_at(stream, next) == Some(TokenView::RightParen) {
                lemma_one(stream, at);
                lemma_join(stream, at, at + 1, next);
                lemma_more(stream, at, next);
            }
        },
        Err(_) => {},
    }
}

proof fn lemma_postfix(stream: Seq<TokenView>, at: int, depth: nat, config: ParserConfig)
    requires
        0 <= at,
    ensures
        operand(stream, at, Grammar::postfix(stream, at, depth, config)),
    decreases stream.len() - at, 3int,
{
    lemma_primary(stream, at, depth, config);
    match progress(Grammar::primary(stream, at, depth, config), at, stream.len()) {
        Ok((found, next)) => {
            lemma_postfix_chain(stream, next, depth, config, found);
            match Grammar::postfix_chain(stream, next, depth, config, found) {
                Ok((whole, after)) => {
                    lemma_join(stream, at, next, after);
                },
                Err(_) => {},
            }
        },
        Err(_) => {},
    }
}

proof fn lemma_postfix_chain(
    stream: Seq<TokenView>,
    at: int,
    depth: nat,
    config: ParserConfig,
    found: ExprView,
)
    requires
        0 <= at <= stream.len(),
    ensures
        clean(stream, at, Grammar::postfix_chain(stream, at, depth, config, found)),
    decreases stream.len() - at, 8int,
{
    match token_at(stream, at) {
        Some(TokenView::PlusPlus) => {
            let more = ExprView::PostIncrement { operand: Box::new(found) };
            lemma_postfix_chain(stream, at + 1, depth, config, more);
            lemma_one(stream, at);
            match Grammar::postfix_chain(stream, at + 1, depth, config, more) {
                Ok((whole, after)) => {
                    lemma_join(stream, at, at + 1, after);
                },
                Err(_) => {},
            }
        },
        Some(TokenView::MinusMinus) => {
            let more = ExprView::PostDecrement { operand: Box::new(found) };
            lemma_postfix_chain(stream, at + 1, depth, config, more);
            lemma_one(stream, at);
            match Grammar::postfix_chain(stream, at + 1, depth, config, more) {
                Ok((whole, after)) => {
                    lemma_join(stream, at, at + 1, after);
                },
                Err(_) => {},
            }
        },
        Some(TokenView::LeftBracket) => {
            lemma_assignment(stream, at + 1, depth, config);
            match progress(Grammar::assignment(stream, at + 1, depth, config), at, stream.len()) {
                Ok((index, next)) => {
                    if token_at(stream, next) == Some(TokenView::RightBracket) {
                        let more = ExprView::Index {
                            object: Box::new(found),
                            index: Box::new(index),
                        };
                        lemma_postfix_chain(stream, next + 1, depth, config, more);
                        lemma_one(stream, at);
                        lemma_join(stream, at, at + 1, next);
                        lemma_more(stream, at, next);
                        match Grammar::postfix_chain(stream, next + 1, depth, config, more) {
                            Ok((whole, after)) => {
                                lemma_join(stream, at, next + 1, after);
                            },
                            Err(_) => {},
                        }
                    }
                },
                Err(_) => {},
            }
        },
        Some(TokenView::Dot) => {
            match token_at(stream, at + 1) {
                Some(TokenView::Identifier(name)) => {
                    let more = ExprView::Member { object: Box::new(found), property: name };
                    lemma_postfix_chain(stream, at + 2, depth, config, more);
                    lemma_one(stream, at);
                    lemma_more(stream, at, at + 1);
                    match Grammar::postfix_chain(stream, at + 2, depth, config, more) {
                        Ok((whole, after)) => {
                            lemma_join(stream, at, at + 2, after);
                        },
                        Err(_) => {},
                    }
                },
                _ => {},
            }
        },
        Some(TokenView::LeftParen) => {
            lemma_call(stream, at, depth, config, found);
            match progress(Grammar::call(stream, at, depth, config, found), at, stream.len()) {
                Ok((call, after)) => {
                    lemma_postfix_chain(stream, after, depth, config, call);
                    match Grammar::postfix_chain(stream, after, depth, config, call) {
                        Ok((whole, end)) => {
                            lemma_join(stream, at, after, end);
                        },
                        Err(_) => {},
                    }
                },
                Err(_) => {},
            }
        },
        _ => {},
    }
}

proof fn lemma_unary(stream: Seq<TokenView>, at: int, depth: nat, config: ParserConfig)
    requires
        0 <= at,
    ensures
        operand(stream, at, Grammar::unary(stream, at, depth, config)),
    decreases stream.len() - at, 4int,
{
    match token_at(stream, at) {
        Some(token) => {
            if UnaryOp::of_token(token).is_some() {
                lemma_unary(stream, at + 1, depth, config);
                match Grammar::unary(stream, at + 1, depth, config) {
                    Ok((found, next)) => {
                        lemma_one(stream, at);
                        lemma_join(stream, at, at + 1, next);
                    },
                    Err(_) => {},
                }
            } else if token == TokenView::PlusPlus || token == TokenView::MinusMinus {
                lemma_postfix(stream, at + 1, depth, config);
                match Grammar::postfix(stream, at + 1, depth, config) {
                    Ok((found, next)) => {
                        lemma_one(stream, at);
                        lemma_join(stream, at, at + 1, next);
                    },
                    Err(_) => {},
                }
            } else {
                lemma_postfix(stream, at, depth, config);
            }
        },
        None => {
            lemma_postfix(stream, at, depth, config);
        },
    }
}

proof fn lemma_binary(stream: Seq<TokenView>, at: int, depth: nat, config: ParserConfig, min: u8)
    requires
        0 <= at,
    ensures
        operand(stream, at, Grammar::binary(stream, at, depth, config, min)),
    decreases stream.len() - at, 5int,
{
    if depth < config.max_recursion_depth {
        lemma_unary(stream, at, depth + 1, config);
        match progress(Grammar::unary(stream, at, depth + 1, config), at, stream.len()) {
            Ok((left, next)) => {
                lemma_climb(stream, next, depth + 1, config, min, left);
                match Grammar::climb(stream, next, depth + 1, config, min, left) {
                    Ok((whole, after)) => {
                        lemma_join(stream, at, next, after);
                    },
                    Err(_) => {},
                }
            },
            Err(_) => {},
        }
    }
}

/// Behind an operator stands its right operand: this is where a `/` may
/// stand, and why no star follows it.
proof fn lemma_climb(
    stream: Seq<TokenView>,
    at: int,
    depth: nat,
    config: ParserConfig,
    min: u8,
    left: ExprView,
)
    requires
        0 <= at <= stream.len(),
    ensures
        clean(stream, at, Grammar::climb(stream, at, depth, config, min, left)),
    decreases stream.len() - at, 9int,
{
    match token_at(stream, at) {
        Some(token) => match BinaryOp::of_token(token) {
            Some(op) => {
                if op.spec_precedence() >= min {
                    let floor = op.right_operand_floor();
                    lemma_binary(stream, at + 1, depth, config, floor);
                    match progress(
                        Grammar::binary(stream, at + 1, depth, config, floor),
                        at,
                        stream.len(),
                    ) {
                        Ok((right, next)) => {
                            let both = ExprView::Binary {
                                op,
                                left: Box::new(left),
                                right: Box::new(right),
                            };
                            assert(divides(stream, at, next));
                            lemma_climb(stream, next, depth, config, min, both);
                            match Grammar::climb(stream, next, depth, config, min, both) {
                                Ok((whole, after)) => {
                                    lemma_join(stream, at, next, after);
                                },
                                Err(_) => {},
                            }
                        },
                        Err(_) => {},
                    }
                }
            },
            None => {},
        },
        None => {},
    }
}

pub proof fn lemma_assignment(stream: Seq<TokenView>, at: int, depth: nat, config: ParserConfig)
    requires
        0 <= at,
    ensures
        operand(stream, at, Grammar::assignment(stream, at, depth, config)),
    decreases stream.len() - at, 6int,
{
    if depth < config.max_recursion_depth {
        lemma_binary(stream, at, depth + 1, config, 0);
        match progress(Grammar::binary(stream, at, depth + 1, config, 0), at, stream.len()) {
            Ok((target, next)) => {
                match token_at(stream, next) {
                    Some(token) => {
                        if token == TokenView::Equal || BinaryOp::of_compound(token).is_some() {
                            lemma_assignment(stream, next + 1, depth + 1, config);
                            match Grammar::assignment(stream, next + 1, depth + 1, config) {
                                Ok((value, after)) => {
                                    lemma_more(stream, at, next);
                                    lemma_join(stream, at, next + 1, after);
                                },
                                Err(_) => {},
                            }
                        }
                    },
                    None => {},
                }
            },
            Err(_) => {},
        }
    }
}

proof fn lemma_let(stream: Seq<TokenView>, at: int, depth: nat, config: ParserConfig)
    requires
        0 <= at,
    ensures
        clean(stream, at, Grammar::let_rule(stream, at, depth, config)),
{
    if token_at(stream, at) == Some(TokenView::Let) && Grammar::name(
        stream,
        at + 1,
        "identifier"@,
    ).is_ok() {
        lemma_one(stream, at);
        lemma_more(stream, at, at + 1);
        if token_at(stream, at + 2) == Some(TokenView::Equal) {
            lemma_more(stream, at, at + 2);
            lemma_assignment(stream, at + 3, depth, config);
            match Grammar::assignment(stream, at + 3, depth, config) {
                Ok((value, next)) => {
                    lemma_join(stream, at, at + 3, next);
                    if token_at(stream, next) == Some(TokenView::Semicolon) {
                        lemma_more(stream, at, next);
                    }
                },
                Err(_) => {},
            }
        } else if token_at(stream, at + 2) == Some(TokenView::Semicolon) {
            lemma_more(stream, at, at + 2);
        }
    }
}

proof fn lemma_const(stream: Seq<TokenView>, at: int, depth: nat, config: ParserConfig)
    requires
        0 <= at,
    ensures
        clean(stream, at, Grammar::const_rule(stream, at, depth, config)),
{
    if token_at(stream, at) == Some(TokenView::Const) && Grammar::name(
        stream,
        at + 1,
        "identifier"@,
    ).is_ok() && token_at(stream, at + 2) == Some(TokenView::Equal) {
        lemma_one(stream, at);
        lemma_more(stream, at, at + 1);
        lemma_more(stream, at, at + 2);
        lemma_assignment(stream, at + 3, depth, config);
        match Grammar::assignment(stream, at + 3, depth, config) {
            Ok((value, next)) => {
                lemma_join(stream, at, at + 3, next);
                if token_at(stream, next) == Some(TokenView::Semicolon) {
                    lemma_more(stream, at, next);
                }
            },
            Err(_) => {},
        }
    }
}

proof fn lemma_params(stream: Seq<TokenView>, at: int, config: ParserConfig)
    requires
        0 <= at <= stream.len(),
    ensures
        clean(stream, at, Grammar::params(stream, at, config)),
    decreases stream.len() - at,
{
    if token_at(stream, at) != Some(TokenView::RightParen) && Grammar::name(
        stream,
        at,
        "parameter name"@,
    ).is_ok() {
        lemma_one(stream, at);
        if token_at(stream, at + 1) == Some(TokenView::Comma) {
            lemma_more(stream, at, at + 1);
            if token_at(stream, at + 2) != Some(TokenView::RightParen) {
                lemma_params(stream, at + 2, config);
                match Grammar::params(stream, at + 2, config) {
                    Ok((rest, after)) => {
                        lemma_join(stream, at, at + 2, after);
                    },
                    Err(_) => {},
                }
            }
        }
    }
}

proof fn lemma_return(stream: Seq<TokenView>, at: int, depth: nat, config: ParserConfig)
    requires
        0 <= at,
    ensures
        clean(stream, at, Grammar::return_rule(stream, at, depth, config)),
{
    if token_at(stream, at) == Some(TokenView::Return) {
        lemma_one(stream, at);
        if token_at(stream, at + 1) == Some(TokenView::Semicolon) {
            lemma_more(stream, at, at + 1);
        } else if token_at(stream, at + 1).is_some() {
            lemma_assignment(stream, at + 1, depth, config);
            match Grammar::assignment(stream, at + 1, depth, config) {
                Ok((value, next)) => {
                    lemma_join(stream, at, at + 1, next);
                    if token_at(stream, next) == Some(TokenView::Semicolon) {
                        lemma_more(stream, at, next);
                    }
                },
                Err(_) => {},
            }
        }
    }
}

proof fn lemma_import(stream: Seq<TokenView>, at: int)
    requires
        0 <= at,
    ensures
        clean(stream, at, Grammar::import_rule(stream, at)),
{
    if token_at(stream, at) == Some(TokenView::Import) {
        lemma_one(stream, at);
        match token_at(stream, at + 1) {
            Some(TokenView::StringLiteral(_)) => {
                lemma_more(stream, at, at + 1);
                if token_at(stream, at + 2) == Some(TokenView::Semicolon) {
                    lemma_more(stream, at, at + 2);
                }
            },
            Some(TokenView::Identifier(_)) => {
                lemma_more(stream, at, at + 1);
                if token_at(stream, at + 2) == Some(TokenView::Semicolon) {
                    lemma_more(stream, at, at + 2);
                }
            },
            _ => {},
        }
    }
}

proof fn lemma_expression_statement(
    stream: Seq<TokenView>,
    at: int,
    depth: nat,
    config: ParserConfig,
)
    requires
        0 <= at,
    ensures
        clean(stream, at, Grammar::expression_rule(stream, at, depth, config)),
{
    lemma_assignment(stream, at, depth, config);
    match Grammar::assignment(stream, at, depth, config) {
        Ok((value, next)) => {
            if token_at(stream, next) == Some(TokenView::Semicolon) {
                lemma_more(stream, at, next);
            }
        },
        Err(_) => {},
    }
}

proof fn lemma_simple(stream: Seq<TokenView>, at: int, word: TokenView, value: StmtView)
    requires
        0 <= at,
        word != TokenView::Slash,
    ensures
        clean(stream, at, Grammar::simple(stream, at, word, value)),
{
    if token_at(stream, at) == Some(word) {
        lemma_one(stream, at);
        if token_at(stream, at + 1) == Some(TokenView::Semicolon) {
            lemma_more(stream, at, at + 1);
        }
    }
}

proof fn lemma_for_condition(stream: Seq<TokenView>, at: int, depth: nat, config: ParserConfig)
    requires
        0 <= at,
    ensures
        clean(stream, at, Grammar::for_condition(stream, at, depth, config)),
{
    if token_at(stream, at) == Some(TokenView::Semicolon) {
        lemma_one(stream, at);
    } else {
        lemma_assignment(stream, at, depth, config);
        match Grammar::assignment(stream, at, depth, config) {
            Ok((value, next)) => {
                if token_at(stream, next) == Some(TokenView::Semicolon) {
                    lemma_more(stream, at, next);
                }
            },
            Err(_) => {},
        }
    }
}

proof fn lemma_for_update(stream: Seq<TokenView>, at: int, depth: nat, config: ParserConfig)
    requires
        0 <= at <= stream.len(),
    ensures
        clean(stream, at, Grammar::for_update(stream, at, depth, config)),
{
    if token_at(stream, at) != Some(TokenView::RightParen) {
        lemma_assignment(stream, at, depth, config);
    }
}

proof fn lemma_function(stream: Seq<TokenView>, at: int, depth: nat, config: ParserConfig)
    requires
        0 <= at,
    ensures
        clean(stream, at, Grammar::function_rule(stream, at, depth, config)),
    decreases stream.len() - at, 10int,
{
    if token_at(stream, at) == Some(TokenView::Fn) && Grammar::name(
        stream,
        at + 1,
        "function name"@,
    ).is_ok() && token_at(stream, at + 2) == Some(TokenView::LeftParen) {
        lemma_one(stream, at);
        lemma_more(stream, at, at + 1);
        lemma_more(stream, at, at + 2);
        lemma_params(stream, at + 3, config);
        match progress(Grammar::params(stream, at + 3, config), at, stream.len()) {
            Ok((params, next)) => {
                lemma_join(stream, at, at + 3, next);
                if token_at(stream, next) == Some(TokenView::RightParen) {
                    lemma_more(stream, at, next);
                    lemma_block(stream, next + 1, depth, config);
                    match Grammar::block(stream, next + 1, depth, config) {
                        Ok((body, after)) => {
                            lemma_join(stream, at, next + 1, after);
                        },
                        Err(_) => {},
                    }
                }
            },
            Err(_) => {},
        }
    }
}

proof fn lemma_if(stream: Seq<TokenView>, at: int, depth: nat, config: ParserConfig)
    requires
        0 <= at,
    ensures
        clean(stream, at, Grammar::if_rule(stream, at, depth, config)),
    decreases stream.len() - at, 10int,
{
    if token_at(stream, at) == Some(TokenView::If) {
        lemma_one(stream, at);
        lemma_assignment(stream, at + 1, depth, config);
        match progress(Grammar::assignment(stream, at + 1, depth, config), at, stream.len()) {
            Ok((condition, next)) => {
                lemma_join(stream, at, at + 1, next);
                lemma_block(stream, next, depth, config);
                match progress(Grammar::block(stream, next, depth, config), at, stream.len()) {
                    Ok((then_branch, after)) => {
                        lemma_join(stream, at, next, after);
                        if token_at(stream, after) == Some(TokenView::Else) {
                            lemma_more(stream, at, after);
                            if token_at(stream, after + 1) == Some(TokenView::If) {
                                lemma_if_statement(stream, after + 1, depth, config);
                                match Grammar::if_statement(stream, after + 1, depth, config) {
                                    Ok((other, end)) => {
                                        lemma_join(stream, at, after + 1, end);
                                    },
                                    Err(_) => {},
                                }
                            } else {
                                lemma_block(stream, after + 1, depth, config);
                                match Grammar::block(stream, after + 1, depth, config) {
                                    Ok((other, end)) => {
                                        lemma_join(stream, at, after + 1, end);
                                    },
                                    Err(_) => {},
                                }
                            }
                        }
                    },
                    Err(_) => {},
                }
            },
            Err(_) => {},
        }
    }
}

proof fn lemma_block_items(stream: Seq<TokenView>, at: int, depth: nat, config: ParserConfig)
    requires
        0 <= at <= stream.len(),
    ensures
        clean(stream, at, Grammar::block_items(stream, at, depth, config)),
    decreases stream.len() - at, 21int,
{
    if !(token_at(stream, at) == Some(TokenView::RightBrace) || token_at(stream, at).is_none()) {
        lemma_statement(stream, at, depth, config);
        match progress(Grammar::statement(stream, at, depth, config), at, stream.len()) {
            Ok((first, next)) => {
                lemma_block_items(stream, next, depth, config);
                match Grammar::block_items(stream, next, depth, config) {
                    Ok((rest, after)) => {
                        lemma_join(stream, at, next, after);
                    },
                    Err(_) => {},
                }
            },
            Err(_) => {},
        }
    }
}

proof fn lemma_block_rule(stream: Seq<TokenView>, at: int, depth: nat, config: ParserConfig)
    requires
        0 <= at,
    ensures
        clean(stream, at, Grammar::block_rule(stream, at, depth, config)),
    decreases stream.len() - at, 10int,
{
    if token_at(stream, at) == Some(TokenView::LeftBrace) {
        lemma_one(stream, at);
        lemma_block_items(stream, at + 1, depth, config);
        match Grammar::block_items(stream, at + 1, depth, config) {
            Ok((statements, next)) => {
                lemma_join(stream, at, at + 1, next);
                if token_at(stream, next) == Some(TokenView::RightBrace) {
                    lemma_more(stream, at, next);
                }
            },
            Err(_) => {},
        }
    }
}

proof fn lemma_export(stream: Seq<TokenView>, at: int, depth: nat, config: ParserConfig)
    requires
        0 <= at,
    ensures
        clean(stream, at, Grammar::export_rule(stream, at, depth, config)),
    decreases stream.len() - at, 10int,
{
    if token_at(stream, at) == Some(TokenView::Export) {
        lemma_one(stream, at);
        lemma_statement(stream, at + 1, depth, config);
        match Grammar::statement(stream, at + 1, depth, config) {
            Ok((statement, after)) => {
                lemma_join(stream, at, at + 1, after);
            },
            Err(_) => {},
        }
    }
}

proof fn lemma_while(stream: Seq<TokenView>, at: int, depth: nat, config: ParserConfig)
    requires
        0 <= at,
    ensures
        clean(stream, at, Grammar::while_rule(stream, at, depth, config)),
    decreases stream.len() - at, 10int,
{
    if token_at(stream, at) == Some(TokenView::While) {
        lemma_one(stream, at);
        lemma_assignment(stream, at + 1, depth, config);
        match progress(Grammar::assignment(stream, at + 1, depth, config), at, stream.len()) {
            Ok((condition, next)) => {
                lemma_join(stream, at, at + 1, next);
                lemma_block(stream, next, depth, config);
                match Grammar::block(stream, next, depth, config) {
                    Ok((body, after)) => {
                        lemma_join(stream, at, next, after);
                    },
                    Err(_) => {},
                }
            },
            Err(_) => {},
        }
    }
}

proof fn lemma_for_init(stream: Seq<TokenView>, at: int, depth: nat, config: ParserConfig)
    requires
        0 <= at <= stream.len(),
    ensures
        clean(stream, at, Grammar::for_init(stream, at, depth, config)),
    decreases stream.len() - at, 22int,
{
    if token_at(stream, at) == Some(TokenView::Semicolon) {
        lemma_one(stream, at);
    } else {
        lemma_statement(stream, at, depth, config);
    }
}

proof fn lemma_for(stream: Seq<TokenView>, at: int, depth: nat, config: ParserConfig)
    requires
        0 <= at,
    ensures
        clean(stream, at, Grammar::for_rule(stream, at, depth, config)),
    decreases stream.len() - at, 10int,
{
    if token_at(stream, at) == Some(TokenView::For) && token_at(stream, at + 1) == Some(
        TokenView::LeftParen,
    ) {
        lemma_one(stream, at);
        lemma_more(stream, at, at + 1);
        lemma_for_init(stream, at + 2, depth, config);
        match progress(Grammar::for_init(stream, at + 2, depth, config), at, stream.len()) {
            Ok((init, second)) => {
                lemma_join(stream, at, at + 2, second);
                lemma_for_condition(stream, second, depth, config);
                match progress(
                    Grammar::for_condition(stream, second, depth, config),
                    at,
                    stream.len(),
                ) {
                    Ok((condition, third)) => {
                        lemma_join(stream, at, second, third);
                        lemma_for_update(stream, third, depth, config);
                        match progress(
                            Grammar::for_update(stream, third, depth, config),
                            at,
                            stream.len(),
                        ) {
                            Ok((update, next)) => {
                                lemma_join(stream, at, third, next);
                                if token_at(stream, next) == Some(TokenView::RightParen) {
                                    lemma_more(stream, at, next);
                                    lemma_block(stream, next + 1, depth, config);
                                    match Grammar::block(stream, next + 1, depth, config) {
                                        Ok((body, after)) => {
                                            lemma_join(stream, at, next + 1, after);
                                        },
                                        Err(_) => {},
                                    }
                                }
                            },
                            Err(_) => {},
                        }
                    },
                    Err(_) => {},
                }
            },
            Err(_) => {},
        }
    }
}

proof fn lemma_if_statement(stream: Seq<TokenView>, at: int, depth: nat, config: ParserConfig)
    requires
        0 <= at,
    ensures
        clean(stream, at, Grammar::if_statement(stream, at, depth, config)),
    decreases stream.len() - at, 11int,
{
    lemma_if(stream, at, depth + 1, config);
}

proof fn lemma_block(stream: Seq<TokenView>, at: int, depth: nat, config: ParserConfig)
    requires
        0 <= at,
    ensures
        clean(stream, at, Grammar::block(stream, at, depth, config)),
    decreases stream.len() - at, 11int,
{
    lemma_block_rule(stream, at, depth + 1, config);
}

proof fn lemma_statement(stream: Seq<TokenView>, at: int, depth: nat, config: ParserConfig)
    requires
        0 <= at,
    ensures
        clean(stream, at, Grammar::statement(stream, at, depth, config)),
    decreases stream.len() - at, 20int,
{
    match token_at(stream, at) {
        Some(TokenView::Let) => {
            lemma_let(stream, at, depth + 1, config);
        },
        Some(TokenView::Const) => {
            lemma_const(stream, at, depth + 1, config);
        },
        Some(TokenView::Fn) => {
            lemma_function(stream, at, depth + 1, config);
        },
        Some(TokenView::If) => {
            lemma_if_statement(stream, at, depth, config);
        },
        Some(TokenView::While) => {
            lemma_while(stream, at, depth + 1, config);
        },
        Some(TokenView::For) => {
            lemma_for(stream, at, depth + 1, config);
        },
        Some(TokenView::Break) => {
            lemma_simple(stream, at, TokenView::Break, StmtView::Break);
        },
        Some(TokenView::Continue) => {
            lemma_simple(stream, at, TokenView::Continue, StmtView::Continue);
        },
        Some(TokenView::Return) => {
            lemma_return(stream, at, depth + 1, config);
        },
        Some(TokenView::LeftBrace) => {
            lemma_block(stream, at, depth, config);
        },
        Some(TokenView::Import) => {
            lemma_import(stream, at);
        },
        Some(TokenView::Export) => {
            lemma_export(stream, at, depth + 1, config);
        },
        _ => {
            lemma_expression_statement(stream, at, depth + 1, config);
        },
    }
}

proof fn lemma_program(stream: Seq<TokenView>, at: int, depth: nat, config: ParserConfig)
    requires
        0 <= at <= stream.len(),
        Grammar::program(stream, at, depth, config) is Ok,
    ensures
        divides(stream, at, stream.len() as int),
    decreases stream.len() - at,
{
    if at < stream.len() {
        lemma_statement(stream, at, depth + 1, config);
        match progress(
            guarded(depth, config, at, Grammar::statement(stream, at, depth + 1, config)),
            at,
            stream.len(),
        ) {
            Ok((first, next)) => {
                lemma_program(stream, next, depth, config);
                lemma_join(stream, at, next, stream.len() as int);
            },
            Err(_) => {},
        }
    }
}

/// No `/` before a star in a program. In every stream that is a program,
/// each `/` is followed by a token, and that token is no `*`, `**` or `*=`:
/// the grammar has a `/` only between two operands.
pub proof fn law_program_shape(stream: Seq<TokenView>, config: ParserConfig)
    requires
        Grammar::program(stream, 0, 0, config) is Ok,
    ensures
        divides(stream, 0, stream.len() as int),
{
    lemma_program(stream, 0, 0, config);
}

/// No `/` before a star in an expression. In every stream that is one
/// expression, each `/` is followed by a token, and that token is no `*`,
/// `**` or `*=`.
pub proof fn law_expression_shape(stream: Seq<TokenView>, config: ParserConfig)
    requires
        Grammar::sole_expression(stream, config) is Ok,
    ensures
        divides(stream, 0, stream.len() as int),
{
    lemma_assignment(stream, 0, 1, config);
}

} // verus!
