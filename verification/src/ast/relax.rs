//! A laxer configuration changes no parse that succeeds: what is a program
//! under one limit of depth is the same program under every larger limit,
//! and what is a program without trailing commas allowed is the same program
//! with them allowed.

use crate::ast::expr::ExprView;
use crate::ast::expr::Grammar;
use crate::ast::op::BinaryOp;
use crate::ast::op::UnaryOp;
use crate::ast::stmt::guarded;
use crate::lexer::TokenView;
use crate::parser::config::ParserConfig;
use crate::parser::stream::progress;
use crate::parser::stream::token_at;
use vstd::prelude::*;

verus! {

/// The configuration `lax` allows whatever `strict` allows: no smaller depth,
/// and trailing commas where `strict` allows them.
pub open spec fn relaxes(strict: ParserConfig, lax: ParserConfig) -> bool {
    &&& strict.max_recursion_depth <= lax.max_recursion_depth
    &&& strict.allow_trailing_commas ==> lax.allow_trailing_commas
}

proof fn lemma_primary(stream: Seq<TokenView>, at: int, strict: ParserConfig, lax: ParserConfig, depth: nat)
    requires
        relaxes(strict, lax),
        Grammar::primary(stream, at, depth, strict) is Ok,
    ensures
        Grammar::primary(stream, at, depth, lax) == Grammar::primary(stream, at, depth, strict),
    decreases stream.len() - at, 1int,
{
    match token_at(stream, at) {
        Some(TokenView::LeftParen) => {
            lemma_assignment(stream, at + 1, strict, lax, depth);
        },
        Some(TokenView::LeftBracket) => {
            lemma_array_literal(stream, at, strict, lax, depth);
        },
        _ => {},
    }
}

proof fn lemma_array_literal(stream: Seq<TokenView>, at: int, strict: ParserConfig, lax: ParserConfig, depth: nat)
    requires
        relaxes(strict, lax),
        Grammar::array_literal(stream, at, depth, strict) is Ok,
    ensures
        Grammar::array_literal(stream, at, depth, lax) == Grammar::array_literal(stream, at, depth, strict),
    decreases stream.len() - at, 0int,
{
    lemma_items(stream, at + 1, strict, lax, depth, TokenView::RightBracket);
}

proof fn lemma_items(stream: Seq<TokenView>, at: int, strict: ParserConfig, lax: ParserConfig, depth: nat, closer: TokenView)
    requires
        relaxes(strict, lax),
        Grammar::items(stream, at, depth, strict, closer) is Ok,
    ensures
        Grammar::items(stream, at, depth, lax, closer) == Grammar::items(stream, at, depth, strict, closer),
    decreases stream.len() - at, 7int,
{
    if token_at(stream, at) != Some(closer) {
        lemma_assignment(stream, at, strict, lax, depth);
        match Grammar::assignment(stream, at, depth, strict) {
            Ok((_, next)) => {
                if token_at(stream, next) == Some(TokenView::Comma) && token_at(stream, next + 1)
                    != Some(closer) {
                    lemma_items(stream, next + 1, strict, lax, depth, closer);
                }
            },
            Err(_) => {},
        }
    }
}

proof fn lemma_call(stream: Seq<TokenView>, at: int, strict: ParserConfig, lax: ParserConfig, depth: nat, callee: ExprView)
    requires
        relaxes(strict, lax),
        Grammar::call(stream, at, depth, strict, callee) is Ok,
    ensures
        Grammar::call(stream, at, depth, lax, callee) == Grammar::call(stream, at, depth, strict, callee),
    decreases stream.len() - at, 2int,
{
    lemma_items(stream, at + 1, strict, lax, depth, TokenView::RightParen);
}

proof fn lemma_postfix(stream: Seq<TokenView>, at: int, strict: ParserConfig, lax: ParserConfig, depth: nat)
    requires
        relaxes(strict, lax),
        Grammar::postfix(stream, at, depth, strict) is Ok,
    ensures
        Grammar::postfix(stream, at, depth, lax) == Grammar::postfix(stream, at, depth, strict),
    decreases stream.len() - at, 3int,
{
    lemma_primary(stream, at, strict, lax, depth);
    match Grammar::primary(stream, at, depth, strict) {
        Ok((found, next)) => {
            lemma_postfix_chain(stream, next, strict, lax, depth, found);
        },
        Err(_) => {},
    }
}

proof fn lemma_postfix_chain(stream: Seq<TokenView>, at: int, strict: ParserConfig, lax: ParserConfig, depth: nat, found: ExprView)
    requires
        relaxes(strict, lax),
        Grammar::postfix_chain(stream, at, depth, strict, found) is Ok,
    ensures
        Grammar::postfix_chain(stream, at, depth, lax, found) == Grammar::postfix_chain(stream, at, depth, strict, found),
    decreases stream.len() - at, 8int,
{
    match token_at(stream, at) {
        Some(TokenView::PlusPlus) => {
            lemma_postfix_chain(
                stream,
                at + 1,
                strict,
                lax,
                depth,
                ExprView::PostIncrement { operand: Box::new(found) },
            );
        },
        Some(TokenView::MinusMinus) => {
            lemma_postfix_chain(
                stream,
                at + 1,
                strict,
                lax,
                depth,
                ExprView::PostDecrement { operand: Box::new(found) },
            );
        },
        Some(TokenView::LeftBracket) => {
            lemma_assignment(stream, at + 1, strict, lax, depth);
            match Grammar::assignment(stream, at + 1, depth, strict) {
                Ok((index, next)) => {
                    lemma_postfix_chain(
                        stream,
                        next + 1,
                        strict,
                        lax,
                        depth,
                        ExprView::Index { object: Box::new(found), index: Box::new(index) },
                    );
                },
                Err(_) => {},
            }
        },
        Some(TokenView::Dot) => {
            match token_at(stream, at + 1) {
                Some(TokenView::Identifier(name)) => {
                    lemma_postfix_chain(
                        stream,
                        at + 2,
                        strict,
                        lax,
                        depth,
                        ExprView::Member { object: Box::new(found), property: name },
                    );
                },
                _ => {},
            }
        },
        Some(TokenView::LeftParen) => {
            lemma_call(stream, at, strict, lax, depth, found);
            match Grammar::call(stream, at, depth, strict, found) {
                Ok((call, after)) => {
                    lemma_postfix_chain(stream, after, strict, lax, depth, call);
                },
                Err(_) => {},
            }
        },
        _ => {},
    }
}

proof fn lemma_unary(stream: Seq<TokenView>, at: int, strict: ParserConfig, lax: ParserConfig, depth: nat)
    requires
        relaxes(strict, lax),
        Grammar::unary(stream, at, depth, strict) is Ok,
    ensures
        Grammar::unary(stream, at, depth, lax) == Grammar::unary(stream, at, depth, strict),
    decreases stream.len() - at, 4int,
{
    match token_at(stream, at) {
        Some(token) => {
            if UnaryOp::of_token(token).is_some() {
                lemma_unary(stream, at + 1, strict, lax, depth);
            } else if token == TokenView::PlusPlus || token == TokenView::MinusMinus {
                lemma_postfix(stream, at + 1, strict, lax, depth);
            } else {
                lemma_postfix(stream, at, strict, lax, depth);
            }
        },
        None => {
            lemma_postfix(stream, at, strict, lax, depth);
        },
    }
}

proof fn lemma_binary(stream: Seq<TokenView>, at: int, strict: ParserConfig, lax: ParserConfig, depth: nat, min: u8)
    requires
        relaxes(strict, lax),
        Grammar::binary(stream, at, depth, strict, min) is Ok,
    ensures
        Grammar::binary(stream, at, depth, lax, min) == Grammar::binary(stream, at, depth, strict, min),
    decreases stream.len() - at, 5int,
{
    lemma_unary(stream, at, strict, lax, depth + 1);
    match Grammar::unary(stream, at, depth + 1, strict) {
        Ok((left, next)) => {
            lemma_climb(stream, next, strict, lax, depth + 1, min, left);
        },
        Err(_) => {},
    }
}

proof fn lemma_climb(stream: Seq<TokenView>, at: int, strict: ParserConfig, lax: ParserConfig, depth: nat, min: u8, left: ExprView)
    requires
        relaxes(strict, lax),
        Grammar::climb(stream, at, depth, strict, min, left) is Ok,
    ensures
        Grammar::climb(stream, at, depth, lax, min, left) == Grammar::climb(stream, at, depth, strict, min, left),
    decreases stream.len() - at, 9int,
{
    match token_at(stream, at) {
        Some(token) => match BinaryOp::of_token(token) {
            Some(op) => {
                if op.spec_precedence() >= min {
                    let floor = op.right_operand_floor();
                    lemma_binary(stream, at + 1, strict, lax, depth, floor);
                    match Grammar::binary(stream, at + 1, depth, strict, floor) {
                        Ok((right, next)) => {
                            lemma_climb(
                                stream,
                                next,
                                strict,
                                lax,
                                depth,
                                min,
                                ExprView::Binary {
                                    op,
                                    left: Box::new(left),
                                    right: Box::new(right),
                                },
                            );
                        },
                        Err(_) => {},
                    }
                }
            },
            None => {},
        },
        None => {},
    }
}

proof fn lemma_assignment(stream: Seq<TokenView>, at: int, strict: ParserConfig, lax: ParserConfig, depth: nat)
    requires
        relaxes(strict, lax),
        Grammar::assignment(stream, at, depth, strict) is Ok,
    ensures
        Grammar::assignment(stream, at, depth, lax) == Grammar::assignment(stream, at, depth, strict),
    decreases stream.len() - at, 6int,
{
    lemma_binary(stream, at, strict, lax, depth + 1, 0);
    match Grammar::binary(stream, at, depth + 1, strict, 0) {
        Ok((target, next)) => {
            match token_at(stream, next) {
                Some(token) => {
                    if token == TokenView::Equal || BinaryOp::of_compound(token).is_some() {
                        lemma_assignment(stream, next + 1, strict, lax, depth + 1);
                    }
                },
                None => {},
            }
        },
        Err(_) => {},
    }
}

proof fn lemma_let(stream: Seq<TokenView>, at: int, strict: ParserConfig, lax: ParserConfig, depth: nat)
    requires
        relaxes(strict, lax),
        Grammar::let_rule(stream, at, depth, strict) is Ok,
    ensures
        Grammar::let_rule(stream, at, depth, lax) == Grammar::let_rule(stream, at, depth, strict),
{
    if token_at(stream, at + 2) == Some(TokenView::Equal) {
        lemma_assignment(stream, at + 3, strict, lax, depth);
    }
}

proof fn lemma_const(stream: Seq<TokenView>, at: int, strict: ParserConfig, lax: ParserConfig, depth: nat)
    requires
        relaxes(strict, lax),
        Grammar::const_rule(stream, at, depth, strict) is Ok,
    ensures
        Grammar::const_rule(stream, at, depth, lax) == Grammar::const_rule(stream, at, depth, strict),
{
    lemma_assignment(stream, at + 3, strict, lax, depth);
}

proof fn lemma_params(stream: Seq<TokenView>, at: int, strict: ParserConfig, lax: ParserConfig)
    requires
        relaxes(strict, lax),
        Grammar::params(stream, at, strict) is Ok,
    ensures
        Grammar::params(stream, at, lax) == Grammar::params(stream, at, strict),
    decreases stream.len() - at,
{
    if token_at(stream, at) != Some(TokenView::RightParen) && token_at(stream, at + 1) == Some(
        TokenView::Comma,
    ) && token_at(stream, at + 2) != Some(TokenView::RightParen) {
        lemma_params(stream, at + 2, strict, lax);
    }
}

proof fn lemma_function(stream: Seq<TokenView>, at: int, strict: ParserConfig, lax: ParserConfig, depth: nat)
    requires
        relaxes(strict, lax),
        Grammar::function_rule(stream, at, depth, strict) is Ok,
    ensures
        Grammar::function_rule(stream, at, depth, lax) == Grammar::function_rule(stream, at, depth, strict),
    decreases stream.len() - at, 10int,
{
    lemma_params(stream, at + 3, strict, lax);
    match Grammar::params(stream, at + 3, strict) {
        Ok((_, next)) => {
            lemma_block(stream, next + 1, strict, lax, depth);
        },
        Err(_) => {},
    }
}

proof fn lemma_if(stream: Seq<TokenView>, at: int, strict: ParserConfig, lax: ParserConfig, depth: nat)
    requires
        relaxes(strict, lax),
        Grammar::if_rule(stream, at, depth, strict) is Ok,
    ensures
        Grammar::if_rule(stream, at, depth, lax) == Grammar::if_rule(stream, at, depth, strict),
    decreases stream.len() - at, 10int,
{
    lemma_assignment(stream, at + 1, strict, lax, depth);
    match Grammar::assignment(stream, at + 1, depth, strict) {
        Ok((_, next)) => {
            lemma_block(stream, next, strict, lax, depth);
            match Grammar::block(stream, next, depth, strict) {
                Ok((_, after)) => {
                    if token_at(stream, after) == Some(TokenView::Else) {
                        if token_at(stream, after + 1) == Some(TokenView::If) {
                            lemma_if_statement(stream, after + 1, strict, lax, depth);
                        } else {
                            lemma_block(stream, after + 1, strict, lax, depth);
                        }
                    }
                },
                Err(_) => {},
            }
        },
        Err(_) => {},
    }
}

proof fn lemma_return(stream: Seq<TokenView>, at: int, strict: ParserConfig, lax: ParserConfig, depth: nat)
    requires
        relaxes(strict, lax),
        Grammar::return_rule(stream, at, depth, strict) is Ok,
    ensures
        Grammar::return_rule(stream, at, depth, lax) == Grammar::return_rule(stream, at, depth, strict),
{
    if !(token_at(stream, at + 1) == Some(TokenView::Semicolon) || token_at(
        stream,
        at + 1,
    ).is_none()) {
        lemma_assignment(stream, at + 1, strict, lax, depth);
    }
}

proof fn lemma_block_items(stream: Seq<TokenView>, at: int, strict: ParserConfig, lax: ParserConfig, depth: nat)
    requires
        relaxes(strict, lax),
        Grammar::block_items(stream, at, depth, strict) is Ok,
    ensures
        Grammar::block_items(stream, at, depth, lax) == Grammar::block_items(stream, at, depth, strict),
    decreases stream.len() - at, 21int,
{
    if !(token_at(stream, at) == Some(TokenView::RightBrace) || token_at(stream, at).is_none()) {
        lemma_statement(stream, at, strict, lax, depth);
        match Grammar::statement(stream, at, depth, strict) {
            Ok((_, next)) => {
                lemma_block_items(stream, next, strict, lax, depth);
            },
            Err(_) => {},
        }
    }
}

proof fn lemma_block_rule(stream: Seq<TokenView>, at: int, strict: ParserConfig, lax: ParserConfig, depth: nat)
    requires
        relaxes(strict, lax),
        Grammar::block_rule(stream, at, depth, strict) is Ok,
    ensures
        Grammar::block_rule(stream, at, depth, lax) == Grammar::block_rule(stream, at, depth, strict),
    decreases stream.len() - at, 10int,
{
    lemma_block_items(stream, at + 1, strict, lax, depth);
}

proof fn lemma_export(stream: Seq<TokenView>, at: int, strict: ParserConfig, lax: ParserConfig, depth: nat)
    requires
        relaxes(strict, lax),
        Grammar::export_rule(stream, at, depth, strict) is Ok,
    ensures
        Grammar::export_rule(stream, at, depth, lax) == Grammar::export_rule(stream, at, depth, strict),
    decreases stream.len() - at, 10int,
{
    lemma_statement(stream, at + 1, strict, lax, depth);
}

proof fn lemma_expression_statement(stream: Seq<TokenView>, at: int, strict: ParserConfig, lax: ParserConfig, depth: nat)
    requires
        relaxes(strict, lax),
        Grammar::expression_rule(stream, at, depth, strict) is Ok,
    ensures
        Grammar::expression_rule(stream, at, depth, lax) == Grammar::expression_rule(stream, at, depth, strict),
{
    lemma_assignment(stream, at, strict, lax, depth);
}

proof fn lemma_while(stream: Seq<TokenView>, at: int, strict: ParserConfig, lax: ParserConfig, depth: nat)
    requires
        relaxes(strict, lax),
        Grammar::while_rule(stream, at, depth, strict) is Ok,
    ensures
        Grammar::while_rule(stream, at, depth, lax) == Grammar::while_rule(stream, at, depth, strict),
    decreases stream.len() - at, 10int,
{
    lemma_assignment(stream, at + 1, strict, lax, depth);
    match Grammar::assignment(stream, at + 1, depth, strict) {
        Ok((_, next)) => {
            lemma_block(stream, next, strict, lax, depth);
        },
        Err(_) => {},
    }
}

proof fn lemma_for_init(stream: Seq<TokenView>, at: int, strict: ParserConfig, lax: ParserConfig, depth: nat)
    requires
        relaxes(strict, lax),
        Grammar::for_init(stream, at, depth, strict) is Ok,
    ensures
        Grammar::for_init(stream, at, depth, lax) == Grammar::for_init(stream, at, depth, strict),
    decreases stream.len() - at, 22int,
{
    if token_at(stream, at) != Some(TokenView::Semicolon) {
        lemma_statement(stream, at, strict, lax, depth);
    }
}

proof fn lemma_for_condition(stream: Seq<TokenView>, at: int, strict: ParserConfig, lax: ParserConfig, depth: nat)
    requires
        relaxes(strict, lax),
        Grammar::for_condition(stream, at, depth, strict) is Ok,
    ensures
        Grammar::for_condition(stream, at, depth, lax) == Grammar::for_condition(stream, at, depth, strict),
{
    if token_at(stream, at) != Some(TokenView::Semicolon) {
        lemma_assignment(stream, at, strict, lax, depth);
    }
}

proof fn lemma_for_update(stream: Seq<TokenView>, at: int, strict: ParserConfig, lax: ParserConfig, depth: nat)
    requires
        relaxes(strict, lax),
        Grammar::for_update(stream, at, depth, strict) is Ok,
    ensures
        Grammar::for_update(stream, at, depth, lax) == Grammar::for_update(stream, at, depth, strict),
{
    if token_at(stream, at) != Some(TokenView::RightParen) {
        lemma_assignment(stream, at, strict, lax, depth);
    }
}

proof fn lemma_for(stream: Seq<TokenView>, at: int, strict: ParserConfig, lax: ParserConfig, depth: nat)
    requires
        relaxes(strict, lax),
        Grammar::for_rule(stream, at, depth, strict) is Ok,
    ensures
        Grammar::for_rule(stream, at, depth, lax) == Grammar::for_rule(stream, at, depth, strict),
    decreases stream.len() - at, 10int,
{
    lemma_for_init(stream, at + 2, strict, lax, depth);
    match Grammar::for_init(stream, at + 2, depth, strict) {
        Ok((_, second)) => {
            lemma_for_condition(stream, second, strict, lax, depth);
            match Grammar::for_condition(stream, second, depth, strict) {
                Ok((_, third)) => {
                    lemma_for_update(stream, third, strict, lax, depth);
                    match Grammar::for_update(stream, third, depth, strict) {
                        Ok((_, next)) => {
                            lemma_block(stream, next + 1, strict, lax, depth);
                        },
                        Err(_) => {},
                    }
                },
                Err(_) => {},
            }
        },
        Err(_) => {},
    }
}

proof fn lemma_if_statement(stream: Seq<TokenView>, at: int, strict: ParserConfig, lax: ParserConfig, depth: nat)
    requires
        relaxes(strict, lax),
        Grammar::if_statement(stream, at, depth, strict) is Ok,
    ensures
        Grammar::if_statement(stream, at, depth, lax) == Grammar::if_statement(stream, at, depth, strict),
    decreases stream.len() - at, 11int,
{
    lemma_if(stream, at, strict, lax, depth + 1);
}

proof fn lemma_block(stream: Seq<TokenView>, at: int, strict: ParserConfig, lax: ParserConfig, depth: nat)
    requires
        relaxes(strict, lax),
        Grammar::block(stream, at, depth, strict) is Ok,
    ensures
        Grammar::block(stream, at, depth, lax) == Grammar::block(stream, at, depth, strict),
    decreases stream.len() - at, 11int,
{
    lemma_block_rule(stream, at, strict, lax, depth + 1);
}

proof fn lemma_statement(stream: Seq<TokenView>, at: int, strict: ParserConfig, lax: ParserConfig, depth: nat)
    requires
        relaxes(strict, lax),
        Grammar::statement(stream, at, depth, strict) is Ok,
    ensures
        Grammar::statement(stream, at, depth, lax) == Grammar::statement(stream, at, depth, strict),
    decreases stream.len() - at, 20int,
{
    match token_at(stream, at) {
        Some(TokenView::Let) => {
            lemma_let(stream, at, strict, lax, depth + 1);
        },
        Some(TokenView::Const) => {
            lemma_const(stream, at, strict, lax, depth + 1);
        },
        Some(TokenView::Fn) => {
            lemma_function(stream, at, strict, lax, depth + 1);
        },
        Some(TokenView::If) => {
            lemma_if_statement(stream, at, strict, lax, depth);
        },
        Some(TokenView::While) => {
            lemma_while(stream, at, strict, lax, depth + 1);
        },
        Some(TokenView::For) => {
            lemma_for(stream, at, strict, lax, depth + 1);
        },
        Some(TokenView::Break) => {},
        Some(TokenView::Continue) => {},
        Some(TokenView::Return) => {
            lemma_return(stream, at, strict, lax, depth + 1);
        },
        Some(TokenView::LeftBrace) => {
            lemma_block(stream, at, strict, lax, depth);
        },
        Some(TokenView::Import) => {},
        Some(TokenView::Export) => {
            lemma_export(stream, at, strict, lax, depth + 1);
        },
        _ => {
            lemma_expression_statement(stream, at, strict, lax, depth + 1);
        },
    }
}

proof fn lemma_program(
    stream: Seq<TokenView>,
    at: int,
    strict: ParserConfig,
    lax: ParserConfig,
    depth: nat,
)
    requires
        relaxes(strict, lax),
        Grammar::program(stream, at, depth, strict) is Ok,
    ensures
        Grammar::program(stream, at, depth, lax) == Grammar::program(stream, at, depth, strict),
    decreases stream.len() - at,
{
    if 0 <= at < stream.len() {
        lemma_statement(stream, at, strict, lax, depth + 1);
        match progress(
            guarded(depth, strict, at, Grammar::statement(stream, at, depth + 1, strict)),
            at,
            stream.len(),
        ) {
            Ok((_, next)) => {
                lemma_program(stream, next, strict, lax, depth);
            },
            Err(_) => {},
        }
    }
}

/// A laxer configuration changes no program. What is a program under a
/// configuration is the same program under every configuration that allows
/// no less: a larger depth, and trailing commas where they were not allowed.
pub proof fn law_relaxed_program(stream: Seq<TokenView>, strict: ParserConfig, lax: ParserConfig)
    requires
        relaxes(strict, lax),
        Grammar::program(stream, 0, 0, strict) is Ok,
    ensures
        Grammar::program(stream, 0, 0, lax) == Grammar::program(stream, 0, 0, strict),
{
    lemma_program(stream, 0, strict, lax, 0);
}

/// A laxer configuration changes no expression. What is an expression under
/// a configuration is the same expression under every configuration that
/// allows no less.
pub proof fn law_relaxed_expression(
    stream: Seq<TokenView>,
    strict: ParserConfig,
    lax: ParserConfig,
)
    requires
        relaxes(strict, lax),
        Grammar::sole_expression(stream, strict) is Ok,
    ensures
        Grammar::sole_expression(stream, lax) == Grammar::sole_expression(stream, strict),
{
    lemma_assignment(stream, 0, strict, lax, 1);
}

} // verus!
