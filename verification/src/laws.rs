//! Laws of the grammar: what holds of every stream and every configuration,
//! proved from the grammar's definition.

use crate::ast::expr::ExprView;
use crate::ast::expr::Grammar;
use crate::ast::op::BinaryOp;
use crate::ast::shape::law_expression_shape;
use crate::ast::shape::law_program_shape;
use crate::lexer::TokenView;
use crate::lexer::laws::between_tokens;
use crate::lexer::laws::fits_behind;
use crate::lexer::laws::inserted;
use crate::lexer::laws::law_comments_between_tokens;
use crate::lexer::laws::law_slashes_apart;
use crate::lexer::laws::line_ends;
use crate::lexer::laws::pads;
use crate::lexer::laws::token_before;
use crate::lexer::laws::stream_of_outcome;
use crate::lexer::lex;
use crate::lexer::lex_from;
use crate::lexer::scan::run_end;
use crate::lexer::scan::CharClass;
use crate::lexer::spelled::lemma_lex_end;
use crate::lexer::spelled::lemma_lex_token;
use crate::lexer::spelled::lemma_scan_digit;
use crate::lexer::spelled::lemma_scan_letter;
use crate::lexer::spelled::lemma_scan_operator;
use crate::lexer::spelled::lemma_scan_punctuation;
use crate::parser::analyzer::error::ParseErrorView;
use crate::lexer::scan::is_digit;
use crate::lexer::utils::digit_value;
use crate::parser::stream::law_forbidden_is_reported;
use crate::parser::stream::law_too_deep_is_reported;
use crate::text::digit_char;
use crate::parser::config::ParserConfig;
use crate::parser::parsed_expression;
use crate::parser::parsed_program;
use crate::parser::parsed_statement;
use crate::parser::stream::Fault;
use crate::parser::stream::stream_of;
use crate::parser::stream::token_at;
use vstd::prelude::*;

verus! {

/// True for the tokens that continue a postfix chain.
pub open spec fn starts_postfix(token: Option<TokenView>) -> bool {
    token == Some(TokenView::PlusPlus) || token == Some(TokenView::MinusMinus) || token == Some(
        TokenView::LeftBracket,
    ) || token == Some(TokenView::Dot) || token == Some(TokenView::LeftParen)
}

/// A name that no postfix follows is a variable, as a unary expression too.
pub proof fn lemma_variable(
    stream: Seq<TokenView>,
    at: int,
    depth: nat,
    config: ParserConfig,
    name: Seq<char>,
)
    requires
        token_at(stream, at) == Some(TokenView::Identifier(name)),
        !starts_postfix(token_at(stream, at + 1)),
    ensures
        Grammar::unary(stream, at, depth, config) == Ok::<(ExprView, int), Fault>(
            (ExprView::Variable(name), at + 1),
        ),
{
    let leaf = ExprView::Variable(name);
    assert(Grammar::primary(stream, at, depth, config) == Ok::<(ExprView, int), Fault>(
        (leaf, at + 1),
    ));
    assert(Grammar::postfix_chain(stream, at + 1, depth, config, leaf) == Ok::<
        (ExprView, int),
        Fault,
    >((leaf, at + 1)));
    assert(Grammar::postfix(stream, at, depth, config) == Ok::<(ExprView, int), Fault>(
        (leaf, at + 1),
    ));
}

/// True for the tokens that go on with an expression behind a unary
/// expression: binary operators, `=` and the compound assignments.
pub open spec fn continues_expression(token: Option<TokenView>) -> bool {
    match token {
        Some(found) => BinaryOp::of_token(found).is_some() || BinaryOp::of_compound(
            found,
        ).is_some() || found == TokenView::Equal,
        None => false,
    }
}

/// A primary that no prefix operator precedes and no postfix follows is a
/// unary expression.
pub proof fn lemma_unary_of_primary(
    stream: Seq<TokenView>,
    at: int,
    depth: nat,
    config: ParserConfig,
    found: ExprView,
    next: int,
)
    requires
        Grammar::primary(stream, at, depth, config) == Ok::<(ExprView, int), Fault>((found, next)),
        at < next <= stream.len(),
        token_at(stream, at) matches Some(first) && crate::ast::op::UnaryOp::of_token(
            first,
        ).is_none() && first != TokenView::PlusPlus && first != TokenView::MinusMinus,
        !starts_postfix(token_at(stream, next)),
    ensures
        Grammar::unary(stream, at, depth, config) == Ok::<(ExprView, int), Fault>((found, next)),
{
    assert(Grammar::postfix_chain(stream, next, depth, config, found) == Ok::<
        (ExprView, int),
        Fault,
    >((found, next)));
    assert(Grammar::postfix(stream, at, depth, config) == Ok::<(ExprView, int), Fault>(
        (found, next),
    ));
}

/// A primary that fails, and that no prefix operator precedes, fails as a
/// unary expression too.
pub proof fn lemma_unary_fails(
    stream: Seq<TokenView>,
    at: int,
    depth: nat,
    config: ParserConfig,
    fault: Fault,
)
    requires
        Grammar::primary(stream, at, depth, config) == Err::<(ExprView, int), Fault>(fault),
        token_at(stream, at) matches Some(first) && crate::ast::op::UnaryOp::of_token(
            first,
        ).is_none() && first != TokenView::PlusPlus && first != TokenView::MinusMinus,
    ensures
        Grammar::unary(stream, at, depth, config) == Err::<(ExprView, int), Fault>(fault),
{
    assert(Grammar::postfix(stream, at, depth, config) == Err::<(ExprView, int), Fault>(fault));
}

/// A unary expression behind which the expression does not go on is an
/// expression, where the limit allows the two productions that it opens.
pub proof fn lemma_expression_of_unary(
    stream: Seq<TokenView>,
    at: int,
    depth: nat,
    config: ParserConfig,
    found: ExprView,
    next: int,
)
    requires
        config.max_recursion_depth >= depth + 2,
        Grammar::unary(stream, at, depth + 2, config) == Ok::<(ExprView, int), Fault>(
            (found, next),
        ),
        at < next <= stream.len(),
        !continues_expression(token_at(stream, next)),
    ensures
        Grammar::assignment(stream, at, depth, config) == Ok::<(ExprView, int), Fault>(
            (found, next),
        ),
{
    assert(Grammar::climb(stream, next, depth + 2, config, 0, found) == Ok::<
        (ExprView, int),
        Fault,
    >((found, next)));
    assert(Grammar::binary(stream, at, depth + 1, config, 0) == Ok::<(ExprView, int), Fault>(
        (found, next),
    ));
}

/// A unary expression that fails fails the expression, where the limit
/// allows the two productions that it opens.
pub proof fn lemma_expression_fails(
    stream: Seq<TokenView>,
    at: int,
    depth: nat,
    config: ParserConfig,
    fault: Fault,
)
    requires
        config.max_recursion_depth >= depth + 2,
        Grammar::unary(stream, at, depth + 2, config) == Err::<(ExprView, int), Fault>(fault),
    ensures
        Grammar::assignment(stream, at, depth, config) == Err::<(ExprView, int), Fault>(fault),
{
    assert(Grammar::binary(stream, at, depth + 1, config, 0) == Err::<(ExprView, int), Fault>(
        fault,
    ));
}

/// The tree of `a op1 b op2 c`, by precedence and associativity: the second
/// operator is the inner one where it binds tighter than the first, or as
/// tight while the first groups to the right.
pub open spec fn two_operator_tree(
    op1: BinaryOp,
    op2: BinaryOp,
    a: ExprView,
    b: ExprView,
    c: ExprView,
) -> ExprView {
    if op2.spec_precedence() > op1.spec_precedence() || (op2.spec_precedence()
        == op1.spec_precedence() && op1.spec_is_right_associative()) {
        ExprView::Binary {
            op: op1,
            left: Box::new(a),
            right: Box::new(ExprView::Binary { op: op2, left: Box::new(b), right: Box::new(c) }),
        }
    } else {
        ExprView::Binary {
            op: op2,
            left: Box::new(ExprView::Binary { op: op1, left: Box::new(a), right: Box::new(b) }),
            right: Box::new(c),
        }
    }
}

/// Precedence law. For every two binary operators, spelled by the tokens
/// `first` and `second`, the source `a first b second c` is the tree in which
/// the operator of higher precedence is the inner one; of two operators of
/// the same precedence the left one is the inner one, but for `Pow`, which
/// groups to the right. This holds under every configuration that allows
/// five nested productions.
#[verifier::rlimit(40)]
pub proof fn law_precedence(
    a: Seq<char>,
    first: TokenView,
    b: Seq<char>,
    second: TokenView,
    c: Seq<char>,
    config: ParserConfig,
)
    requires
        BinaryOp::of_token(first).is_some(),
        BinaryOp::of_token(second).is_some(),
        config.max_recursion_depth >= 5,
    ensures
        Grammar::sole_expression(
            seq![
                TokenView::Identifier(a),
                first,
                TokenView::Identifier(b),
                second,
                TokenView::Identifier(c),
            ],
            config,
        ) == Ok::<ExprView, Fault>(
            two_operator_tree(
                BinaryOp::of_token(first).unwrap(),
                BinaryOp::of_token(second).unwrap(),
                ExprView::Variable(a),
                ExprView::Variable(b),
                ExprView::Variable(c),
            ),
        ),
{
    let stream = seq![
        TokenView::Identifier(a),
        first,
        TokenView::Identifier(b),
        second,
        TokenView::Identifier(c),
    ];
    let op1 = BinaryOp::of_token(first).unwrap();
    let op2 = BinaryOp::of_token(second).unwrap();
    let va = ExprView::Variable(a);
    let vb = ExprView::Variable(b);
    let vc = ExprView::Variable(c);
    assert(stream.len() == 5);
    assert(token_at(stream, 0) == Some(TokenView::Identifier(a)));
    assert(token_at(stream, 1) == Some(first));
    assert(token_at(stream, 2) == Some(TokenView::Identifier(b)));
    assert(token_at(stream, 3) == Some(second));
    assert(token_at(stream, 4) == Some(TokenView::Identifier(c)));
    assert(token_at(stream, 5).is_none());
    lemma_variable(stream, 0, 3, config, a);
    lemma_variable(stream, 2, 4, config, b);
    lemma_variable(stream, 4, 4, config, c);
    lemma_variable(stream, 4, 5, config, c);
    let floor1 = op1.right_operand_floor();
    let floor2 = op2.right_operand_floor();
    if op2.spec_precedence() < floor1 {
        // the first operator ends before the second: (a op1 b) op2 c
        assert(Grammar::climb(stream, 3, 4, config, floor1, vb) == Ok::<(ExprView, int), Fault>(
            (vb, 3),
        ));
        assert(Grammar::binary(stream, 2, 3, config, floor1) == Ok::<(ExprView, int), Fault>(
            (vb, 3),
        ));
        let left = ExprView::Binary { op: op1, left: Box::new(va), right: Box::new(vb) };
        assert(Grammar::climb(stream, 5, 4, config, floor2, vc) == Ok::<(ExprView, int), Fault>(
            (vc, 5),
        ));
        assert(Grammar::binary(stream, 4, 3, config, floor2) == Ok::<(ExprView, int), Fault>(
            (vc, 5),
        ));
        let whole = ExprView::Binary { op: op2, left: Box::new(left), right: Box::new(vc) };
        assert(Grammar::climb(stream, 5, 3, config, 0, whole) == Ok::<(ExprView, int), Fault>(
            (whole, 5),
        ));
        assert(Grammar::climb(stream, 3, 3, config, 0, left) == Ok::<(ExprView, int), Fault>(
            (whole, 5),
        ));
        assert(Grammar::climb(stream, 1, 3, config, 0, va) == Ok::<(ExprView, int), Fault>(
            (whole, 5),
        ));
        assert(Grammar::binary(stream, 0, 2, config, 0) == Ok::<(ExprView, int), Fault>(
            (whole, 5),
        ));
        assert(Grammar::assignment(stream, 0, 1, config) == Ok::<(ExprView, int), Fault>(
            (whole, 5),
        ));
    } else {
        // the second operator is the right operand of the first: a op1 (b op2 c)
        assert(Grammar::climb(stream, 5, 5, config, floor2, vc) == Ok::<(ExprView, int), Fault>(
            (vc, 5),
        ));
        assert(Grammar::binary(stream, 4, 4, config, floor2) == Ok::<(ExprView, int), Fault>(
            (vc, 5),
        ));
        let right = ExprView::Binary { op: op2, left: Box::new(vb), right: Box::new(vc) };
        assert(Grammar::climb(stream, 5, 4, config, floor1, right) == Ok::<
            (ExprView, int),
            Fault,
        >((right, 5)));
        assert(Grammar::climb(stream, 3, 4, config, floor1, vb) == Ok::<(ExprView, int), Fault>(
            (right, 5),
        ));
        assert(Grammar::binary(stream, 2, 3, config, floor1) == Ok::<(ExprView, int), Fault>(
            (right, 5),
        ));
        let whole = ExprView::Binary { op: op1, left: Box::new(va), right: Box::new(right) };
        assert(Grammar::climb(stream, 5, 3, config, 0, whole) == Ok::<(ExprView, int), Fault>(
            (whole, 5),
        ));
        assert(Grammar::climb(stream, 1, 3, config, 0, va) == Ok::<(ExprView, int), Fault>(
            (whole, 5),
        ));
        assert(Grammar::binary(stream, 0, 2, config, 0) == Ok::<(ExprView, int), Fault>(
            (whole, 5),
        ));
        assert(Grammar::assignment(stream, 0, 1, config) == Ok::<(ExprView, int), Fault>(
            (whole, 5),
        ));
    }
}

/// The tokens of an integer literal in `parens` pairs of parentheses.
pub open spec fn nested(parens: nat, value: i64) -> Seq<TokenView> {
    Seq::new(
        2 * parens + 1,
        |i: int|
            if i < parens {
                TokenView::LeftParen
            } else if i == parens {
                TokenView::IntLiteral(value)
            } else {
                TokenView::RightParen
            },
    )
}

/// The tree of an integer literal in `parens` pairs of parentheses.
pub open spec fn grouped(parens: nat, value: i64) -> ExprView
    decreases parens,
{
    if parens == 0 {
        ExprView::Literal(crate::ast::value::ValueView::Int(value))
    } else {
        ExprView::Group(Box::new(grouped((parens - 1) as nat, value)))
    }
}

/// The number of guarded productions that are open at once while an integer
/// literal in `parens` pairs of parentheses is parsed: three for the literal
/// and two more for each pair.
pub open spec fn depth_needed(parens: nat) -> nat {
    2 * parens + 3
}

/// The token at which the guard refuses to go deeper than `limit`.
pub open spec fn refused_at(limit: usize) -> int {
    if limit == 0 {
        0
    } else {
        (limit - 1) / 2
    }
}

/// What the expression that starts behind `level` opening parentheses is,
/// where the limit let the parser come that far. `base` productions were
/// open before the first parenthesis.
#[verifier::rlimit(40)]
proof fn lemma_nested(parens: nat, value: i64, config: ParserConfig, level: nat, base: nat)
    requires
        level <= parens,
        base <= 1,
        config.max_recursion_depth >= 2 * level + base,
    ensures
        Grammar::assignment(nested(parens, value), level as int, 2 * level + base, config) == if config.max_recursion_depth
            >= 2 * parens + 2 + base {
            Ok::<(ExprView, int), Fault>(
                (grouped((parens - level) as nat, value), 2 * parens + 1 - level),
            )
        } else {
            Err::<(ExprView, int), Fault>(
                Fault::TooDeep { at: (config.max_recursion_depth - base) / 2 },
            )
        },
    decreases parens - level,
{
    let stream = nested(parens, value);
    let at = level as int;
    let depth = 2 * level + base;
    let refused = (config.max_recursion_depth - base) / 2;
    let limit = config.max_recursion_depth;
    assert(stream.len() == 2 * parens + 1);
    if limit == depth {
        assert(refused == at);
    } else if limit == depth + 1 {
        assert(refused == at);
        assert(Grammar::binary(stream, at, depth + 1, config, 0) == Err::<(ExprView, int), Fault>(
            Fault::TooDeep { at },
        ));
    } else if level == parens {
        let leaf = grouped(0, value);
        assert(token_at(stream, at) == Some(TokenView::IntLiteral(value)));
        assert(token_at(stream, at + 1) == if at + 1 < stream.len() {
            Some(TokenView::RightParen)
        } else {
            None
        });
        assert(Grammar::primary(stream, at, depth + 2, config) == Ok::<(ExprView, int), Fault>(
            (leaf, at + 1),
        ));
        lemma_unary_of_primary(stream, at, depth + 2, config, leaf, at + 1);
        lemma_expression_of_unary(stream, at, depth, config, leaf, at + 1);
    } else {
        lemma_nested(parens, value, config, level + 1, base);
        assert(token_at(stream, at) == Some(TokenView::LeftParen));
        if limit >= 2 * parens + 2 + base {
            let inside = grouped((parens - level - 1) as nat, value);
            let group = grouped((parens - level) as nat, value);
            let close = 2 * parens - level;
            assert(token_at(stream, close) == Some(TokenView::RightParen));
            assert(token_at(stream, close + 1) == if close + 1 < stream.len() {
                Some(TokenView::RightParen)
            } else {
                None
            });
            assert(group == ExprView::Group(Box::new(inside)));
            assert(Grammar::primary(stream, at, depth + 2, config) == Ok::<(ExprView, int), Fault>(
                (group, close + 1),
            ));
            lemma_unary_of_primary(stream, at, depth + 2, config, group, close + 1);
            lemma_expression_of_unary(stream, at, depth, config, group, close + 1);
        } else {
            let fault = Fault::TooDeep { at: refused };
            assert(Grammar::primary(stream, at, depth + 2, config) == Err::<(ExprView, int), Fault>(
                fault,
            ));
            lemma_unary_fails(stream, at, depth + 2, config, fault);
            lemma_expression_fails(stream, at, depth, config, fault);
        }
    }
}

/// Recursion ceiling. An integer literal in `parens` pairs of parentheses
/// opens `depth_needed(parens)` guarded productions at once. Under a limit of
/// at least that many it is parsed, to the literal in as many groups; under
/// any smaller limit the parse fails with `TooDeep`, at the token where the
/// limit is reached. So with the limit `N`, nesting that needs `N` succeeds
/// and nesting that needs `N + 1` fails.
pub proof fn law_recursion_ceiling(parens: nat, value: i64, config: ParserConfig)
    ensures
        Grammar::sole_expression(nested(parens, value), config) == if config.max_recursion_depth
            >= depth_needed(parens) {
            Ok::<ExprView, Fault>(grouped(parens, value))
        } else {
            Err::<ExprView, Fault>(Fault::TooDeep { at: refused_at(config.max_recursion_depth) })
        },
{
    if config.max_recursion_depth > 0 {
        lemma_nested(parens, value, config, 0, 1);
        assert(nested(parens, value).len() == 2 * parens + 1);
    }
}

/// Recursion ceiling, for an expression that is parsed where no production
/// is open. An integer literal in `parens` pairs of parentheses then opens
/// two productions for each pair and two for the literal. Under a limit of
/// at least that many it is parsed; under any smaller limit the parse fails
/// with `TooDeep`. So under the limit `N`, `N + 1` pairs of parentheses fail
/// whatever `N` is.
pub proof fn law_recursion_ceiling_of_expression(parens: nat, value: i64, config: ParserConfig)
    ensures
        Grammar::expression(nested(parens, value), 0, 0, config) == if config.max_recursion_depth
            >= 2 * parens + 2 {
            Ok::<(ExprView, int), Fault>((grouped(parens, value), 2 * parens as int + 1))
        } else {
            Err::<(ExprView, int), Fault>(
                Fault::TooDeep { at: config.max_recursion_depth as int / 2 },
            )
        },
        config.max_recursion_depth <= parens ==> Grammar::expression(
            nested(parens, value),
            0,
            0,
            config,
        ) is Err,
{
    lemma_nested(parens, value, config, 0, 0);
}

/// Trailing comma. Where the last item of a list is followed by a comma
/// that stands directly before the closing bracket, the list is that item
/// where the configuration allows trailing commas, and fails on the closing
/// bracket where it does not.
pub proof fn law_trailing_comma(
    stream: Seq<TokenView>,
    at: int,
    depth: nat,
    config: ParserConfig,
    closer: TokenView,
    item: ExprView,
    next: int,
)
    requires
        token_at(stream, at) != Some(closer),
        Grammar::assignment(stream, at, depth, config) == Ok::<(ExprView, int), Fault>(
            (item, next),
        ),
        at < next <= stream.len(),
        token_at(stream, next) == Some(TokenView::Comma),
        token_at(stream, next + 1) == Some(closer),
    ensures
        Grammar::items(stream, at, depth, config, closer) == if config.allow_trailing_commas {
            Ok::<(Seq<ExprView>, int), Fault>((seq![item], next + 1))
        } else {
            Err::<(Seq<ExprView>, int), Fault>(
                Fault::Forbidden {
                    message: Grammar::trailing_comma_message(closer),
                    at: next + 1,
                },
            )
        },
{
}

/// The tokens of a call of `callee` whose arguments are the integer literals
/// `args`, each followed by a comma: the last comma is a trailing one.
pub open spec fn call_with_trailing_comma(callee: Seq<char>, args: Seq<i64>) -> Seq<TokenView> {
    Seq::new(
        2 * args.len() + 3,
        |i: int|
            if i == 0 {
                TokenView::Identifier(callee)
            } else if i == 1 {
                TokenView::LeftParen
            } else if i == 2 * args.len() + 2 {
                TokenView::RightParen
            } else if i % 2 == 0 {
                TokenView::IntLiteral(args[(i - 2) / 2])
            } else {
                TokenView::Comma
            },
    )
}

/// The integer literals `args[from..]` as expressions.
pub open spec fn literals(args: Seq<i64>, from: int) -> Seq<ExprView> {
    Seq::new(
        (args.len() - from) as nat,
        |k: int| ExprView::Literal(crate::ast::value::ValueView::Int(args[from + k])),
    )
}

/// An integer literal before a comma is an expression by itself.
proof fn lemma_literal_item(stream: Seq<TokenView>, at: int, value: i64, config: ParserConfig)
    requires
        token_at(stream, at) == Some(TokenView::IntLiteral(value)),
        token_at(stream, at + 1) == Some(TokenView::Comma),
        config.max_recursion_depth >= 5,
    ensures
        Grammar::assignment(stream, at, 3, config) == Ok::<(ExprView, int), Fault>(
            (ExprView::Literal(crate::ast::value::ValueView::Int(value)), at + 1),
        ),
{
    let item = ExprView::Literal(crate::ast::value::ValueView::Int(value));
    assert(Grammar::primary(stream, at, 5, config) == Ok::<(ExprView, int), Fault>(
        (item, at + 1),
    ));
    lemma_unary_of_primary(stream, at, 5, config, item, at + 1);
    lemma_expression_of_unary(stream, at, 3, config, item, at + 1);
}

/// The tokens of the argument `index` of `call_with_trailing_comma`.
proof fn lemma_argument_tokens(callee: Seq<char>, args: Seq<i64>, index: int)
    requires
        0 <= index < args.len(),
    ensures
        call_with_trailing_comma(callee, args).len() == 2 * args.len() + 3,
        token_at(call_with_trailing_comma(callee, args), 2 + 2 * index) == Some(
            TokenView::IntLiteral(args[index]),
        ),
        token_at(call_with_trailing_comma(callee, args), 3 + 2 * index) == Some(TokenView::Comma),
        token_at(call_with_trailing_comma(callee, args), 2 * args.len() as int + 2) == Some(
            TokenView::RightParen,
        ),
{
    let at = 2 + 2 * index;
    assert(at % 2 == 0 && (at - 2) / 2 == index);
    assert((at + 1) % 2 == 1);
}

#[verifier::rlimit(40)]
proof fn lemma_trailing_items(
    callee: Seq<char>,
    args: Seq<i64>,
    config: ParserConfig,
    from: int,
)
    requires
        0 <= from < args.len(),
        config.max_recursion_depth >= 5,
    ensures
        Grammar::items(
            call_with_trailing_comma(callee, args),
            2 + 2 * from,
            3,
            config,
            TokenView::RightParen,
        ) == if config.allow_trailing_commas {
            Ok::<(Seq<ExprView>, int), Fault>((literals(args, from), 2 * args.len() as int + 2))
        } else {
            Err::<(Seq<ExprView>, int), Fault>(
                Fault::Forbidden {
                    message: Grammar::trailing_comma_message(TokenView::RightParen),
                    at: 2 * args.len() as int + 2,
                },
            )
        },
    decreases args.len() - from,
{
    let stream = call_with_trailing_comma(callee, args);
    let at = 2 + 2 * from;
    let item = ExprView::Literal(crate::ast::value::ValueView::Int(args[from]));
    lemma_argument_tokens(callee, args, from);
    lemma_literal_item(stream, at, args[from], config);
    if from + 1 == args.len() {
        assert(literals(args, from) =~= seq![item]);
    } else {
        lemma_trailing_items(callee, args, config, from + 1);
        lemma_argument_tokens(callee, args, from + 1);
        assert(seq![item] + literals(args, from + 1) =~= literals(args, from));
    }
}

/// Trailing comma, for a whole source: a call whose arguments are integer
/// literals, each followed by a comma, is parsed to the call of those
/// arguments exactly when the configuration allows trailing commas; else it
/// fails on the closing parenthesis.
#[verifier::rlimit(40)]
pub proof fn law_trailing_comma_in_call(callee: Seq<char>, args: Seq<i64>, config: ParserConfig)
    requires
        args.len() > 0,
        config.max_recursion_depth >= 5,
    ensures
        Grammar::sole_expression(call_with_trailing_comma(callee, args), config) == if config.allow_trailing_commas {
            Ok::<ExprView, Fault>(
                ExprView::Call {
                    callee: Box::new(ExprView::Variable(callee)),
                    args: literals(args, 0),
                },
            )
        } else {
            Err::<ExprView, Fault>(
                Fault::Forbidden {
                    message: Grammar::trailing_comma_message(TokenView::RightParen),
                    at: 2 * args.len() as int + 2,
                },
            )
        },
{
    let stream = call_with_trailing_comma(callee, args);
    let name = ExprView::Variable(callee);
    let end = 2 * args.len() as int + 2;
    lemma_trailing_items(callee, args, config, 0);
    lemma_argument_tokens(callee, args, 0);
    assert(stream.len() == end + 1);
    assert(token_at(stream, 0) == Some(TokenView::Identifier(callee)));
    assert(token_at(stream, 1) == Some(TokenView::LeftParen));
    assert(Grammar::primary(stream, 0, 3, config) == Ok::<(ExprView, int), Fault>((name, 1)));
    if config.allow_trailing_commas {
        let call = ExprView::Call { callee: Box::new(name), args: literals(args, 0) };
        assert(Grammar::call(stream, 1, 3, config, name) == Ok::<(ExprView, int), Fault>(
            (call, end + 1),
        ));
        assert(Grammar::postfix_chain(stream, end + 1, 3, config, call) == Ok::<
            (ExprView, int),
            Fault,
        >((call, end + 1)));
        assert(Grammar::postfix_chain(stream, 1, 3, config, name) == Ok::<(ExprView, int), Fault>(
            (call, end + 1),
        ));
        assert(Grammar::postfix(stream, 0, 3, config) == Ok::<(ExprView, int), Fault>(
            (call, end + 1),
        ));
        assert(Grammar::unary(stream, 0, 3, config) == Ok::<(ExprView, int), Fault>(
            (call, end + 1),
        ));
        assert(Grammar::climb(stream, end + 1, 3, config, 0, call) == Ok::<(ExprView, int), Fault>(
            (call, end + 1),
        ));
        assert(Grammar::binary(stream, 0, 2, config, 0) == Ok::<(ExprView, int), Fault>(
            (call, end + 1),
        ));
        assert(Grammar::assignment(stream, 0, 1, config) == Ok::<(ExprView, int), Fault>(
            (call, end + 1),
        ));
    } else {
        let fault = Fault::Forbidden {
            message: Grammar::trailing_comma_message(TokenView::RightParen),
            at: end,
        };
        assert(Grammar::call(stream, 1, 3, config, name) == Err::<(ExprView, int), Fault>(fault));
        assert(Grammar::postfix_chain(stream, 1, 3, config, name) == Err::<
            (ExprView, int),
            Fault,
        >(fault));
        assert(Grammar::postfix(stream, 0, 3, config) == Err::<(ExprView, int), Fault>(fault));
        assert(Grammar::unary(stream, 0, 3, config) == Err::<(ExprView, int), Fault>(fault));
        assert(Grammar::binary(stream, 0, 2, config, 0) == Err::<(ExprView, int), Fault>(fault));
        assert(Grammar::assignment(stream, 0, 1, config) == Err::<(ExprView, int), Fault>(fault));
    }
}

/// Comments and spans change no tree. Two sources whose significant tokens
/// are the same, whatever comments stand between them and wherever they
/// stand, are the same program: the same statements, or both in error. White
/// space leaves no trace in the tokens but their spans, and comments are no
/// significant tokens, so this holds of a source and the same source with
/// other white space and comments between the same tokens.
pub proof fn law_trivia_invariance(first: Seq<char>, second: Seq<char>, config: ParserConfig)
    requires
        lex(first) matches Ok(one) && lex(second) matches Ok(other) && stream_of(one)
            == stream_of(other),
    ensures
        match (parsed_program(first, config), parsed_program(second, config)) {
            (Ok(one), Ok(other)) => one.statements == other.statements,
            (Err(_), Err(_)) => true,
            _ => false,
        },
        match (parsed_expression(first, config), parsed_expression(second, config)) {
            (Ok(one), Ok(other)) => one == other,
            (Err(_), Err(_)) => true,
            _ => false,
        },
        match (parsed_statement(first, config), parsed_statement(second, config)) {
            (Ok(one), Ok(other)) => one == other,
            (Err(_), Err(_)) => true,
            _ => false,
        },
{
}

/// White space and comments between tokens change no program. For every
/// source that is a program, the same source with padding (white space and
/// whole comments, each line comment with a line end behind it) put in
/// between two tokens is a program with the same statements. The padding must fit behind
/// the token before it: directly behind a `/` it must not begin with a `/`,
/// and directly behind a line comment, which takes the rest of the line with
/// it, it must be padding from the end of its first line on.
pub proof fn law_padding_changes_no_program(
    source: Seq<char>,
    place: int,
    padding: Seq<char>,
    config: ParserConfig,
)
    requires
        parsed_program(source, config) is Ok,
        between_tokens(source, 0, place),
        pads(padding, 0, line_ends(source, place)),
        fits_behind(token_before(source, 0, place), padding),
    ensures
        parsed_program(inserted(source, place, padding), config) matches Ok(changed)
            && changed.statements == parsed_program(source, config)->Ok_0.statements,
{
    let tokens = lex(source)->Ok_0;
    law_program_shape(stream_of(tokens), config);
    law_slashes_apart(source);
    law_comments_between_tokens(source, place, padding);
    law_trivia_invariance(source, inserted(source, place, padding), config);
}

/// White space and comments between tokens change no expression. For every
/// source that is one expression, the same source with padding put in
/// between two tokens is the same expression, where the padding fits behind
/// the token before it.
pub proof fn law_padding_changes_no_expression(
    source: Seq<char>,
    place: int,
    padding: Seq<char>,
    config: ParserConfig,
)
    requires
        parsed_expression(source, config) is Ok,
        between_tokens(source, 0, place),
        pads(padding, 0, line_ends(source, place)),
        fits_behind(token_before(source, 0, place), padding),
    ensures
        parsed_expression(inserted(source, place, padding), config) == parsed_expression(
            source,
            config,
        ),
{
    let tokens = lex(source)->Ok_0;
    law_expression_shape(stream_of(tokens), config);
    law_slashes_apart(source);
    law_comments_between_tokens(source, place, padding);
    law_trivia_invariance(source, inserted(source, place, padding), config);
}

/// The source of an integer literal `1` in `parens` pairs of parentheses,
/// without white space.
pub open spec fn nested_text(parens: nat) -> Seq<char> {
    Seq::new(
        2 * parens + 1,
        |i: int|
            if i < parens {
                '('
            } else if i == parens {
                '1'
            } else {
                ')'
            },
    )
}

proof fn lemma_lex_nested(parens: nat, at: int)
    requires
        0 <= at <= 2 * parens + 1,
    ensures
        stream_of_outcome(lex_from(nested_text(parens), at)) == Some(
            nested(parens, 1).subrange(at, 2 * parens as int + 1),
        ),
    decreases 2 * parens + 1 - at,
{
    let s = nested_text(parens);
    let tokens = nested(parens, 1);
    let len = 2 * parens as int + 1;
    if at == len {
        lemma_lex_end(s, at);
        assert(tokens.subrange(at, len) =~= Seq::<TokenView>::empty());
    } else {
        lemma_lex_nested(parens, at + 1);
        assert(run_end(s, at, CharClass::Space) == at);
        if at == parens {
            lemma_scan_digit(s, at);
        } else {
            lemma_scan_punctuation(s, at);
        }
        lemma_lex_token(s, at, at, tokens[at], at + 1, tokens.subrange(at + 1, len));
        assert(seq![tokens[at]] + tokens.subrange(at + 1, len) =~= tokens.subrange(at, len));
    }
}

/// The tokens of parentheses around a literal. The source of `1` in `parens`
/// pairs of parentheses is lexed to exactly those tokens.
pub proof fn law_nested_source(parens: nat)
    ensures
        lex(nested_text(parens)) matches Ok(tokens) && stream_of(tokens) == nested(parens, 1),
{
    lemma_lex_nested(parens, 0);
    assert(nested(parens, 1).subrange(0, 2 * parens as int + 1) =~= nested(parens, 1));
}

/// Recursion ceiling, for a source. The source of `1` in `parens` pairs of
/// parentheses is that literal in as many groups under every limit of at
/// least `depth_needed(parens)`, and fails with `TooMuchRecursion` and the
/// limit under every smaller one.
pub proof fn law_recursion_ceiling_in_source(parens: nat, config: ParserConfig)
    ensures
        config.max_recursion_depth >= depth_needed(parens) ==> parsed_expression(
            nested_text(parens),
            config,
        ) == Ok::<ExprView, ParseErrorView>(grouped(parens, 1)),
        config.max_recursion_depth < depth_needed(parens) ==> (parsed_expression(
            nested_text(parens),
            config,
        ) matches Err(ParseErrorView::TooMuchRecursion { max_depth, .. }) && max_depth
            == config.max_recursion_depth),
{
    law_nested_source(parens);
    law_recursion_ceiling(parens, 1, config);
    let tokens = lex(nested_text(parens))->Ok_0;
    law_too_deep_is_reported(
        refused_at(config.max_recursion_depth),
        tokens,
        nested_text(parens),
        config.max_recursion_depth,
    );
}

/// The source `a first b second c`, each part one blank from the next.
pub open spec fn two_operator_source(first: TokenView, second: TokenView) -> Seq<char> {
    "a "@ + first.spelling() + " b "@ + second.spelling() + " c"@
}

/// The tokens of `a first b second c`.
#[verifier::rlimit(80)]
proof fn lemma_lex_two_operators(first: TokenView, second: TokenView)
    requires
        BinaryOp::of_token(first).is_some(),
        BinaryOp::of_token(second).is_some(),
    ensures
        stream_of_outcome(lex(two_operator_source(first, second))) == Some(
            seq![
                TokenView::Identifier("a"@),
                first,
                TokenView::Identifier("b"@),
                second,
                TokenView::Identifier("c"@),
            ],
        ),
{
    let s = two_operator_source(first, second);
    let one = first.spelling();
    let two = second.spelling();
    reveal_strlit("a ");
    reveal_strlit(" b ");
    reveal_strlit(" c");
    reveal_strlit("a");
    reveal_strlit("b");
    reveal_strlit("c");
    assert("a "@.len() == 2 && "a "@[0] == 'a' && "a "@[1] == ' ');
    assert(" b "@.len() == 3 && " b "@[0] == ' ' && " b "@[1] == 'b' && " b "@[2] == ' ');
    assert(" c"@.len() == 2 && " c"@[0] == ' ' && " c"@[1] == 'c');
    assert("a"@ =~= seq!['a']);
    assert("b"@ =~= seq!['b']);
    assert("c"@ =~= seq!['c']);
    // where the parts stand
    let p1 = 2int;
    let q1 = p1 + one.len();
    let p2 = q1 + 3;
    let q2 = p2 + two.len();
    let len = q2 + 2;
    assert(s.len() == len);
    assert(s[0] == 'a' && s[1] == ' ');
    assert(s.subrange(p1, q1) =~= one);
    assert(s[q1] == ' ' && s[q1 + 1] == 'b' && s[q1 + 2] == ' ');
    assert(s.subrange(p2, q2) =~= two);
    assert(s[q2] == ' ' && s[q2 + 1] == 'c');
    lemma_scan_operator(s, p1, first);
    lemma_scan_operator(s, p2, second);
    lemma_scan_letter(s, 0);
    lemma_scan_letter(s, q1 + 1);
    lemma_scan_letter(s, q2 + 1);
    reveal_with_fuel(run_end, 2);
    assert(run_end(s, 0, CharClass::Space) == 0);
    assert(run_end(s, 1, CharClass::Space) == p1);
    assert(run_end(s, q1, CharClass::Space) == q1 + 1);
    assert(run_end(s, q1 + 2, CharClass::Space) == p2);
    assert(run_end(s, q2, CharClass::Space) == q2 + 1);
    assert(run_end(s, len, CharClass::Space) == len);
    // from the last token to the first
    let none = Seq::<TokenView>::empty();
    let a = TokenView::Identifier(seq!['a']);
    let b = TokenView::Identifier(seq!['b']);
    let c = TokenView::Identifier(seq!['c']);
    lemma_lex_end(s, len);
    lemma_lex_token(s, q2, q2 + 1, c, len, none);
    lemma_lex_token(s, q1 + 2, p2, second, q2, seq![c] + none);
    lemma_lex_token(s, q1, q1 + 1, b, q1 + 2, seq![second] + (seq![c] + none));
    lemma_lex_token(s, 1, p1, first, q1, seq![b] + (seq![second] + (seq![c] + none)));
    lemma_lex_token(s, 0, 0, a, 1, seq![first] + (seq![b] + (seq![second] + (seq![c] + none))));
    assert(seq![a] + (seq![first] + (seq![b] + (seq![second] + (seq![c] + none)))) =~= seq![
        TokenView::Identifier("a"@),
        first,
        TokenView::Identifier("b"@),
        second,
        TokenView::Identifier("c"@),
    ]);
}

/// Precedence law, for a source. For every two binary operators the source
/// `a first b second c` is the tree in which the operator of higher
/// precedence is the inner one; of two operators of the same precedence the
/// left one is the inner one, but for `Pow`, which groups to the right. This
/// holds under every configuration that allows five nested productions, the
/// default among them.
pub proof fn law_precedence_in_source(first: TokenView, second: TokenView, config: ParserConfig)
    requires
        BinaryOp::of_token(first).is_some(),
        BinaryOp::of_token(second).is_some(),
        config.max_recursion_depth >= 5,
    ensures
        parsed_expression(two_operator_source(first, second), config) == Ok::<
            ExprView,
            ParseErrorView,
        >(
            two_operator_tree(
                BinaryOp::of_token(first).unwrap(),
                BinaryOp::of_token(second).unwrap(),
                ExprView::Variable("a"@),
                ExprView::Variable("b"@),
                ExprView::Variable("c"@),
            ),
        ),
{
    lemma_lex_two_operators(first, second);
    law_precedence("a"@, first, "b"@, second, "c"@, config);
}

/// Parentheses beyond the limit. Under the limit `limit`, the source of `1`
/// in `limit + 1` pairs of parentheses is lexed to its tokens, and the
/// expression of those tokens, parsed where no production is open, fails
/// with `TooDeep`.
pub proof fn law_parentheses_beyond_the_limit(config: ParserConfig)
    ensures
        lex(nested_text((config.max_recursion_depth + 1) as nat)) matches Ok(tokens) && stream_of(
            tokens,
        ) == nested((config.max_recursion_depth + 1) as nat, 1),
        Grammar::expression(
            nested((config.max_recursion_depth + 1) as nat, 1),
            0,
            0,
            config,
        ) == Err::<(ExprView, int), Fault>(
            Fault::TooDeep { at: config.max_recursion_depth as int / 2 },
        ),
{
    law_nested_source((config.max_recursion_depth + 1) as nat);
    law_recursion_ceiling_of_expression((config.max_recursion_depth + 1) as nat, 1, config);
}

/// Every argument is one digit.
pub open spec fn digits(args: Seq<i64>) -> bool {
    forall|i: int| 0 <= i < args.len() ==> 0 <= #[trigger] args[i] <= 9
}

/// The source of a call of `f` whose arguments are the digits `args`, each
/// followed by a comma, without white space: `f(1,2,3,)`.
pub open spec fn call_text(args: Seq<i64>) -> Seq<char> {
    Seq::new(
        2 * args.len() + 3,
        |i: int|
            if i == 0 {
                'f'
            } else if i == 1 {
                '('
            } else if i == 2 * args.len() + 2 {
                ')'
            } else if i % 2 == 0 {
                digit_char(args[(i - 2) / 2] as nat)
            } else {
                ','
            },
    )
}

/// The characters of the argument `index` of `call_text`.
proof fn lemma_argument_text(args: Seq<i64>, index: int)
    requires
        0 <= index < args.len(),
        digits(args),
    ensures
        call_text(args)[2 + 2 * index] == digit_char(args[index] as nat),
        is_digit(call_text(args)[2 + 2 * index]),
        digit_value(call_text(args)[2 + 2 * index]) == args[index],
        call_text(args)[3 + 2 * index] == ',',
{
    let at = 2 + 2 * index;
    assert(at % 2 == 0 && (at - 2) / 2 == index);
    assert((at + 1) % 2 == 1);
    assert(0 <= args[index] <= 9);
}

#[verifier::rlimit(60)]
proof fn lemma_lex_call(args: Seq<i64>, at: int)
    requires
        digits(args),
        0 <= at <= 2 * args.len() + 3,
    ensures
        stream_of_outcome(lex_from(call_text(args), at)) == Some(
            call_with_trailing_comma(seq!['f'], args).subrange(at, 2 * args.len() as int + 3),
        ),
    decreases 2 * args.len() + 3 - at,
{
    let s = call_text(args);
    let tokens = call_with_trailing_comma(seq!['f'], args);
    let len = 2 * args.len() as int + 3;
    if at == len {
        lemma_lex_end(s, at);
        assert(tokens.subrange(at, len) =~= Seq::<TokenView>::empty());
    } else {
        lemma_lex_call(args, at + 1);
        if at == 0 {
            lemma_scan_letter(s, at);
        } else if at == 1 || at == len - 1 {
            lemma_scan_punctuation(s, at);
        } else if at % 2 == 0 {
            let index = (at - 2) / 2;
            lemma_argument_text(args, index);
            lemma_argument_tokens(seq!['f'], args, index);
            lemma_scan_digit(s, at);
        } else {
            let index = (at - 3) / 2;
            lemma_argument_text(args, index);
            lemma_argument_tokens(seq!['f'], args, index);
            lemma_scan_punctuation(s, at);
        }
        assert(run_end(s, at, CharClass::Space) == at);
        lemma_lex_token(s, at, at, tokens[at], at + 1, tokens.subrange(at + 1, len));
        assert(seq![tokens[at]] + tokens.subrange(at + 1, len) =~= tokens.subrange(at, len));
    }
}

/// Trailing comma, for a source. The source `f(` digit `,` ... `)` with a
/// comma behind its last argument is the call of those arguments exactly
/// when the configuration allows trailing commas; else it fails with
/// `InvalidSyntax` and the message of the trailing comma.
pub proof fn law_trailing_comma_in_source(args: Seq<i64>, config: ParserConfig)
    requires
        args.len() > 0,
        digits(args),
        config.max_recursion_depth >= 5,
    ensures
        config.allow_trailing_commas ==> parsed_expression(call_text(args), config) == Ok::<
            ExprView,
            ParseErrorView,
        >(
            ExprView::Call {
                callee: Box::new(ExprView::Variable(seq!['f'])),
                args: literals(args, 0),
            },
        ),
        !config.allow_trailing_commas ==> (parsed_expression(call_text(args), config) matches Err(
            ParseErrorView::InvalidSyntax { message, .. },
        ) && message == Grammar::trailing_comma_message(TokenView::RightParen)),
{
    lemma_lex_call(args, 0);
    let stream = call_with_trailing_comma(seq!['f'], args);
    assert(stream.subrange(0, 2 * args.len() as int + 3) =~= stream);
    law_trailing_comma_in_call(seq!['f'], args, config);
    let tokens = lex(call_text(args))->Ok_0;
    crate::parser::stream::lemma_consumed_all(tokens);
    law_forbidden_is_reported(
        Grammar::trailing_comma_message(TokenView::RightParen),
        2 * args.len() as int + 2,
        tokens,
        call_text(args),
        config.max_recursion_depth,
    );
}

} // verus!
