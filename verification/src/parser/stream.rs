//! The parser's logical view of its input: the significant tokens, without
//! the comments between them, and how a grammar rule can fail on them.

use crate::lexer::TokenSpanView;
use crate::lexer::TokenView;
use crate::parser::analyzer::context::ParseContextView;
use crate::parser::analyzer::error::ParseErrorView;
use vstd::prelude::*;

verus! {

/// The tokens that the grammar sees: `tokens` without its comments.
pub open spec fn significant(tokens: Seq<TokenSpanView>) -> Seq<TokenSpanView>
    decreases tokens.len(),
{
    if tokens.len() == 0 {
        tokens
    } else if tokens.last().token.is_trivia() {
        significant(tokens.drop_last())
    } else {
        significant(tokens.drop_last()).push(tokens.last())
    }
}

/// How many significant tokens lie before position `pos`.
pub open spec fn consumed(tokens: Seq<TokenSpanView>, pos: int) -> nat {
    significant(tokens.take(pos)).len()
}

/// The token stream that the grammar is stated over.
pub open spec fn stream_of(tokens: Seq<TokenSpanView>) -> Seq<TokenView> {
    Seq::new(significant(tokens).len(), |i: int| significant(tokens)[i].token)
}

/// The token at index `at` of the stream, or `None` behind its end.
pub open spec fn token_at(stream: Seq<TokenView>, at: int) -> Option<TokenView> {
    if 0 <= at < stream.len() {
        Some(stream[at])
    } else {
        None
    }
}

/// Where the input ends: behind the last token, comments included.
pub open spec fn end_of_input(tokens: Seq<TokenSpanView>) -> usize {
    if tokens.len() == 0 {
        0
    } else {
        tokens.last().end
    }
}

/// One more token adds itself to the significant tokens, unless it is a
/// comment.
pub proof fn lemma_significant_step(tokens: Seq<TokenSpanView>, pos: int)
    requires
        0 <= pos < tokens.len(),
    ensures
        significant(tokens.take(pos + 1)) == if tokens[pos].token.is_trivia() {
            significant(tokens.take(pos))
        } else {
            significant(tokens.take(pos)).push(tokens[pos])
        },
        consumed(tokens, pos) <= consumed(tokens, pos + 1) <= consumed(tokens, pos) + 1,
{
    assert(tokens.take(pos + 1).drop_last() =~= tokens.take(pos));
}

/// The significant tokens before a position are the first of all of them.
pub proof fn lemma_significant_prefix(tokens: Seq<TokenSpanView>, pos: int)
    requires
        0 <= pos <= tokens.len(),
    ensures
        consumed(tokens, pos) <= significant(tokens).len(),
        significant(tokens).take(consumed(tokens, pos) as int) == significant(tokens.take(pos)),
    decreases tokens.len() - pos,
{
    if pos == tokens.len() {
        assert(tokens.take(pos) =~= tokens);
        assert(significant(tokens).take(significant(tokens).len() as int) =~= significant(
            tokens,
        ));
    } else {
        lemma_significant_prefix(tokens, pos + 1);
        lemma_significant_step(tokens, pos);
        let k = consumed(tokens, pos) as int;
        assert(significant(tokens).take(k) =~= significant(tokens.take(pos + 1)).take(k));
        assert(significant(tokens.take(pos + 1)).take(k) =~= significant(tokens.take(pos)));
    }
}

/// A significant token at `index` is the token of the stream whose index is
/// the number of significant tokens before it.
pub proof fn lemma_significant_at(tokens: Seq<TokenSpanView>, index: int)
    requires
        0 <= index < tokens.len(),
        !tokens[index].token.is_trivia(),
    ensures
        consumed(tokens, index) < significant(tokens).len(),
        significant(tokens)[consumed(tokens, index) as int] == tokens[index],
        stream_of(tokens)[consumed(tokens, index) as int] == tokens[index].token,
        consumed(tokens, index + 1) == consumed(tokens, index) + 1,
{
    lemma_significant_step(tokens, index);
    lemma_significant_prefix(tokens, index + 1);
    let k = consumed(tokens, index) as int;
    assert(significant(tokens).take(k + 1)[k] == significant(tokens.take(index + 1))[k]);
}

/// Before the first position lies no token, before the last lie all.
pub proof fn lemma_consumed_all(tokens: Seq<TokenSpanView>)
    ensures
        consumed(tokens, tokens.len() as int) == significant(tokens).len(),
        consumed(tokens, 0) == 0,
        stream_of(tokens).len() == significant(tokens).len(),
{
    assert(tokens.take(tokens.len() as int) =~= tokens);
    assert(tokens.take(0) =~= Seq::<TokenSpanView>::empty());
}

/// How a grammar rule fails. `at` is an index into the stream; an index behind
/// its end stands for the end of input.
#[allow(inconsistent_fields)]
pub enum Fault {
    /// Another token than one of those that the grammar allows here, or the
    /// end of input where a token was needed.
    Unexpected { expected: Seq<char>, at: int },
    /// A token that the configuration forbids here.
    Forbidden { message: Seq<char>, at: int },
    /// A production nested deeper than the configured limit.
    TooDeep { at: int },
}

/// The error that reports `fault` on the tokens `tokens` of the source `src`,
/// for a parser whose depth limit is `max_depth`.
///
/// - `Unexpected` at a token is `UnexpectedToken`, with the token's
///   description as `found` and the token's span; behind the last token it is
///   `UnexpectedEof` at the end of input.
/// - `Forbidden` is `InvalidSyntax` on the token's span.
/// - `TooDeep` is `TooMuchRecursion` at the start of the token, or at the end
///   of input.
#[verifier::opaque]
pub open spec fn fault_error(
    fault: Fault,
    tokens: Seq<TokenSpanView>,
    src: Seq<char>,
    max_depth: usize,
) -> ParseErrorView {
    let all = significant(tokens);
    let eof = end_of_input(tokens);
    match fault {
        Fault::Unexpected { expected, at } => {
            if 0 <= at < all.len() {
                ParseErrorView::UnexpectedToken {
                    expected: Some(expected),
                    found: all[at].token.description(),
                    start: all[at].start,
                    end: all[at].end,
                    context: ParseContextView::of_span(src, all[at].start, all[at].end),
                }
            } else {
                ParseErrorView::UnexpectedEof {
                    expected,
                    position: eof,
                    context: ParseContextView::of_span(src, eof, eof),
                }
            }
        },
        Fault::Forbidden { message, at } => {
            if 0 <= at < all.len() {
                ParseErrorView::InvalidSyntax {
                    message,
                    start: all[at].start,
                    end: all[at].end,
                    context: ParseContextView::of_span(src, all[at].start, all[at].end),
                }
            } else {
                ParseErrorView::UnexpectedEof {
                    expected: "token"@,
                    position: eof,
                    context: ParseContextView::of_span(src, eof, eof),
                }
            }
        },
        Fault::TooDeep { at } => ParseErrorView::TooMuchRecursion {
            max_depth,
            position: if 0 <= at < all.len() {
                all[at].start
            } else {
                eof
            },
        },
    }
}

/// The report of a production that is nested too deep is
/// `TooMuchRecursion` with the limit of the parser.
pub proof fn law_too_deep_is_reported(
    at: int,
    tokens: Seq<TokenSpanView>,
    src: Seq<char>,
    max_depth: usize,
)
    ensures
        fault_error(Fault::TooDeep { at }, tokens, src, max_depth) matches ParseErrorView::TooMuchRecursion {
            max_depth: limit,
            ..
        } && limit == max_depth,
{
    reveal(fault_error);
}

/// The report of a token that was expected and not found holds what was
/// expected as it was asked for, at a token or at the end of input.
pub proof fn law_unexpected_is_reported(
    expected: Seq<char>,
    at: int,
    tokens: Seq<TokenSpanView>,
    src: Seq<char>,
    max_depth: usize,
)
    ensures
        match fault_error(Fault::Unexpected { expected, at }, tokens, src, max_depth) {
            ParseErrorView::UnexpectedToken { expected: named, .. } => 0 <= at < significant(
                tokens,
            ).len() && named == Some(expected),
            ParseErrorView::UnexpectedEof { expected: named, position, .. } => !(0 <= at
                < significant(tokens).len()) && named == expected && position == end_of_input(
                tokens,
            ),
            _ => false,
        },
{
    reveal(fault_error);
}

/// The report of a token that the configuration forbids is `InvalidSyntax`
/// with the message of the fault.
pub proof fn law_forbidden_is_reported(
    message: Seq<char>,
    at: int,
    tokens: Seq<TokenSpanView>,
    src: Seq<char>,
    max_depth: usize,
)
    requires
        0 <= at < significant(tokens).len(),
    ensures
        fault_error(Fault::Forbidden { message, at }, tokens, src, max_depth) matches ParseErrorView::InvalidSyntax {
            message: told,
            ..
        } && told == message,
{
    reveal(fault_error);
}

/// The outcome of a grammar rule on a stream: what it built and the index
/// behind the last token it took, or how it failed.
pub type Outcome<T> = Result<(T, int), Fault>;

/// `outcome`, where it took at least one token of the `len` tokens of the
/// stream from `at` on. Every rule of the grammar takes a token when it
/// succeeds, so this changes no outcome; it is what makes the rules that loop
/// well-founded.
pub open spec fn progress<T>(outcome: Outcome<T>, at: int, len: nat) -> Outcome<T> {
    match outcome {
        Ok((value, next)) => if at < next <= len {
            outcome
        } else {
            Err(Fault::Unexpected { expected: Seq::empty(), at })
        },
        Err(_) => outcome,
    }
}

} // verus!
