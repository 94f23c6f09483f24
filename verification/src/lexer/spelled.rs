//! Sources that are spelled out: what the lexer makes of the spelling of
//! operators, names of one letter, digits and brackets, and with that the
//! laws of the grammar for whole sources.

use crate::ast::op::BinaryOp;
use crate::lexer::keyword;
use crate::lexer::laws::lemma_stream_front;
use crate::lexer::laws::stream_of_outcome;
use crate::lexer::lemma_scan_token;
use crate::lexer::lex_from;
use crate::lexer::scan::is_digit;
use crate::lexer::scan::is_word_start;
use crate::lexer::scan::run_end;
use crate::lexer::scan::symbol1;
use crate::lexer::scan::CharClass;
use crate::lexer::scan_token;
use crate::lexer::utils::digit_value;
use crate::lexer::utils::digits_value;
use crate::lexer::Scanned;
use crate::lexer::TokenSpanView;
use crate::lexer::TokenView;
use crate::parser::stream::stream_of;
use crate::text::offset_of;
use vstd::prelude::*;

verus! {

/// Behind the last token the source holds no token.
pub proof fn lemma_lex_end(s: Seq<char>, at: int)
    requires
        0 <= at,
        run_end(s, at, CharClass::Space) >= s.len(),
    ensures
        stream_of_outcome(lex_from(s, at)) == Some(Seq::<TokenView>::empty()),
{
    assert(stream_of(Seq::<TokenSpanView>::empty()) =~= Seq::<TokenView>::empty());
}

/// A token behind white space is the first token of what follows.
pub proof fn lemma_lex_token(
    s: Seq<char>,
    at: int,
    start: int,
    token: TokenView,
    end: int,
    rest: Seq<TokenView>,
)
    requires
        0 <= at <= start < s.len(),
        run_end(s, at, CharClass::Space) == start,
        scan_token(s, start) == (Scanned::Token { token, end }),
        !token.is_trivia(),
        stream_of_outcome(lex_from(s, end)) == Some(rest),
    ensures
        stream_of_outcome(lex_from(s, at)) == Some(seq![token] + rest),
{
    lemma_scan_token(s, start);
    let first = TokenSpanView {
        token,
        start: offset_of(s, start) as usize,
        end: offset_of(s, end) as usize,
    };
    lemma_stream_front(first, lex_from(s, end)->Ok_0);
}

/// True for the brackets and separators, which are tokens whatever follows.
pub open spec fn is_punctuation(c: char) -> bool {
    c == '(' || c == ')' || c == '[' || c == ']' || c == '{' || c == '}' || c == ',' || c == ';'
        || c == ':' || c == '.'
}

/// A bracket or a separator is its token, whatever follows it.
pub proof fn lemma_scan_punctuation(s: Seq<char>, at: int)
    requires
        0 <= at < s.len(),
        is_punctuation(s[at]),
    ensures
        symbol1(s[at]) matches Some(token) && scan_token(s, at) == (Scanned::Token {
            token,
            end: at + 1,
        }) && !token.is_trivia() && !CharClass::Space.holds(s[at]),
{
}

/// A digit that no digit and no dot follows is the integer literal of its
/// value.
pub proof fn lemma_scan_digit(s: Seq<char>, at: int)
    requires
        0 <= at < s.len(),
        is_digit(s[at]),
        at + 1 < s.len() ==> !is_digit(s[at + 1]) && s[at + 1] != '.',
    ensures
        scan_token(s, at) == (Scanned::Token {
            token: TokenView::IntLiteral(digit_value(s[at]) as i64),
            end: at + 1,
        }),
{
    reveal_with_fuel(run_end, 2);
    reveal_with_fuel(digits_value, 2);
    assert(run_end(s, at, CharClass::Digit) == at + 1);
    assert(digits_value(s, at, at + 1) == digit_value(s[at]));
}

/// A letter that no letter, digit or underscore follows is the name of that
/// one letter: no keyword is that short.
pub proof fn lemma_scan_letter(s: Seq<char>, at: int)
    requires
        0 <= at < s.len(),
        is_word_start(s[at]),
        at + 1 < s.len() ==> !CharClass::Word.holds(s[at + 1]),
    ensures
        scan_token(s, at) == (Scanned::Token {
            token: TokenView::Identifier(seq![s[at]]),
            end: at + 1,
        }),
{
    reveal_with_fuel(run_end, 2);
    assert(run_end(s, at, CharClass::Word) == at + 1);
    assert(s.subrange(at, at + 1) =~= seq![s[at]]);
    assert(seq![s[at]].len() == 1);
    reveal_strlit("true");
    assert("true"@.len() == 4);
    reveal_strlit("false");
    assert("false"@.len() == 5);
    reveal_strlit("null");
    assert("null"@.len() == 4);
    reveal_strlit("let");
    assert("let"@.len() == 3);
    reveal_strlit("const");
    assert("const"@.len() == 5);
    reveal_strlit("fn");
    assert("fn"@.len() == 2);
    reveal_strlit("return");
    assert("return"@.len() == 6);
    reveal_strlit("if");
    assert("if"@.len() == 2);
    reveal_strlit("else");
    assert("else"@.len() == 4);
    reveal_strlit("import");
    assert("import"@.len() == 6);
    reveal_strlit("export");
    assert("export"@.len() == 6);
    reveal_strlit("while");
    assert("while"@.len() == 5);
    reveal_strlit("for");
    assert("for"@.len() == 3);
    reveal_strlit("continue");
    assert("continue"@.len() == 8);
    reveal_strlit("break");
    assert("break"@.len() == 5);
    assert(keyword(seq![s[at]]).is_none());
}

/// A binary operator that is spelled at `at`, with a blank or the end of the
/// source behind it, is its token.
#[verifier::rlimit(60)]
pub proof fn lemma_scan_operator(s: Seq<char>, at: int, token: TokenView)
    requires
        BinaryOp::of_token(token).is_some(),
        0 <= at,
        at + token.spelling().len() <= s.len(),
        s.subrange(at, at + token.spelling().len()) == token.spelling(),
        at + token.spelling().len() < s.len() ==> s[at + token.spelling().len()] == ' ',
    ensures
        1 <= token.spelling().len() <= 2,
        scan_token(s, at) == (Scanned::Token { token, end: at + token.spelling().len() }),
        !CharClass::Space.holds(s[at]),
        !token.is_trivia(),
{
    match token {
        TokenView::Plus => {
            reveal_strlit("+");
            assert("+"@.len() == 1 && "+"@[0] == '+');
            assert(s.subrange(at, at + 1)[0] == s[at + 0]);
        },
        TokenView::Minus => {
            reveal_strlit("-");
            assert("-"@.len() == 1 && "-"@[0] == '-');
            assert(s.subrange(at, at + 1)[0] == s[at + 0]);
        },
        TokenView::Star => {
            reveal_strlit("*");
            assert("*"@.len() == 1 && "*"@[0] == '*');
            assert(s.subrange(at, at + 1)[0] == s[at + 0]);
        },
        TokenView::Slash => {
            reveal_strlit("/");
            assert("/"@.len() == 1 && "/"@[0] == '/');
            assert(s.subrange(at, at + 1)[0] == s[at + 0]);
        },
        TokenView::Modulo => {
            reveal_strlit("%");
            assert("%"@.len() == 1 && "%"@[0] == '%');
            assert(s.subrange(at, at + 1)[0] == s[at + 0]);
        },
        TokenView::Caret => {
            reveal_strlit("^");
            assert("^"@.len() == 1 && "^"@[0] == '^');
            assert(s.subrange(at, at + 1)[0] == s[at + 0]);
        },
        TokenView::DoubleStar => {
            reveal_strlit("**");
            assert("**"@.len() == 2 && "**"@[0] == '*' && "**"@[1] == '*');
            assert(s.subrange(at, at + 2)[0] == s[at + 0]);
            assert(s.subrange(at, at + 2)[1] == s[at + 1]);
        },
        TokenView::EqualEqual => {
            reveal_strlit("==");
            assert("=="@.len() == 2 && "=="@[0] == '=' && "=="@[1] == '=');
            assert(s.subrange(at, at + 2)[0] == s[at + 0]);
            assert(s.subrange(at, at + 2)[1] == s[at + 1]);
        },
        TokenView::BangEqual => {
            reveal_strlit("!=");
            assert("!="@.len() == 2 && "!="@[0] == '!' && "!="@[1] == '=');
            assert(s.subrange(at, at + 2)[0] == s[at + 0]);
            assert(s.subrange(at, at + 2)[1] == s[at + 1]);
        },
        TokenView::Less => {
            reveal_strlit("<");
            assert("<"@.len() == 1 && "<"@[0] == '<');
            assert(s.subrange(at, at + 1)[0] == s[at + 0]);
        },
        TokenView::LessEqual => {
            reveal_strlit("<=");
            assert("<="@.len() == 2 && "<="@[0] == '<' && "<="@[1] == '=');
            assert(s.subrange(at, at + 2)[0] == s[at + 0]);
            assert(s.subrange(at, at + 2)[1] == s[at + 1]);
        },
        TokenView::Greater => {
            reveal_strlit(">");
            assert(">"@.len() == 1 && ">"@[0] == '>');
            assert(s.subrange(at, at + 1)[0] == s[at + 0]);
        },
        TokenView::GreaterEqual => {
            reveal_strlit(">=");
            assert(">="@.len() == 2 && ">="@[0] == '>' && ">="@[1] == '=');
            assert(s.subrange(at, at + 2)[0] == s[at + 0]);
            assert(s.subrange(at, at + 2)[1] == s[at + 1]);
        },
        TokenView::And => {
            reveal_strlit("&&");
            assert("&&"@.len() == 2 && "&&"@[0] == '&' && "&&"@[1] == '&');
            assert(s.subrange(at, at + 2)[0] == s[at + 0]);
            assert(s.subrange(at, at + 2)[1] == s[at + 1]);
        },
        TokenView::Or => {
            reveal_strlit("||");
            assert("||"@.len() == 2 && "||"@[0] == '|' && "||"@[1] == '|');
            assert(s.subrange(at, at + 2)[0] == s[at + 0]);
            assert(s.subrange(at, at + 2)[1] == s[at + 1]);
        },
        TokenView::BitAnd => {
            reveal_strlit("&");
            assert("&"@.len() == 1 && "&"@[0] == '&');
            assert(s.subrange(at, at + 1)[0] == s[at + 0]);
        },
        TokenView::BitOr => {
            reveal_strlit("|");
            assert("|"@.len() == 1 && "|"@[0] == '|');
            assert(s.subrange(at, at + 1)[0] == s[at + 0]);
        },
        TokenView::ShiftLeft => {
            reveal_strlit("<<");
            assert("<<"@.len() == 2 && "<<"@[0] == '<' && "<<"@[1] == '<');
            assert(s.subrange(at, at + 2)[0] == s[at + 0]);
            assert(s.subrange(at, at + 2)[1] == s[at + 1]);
        },
        TokenView::ShiftRight => {
            reveal_strlit(">>");
            assert(">>"@.len() == 2 && ">>"@[0] == '>' && ">>"@[1] == '>');
            assert(s.subrange(at, at + 2)[0] == s[at + 0]);
            assert(s.subrange(at, at + 2)[1] == s[at + 1]);
        },
        _ => {},
    }
}

} // verus!
