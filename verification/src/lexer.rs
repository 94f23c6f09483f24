//! Tokens of the language and the lexer that produces them.

use crate::lexer::scan::CharClass;
use crate::lexer::scan::block_end;
use crate::lexer::scan::is_digit;
use crate::lexer::scan::is_word_start;
use crate::lexer::scan::lemma_block_end;
use crate::lexer::scan::lemma_run_end;
use crate::lexer::scan::lemma_string_end;
use crate::lexer::scan::run_end;
use crate::lexer::scan::scan_block;
use crate::lexer::scan::scan_run;
use crate::lexer::scan::scan_string;
use crate::lexer::scan::scan_symbol;
use crate::lexer::scan::string_end;
use crate::lexer::scan::symbol_at;
use crate::lexer::utils::digits_value;
use crate::lexer::utils::parse_block_comment;
use crate::lexer::utils::parse_float;
use crate::lexer::utils::parse_identifier;
use crate::lexer::utils::parse_int;
use crate::lexer::utils::parse_line_comment;
use crate::lexer::utils::parse_string;
use crate::lexer::utils::unescape;
use crate::parser::analyzer::context::ParseContext;
use crate::parser::analyzer::context::ParseContextView;
use crate::parser::analyzer::error::ParseError;
use crate::parser::analyzer::error::ParseErrorView;
use crate::text::byte_len;
use crate::text::chars_of;
use crate::text::lemma_offset_monotonic;
use crate::text::lemma_offset_step;
use crate::text::offset_of;
use crate::text::push_signed;
use crate::text::push_str;
use crate::text::signed_decimal;
use crate::text::string_of;
use crate::text::utf8_width;
use std::ops::Range;
use vstd::prelude::*;
use vstd::std_specs::cmp::PartialEqSpecImpl;
use vstd::string::StrSliceExecFns;
use vstd::string::StringExecFns;

pub mod laws;
pub mod scan;
pub mod spelled;
pub mod utils;

verus! {

/// A lexical unit of the source text, with its payload where it has one.
#[derive(Debug)]
pub enum Token {
    /// A run of decimal digits whose value fits in `i64`.
    IntLiteral(i64),
    /// Digits, a dot and digits; the payload is the literal as written.
    FloatLiteral(String),
    BoolTrue,
    BoolFalse,
    /// A double-quoted string; the payload is its content with `\\"` replaced by `"`.
    StringLiteral(String),
    NullLiteral,
    /// A letter or underscore followed by letters, digits and underscores.
    Identifier(String),
    Let,
    Const,
    Fn,
    Return,
    If,
    Else,
    Import,
    Export,
    While,
    For,
    Continue,
    Break,
    /// `//` up to the end of the line; the payload is the text after `//`.
    LineComment(String),
    /// `/*` up to `*/`; the payload is the text between them.
    BlockComment(String),
    Equal,
    Plus,
    Minus,
    Star,
    Slash,
    Modulo,
    Caret,
    DoubleStar,
    PlusEqual,
    MinusEqual,
    StarEqual,
    SlashEqual,
    ModuloEqual,
    CaretEqual,
    PlusPlus,
    MinusMinus,
    EqualEqual,
    BangEqual,
    Less,
    LessEqual,
    Greater,
    GreaterEqual,
    Bang,
    And,
    Or,
    BitAnd,
    BitOr,
    ShiftLeft,
    ShiftRight,
    BitAndEqual,
    BitOrEqual,
    ShiftLeftEqual,
    ShiftRightEqual,
    LeftParen,
    RightParen,
    LeftBrace,
    RightBrace,
    LeftBracket,
    RightBracket,
    Comma,
    Semicolon,
    Colon,
    Dot,
}

/// What a [`Token`] denotes: the same variants, with each text payload as a
/// sequence of characters.
pub enum TokenView {
    IntLiteral(i64),
    FloatLiteral(Seq<char>),
    BoolTrue,
    BoolFalse,
    StringLiteral(Seq<char>),
    NullLiteral,
    Identifier(Seq<char>),
    Let,
    Const,
    Fn,
    Return,
    If,
    Else,
    Import,
    Export,
    While,
    For,
    Continue,
    Break,
    LineComment(Seq<char>),
    BlockComment(Seq<char>),
    Equal,
    Plus,
    Minus,
    Star,
    Slash,
    Modulo,
    Caret,
    DoubleStar,
    PlusEqual,
    MinusEqual,
    StarEqual,
    SlashEqual,
    ModuloEqual,
    CaretEqual,
    PlusPlus,
    MinusMinus,
    EqualEqual,
    BangEqual,
    Less,
    LessEqual,
    Greater,
    GreaterEqual,
    Bang,
    And,
    Or,
    BitAnd,
    BitOr,
    ShiftLeft,
    ShiftRight,
    BitAndEqual,
    BitOrEqual,
    ShiftLeftEqual,
    ShiftRightEqual,
    LeftParen,
    RightParen,
    LeftBrace,
    RightBrace,
    LeftBracket,
    RightBracket,
    Comma,
    Semicolon,
    Colon,
    Dot,
}

impl View for Token {
    type V = TokenView;

    open spec fn view(&self) -> TokenView {
        match self {
            Token::IntLiteral(i) => TokenView::IntLiteral(*i),
            Token::FloatLiteral(s) => TokenView::FloatLiteral(s@),
            Token::BoolTrue => TokenView::BoolTrue,
            Token::BoolFalse => TokenView::BoolFalse,
            Token::StringLiteral(s) => TokenView::StringLiteral(s@),
            Token::NullLiteral => TokenView::NullLiteral,
            Token::Identifier(s) => TokenView::Identifier(s@),
            Token::Let => TokenView::Let,
            Token::Const => TokenView::Const,
            Token::Fn => TokenView::Fn,
            Token::Return => TokenView::Return,
            Token::If => TokenView::If,
            Token::Else => TokenView::Else,
            Token::Import => TokenView::Import,
            Token::Export => TokenView::Export,
            Token::While => TokenView::While,
            Token::For => TokenView::For,
            Token::Continue => TokenView::Continue,
            Token::Break => TokenView::Break,
            Token::LineComment(s) => TokenView::LineComment(s@),
            Token::BlockComment(s) => TokenView::BlockComment(s@),
            Token::Equal => TokenView::Equal,
            Token::Plus => TokenView::Plus,
            Token::Minus => TokenView::Minus,
            Token::Star => TokenView::Star,
            Token::Slash => TokenView::Slash,
            Token::Modulo => TokenView::Modulo,
            Token::Caret => TokenView::Caret,
            Token::DoubleStar => TokenView::DoubleStar,
            Token::PlusEqual => TokenView::PlusEqual,
            Token::MinusEqual => TokenView::MinusEqual,
            Token::StarEqual => TokenView::StarEqual,
            Token::SlashEqual => TokenView::SlashEqual,
            Token::ModuloEqual => TokenView::ModuloEqual,
            Token::CaretEqual => TokenView::CaretEqual,
            Token::PlusPlus => TokenView::PlusPlus,
            Token::MinusMinus => TokenView::MinusMinus,
            Token::EqualEqual => TokenView::EqualEqual,
            Token::BangEqual => TokenView::BangEqual,
            Token::Less => TokenView::Less,
            Token::LessEqual => TokenView::LessEqual,
            Token::Greater => TokenView::Greater,
            Token::GreaterEqual => TokenView::GreaterEqual,
            Token::Bang => TokenView::Bang,
            Token::And => TokenView::And,
            Token::Or => TokenView::Or,
            Token::BitAnd => TokenView::BitAnd,
            Token::BitOr => TokenView::BitOr,
            Token::ShiftLeft => TokenView::ShiftLeft,
            Token::ShiftRight => TokenView::ShiftRight,
            Token::BitAndEqual => TokenView::BitAndEqual,
            Token::BitOrEqual => TokenView::BitOrEqual,
            Token::ShiftLeftEqual => TokenView::ShiftLeftEqual,
            Token::ShiftRightEqual => TokenView::ShiftRightEqual,
            Token::LeftParen => TokenView::LeftParen,
            Token::RightParen => TokenView::RightParen,
            Token::LeftBrace => TokenView::LeftBrace,
            Token::RightBrace => TokenView::RightBrace,
            Token::LeftBracket => TokenView::LeftBracket,
            Token::RightBracket => TokenView::RightBracket,
            Token::Comma => TokenView::Comma,
            Token::Semicolon => TokenView::Semicolon,
            Token::Colon => TokenView::Colon,
            Token::Dot => TokenView::Dot,
        }
    }
}

impl Clone for Token {
    fn clone(&self) -> (r: Token)
        ensures
            r@ == self@,
    {
        match self {
            Token::IntLiteral(i) => Token::IntLiteral(*i),
            Token::FloatLiteral(s) => Token::FloatLiteral(s.clone()),
            Token::BoolTrue => Token::BoolTrue,
            Token::BoolFalse => Token::BoolFalse,
            Token::StringLiteral(s) => Token::StringLiteral(s.clone()),
            Token::NullLiteral => Token::NullLiteral,
            Token::Identifier(s) => Token::Identifier(s.clone()),
            Token::Let => Token::Let,
            Token::Const => Token::Const,
            Token::Fn => Token::Fn,
            Token::Return => Token::Return,
            Token::If => Token::If,
            Token::Else => Token::Else,
            Token::Import => Token::Import,
            Token::Export => Token::Export,
            Token::While => Token::While,
            Token::For => Token::For,
            Token::Continue => Token::Continue,
            Token::Break => Token::Break,
            Token::LineComment(s) => Token::LineComment(s.clone()),
            Token::BlockComment(s) => Token::BlockComment(s.clone()),
            Token::Equal => Token::Equal,
            Token::Plus => Token::Plus,
            Token::Minus => Token::Minus,
            Token::Star => Token::Star,
            Token::Slash => Token::Slash,
            Token::Modulo => Token::Modulo,
            Token::Caret => Token::Caret,
            Token::DoubleStar => Token::DoubleStar,
            Token::PlusEqual => Token::PlusEqual,
            Token::MinusEqual => Token::MinusEqual,
            Token::StarEqual => Token::StarEqual,
            Token::SlashEqual => Token::SlashEqual,
            Token::ModuloEqual => Token::ModuloEqual,
            Token::CaretEqual => Token::CaretEqual,
            Token::PlusPlus => Token::PlusPlus,
            Token::MinusMinus => Token::MinusMinus,
            Token::EqualEqual => Token::EqualEqual,
            Token::BangEqual => Token::BangEqual,
            Token::Less => Token::Less,
            Token::LessEqual => Token::LessEqual,
            Token::Greater => Token::Greater,
            Token::GreaterEqual => Token::GreaterEqual,
            Token::Bang => Token::Bang,
            Token::And => Token::And,
            Token::Or => Token::Or,
            Token::BitAnd => Token::BitAnd,
            Token::BitOr => Token::BitOr,
            Token::ShiftLeft => Token::ShiftLeft,
            Token::ShiftRight => Token::ShiftRight,
            Token::BitAndEqual => Token::BitAndEqual,
            Token::BitOrEqual => Token::BitOrEqual,
            Token::ShiftLeftEqual => Token::ShiftLeftEqual,
            Token::ShiftRightEqual => Token::ShiftRightEqual,
            Token::LeftParen => Token::LeftParen,
            Token::RightParen => Token::RightParen,
            Token::LeftBrace => Token::LeftBrace,
            Token::RightBrace => Token::RightBrace,
            Token::LeftBracket => Token::LeftBracket,
            Token::RightBracket => Token::RightBracket,
            Token::Comma => Token::Comma,
            Token::Semicolon => Token::Semicolon,
            Token::Colon => Token::Colon,
            Token::Dot => Token::Dot,
        }
    }
}

impl PartialEq for Token {
    /// Two tokens are equal when they are the same variant with the same payload.
    fn eq(&self, other: &Token) -> (r: bool) {
        match (self, other) {
            (Token::IntLiteral(a), Token::IntLiteral(b)) => *a == *b,
            (Token::FloatLiteral(a), Token::FloatLiteral(b)) => *a == *b,
            (Token::BoolTrue, Token::BoolTrue) => true,
            (Token::BoolFalse, Token::BoolFalse) => true,
            (Token::StringLiteral(a), Token::StringLiteral(b)) => *a == *b,
            (Token::NullLiteral, Token::NullLiteral) => true,
            (Token::Identifier(a), Token::Identifier(b)) => *a == *b,
            (Token::Let, Token::Let) => true,
            (Token::Const, Token::Const) => true,
            (Token::Fn, Token::Fn) => true,
            (Token::Return, Token::Return) => true,
            (Token::If, Token::If) => true,
            (Token::Else, Token::Else) => true,
            (Token::Import, Token::Import) => true,
            (Token::Export, Token::Export) => true,
            (Token::While, Token::While) => true,
            (Token::For, Token::For) => true,
            (Token::Continue, Token::Continue) => true,
            (Token::Break, Token::Break) => true,
            (Token::LineComment(a), Token::LineComment(b)) => *a == *b,
            (Token::BlockComment(a), Token::BlockComment(b)) => *a == *b,
            (Token::Equal, Token::Equal) => true,
            (Token::Plus, Token::Plus) => true,
            (Token::Minus, Token::Minus) => true,
            (Token::Star, Token::Star) => true,
            (Token::Slash, Token::Slash) => true,
            (Token::Modulo, Token::Modulo) => true,
            (Token::Caret, Token::Caret) => true,
            (Token::DoubleStar, Token::DoubleStar) => true,
            (Token::PlusEqual, Token::PlusEqual) => true,
            (Token::MinusEqual, Token::MinusEqual) => true,
            (Token::StarEqual, Token::StarEqual) => true,
            (Token::SlashEqual, Token::SlashEqual) => true,
            (Token::ModuloEqual, Token::ModuloEqual) => true,
            (Token::CaretEqual, Token::CaretEqual) => true,
            (Token::PlusPlus, Token::PlusPlus) => true,
            (Token::MinusMinus, Token::MinusMinus) => true,
            (Token::EqualEqual, Token::EqualEqual) => true,
            (Token::BangEqual, Token::BangEqual) => true,
            (Token::Less, Token::Less) => true,
            (Token::LessEqual, Token::LessEqual) => true,
            (Token::Greater, Token::Greater) => true,
            (Token::GreaterEqual, Token::GreaterEqual) => true,
            (Token::Bang, Token::Bang) => true,
            (Token::And, Token::And) => true,
            (Token::Or, Token::Or) => true,
            (Token::BitAnd, Token::BitAnd) => true,
            (Token::BitOr, Token::BitOr) => true,
            (Token::ShiftLeft, Token::ShiftLeft) => true,
            (Token::ShiftRight, Token::ShiftRight) => true,
            (Token::BitAndEqual, Token::BitAndEqual) => true,
            (Token::BitOrEqual, Token::BitOrEqual) => true,
            (Token::ShiftLeftEqual, Token::ShiftLeftEqual) => true,
            (Token::ShiftRightEqual, Token::ShiftRightEqual) => true,
            (Token::LeftParen, Token::LeftParen) => true,
            (Token::RightParen, Token::RightParen) => true,
            (Token::LeftBrace, Token::LeftBrace) => true,
            (Token::RightBrace, Token::RightBrace) => true,
            (Token::LeftBracket, Token::LeftBracket) => true,
            (Token::RightBracket, Token::RightBracket) => true,
            (Token::Comma, Token::Comma) => true,
            (Token::Semicolon, Token::Semicolon) => true,
            (Token::Colon, Token::Colon) => true,
            (Token::Dot, Token::Dot) => true,
            _ => false,
        }
    }
}

impl PartialEqSpecImpl for Token {
    open spec fn obeys_eq_spec() -> bool {
        true
    }

    open spec fn eq_spec(&self, other: &Token) -> bool {
        self@ == other@
    }
}

impl TokenView {
    /// True for line and block comments.
    pub open spec fn is_comment(self) -> bool {
        self is LineComment || self is BlockComment
    }

    /// True for the tokens that the grammar never sees: comments.
    pub open spec fn is_trivia(self) -> bool {
        self.is_comment()
    }

    /// The token as it is written in a source. A keyword or a symbol is its
    /// text; a literal, a name or a comment is its payload, a string between
    /// double quotes and a comment behind `//` or between `/*` and `*/`.
    pub open spec fn spelling(self) -> Seq<char> {
        match self {
            TokenView::IntLiteral(i) => signed_decimal(i as int),
            TokenView::FloatLiteral(s) => s,
            TokenView::BoolTrue => "true"@,
            TokenView::BoolFalse => "false"@,
            TokenView::StringLiteral(s) => "\""@ + s + "\""@,
            TokenView::NullLiteral => "null"@,
            TokenView::Identifier(s) => s,
            TokenView::Let => "let"@,
            TokenView::Const => "const"@,
            TokenView::Fn => "fn"@,
            TokenView::Return => "return"@,
            TokenView::If => "if"@,
            TokenView::Else => "else"@,
            TokenView::Import => "import"@,
            TokenView::Export => "export"@,
            TokenView::While => "while"@,
            TokenView::For => "for"@,
            TokenView::Continue => "continue"@,
            TokenView::Break => "break"@,
            TokenView::LineComment(s) => "//"@ + s,
            TokenView::BlockComment(s) => "/*"@ + s + "*/"@,
            TokenView::Equal => "="@,
            TokenView::Plus => "+"@,
            TokenView::Minus => "-"@,
            TokenView::Star => "*"@,
            TokenView::Slash => "/"@,
            TokenView::Modulo => "%"@,
            TokenView::Caret => "^"@,
            TokenView::DoubleStar => "**"@,
            TokenView::PlusEqual => "+="@,
            TokenView::MinusEqual => "-="@,
            TokenView::StarEqual => "*="@,
            TokenView::SlashEqual => "/="@,
            TokenView::ModuloEqual => "%="@,
            TokenView::CaretEqual => "^="@,
            TokenView::PlusPlus => "++"@,
            TokenView::MinusMinus => "--"@,
            TokenView::EqualEqual => "=="@,
            TokenView::BangEqual => "!="@,
            TokenView::Less => "<"@,
            TokenView::LessEqual => "<="@,
            TokenView::Greater => ">"@,
            TokenView::GreaterEqual => ">="@,
            TokenView::Bang => "!"@,
            TokenView::And => "&&"@,
            TokenView::Or => "||"@,
            TokenView::BitAnd => "&"@,
            TokenView::BitOr => "|"@,
            TokenView::ShiftLeft => "<<"@,
            TokenView::ShiftRight => ">>"@,
            TokenView::BitAndEqual => "&="@,
            TokenView::BitOrEqual => "|="@,
            TokenView::ShiftLeftEqual => "<<="@,
            TokenView::ShiftRightEqual => ">>="@,
            TokenView::LeftParen => "("@,
            TokenView::RightParen => ")"@,
            TokenView::LeftBrace => "{"@,
            TokenView::RightBrace => "}"@,
            TokenView::LeftBracket => "["@,
            TokenView::RightBracket => "]"@,
            TokenView::Comma => ","@,
            TokenView::Semicolon => ";"@,
            TokenView::Colon => ":"@,
            TokenView::Dot => "."@,
        }
    }

    /// True for the tokens without a payload: keywords and symbols.
    pub open spec fn is_fixed(self) -> bool {
        !(self is IntLiteral || self is FloatLiteral || self is StringLiteral || self is Identifier
            || self is LineComment || self is BlockComment)
    }

    /// The text by which a token is named in messages: the variant's name,
    /// followed for a token with a payload by the payload in parentheses.
    pub open spec fn description(self) -> Seq<char> {
        match self {
            TokenView::IntLiteral(i) => "IntLiteral("@ + signed_decimal(i as int) + ")"@,
            TokenView::FloatLiteral(s) => "FloatLiteral("@ + s + ")"@,
            TokenView::BoolTrue => "BoolTrue"@,
            TokenView::BoolFalse => "BoolFalse"@,
            TokenView::StringLiteral(s) => "StringLiteral("@ + quoted(s) + ")"@,
            TokenView::NullLiteral => "NullLiteral"@,
            TokenView::Identifier(s) => "Identifier("@ + quoted(s) + ")"@,
            TokenView::Let => "Let"@,
            TokenView::Const => "Const"@,
            TokenView::Fn => "Fn"@,
            TokenView::Return => "Return"@,
            TokenView::If => "If"@,
            TokenView::Else => "Else"@,
            TokenView::Import => "Import"@,
            TokenView::Export => "Export"@,
            TokenView::While => "While"@,
            TokenView::For => "For"@,
            TokenView::Continue => "Continue"@,
            TokenView::Break => "Break"@,
            TokenView::LineComment(s) => "LineComment("@ + quoted(s) + ")"@,
            TokenView::BlockComment(s) => "BlockComment("@ + quoted(s) + ")"@,
            TokenView::Equal => "Equal"@,
            TokenView::Plus => "Plus"@,
            TokenView::Minus => "Minus"@,
            TokenView::Star => "Star"@,
            TokenView::Slash => "Slash"@,
            TokenView::Modulo => "Modulo"@,
            TokenView::Caret => "Caret"@,
            TokenView::DoubleStar => "DoubleStar"@,
            TokenView::PlusEqual => "PlusEqual"@,
            TokenView::MinusEqual => "MinusEqual"@,
            TokenView::StarEqual => "StarEqual"@,
            TokenView::SlashEqual => "SlashEqual"@,
            TokenView::ModuloEqual => "ModuloEqual"@,
            TokenView::CaretEqual => "CaretEqual"@,
            TokenView::PlusPlus => "PlusPlus"@,
            TokenView::MinusMinus => "MinusMinus"@,
            TokenView::EqualEqual => "EqualEqual"@,
            TokenView::BangEqual => "BangEqual"@,
            TokenView::Less => "Less"@,
            TokenView::LessEqual => "LessEqual"@,
            TokenView::Greater => "Greater"@,
            TokenView::GreaterEqual => "GreaterEqual"@,
            TokenView::Bang => "Bang"@,
            TokenView::And => "And"@,
            TokenView::Or => "Or"@,
            TokenView::BitAnd => "BitAnd"@,
            TokenView::BitOr => "BitOr"@,
            TokenView::ShiftLeft => "ShiftLeft"@,
            TokenView::ShiftRight => "ShiftRight"@,
            TokenView::BitAndEqual => "BitAndEqual"@,
            TokenView::BitOrEqual => "BitOrEqual"@,
            TokenView::ShiftLeftEqual => "ShiftLeftEqual"@,
            TokenView::ShiftRightEqual => "ShiftRightEqual"@,
            TokenView::LeftParen => "LeftParen"@,
            TokenView::RightParen => "RightParen"@,
            TokenView::LeftBrace => "LeftBrace"@,
            TokenView::RightBrace => "RightBrace"@,
            TokenView::LeftBracket => "LeftBracket"@,
            TokenView::RightBracket => "RightBracket"@,
            TokenView::Comma => "Comma"@,
            TokenView::Semicolon => "Semicolon"@,
            TokenView::Colon => "Colon"@,
            TokenView::Dot => "Dot"@,
        }
    }
}

/// The text that `{:?}` formatting gives for a string: the string in double
/// quotes, with the characters escaped that Rust escapes in a string literal.
pub uninterp spec fn quoted(s: Seq<char>) -> Seq<char>;

/// `format!("{:?}", s)` for a string slice: the result is `quoted` of the
/// slice's characters, a function of those characters alone.
#[verifier::external_body]
fn debug_quoted(s: &str) -> (r: String)
    ensures
        r@ == quoted(s@),
{
    format!("{:?}", s)
}

impl Token {
    /// Check if token is a comment.
    pub fn is_comment(&self) -> (r: bool)
        ensures
            r == self@.is_comment(),
    {
        matches!(self, Token::LineComment(_) | Token::BlockComment(_))
    }

    /// Check if token is trivia: skipped by every grammar production.
    pub fn is_trivia(&self) -> (r: bool)
        ensures
            r == self@.is_trivia(),
    {
        matches!(self, Token::LineComment(_) | Token::BlockComment(_))
    }

    /// The token as it is written in a source.
    pub fn spelling(&self) -> (r: String)
        ensures
            r@ == self@.spelling(),
    {
        let mut out = String::new();
        match self {
            Token::IntLiteral(i) => push_signed(&mut out, *i),
            Token::FloatLiteral(s) => push_str(&mut out, s.as_str()),
            Token::BoolTrue => push_str(&mut out, "true"),
            Token::BoolFalse => push_str(&mut out, "false"),
            Token::StringLiteral(s) => {
                push_str(&mut out, "\"");
                push_str(&mut out, s.as_str());
                push_str(&mut out, "\"");
            },
            Token::NullLiteral => push_str(&mut out, "null"),
            Token::Identifier(s) => push_str(&mut out, s.as_str()),
            Token::Let => push_str(&mut out, "let"),
            Token::Const => push_str(&mut out, "const"),
            Token::Fn => push_str(&mut out, "fn"),
            Token::Return => push_str(&mut out, "return"),
            Token::If => push_str(&mut out, "if"),
            Token::Else => push_str(&mut out, "else"),
            Token::Import => push_str(&mut out, "import"),
            Token::Export => push_str(&mut out, "export"),
            Token::While => push_str(&mut out, "while"),
            Token::For => push_str(&mut out, "for"),
            Token::Continue => push_str(&mut out, "continue"),
            Token::Break => push_str(&mut out, "break"),
            Token::LineComment(s) => {
                push_str(&mut out, "//");
                push_str(&mut out, s.as_str());
            },
            Token::BlockComment(s) => {
                push_str(&mut out, "/*");
                push_str(&mut out, s.as_str());
                push_str(&mut out, "*/");
            },
            Token::Equal => push_str(&mut out, "="),
            Token::Plus => push_str(&mut out, "+"),
            Token::Minus => push_str(&mut out, "-"),
            Token::Star => push_str(&mut out, "*"),
            Token::Slash => push_str(&mut out, "/"),
            Token::Modulo => push_str(&mut out, "%"),
            Token::Caret => push_str(&mut out, "^"),
            Token::DoubleStar => push_str(&mut out, "**"),
            Token::PlusEqual => push_str(&mut out, "+="),
            Token::MinusEqual => push_str(&mut out, "-="),
            Token::StarEqual => push_str(&mut out, "*="),
            Token::SlashEqual => push_str(&mut out, "/="),
            Token::ModuloEqual => push_str(&mut out, "%="),
            Token::CaretEqual => push_str(&mut out, "^="),
            Token::PlusPlus => push_str(&mut out, "++"),
            Token::MinusMinus => push_str(&mut out, "--"),
            Token::EqualEqual => push_str(&mut out, "=="),
            Token::BangEqual => push_str(&mut out, "!="),
            Token::Less => push_str(&mut out, "<"),
            Token::LessEqual => push_str(&mut out, "<="),
            Token::Greater => push_str(&mut out, ">"),
            Token::GreaterEqual => push_str(&mut out, ">="),
            Token::Bang => push_str(&mut out, "!"),
            Token::And => push_str(&mut out, "&&"),
            Token::Or => push_str(&mut out, "||"),
            Token::BitAnd => push_str(&mut out, "&"),
            Token::BitOr => push_str(&mut out, "|"),
            Token::ShiftLeft => push_str(&mut out, "<<"),
            Token::ShiftRight => push_str(&mut out, ">>"),
            Token::BitAndEqual => push_str(&mut out, "&="),
            Token::BitOrEqual => push_str(&mut out, "|="),
            Token::ShiftLeftEqual => push_str(&mut out, "<<="),
            Token::ShiftRightEqual => push_str(&mut out, ">>="),
            Token::LeftParen => push_str(&mut out, "("),
            Token::RightParen => push_str(&mut out, ")"),
            Token::LeftBrace => push_str(&mut out, "{"),
            Token::RightBrace => push_str(&mut out, "}"),
            Token::LeftBracket => push_str(&mut out, "["),
            Token::RightBracket => push_str(&mut out, "]"),
            Token::Comma => push_str(&mut out, ","),
            Token::Semicolon => push_str(&mut out, ";"),
            Token::Colon => push_str(&mut out, ":"),
            Token::Dot => push_str(&mut out, "."),
        }
        out
    }

    /// The text by which this token is named in messages.
    pub fn description(&self) -> (r: String)
        ensures
            r@ == self@.description(),
    {
        let mut out = String::new();
        match self {
            Token::IntLiteral(i) => {
                push_str(&mut out, "IntLiteral(");
                push_signed(&mut out, *i);
                push_str(&mut out, ")");
            },
            Token::FloatLiteral(s) => {
                push_str(&mut out, "FloatLiteral(");
                push_str(&mut out, s.as_str());
                push_str(&mut out, ")");
            },
            Token::BoolTrue => push_str(&mut out, "BoolTrue"),
            Token::BoolFalse => push_str(&mut out, "BoolFalse"),
            Token::StringLiteral(s) => {
                push_str(&mut out, "StringLiteral(");
                let q = debug_quoted(s.as_str());
                push_str(&mut out, q.as_str());
                push_str(&mut out, ")");
            },
            Token::NullLiteral => push_str(&mut out, "NullLiteral"),
            Token::Identifier(s) => {
                push_str(&mut out, "Identifier(");
                let q = debug_quoted(s.as_str());
                push_str(&mut out, q.as_str());
                push_str(&mut out, ")");
            },
            Token::Let => push_str(&mut out, "Let"),
            Token::Const => push_str(&mut out, "Const"),
            Token::Fn => push_str(&mut out, "Fn"),
            Token::Return => push_str(&mut out, "Return"),
            Token::If => push_str(&mut out, "If"),
            Token::Else => push_str(&mut out, "Else"),
            Token::Import => push_str(&mut out, "Import"),
            Token::Export => push_str(&mut out, "Export"),
            Token::While => push_str(&mut out, "While"),
            Token::For => push_str(&mut out, "For"),
            Token::Continue => push_str(&mut out, "Continue"),
            Token::Break => push_str(&mut out, "Break"),
            Token::LineComment(s) => {
                push_str(&mut out, "LineComment(");
                let q = debug_quoted(s.as_str());
                push_str(&mut out, q.as_str());
                push_str(&mut out, ")");
            },
            Token::BlockComment(s) => {
                push_str(&mut out, "BlockComment(");
                let q = debug_quoted(s.as_str());
                push_str(&mut out, q.as_str());
                push_str(&mut out, ")");
            },
            Token::Equal => push_str(&mut out, "Equal"),
            Token::Plus => push_str(&mut out, "Plus"),
            Token::Minus => push_str(&mut out, "Minus"),
            Token::Star => push_str(&mut out, "Star"),
            Token::Slash => push_str(&mut out, "Slash"),
            Token::Modulo => push_str(&mut out, "Modulo"),
            Token::Caret => push_str(&mut out, "Caret"),
            Token::DoubleStar => push_str(&mut out, "DoubleStar"),
            Token::PlusEqual => push_str(&mut out, "PlusEqual"),
            Token::MinusEqual => push_str(&mut out, "MinusEqual"),
            Token::StarEqual => push_str(&mut out, "StarEqual"),
            Token::SlashEqual => push_str(&mut out, "SlashEqual"),
            Token::ModuloEqual => push_str(&mut out, "ModuloEqual"),
            Token::CaretEqual => push_str(&mut out, "CaretEqual"),
            Token::PlusPlus => push_str(&mut out, "PlusPlus"),
            Token::MinusMinus => push_str(&mut out, "MinusMinus"),
            Token::EqualEqual => push_str(&mut out, "EqualEqual"),
            Token::BangEqual => push_str(&mut out, "BangEqual"),
            Token::Less => push_str(&mut out, "Less"),
            Token::LessEqual => push_str(&mut out, "LessEqual"),
            Token::Greater => push_str(&mut out, "Greater"),
            Token::GreaterEqual => push_str(&mut out, "GreaterEqual"),
            Token::Bang => push_str(&mut out, "Bang"),
            Token::And => push_str(&mut out, "And"),
            Token::Or => push_str(&mut out, "Or"),
            Token::BitAnd => push_str(&mut out, "BitAnd"),
            Token::BitOr => push_str(&mut out, "BitOr"),
            Token::ShiftLeft => push_str(&mut out, "ShiftLeft"),
            Token::ShiftRight => push_str(&mut out, "ShiftRight"),
            Token::BitAndEqual => push_str(&mut out, "BitAndEqual"),
            Token::BitOrEqual => push_str(&mut out, "BitOrEqual"),
            Token::ShiftLeftEqual => push_str(&mut out, "ShiftLeftEqual"),
            Token::ShiftRightEqual => push_str(&mut out, "ShiftRightEqual"),
            Token::LeftParen => push_str(&mut out, "LeftParen"),
            Token::RightParen => push_str(&mut out, "RightParen"),
            Token::LeftBrace => push_str(&mut out, "LeftBrace"),
            Token::RightBrace => push_str(&mut out, "RightBrace"),
            Token::LeftBracket => push_str(&mut out, "LeftBracket"),
            Token::RightBracket => push_str(&mut out, "RightBracket"),
            Token::Comma => push_str(&mut out, "Comma"),
            Token::Semicolon => push_str(&mut out, "Semicolon"),
            Token::Colon => push_str(&mut out, "Colon"),
            Token::Dot => push_str(&mut out, "Dot"),
        }
        out
    }
}

/// A token together with the half-open byte range of the source that it covers.
#[derive(Debug)]
pub struct TokenSpan {
    pub token: Token,
    pub span: Range<usize>,
}

impl std::ops::Deref for TokenSpan {
    type Target = Token;

    fn deref(&self) -> (r: &Token)
        ensures
            *r == self.token,
    {
        &self.token
    }
}

impl Clone for TokenSpan {
    fn clone(&self) -> (r: TokenSpan)
        ensures
            r@ == self@,
    {
        TokenSpan { token: self.token.clone(), span: self.span.start..self.span.end }
    }
}


/// What a [`TokenSpan`] denotes: the token's view and its byte range.
pub struct TokenSpanView {
    pub token: TokenView,
    pub start: usize,
    pub end: usize,
}

impl View for TokenSpan {
    type V = TokenSpanView;

    open spec fn view(&self) -> TokenSpanView {
        TokenSpanView { token: self.token@, start: self.span.start, end: self.span.end }
    }
}

/// The views of a sequence of tokens.
pub open spec fn views(tokens: Seq<TokenSpan>) -> Seq<TokenSpanView> {
    Seq::new(tokens.len(), |i: int| tokens[i]@)
}

/// The keyword or literal word that `word` spells, if it spells one.
pub open spec fn keyword(word: Seq<char>) -> Option<TokenView> {
    if word == "true"@ {
        Some(TokenView::BoolTrue)
    } else if word == "false"@ {
        Some(TokenView::BoolFalse)
    } else if word == "null"@ {
        Some(TokenView::NullLiteral)
    } else if word == "let"@ {
        Some(TokenView::Let)
    } else if word == "const"@ {
        Some(TokenView::Const)
    } else if word == "fn"@ {
        Some(TokenView::Fn)
    } else if word == "return"@ {
        Some(TokenView::Return)
    } else if word == "if"@ {
        Some(TokenView::If)
    } else if word == "else"@ {
        Some(TokenView::Else)
    } else if word == "import"@ {
        Some(TokenView::Import)
    } else if word == "export"@ {
        Some(TokenView::Export)
    } else if word == "while"@ {
        Some(TokenView::While)
    } else if word == "for"@ {
        Some(TokenView::For)
    } else if word == "continue"@ {
        Some(TokenView::Continue)
    } else if word == "break"@ {
        Some(TokenView::Break)
    } else {
        None
    }
}

/// What stands at a position of the source: a token that ends before `end`,
/// or text up to `end` that is no token.
#[allow(inconsistent_fields)]
pub enum Scanned {
    Token { token: TokenView, end: int },
    Invalid { end: int },
}

/// The token that starts at character `at`, which is no white space: the
/// longest text from there that is a token.
///
/// - Digits are an integer literal; digits, a dot and digits are a
///   floating-point literal. An integer literal above `i64::MAX` is invalid as
///   a whole.
/// - A word is a keyword, `true`, `false` or `null` where it spells one, else
///   an identifier.
/// - A double quote starts a string literal, `//` a line comment, `/*` a block
///   comment. Where a block comment is not closed, `/` is the division sign.
/// - Else the longest operator or punctuation symbol.
/// - Where none of these fits, the one character at `at` is invalid.
pub open spec fn scan_token(src: Seq<char>, at: int) -> Scanned
    recommends
        0 <= at < src.len(),
{
    let c = src[at];
    if is_digit(c) {
        let mid = run_end(src, at, CharClass::Digit);
        if mid + 1 < src.len() && src[mid] == '.' && is_digit(src[mid + 1]) {
            let end = run_end(src, mid + 1, CharClass::Digit);
            Scanned::Token { token: TokenView::FloatLiteral(src.subrange(at, end)), end }
        } else if digits_value(src, at, mid) <= i64::MAX {
            Scanned::Token {
                token: TokenView::IntLiteral(digits_value(src, at, mid) as i64),
                end: mid,
            }
        } else {
            Scanned::Invalid { end: mid }
        }
    } else if is_word_start(c) {
        let end = run_end(src, at, CharClass::Word);
        let word = src.subrange(at, end);
        Scanned::Token {
            token: match keyword(word) {
                Some(token) => token,
                None => TokenView::Identifier(word),
            },
            end,
        }
    } else if c == '"' {
        match string_end(src, at + 1) {
            Some(end) => Scanned::Token {
                token: TokenView::StringLiteral(unescape(src.subrange(at + 1, end - 1))),
                end,
            },
            None => Scanned::Invalid { end: at + 1 },
        }
    } else if c == '/' && at + 1 < src.len() && src[at + 1] == '/' {
        let end = run_end(src, at + 2, CharClass::InLine);
        Scanned::Token { token: TokenView::LineComment(src.subrange(at + 2, end)), end }
    } else if c == '/' && at + 1 < src.len() && src[at + 1] == '*' && block_end(
        src,
        at + 2,
        false,
    ).is_some() {
        let end = block_end(src, at + 2, false).unwrap();
        Scanned::Token { token: TokenView::BlockComment(src.subrange(at + 2, end - 2)), end }
    } else {
        match symbol_at(src, at) {
            Some((token, len)) => Scanned::Token { token, end: at + len },
            None => Scanned::Invalid { end: at + 1 },
        }
    }
}

/// Every token and every invalid text is at least one character long and
/// ends within the source.
pub proof fn lemma_scan_token(src: Seq<char>, at: int)
    requires
        0 <= at < src.len(),
    ensures
        match scan_token(src, at) {
            Scanned::Token { end, .. } => at < end <= src.len(),
            Scanned::Invalid { end } => at < end <= src.len(),
        },
{
    lemma_run_end(src, at, CharClass::Digit);
    lemma_run_end(src, at, CharClass::Word);
    lemma_string_end(src, at + 1);
    lemma_block_end(src, at + 2, false);
    let mid = run_end(src, at, CharClass::Digit);
    if mid + 1 < src.len() {
        lemma_run_end(src, mid + 1, CharClass::Digit);
    }
    if at + 1 < src.len() {
        lemma_run_end(src, at + 2, CharClass::InLine);
    }
}

/// The text `src[start..end]` that is no token, with its byte range.
pub struct Rejected {
    pub start: int,
    pub end: int,
}

/// The tokens of `src` from character `at` on, in source order, each with its
/// byte range; white space between them is dropped and comments are kept. The
/// first text that is no token ends the lexing: nothing is returned but that
/// text.
pub open spec fn lex_from(src: Seq<char>, at: int) -> Result<Seq<TokenSpanView>, Rejected>
    decreases src.len() - at,
{
    let start = run_end(src, at, CharClass::Space);
    if 0 <= at <= start < src.len() {
        match scan_token(src, start) {
            Scanned::Token { token, end } => {
                if start < end <= src.len() {
                    match lex_from(src, end) {
                        Ok(rest) => Ok(
                            seq![
                                TokenSpanView {
                                    token,
                                    start: offset_of(src, start) as usize,
                                    end: offset_of(src, end) as usize,
                                },
                            ] + rest,
                        ),
                        Err(rejected) => Err(rejected),
                    }
                } else {
                    Ok(Seq::empty())
                }
            },
            Scanned::Invalid { end } => Err(Rejected { start, end }),
        }
    } else {
        Ok(Seq::empty())
    }
}

/// The tokens of the whole source.
pub open spec fn lex(src: Seq<char>) -> Result<Seq<TokenSpanView>, Rejected> {
    lex_from(src, 0)
}

/// The error for text that is no token.
pub open spec fn invalid_token(src: Seq<char>, rejected: Rejected) -> ParseErrorView {
    let start = offset_of(src, rejected.start) as usize;
    let end = offset_of(src, rejected.end) as usize;
    ParseErrorView::BuildError {
        message: "Invalid token"@,
        invalid_text: src.subrange(rejected.start, rejected.end),
        start,
        end,
        context: ParseContextView::of_span(src, start, end),
    }
}

/// True when `chars[from..to]` spells `word`.
fn spells(chars: &Vec<char>, from: usize, to: usize, word: &str) -> (r: bool)
    requires
        from <= to <= chars.len(),
    ensures
        r == (chars@.subrange(from as int, to as int) == word@),
{
    let len = word.unicode_len();
    if to - from != len {
        return false;
    }
    let mut k: usize = 0;
    while k < len
        invariant
            from <= to <= chars.len(),
            len == word@.len(),
            to - from == len,
            k <= len,
            forall|j: int| 0 <= j < k ==> chars@[from + j] == word@[j],
        decreases len - k,
    {
        if chars[from + k] != word.get_char(k) {
            assert(chars@.subrange(from as int, to as int)[k as int] != word@[k as int]);
            return false;
        }
        k += 1;
    }
    assert(chars@.subrange(from as int, to as int) =~= word@);
    true
}

/// The name by which an expected text is shown in a message: where the text
/// is the spelling of a keyword or a symbol, the name of that token; any other
/// text stands for itself.
pub open spec fn shown_name(text: Seq<char>) -> Seq<char> {
    if text == "true"@ {
        "BoolTrue"@
    } else if text == "false"@ {
        "BoolFalse"@
    } else if text == "null"@ {
        "NullLiteral"@
    } else if text == "let"@ {
        "Let"@
    } else if text == "const"@ {
        "Const"@
    } else if text == "fn"@ {
        "Fn"@
    } else if text == "return"@ {
        "Return"@
    } else if text == "if"@ {
        "If"@
    } else if text == "else"@ {
        "Else"@
    } else if text == "import"@ {
        "Import"@
    } else if text == "export"@ {
        "Export"@
    } else if text == "while"@ {
        "While"@
    } else if text == "for"@ {
        "For"@
    } else if text == "continue"@ {
        "Continue"@
    } else if text == "break"@ {
        "Break"@
    } else if text == "="@ {
        "Equal"@
    } else if text == "+"@ {
        "Plus"@
    } else if text == "-"@ {
        "Minus"@
    } else if text == "*"@ {
        "Star"@
    } else if text == "/"@ {
        "Slash"@
    } else if text == "%"@ {
        "Modulo"@
    } else if text == "^"@ {
        "Caret"@
    } else if text == "**"@ {
        "DoubleStar"@
    } else if text == "+="@ {
        "PlusEqual"@
    } else if text == "-="@ {
        "MinusEqual"@
    } else if text == "*="@ {
        "StarEqual"@
    } else if text == "/="@ {
        "SlashEqual"@
    } else if text == "%="@ {
        "ModuloEqual"@
    } else if text == "^="@ {
        "CaretEqual"@
    } else if text == "++"@ {
        "PlusPlus"@
    } else if text == "--"@ {
        "MinusMinus"@
    } else if text == "=="@ {
        "EqualEqual"@
    } else if text == "!="@ {
        "BangEqual"@
    } else if text == "<"@ {
        "Less"@
    } else if text == "<="@ {
        "LessEqual"@
    } else if text == ">"@ {
        "Greater"@
    } else if text == ">="@ {
        "GreaterEqual"@
    } else if text == "!"@ {
        "Bang"@
    } else if text == "&&"@ {
        "And"@
    } else if text == "||"@ {
        "Or"@
    } else if text == "&"@ {
        "BitAnd"@
    } else if text == "|"@ {
        "BitOr"@
    } else if text == "<<"@ {
        "ShiftLeft"@
    } else if text == ">>"@ {
        "ShiftRight"@
    } else if text == "&="@ {
        "BitAndEqual"@
    } else if text == "|="@ {
        "BitOrEqual"@
    } else if text == "<<="@ {
        "ShiftLeftEqual"@
    } else if text == ">>="@ {
        "ShiftRightEqual"@
    } else if text == "("@ {
        "LeftParen"@
    } else if text == ")"@ {
        "RightParen"@
    } else if text == "{"@ {
        "LeftBrace"@
    } else if text == "}"@ {
        "RightBrace"@
    } else if text == "["@ {
        "LeftBracket"@
    } else if text == "]"@ {
        "RightBracket"@
    } else if text == ","@ {
        "Comma"@
    } else if text == ";"@ {
        "Semicolon"@
    } else if text == ":"@ {
        "Colon"@
    } else if text == "."@ {
        "Dot"@
    } else {
        text
    }
}

/// The name by which an expected text is shown in a message.
pub fn name_shown(text: &str) -> (r: String)
    ensures
        r@ == shown_name(text@),
{
    let chars = chars_of(text);
    let n = chars.len();
    assert(chars@.subrange(0, n as int) =~= text@);
    if spells(&chars, 0, n, "true") {
        String::from_str("BoolTrue")
    } else if spells(&chars, 0, n, "false") {
        String::from_str("BoolFalse")
    } else if spells(&chars, 0, n, "null") {
        String::from_str("NullLiteral")
    } else if spells(&chars, 0, n, "let") {
        String::from_str("Let")
    } else if spells(&chars, 0, n, "const") {
        String::from_str("Const")
    } else if spells(&chars, 0, n, "fn") {
        String::from_str("Fn")
    } else if spells(&chars, 0, n, "return") {
        String::from_str("Return")
    } else if spells(&chars, 0, n, "if") {
        String::from_str("If")
    } else if spells(&chars, 0, n, "else") {
        String::from_str("Else")
    } else if spells(&chars, 0, n, "import") {
        String::from_str("Import")
    } else if spells(&chars, 0, n, "export") {
        String::from_str("Export")
    } else if spells(&chars, 0, n, "while") {
        String::from_str("While")
    } else if spells(&chars, 0, n, "for") {
        String::from_str("For")
    } else if spells(&chars, 0, n, "continue") {
        String::from_str("Continue")
    } else if spells(&chars, 0, n, "break") {
        String::from_str("Break")
    } else if spells(&chars, 0, n, "=") {
        String::from_str("Equal")
    } else if spells(&chars, 0, n, "+") {
        String::from_str("Plus")
    } else if spells(&chars, 0, n, "-") {
        String::from_str("Minus")
    } else if spells(&chars, 0, n, "*") {
        String::from_str("Star")
    } else if spells(&chars, 0, n, "/") {
        String::from_str("Slash")
    } else if spells(&chars, 0, n, "%") {
        String::from_str("Modulo")
    } else if spells(&chars, 0, n, "^") {
        String::from_str("Caret")
    } else if spells(&chars, 0, n, "**") {
        String::from_str("DoubleStar")
    } else if spells(&chars, 0, n, "+=") {
        String::from_str("PlusEqual")
    } else if spells(&chars, 0, n, "-=") {
        String::from_str("MinusEqual")
    } else if spells(&chars, 0, n, "*=") {
        String::from_str("StarEqual")
    } else if spells(&chars, 0, n, "/=") {
        String::from_str("SlashEqual")
    } else if spells(&chars, 0, n, "%=") {
        String::from_str("ModuloEqual")
    } else if spells(&chars, 0, n, "^=") {
        String::from_str("CaretEqual")
    } else if spells(&chars, 0, n, "++") {
        String::from_str("PlusPlus")
    } else if spells(&chars, 0, n, "--") {
        String::from_str("MinusMinus")
    } else if spells(&chars, 0, n, "==") {
        String::from_str("EqualEqual")
    } else if spells(&chars, 0, n, "!=") {
        String::from_str("BangEqual")
    } else if spells(&chars, 0, n, "<") {
        String::from_str("Less")
    } else if spells(&chars, 0, n, "<=") {
        String::from_str("LessEqual")
    } else if spells(&chars, 0, n, ">") {
        String::from_str("Greater")
    } else if spells(&chars, 0, n, ">=") {
        String::from_str("GreaterEqual")
    } else if spells(&chars, 0, n, "!") {
        String::from_str("Bang")
    } else if spells(&chars, 0, n, "&&") {
        String::from_str("And")
    } else if spells(&chars, 0, n, "||") {
        String::from_str("Or")
    } else if spells(&chars, 0, n, "&") {
        String::from_str("BitAnd")
    } else if spells(&chars, 0, n, "|") {
        String::from_str("BitOr")
    } else if spells(&chars, 0, n, "<<") {
        String::from_str("ShiftLeft")
    } else if spells(&chars, 0, n, ">>") {
        String::from_str("ShiftRight")
    } else if spells(&chars, 0, n, "&=") {
        String::from_str("BitAndEqual")
    } else if spells(&chars, 0, n, "|=") {
        String::from_str("BitOrEqual")
    } else if spells(&chars, 0, n, "<<=") {
        String::from_str("ShiftLeftEqual")
    } else if spells(&chars, 0, n, ">>=") {
        String::from_str("ShiftRightEqual")
    } else if spells(&chars, 0, n, "(") {
        String::from_str("LeftParen")
    } else if spells(&chars, 0, n, ")") {
        String::from_str("RightParen")
    } else if spells(&chars, 0, n, "{") {
        String::from_str("LeftBrace")
    } else if spells(&chars, 0, n, "}") {
        String::from_str("RightBrace")
    } else if spells(&chars, 0, n, "[") {
        String::from_str("LeftBracket")
    } else if spells(&chars, 0, n, "]") {
        String::from_str("RightBracket")
    } else if spells(&chars, 0, n, ",") {
        String::from_str("Comma")
    } else if spells(&chars, 0, n, ";") {
        String::from_str("Semicolon")
    } else if spells(&chars, 0, n, ":") {
        String::from_str("Colon")
    } else if spells(&chars, 0, n, ".") {
        String::from_str("Dot")
    } else {
        String::from_str(text)
    }
}

/// What was expected is shown by the token's name. The spelling of a
/// keyword or a symbol is shown in a message as the description of that
/// token: `)` as `RightParen`, `;` as `Semicolon`. The proof spells out
/// every spelling, by which any two of them differ.
#[verifier::rlimit(100)]
pub proof fn law_spelling_is_named(token: TokenView)
    requires
        token.is_fixed(),
    ensures
        shown_name(token.spelling()) == token.description(),
{
    reveal_strlit("true");
    assert("true"@.len() == 4 && "true"@[0] == 't' && "true"@[1] == 'r' && "true"@[2] == 'u' && "true"@[3] == 'e');
    reveal_strlit("false");
    assert("false"@.len() == 5 && "false"@[0] == 'f' && "false"@[1] == 'a' && "false"@[2] == 'l' && "false"@[3] == 's' && "false"@[4] == 'e');
    reveal_strlit("null");
    assert("null"@.len() == 4 && "null"@[0] == 'n' && "null"@[1] == 'u' && "null"@[2] == 'l' && "null"@[3] == 'l');
    reveal_strlit("let");
    assert("let"@.len() == 3 && "let"@[0] == 'l' && "let"@[1] == 'e' && "let"@[2] == 't');
    reveal_strlit("const");
    assert("const"@.len() == 5 && "const"@[0] == 'c' && "const"@[1] == 'o' && "const"@[2] == 'n' && "const"@[3] == 's' && "const"@[4] == 't');
    reveal_strlit("fn");
    assert("fn"@.len() == 2 && "fn"@[0] == 'f' && "fn"@[1] == 'n');
    reveal_strlit("return");
    assert("return"@.len() == 6 && "return"@[0] == 'r' && "return"@[1] == 'e' && "return"@[2] == 't' && "return"@[3] == 'u' && "return"@[4] == 'r' && "return"@[5] == 'n');
    reveal_strlit("if");
    assert("if"@.len() == 2 && "if"@[0] == 'i' && "if"@[1] == 'f');
    reveal_strlit("else");
    assert("else"@.len() == 4 && "else"@[0] == 'e' && "else"@[1] == 'l' && "else"@[2] == 's' && "else"@[3] == 'e');
    reveal_strlit("import");
    assert("import"@.len() == 6 && "import"@[0] == 'i' && "import"@[1] == 'm' && "import"@[2] == 'p' && "import"@[3] == 'o' && "import"@[4] == 'r' && "import"@[5] == 't');
    reveal_strlit("export");
    assert("export"@.len() == 6 && "export"@[0] == 'e' && "export"@[1] == 'x' && "export"@[2] == 'p' && "export"@[3] == 'o' && "export"@[4] == 'r' && "export"@[5] == 't');
    reveal_strlit("while");
    assert("while"@.len() == 5 && "while"@[0] == 'w' && "while"@[1] == 'h' && "while"@[2] == 'i' && "while"@[3] == 'l' && "while"@[4] == 'e');
    reveal_strlit("for");
    assert("for"@.len() == 3 && "for"@[0] == 'f' && "for"@[1] == 'o' && "for"@[2] == 'r');
    reveal_strlit("continue");
    assert("continue"@.len() == 8 && "continue"@[0] == 'c' && "continue"@[1] == 'o' && "continue"@[2] == 'n' && "continue"@[3] == 't' && "continue"@[4] == 'i' && "continue"@[5] == 'n' && "continue"@[6] == 'u' && "continue"@[7] == 'e');
    reveal_strlit("break");
    assert("break"@.len() == 5 && "break"@[0] == 'b' && "break"@[1] == 'r' && "break"@[2] == 'e' && "break"@[3] == 'a' && "break"@[4] == 'k');
    reveal_strlit("=");
    assert("="@.len() == 1 && "="@[0] == '=');
    reveal_strlit("+");
    assert("+"@.len() == 1 && "+"@[0] == '+');
    reveal_strlit("-");
    assert("-"@.len() == 1 && "-"@[0] == '-');
    reveal_strlit("*");
    assert("*"@.len() == 1 && "*"@[0] == '*');
    reveal_strlit("/");
    assert("/"@.len() == 1 && "/"@[0] == '/');
    reveal_strlit("%");
    assert("%"@.len() == 1 && "%"@[0] == '%');
    reveal_strlit("^");
    assert("^"@.len() == 1 && "^"@[0] == '^');
    reveal_strlit("**");
    assert("**"@.len() == 2 && "**"@[0] == '*' && "**"@[1] == '*');
    reveal_strlit("+=");
    assert("+="@.len() == 2 && "+="@[0] == '+' && "+="@[1] == '=');
    reveal_strlit("-=");
    assert("-="@.len() == 2 && "-="@[0] == '-' && "-="@[1] == '=');
    reveal_strlit("*=");
    assert("*="@.len() == 2 && "*="@[0] == '*' && "*="@[1] == '=');
    reveal_strlit("/=");
    assert("/="@.len() == 2 && "/="@[0] == '/' && "/="@[1] == '=');
    reveal_strlit("%=");
    assert("%="@.len() == 2 && "%="@[0] == '%' && "%="@[1] == '=');
    reveal_strlit("^=");
    assert("^="@.len() == 2 && "^="@[0] == '^' && "^="@[1] == '=');
    reveal_strlit("++");
    assert("++"@.len() == 2 && "++"@[0] == '+' && "++"@[1] == '+');
    reveal_strlit("--");
    assert("--"@.len() == 2 && "--"@[0] == '-' && "--"@[1] == '-');
    reveal_strlit("==");
    assert("=="@.len() == 2 && "=="@[0] == '=' && "=="@[1] == '=');
    reveal_strlit("!=");
    assert("!="@.len() == 2 && "!="@[0] == '!' && "!="@[1] == '=');
    reveal_strlit("<");
    assert("<"@.len() == 1 && "<"@[0] == '<');
    reveal_strlit("<=");
    assert("<="@.len() == 2 && "<="@[0] == '<' && "<="@[1] == '=');
    reveal_strlit(">");
    assert(">"@.len() == 1 && ">"@[0] == '>');
    reveal_strlit(">=");
    assert(">="@.len() == 2 && ">="@[0] == '>' && ">="@[1] == '=');
    reveal_strlit("!");
    assert("!"@.len() == 1 && "!"@[0] == '!');
    reveal_strlit("&&");
    assert("&&"@.len() == 2 && "&&"@[0] == '&' && "&&"@[1] == '&');
    reveal_strlit("||");
    assert("||"@.len() == 2 && "||"@[0] == '|' && "||"@[1] == '|');
    reveal_strlit("&");
    assert("&"@.len() == 1 && "&"@[0] == '&');
    reveal_strlit("|");
    assert("|"@.len() == 1 && "|"@[0] == '|');
    reveal_strlit("<<");
    assert("<<"@.len() == 2 && "<<"@[0] == '<' && "<<"@[1] == '<');
    reveal_strlit(">>");
    assert(">>"@.len() == 2 && ">>"@[0] == '>' && ">>"@[1] == '>');
    reveal_strlit("&=");
    assert("&="@.len() == 2 && "&="@[0] == '&' && "&="@[1] == '=');
    reveal_strlit("|=");
    assert("|="@.len() == 2 && "|="@[0] == '|' && "|="@[1] == '=');
    reveal_strlit("<<=");
    assert("<<="@.len() == 3 && "<<="@[0] == '<' && "<<="@[1] == '<' && "<<="@[2] == '=');
    reveal_strlit(">>=");
    assert(">>="@.len() == 3 && ">>="@[0] == '>' && ">>="@[1] == '>' && ">>="@[2] == '=');
    reveal_strlit("(");
    assert("("@.len() == 1 && "("@[0] == '(');
    reveal_strlit(")");
    assert(")"@.len() == 1 && ")"@[0] == ')');
    reveal_strlit("{");
    assert("{"@.len() == 1 && "{"@[0] == '{');
    reveal_strlit("}");
    assert("}"@.len() == 1 && "}"@[0] == '}');
    reveal_strlit("[");
    assert("["@.len() == 1 && "["@[0] == '[');
    reveal_strlit("]");
    assert("]"@.len() == 1 && "]"@[0] == ']');
    reveal_strlit(",");
    assert(","@.len() == 1 && ","@[0] == ',');
    reveal_strlit(";");
    assert(";"@.len() == 1 && ";"@[0] == ';');
    reveal_strlit(":");
    assert(":"@.len() == 1 && ":"@[0] == ':');
    reveal_strlit(".");
    assert("."@.len() == 1 && "."@[0] == '.');
}

/// The token that the word `chars[from..to]` is.
#[verifier::rlimit(40)]
fn word_token(chars: &Vec<char>, from: usize, to: usize) -> (r: Token)
    requires
        from <= to <= chars.len(),
    ensures
        r@ == match keyword(chars@.subrange(from as int, to as int)) {
            Some(token) => token,
            None => TokenView::Identifier(chars@.subrange(from as int, to as int)),
        },
{
    if spells(chars, from, to, "true") {
        Token::BoolTrue
    } else if spells(chars, from, to, "false") {
        Token::BoolFalse
    } else if spells(chars, from, to, "null") {
        Token::NullLiteral
    } else if spells(chars, from, to, "let") {
        Token::Let
    } else if spells(chars, from, to, "const") {
        Token::Const
    } else if spells(chars, from, to, "fn") {
        Token::Fn
    } else if spells(chars, from, to, "return") {
        Token::Return
    } else if spells(chars, from, to, "if") {
        Token::If
    } else if spells(chars, from, to, "else") {
        Token::Else
    } else if spells(chars, from, to, "import") {
        Token::Import
    } else if spells(chars, from, to, "export") {
        Token::Export
    } else if spells(chars, from, to, "while") {
        Token::While
    } else if spells(chars, from, to, "for") {
        Token::For
    } else if spells(chars, from, to, "continue") {
        Token::Continue
    } else if spells(chars, from, to, "break") {
        Token::Break
    } else {
        Token::Identifier(parse_identifier(chars, from, to))
    }
}

/// The token at `at`, or `None` for invalid text, with the index where it ends.
#[verifier::rlimit(40)]
fn next_token(chars: &Vec<char>, at: usize) -> (r: (Option<Token>, usize))
    requires
        at < chars.len(),
    ensures
        at < r.1 <= chars.len(),
        match r.0 {
            Some(token) => scan_token(chars@, at as int) == (Scanned::Token {
                token: token@,
                end: r.1 as int,
            }),
            None => scan_token(chars@, at as int) == (Scanned::Invalid { end: r.1 as int }),
        },
{
    let n = chars.len();
    let c = chars[at];
    proof {
        lemma_scan_token(chars@, at as int);
    }
    if '0' <= c && c <= '9' {
        let mid = scan_run(chars, at, CharClass::Digit);
        proof {
            lemma_run_end(chars@, at as int, CharClass::Digit);
        }
        if n - mid > 1 && chars[mid] == '.' && '0' <= chars[mid + 1] && chars[mid + 1] <= '9' {
            let end = scan_run(chars, mid + 1, CharClass::Digit);
            (Some(Token::FloatLiteral(parse_float(chars, at, end))), end)
        } else {
            match parse_int(chars, at, mid) {
                Some(value) => (Some(Token::IntLiteral(value)), mid),
                None => (None, mid),
            }
        }
    } else if ('a' <= c && c <= 'z') || ('A' <= c && c <= 'Z') || c == '_' {
        let end = scan_run(chars, at, CharClass::Word);
        (Some(word_token(chars, at, end)), end)
    } else if c == '"' {
        match scan_string(chars, at + 1) {
            Some(end) => (Some(Token::StringLiteral(parse_string(chars, at, end))), end),
            None => (None, at + 1),
        }
    } else if c == '/' && n - at > 1 && chars[at + 1] == '/' {
        let end = scan_run(chars, at + 2, CharClass::InLine);
        (Some(Token::LineComment(parse_line_comment(chars, at, end))), end)
    } else {
        if c == '/' && n - at > 1 && chars[at + 1] == '*' {
            match scan_block(chars, at + 2) {
                Some(end) => {
                    return (Some(Token::BlockComment(parse_block_comment(chars, at, end))), end);
                },
                None => {},
            }
        }
        match scan_symbol(chars, at) {
            Some((token, len)) => (Some(token), at + len),
            None => (None, at + 1),
        }
    }
}

/// The byte offset of every character of `chars`, and behind them the length
/// in bytes of the whole.
fn byte_offsets(chars: &Vec<char>) -> (r: Vec<usize>)
    requires
        byte_len(chars@) <= usize::MAX,
    ensures
        r.len() == chars.len() + 1,
        forall|i: int| 0 <= i <= chars.len() ==> r@[i] == offset_of(chars@, i),
{
    let mut offsets: Vec<usize> = Vec::new();
    let mut total: usize = 0;
    let mut at: usize = 0;
    proof {
        assert(chars@.take(0) =~= Seq::<char>::empty());
    }
    while at < chars.len()
        invariant
            at <= chars.len(),
            byte_len(chars@) <= usize::MAX,
            offsets.len() == at,
            total == offset_of(chars@, at as int),
            forall|i: int| 0 <= i < at ==> offsets@[i] == offset_of(chars@, i),
        decreases chars.len() - at,
    {
        proof {
            lemma_offset_step(chars@, at as int);
            lemma_offset_monotonic(chars@, at + 1, chars.len() as int);
        }
        offsets.push(total);
        total = total + utf8_width(chars[at]);
        at += 1;
    }
    offsets.push(total);
    offsets
}

/// Turns the source into its tokens, each with its byte span, in one pass.
/// Comments are kept as tokens and white space is dropped. The first text that
/// is no token ends the pass with a `BuildError` for that text.
#[verifier::rlimit(40)]
pub fn tokenize(source: &str) -> (r: Result<Vec<TokenSpan>, ParseError>)
    ensures
        match r {
            Ok(tokens) => lex(source@) == Ok::<Seq<TokenSpanView>, Rejected>(views(tokens@)),
            Err(error) => lex(source@) matches Err(rejected) && error@ == invalid_token(
                source@,
                rejected,
            ),
        },
{
    let chars = chars_of(source);
    let offsets = byte_offsets(&chars);
    let n = chars.len();
    let ghost src = chars@;
    let mut tokens: Vec<TokenSpan> = Vec::new();
    let mut at: usize = 0;
    proof {
        assert(views(tokens@) =~= Seq::<TokenSpanView>::empty());
        assert(prepend(views(tokens@), lex_from(src, 0)) == lex(src)) by {
            match lex_from(src, 0) {
                Ok(rest) => {
                    assert(views(tokens@) + rest =~= rest);
                },
                Err(_) => {},
            }
        }
    }
    loop
        invariant
            src == chars@,
            src == source@,
            n == chars.len(),
            at <= n,
            offsets.len() == n + 1,
            forall|i: int| 0 <= i <= n ==> offsets@[i] == offset_of(src, i),
            prepend(views(tokens@), lex_from(src, at as int)) == lex(src),
        ensures
            match lex(src) {
                Ok(all) => all == views(tokens@),
                Err(_) => false,
            },
        decreases n - at,
    {
        let start = scan_run(&chars, at, CharClass::Space);
        if start >= n {
            proof {
                assert(views(tokens@) + Seq::<TokenSpanView>::empty() =~= views(tokens@));
            }
            break;
        }
        let (found, end) = next_token(&chars, start);
        match found {
            Some(token) => {
                let item = TokenSpan { token, span: offsets[start]..offsets[end] };
                proof {
                    let ghost before = views(tokens@);
                    match lex_from(src, end as int) {
                        Ok(rest) => {
                            assert(before.push(item@) + rest =~= before + (seq![item@] + rest));
                        },
                        Err(_) => {},
                    }
                    assert(views(tokens@.push(item)) =~= before.push(item@));
                }
                tokens.push(item);
                at = end;
            },
            None => {
                let span = offsets[start]..offsets[end];
                return Err(
                    ParseError::BuildError {
                        message: String::from_str("Invalid token"),
                        invalid_text: string_of(&chars, start, end),
                        context: ParseContext::from_span(source, &span),
                        span,
                    },
                );
            },
        }
    }
    Ok(tokens)
}

/// `tokens` followed by the outcome `rest` of lexing what comes after them.
pub open spec fn prepend(tokens: Seq<TokenSpanView>, rest: Result<Seq<TokenSpanView>, Rejected>)
    -> Result<Seq<TokenSpanView>, Rejected> {
    match rest {
        Ok(more) => Ok(tokens + more),
        Err(rejected) => Err(rejected),
    }
}

} // verus!
