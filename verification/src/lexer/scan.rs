//! The lexical grammar: which characters form which token. Every function
//! here works on the source as a sequence of characters and on character
//! indices; byte offsets are computed from them by the lexer.

use crate::lexer::Token;
use crate::lexer::TokenView;
use vstd::prelude::*;

verus! {

/// The character classes that tokens are built from.
#[derive(Debug, Clone, Copy, PartialEq, Eq, Structural)]
pub enum CharClass {
    /// Blank, tab, carriage return, line feed.
    Space,
    /// `0` to `9`.
    Digit,
    /// Letters, digits and the underscore.
    Word,
    /// Everything but carriage return and line feed.
    InLine,
}

/// True for `0` to `9`.
pub open spec fn is_digit(c: char) -> bool {
    '0' <= c <= '9'
}

/// True for the characters that a word begins with: letters and `_`.
pub open spec fn is_word_start(c: char) -> bool {
    'a' <= c <= 'z' || 'A' <= c <= 'Z' || c == '_'
}

impl CharClass {
    /// True when `c` belongs to the class.
    pub open spec fn holds(self, c: char) -> bool {
        match self {
            CharClass::Space => c == ' ' || c == '\t' || c == '\r' || c == '\n',
            CharClass::Digit => is_digit(c),
            CharClass::Word => is_word_start(c) || is_digit(c),
            CharClass::InLine => c != '\r' && c != '\n',
        }
    }

    /// Tells whether `c` belongs to the class.
    pub fn contains(self, c: char) -> (r: bool)
        ensures
            r == self.holds(c),
    {
        match self {
            CharClass::Space => c == ' ' || c == '\t' || c == '\r' || c == '\n',
            CharClass::Digit => '0' <= c && c <= '9',
            CharClass::Word => ('a' <= c && c <= 'z') || ('A' <= c && c <= 'Z') || c == '_' || ('0'
                <= c && c <= '9'),
            CharClass::InLine => c != '\r' && c != '\n',
        }
    }
}

/// Where the longest run of characters of `class` that starts at `from` ends.
pub open spec fn run_end(src: Seq<char>, from: int, class: CharClass) -> int
    decreases src.len() - from,
{
    if 0 <= from < src.len() && class.holds(src[from]) {
        run_end(src, from + 1, class)
    } else {
        from
    }
}

/// A run ends within the source, holds only characters of its class and
/// stops before a character that is not of it.
pub proof fn lemma_run_end(src: Seq<char>, from: int, class: CharClass)
    requires
        0 <= from <= src.len(),
    ensures
        from <= run_end(src, from, class) <= src.len(),
        forall|k: int| from <= k < run_end(src, from, class) ==> class.holds(src[k]),
        run_end(src, from, class) < src.len() ==> !class.holds(src[run_end(src, from, class)]),
        from < src.len() && class.holds(src[from]) ==> from < run_end(src, from, class),
    decreases src.len() - from,
{
    if from < src.len() && class.holds(src[from]) {
        lemma_run_end(src, from + 1, class);
    }
}

/// Finds where the run of `class` that starts at `from` ends.
pub fn scan_run(chars: &Vec<char>, from: usize, class: CharClass) -> (end: usize)
    requires
        from <= chars.len(),
    ensures
        end == run_end(chars@, from as int, class),
        from <= end <= chars.len(),
{
    let mut at: usize = from;
    while at < chars.len() && class.contains(chars[at])
        invariant
            from <= at <= chars.len(),
            run_end(chars@, at as int, class) == run_end(chars@, from as int, class),
        decreases chars.len() - at,
    {
        at += 1;
    }
    at
}

/// Where a string literal ends whose content is scanned from `at` on: behind
/// the first double quote that no backslash escapes. A backslash takes the next
/// character with it, which must not be a line feed. `None` where the source
/// ends first.
pub open spec fn string_end(src: Seq<char>, at: int) -> Option<int>
    decreases src.len() - at,
{
    if at < 0 || at >= src.len() {
        None
    } else if src[at] == '"' {
        Some(at + 1)
    } else if src[at] == '\\' {
        if at + 1 < src.len() && src[at + 1] != '\n' {
            string_end(src, at + 2)
        } else {
            None
        }
    } else {
        string_end(src, at + 1)
    }
}

/// A string literal ends behind a double quote, within the source.
pub proof fn lemma_string_end(src: Seq<char>, at: int)
    requires
        0 <= at,
    ensures
        string_end(src, at) matches Some(end) ==> at < end <= src.len() && src[end - 1] == '"',
    decreases src.len() - at,
{
    if at < src.len() && src[at] != '"' {
        if src[at] == '\\' {
            if at + 1 < src.len() && src[at + 1] != '\n' {
                lemma_string_end(src, at + 2);
            }
        } else {
            lemma_string_end(src, at + 1);
        }
    }
}

/// Finds where the string literal ends whose content starts at `from`.
pub fn scan_string(chars: &Vec<char>, from: usize) -> (r: Option<usize>)
    requires
        from <= chars.len(),
    ensures
        match r {
            Some(end) => string_end(chars@, from as int) == Some(end as int) && from < end
                <= chars.len(),
            None => string_end(chars@, from as int).is_none(),
        },
{
    let n = chars.len();
    let mut at: usize = from;
    proof {
        lemma_string_end(chars@, from as int);
    }
    while at < n
        invariant
            n == chars.len(),
            from <= at <= n,
            string_end(chars@, at as int) == string_end(chars@, from as int),
        decreases n - at,
    {
        let c = chars[at];
        if c == '"' {
            return Some(at + 1);
        } else if c == '\\' {
            if at + 1 < n && chars[at + 1] != '\n' {
                at += 2;
            } else {
                return None;
            }
        } else {
            at += 1;
        }
    }
    None
}

/// Where a block comment ends whose content is scanned from `at` on: behind
/// the first `*/`. `None` where the source ends first. `star` says that the
/// character before `at` was a star of the content.
pub open spec fn block_end(src: Seq<char>, at: int, star: bool) -> Option<int>
    decreases src.len() - at,
{
    if at < 0 || at >= src.len() {
        None
    } else if star && src[at] == '/' {
        Some(at + 1)
    } else {
        block_end(src, at + 1, src[at] == '*')
    }
}

/// A block comment ends within the source, behind at least `*/`.
pub proof fn lemma_block_end(src: Seq<char>, at: int, star: bool)
    requires
        0 <= at,
    ensures
        block_end(src, at, star) matches Some(end) ==> at < end <= src.len() && (star || at + 2
            <= end),
    decreases src.len() - at,
{
    if at < src.len() && !(star && src[at] == '/') {
        lemma_block_end(src, at + 1, src[at] == '*');
    }
}

/// Finds where the block comment ends whose content starts at `from`.
pub fn scan_block(chars: &Vec<char>, from: usize) -> (r: Option<usize>)
    requires
        from <= chars.len(),
    ensures
        match r {
            Some(end) => block_end(chars@, from as int, false) == Some(end as int) && from + 2
                <= end <= chars.len(),
            None => block_end(chars@, from as int, false).is_none(),
        },
{
    let n = chars.len();
    let mut at: usize = from;
    let mut star = false;
    proof {
        lemma_block_end(chars@, from as int, false);
    }
    while at < n
        invariant
            n == chars.len(),
            from <= at <= n,
            block_end(chars@, at as int, star) == block_end(chars@, from as int, false),
            block_end(chars@, from as int, false) matches Some(end) ==> from + 2 <= end,
        decreases n - at,
    {
        let c = chars[at];
        if star && c == '/' {
            return Some(at + 1);
        }
        star = c == '*';
        at += 1;
    }
    None
}

/// The token of a three-character symbol.
pub open spec fn symbol3(a: char, b: char, c: char) -> Option<TokenView> {
    if a == '<' && b == '<' && c == '=' {
        Some(TokenView::ShiftLeftEqual)
    } else if a == '>' && b == '>' && c == '=' {
        Some(TokenView::ShiftRightEqual)
    } else {
        None
    }
}

/// The token of a two-character symbol.
pub open spec fn symbol2(a: char, b: char) -> Option<TokenView> {
    if b == '=' {
        if a == '+' {
            Some(TokenView::PlusEqual)
        } else if a == '-' {
            Some(TokenView::MinusEqual)
        } else if a == '*' {
            Some(TokenView::StarEqual)
        } else if a == '/' {
            Some(TokenView::SlashEqual)
        } else if a == '%' {
            Some(TokenView::ModuloEqual)
        } else if a == '^' {
            Some(TokenView::CaretEqual)
        } else if a == '=' {
            Some(TokenView::EqualEqual)
        } else if a == '!' {
            Some(TokenView::BangEqual)
        } else if a == '<' {
            Some(TokenView::LessEqual)
        } else if a == '>' {
            Some(TokenView::GreaterEqual)
        } else if a == '&' {
            Some(TokenView::BitAndEqual)
        } else if a == '|' {
            Some(TokenView::BitOrEqual)
        } else {
            None
        }
    } else if a == b {
        if a == '*' {
            Some(TokenView::DoubleStar)
        } else if a == '+' {
            Some(TokenView::PlusPlus)
        } else if a == '-' {
            Some(TokenView::MinusMinus)
        } else if a == '&' {
            Some(TokenView::And)
        } else if a == '|' {
            Some(TokenView::Or)
        } else if a == '<' {
            Some(TokenView::ShiftLeft)
        } else if a == '>' {
            Some(TokenView::ShiftRight)
        } else {
            None
        }
    } else {
        None
    }
}

/// The token of a one-character symbol.
pub open spec fn symbol1(a: char) -> Option<TokenView> {
    if a == '=' {
        Some(TokenView::Equal)
    } else if a == '+' {
        Some(TokenView::Plus)
    } else if a == '-' {
        Some(TokenView::Minus)
    } else if a == '*' {
        Some(TokenView::Star)
    } else if a == '/' {
        Some(TokenView::Slash)
    } else if a == '%' {
        Some(TokenView::Modulo)
    } else if a == '^' {
        Some(TokenView::Caret)
    } else if a == '<' {
        Some(TokenView::Less)
    } else if a == '>' {
        Some(TokenView::Greater)
    } else if a == '!' {
        Some(TokenView::Bang)
    } else if a == '&' {
        Some(TokenView::BitAnd)
    } else if a == '|' {
        Some(TokenView::BitOr)
    } else if a == '(' {
        Some(TokenView::LeftParen)
    } else if a == ')' {
        Some(TokenView::RightParen)
    } else if a == '{' {
        Some(TokenView::LeftBrace)
    } else if a == '}' {
        Some(TokenView::RightBrace)
    } else if a == '[' {
        Some(TokenView::LeftBracket)
    } else if a == ']' {
        Some(TokenView::RightBracket)
    } else if a == ',' {
        Some(TokenView::Comma)
    } else if a == ';' {
        Some(TokenView::Semicolon)
    } else if a == ':' {
        Some(TokenView::Colon)
    } else if a == '.' {
        Some(TokenView::Dot)
    } else {
        None
    }
}

/// The longest operator or punctuation symbol that starts at `at`, with its
/// length in characters.
pub open spec fn symbol_at(src: Seq<char>, at: int) -> Option<(TokenView, int)> {
    if at + 2 < src.len() && symbol3(src[at], src[at + 1], src[at + 2]).is_some() {
        Some((symbol3(src[at], src[at + 1], src[at + 2]).unwrap(), 3))
    } else if at + 1 < src.len() && symbol2(src[at], src[at + 1]).is_some() {
        Some((symbol2(src[at], src[at + 1]).unwrap(), 2))
    } else if at < src.len() && symbol1(src[at]).is_some() {
        Some((symbol1(src[at]).unwrap(), 1))
    } else {
        None
    }
}

fn token3(a: char, b: char, c: char) -> (r: Option<Token>)
    ensures
        match r {
            Some(t) => symbol3(a, b, c) == Some(t@),
            None => symbol3(a, b, c).is_none(),
        },
{
    if a == '<' && b == '<' && c == '=' {
        Some(Token::ShiftLeftEqual)
    } else if a == '>' && b == '>' && c == '=' {
        Some(Token::ShiftRightEqual)
    } else {
        None
    }
}

fn token2(a: char, b: char) -> (r: Option<Token>)
    ensures
        match r {
            Some(t) => symbol2(a, b) == Some(t@),
            None => symbol2(a, b).is_none(),
        },
{
    if b == '=' {
        if a == '+' {
            Some(Token::PlusEqual)
        } else if a == '-' {
            Some(Token::MinusEqual)
        } else if a == '*' {
            Some(Token::StarEqual)
        } else if a == '/' {
            Some(Token::SlashEqual)
        } else if a == '%' {
            Some(Token::ModuloEqual)
        } else if a == '^' {
            Some(Token::CaretEqual)
        } else if a == '=' {
            Some(Token::EqualEqual)
        } else if a == '!' {
            Some(Token::BangEqual)
        } else if a == '<' {
            Some(Token::LessEqual)
        } else if a == '>' {
            Some(Token::GreaterEqual)
        } else if a == '&' {
            Some(Token::BitAndEqual)
        } else if a == '|' {
            Some(Token::BitOrEqual)
        } else {
            None
        }
    } else if a == b {
        if a == '*' {
            Some(Token::DoubleStar)
        } else if a == '+' {
            Some(Token::PlusPlus)
        } else if a == '-' {
            Some(Token::MinusMinus)
        } else if a == '&' {
            Some(Token::And)
        } else if a == '|' {
            Some(Token::Or)
        } else if a == '<' {
            Some(Token::ShiftLeft)
        } else if a == '>' {
            Some(Token::ShiftRight)
        } else {
            None
        }
    } else {
        None
    }
}

fn token1(a: char) -> (r: Option<Token>)
    ensures
        match r {
            Some(t) => symbol1(a) == Some(t@),
            None => symbol1(a).is_none(),
        },
{
    if a == '=' {
        Some(Token::Equal)
    } else if a == '+' {
        Some(Token::Plus)
    } else if a == '-' {
        Some(Token::Minus)
    } else if a == '*' {
        Some(Token::Star)
    } else if a == '/' {
        Some(Token::Slash)
    } else if a == '%' {
        Some(Token::Modulo)
    } else if a == '^' {
        Some(Token::Caret)
    } else if a == '<' {
        Some(Token::Less)
    } else if a == '>' {
        Some(Token::Greater)
    } else if a == '!' {
        Some(Token::Bang)
    } else if a == '&' {
        Some(Token::BitAnd)
    } else if a == '|' {
        Some(Token::BitOr)
    } else if a == '(' {
        Some(Token::LeftParen)
    } else if a == ')' {
        Some(Token::RightParen)
    } else if a == '{' {
        Some(Token::LeftBrace)
    } else if a == '}' {
        Some(Token::RightBrace)
    } else if a == '[' {
        Some(Token::LeftBracket)
    } else if a == ']' {
        Some(Token::RightBracket)
    } else if a == ',' {
        Some(Token::Comma)
    } else if a == ';' {
        Some(Token::Semicolon)
    } else if a == ':' {
        Some(Token::Colon)
    } else if a == '.' {
        Some(Token::Dot)
    } else {
        None
    }
}

/// The longest symbol at `at`, with its length in characters.
pub fn scan_symbol(chars: &Vec<char>, at: usize) -> (r: Option<(Token, usize)>)
    requires
        at < chars.len(),
    ensures
        match r {
            Some((t, len)) => symbol_at(chars@, at as int) == Some((t@, len as int)) && 1 <= len
                <= 3 && at + len <= chars.len(),
            None => symbol_at(chars@, at as int).is_none(),
        },
{
    let n = chars.len();
    if n - at > 2 {
        match token3(chars[at], chars[at + 1], chars[at + 2]) {
            Some(t) => {
                return Some((t, 3));
            },
            None => {},
        }
    }
    if n - at > 1 {
        match token2(chars[at], chars[at + 1]) {
            Some(t) => {
                return Some((t, 2));
            },
            None => {},
        }
    }
    match token1(chars[at]) {
        Some(t) => Some((t, 1)),
        None => None,
    }
}

} // verus!
