use qbit_lang::lexer::name_shown;
use qbit_lang::lexer::tokenize;
use qbit_lang::lexer::Token;
use qbit_lang::lexer::TokenSpan;
use qbit_lang::parser::ParseError;

fn tokens(source: &str) -> Vec<Token> {
    tokenize(source).unwrap().into_iter().map(|spanned| spanned.token).collect()
}

fn spans(source: &str) -> Vec<(usize, usize)> {
    tokenize(source).unwrap().iter().map(|spanned| (spanned.span.start, spanned.span.end)).collect()
}

fn rejected(source: &str) -> (String, usize, usize) {
    match tokenize(source) {
        Err(ParseError::BuildError { message, invalid_text, span, .. }) => {
            assert_eq!(message, "Invalid token");
            (invalid_text, span.start, span.end)
        }
        other => panic!("expected BuildError, got {:?}", other),
    }
}

fn ident(name: &str) -> Token {
    Token::Identifier(name.to_string())
}

#[test]
fn tokens_come_in_source_order_with_byte_spans() {
    assert_eq!(
        tokens("let x = 42;"),
        vec![Token::Let, ident("x"), Token::Equal, Token::IntLiteral(42), Token::Semicolon]
    );
    assert_eq!(spans("let x = 42;"), vec![(0, 3), (4, 5), (6, 7), (8, 10), (10, 11)]);
}

#[test]
fn white_space_is_dropped() {
    assert_eq!(tokens(""), vec![]);
    assert_eq!(tokens(" \t\r\n "), vec![]);
    assert_eq!(tokens("\n\ta\r\n"), vec![ident("a")]);
    assert_eq!(spans("\n\ta\r\n"), vec![(2, 3)]);
}

#[test]
fn every_keyword() {
    assert_eq!(
        tokens("let const fn return if else import export while for continue break true false null"),
        vec![
            Token::Let,
            Token::Const,
            Token::Fn,
            Token::Return,
            Token::If,
            Token::Else,
            Token::Import,
            Token::Export,
            Token::While,
            Token::For,
            Token::Continue,
            Token::Break,
            Token::BoolTrue,
            Token::BoolFalse,
            Token::NullLiteral,
        ]
    );
}

#[test]
fn a_longer_word_is_an_identifier() {
    assert_eq!(
        tokens("letx let_ Let _ _1 iff trueish"),
        vec![
            ident("letx"),
            ident("let_"),
            ident("Let"),
            ident("_"),
            ident("_1"),
            ident("iff"),
            ident("trueish"),
        ]
    );
}

#[test]
fn every_symbol() {
    assert_eq!(
        tokens("<<= >>= << >> <= >= == != += -= *= /= %= ^= &= |= && || ++ -- **"),
        vec![
            Token::ShiftLeftEqual,
            Token::ShiftRightEqual,
            Token::ShiftLeft,
            Token::ShiftRight,
            Token::LessEqual,
            Token::GreaterEqual,
            Token::EqualEqual,
            Token::BangEqual,
            Token::PlusEqual,
            Token::MinusEqual,
            Token::StarEqual,
            Token::SlashEqual,
            Token::ModuloEqual,
            Token::CaretEqual,
            Token::BitAndEqual,
            Token::BitOrEqual,
            Token::And,
            Token::Or,
            Token::PlusPlus,
            Token::MinusMinus,
            Token::DoubleStar,
        ]
    );
    assert_eq!(
        tokens("< > = + - * / % ^ ! & | ( ) { } [ ] , ; : ."),
        vec![
            Token::Less,
            Token::Greater,
            Token::Equal,
            Token::Plus,
            Token::Minus,
            Token::Star,
            Token::Slash,
            Token::Modulo,
            Token::Caret,
            Token::Bang,
            Token::BitAnd,
            Token::BitOr,
            Token::LeftParen,
            Token::RightParen,
            Token::LeftBrace,
            Token::RightBrace,
            Token::LeftBracket,
            Token::RightBracket,
            Token::Comma,
            Token::Semicolon,
            Token::Colon,
            Token::Dot,
        ]
    );
}

#[test]
fn the_longest_symbol_wins() {
    assert_eq!(tokens("a+++b"), vec![ident("a"), Token::PlusPlus, Token::Plus, ident("b")]);
    assert_eq!(tokens("***"), vec![Token::DoubleStar, Token::Star]);
    assert_eq!(tokens("<<<="), vec![Token::ShiftLeft, Token::LessEqual]);
    assert_eq!(tokens(">>>="), vec![Token::ShiftRight, Token::GreaterEqual]);
    assert_eq!(tokens("==="), vec![Token::EqualEqual, Token::Equal]);
    assert_eq!(tokens("!=="), vec![Token::BangEqual, Token::Equal]);
    assert_eq!(tokens("&&&"), vec![Token::And, Token::BitAnd]);
    assert_eq!(tokens("**="), vec![Token::DoubleStar, Token::Equal]);
}

#[test]
fn integer_literals() {
    assert_eq!(tokens("0 7 007 42"), vec![
        Token::IntLiteral(0),
        Token::IntLiteral(7),
        Token::IntLiteral(7),
        Token::IntLiteral(42),
    ]);
    assert_eq!(tokens("9223372036854775807"), vec![Token::IntLiteral(i64::MAX)]);
    assert_eq!(tokens("12ab"), vec![Token::IntLiteral(12), ident("ab")]);
}

#[test]
fn an_integer_beyond_the_range_is_rejected_whole() {
    assert_eq!(rejected("9223372036854775808"), ("9223372036854775808".to_string(), 0, 19));
    assert_eq!(
        rejected("x = 99999999999999999999999;"),
        ("99999999999999999999999".to_string(), 4, 27)
    );
}

#[test]
fn floating_point_literals_are_kept_as_written() {
    assert_eq!(tokens("3.14159"), vec![Token::FloatLiteral("3.14159".to_string())]);
    assert_eq!(tokens("1.50"), vec![Token::FloatLiteral("1.50".to_string())]);
    assert_eq!(tokens("1."), vec![Token::IntLiteral(1), Token::Dot]);
    assert_eq!(tokens(".5"), vec![Token::Dot, Token::IntLiteral(5)]);
    assert_eq!(
        tokens("1.5.3"),
        vec![Token::FloatLiteral("1.5".to_string()), Token::Dot, Token::IntLiteral(3)]
    );
    assert_eq!(tokens("1.x"), vec![Token::IntLiteral(1), Token::Dot, ident("x")]);
    // the digits before the dot need not fit an integer
    assert_eq!(
        tokens("99999999999999999999.5"),
        vec![Token::FloatLiteral("99999999999999999999.5".to_string())]
    );
}

#[test]
fn string_literals_lose_their_quotes_and_escaped_quotes() {
    assert_eq!(tokens(r#""Hello""#), vec![Token::StringLiteral("Hello".to_string())]);
    assert_eq!(tokens(r#""""#), vec![Token::StringLiteral("".to_string())]);
    assert_eq!(tokens(r#""a\"b""#), vec![Token::StringLiteral("a\"b".to_string())]);
    // other escapes stay as they are written
    assert_eq!(tokens(r#""a\nb""#), vec![Token::StringLiteral("a\\nb".to_string())]);
    assert_eq!(tokens(r#""a\\""#), vec![Token::StringLiteral("a\\\\".to_string())]);
    assert_eq!(tokens(r#""\\\"""#), vec![Token::StringLiteral("\\\\\"".to_string())]);
    // a line feed may stand in a string
    assert_eq!(tokens("\"a\nb\""), vec![Token::StringLiteral("a\nb".to_string())]);
    assert_eq!(spans(r#""a\"b" x"#), vec![(0, 6), (7, 8)]);
}

#[test]
fn an_unclosed_string_is_rejected_at_its_quote() {
    assert_eq!(rejected("\"abc"), ("\"".to_string(), 0, 1));
    assert_eq!(rejected("x = \"abc\\\""), ("\"".to_string(), 4, 5));
    // a backslash must not stand before a line feed
    assert_eq!(rejected("\"a\\\nb\""), ("\"".to_string(), 0, 1));
}

#[test]
fn comments_are_kept_as_tokens() {
    assert_eq!(
        tokens("a // note\nb"),
        vec![ident("a"), Token::LineComment(" note".to_string()), ident("b")]
    );
    assert_eq!(tokens("//"), vec![Token::LineComment("".to_string())]);
    assert_eq!(
        tokens("// a\r\nb"),
        vec![Token::LineComment(" a".to_string()), ident("b")]
    );
    assert_eq!(
        tokens("a /* in\nside */ b"),
        vec![ident("a"), Token::BlockComment(" in\nside ".to_string()), ident("b")]
    );
    assert_eq!(tokens("/**/"), vec![Token::BlockComment("".to_string())]);
    assert_eq!(tokens("/* * */"), vec![Token::BlockComment(" * ".to_string())]);
    assert_eq!(tokens("/* // */ x"), vec![Token::BlockComment(" // ".to_string()), ident("x")]);
    assert_eq!(spans("a /* c */ b"), vec![(0, 1), (2, 9), (10, 11)]);
}

#[test]
fn a_block_comment_ends_at_the_first_star_slash() {
    assert_eq!(tokens("/***/"), vec![Token::BlockComment("*".to_string())]);
    assert_eq!(tokens("/** */"), vec![Token::BlockComment("* ".to_string())]);
    assert_eq!(tokens("/****/"), vec![Token::BlockComment("**".to_string())]);
    assert_eq!(tokens("/* a **/ b"), vec![
        Token::BlockComment(" a *".to_string()),
        Token::Identifier("b".to_string()),
    ]);
    assert_eq!(
        tokens("/* a */ b */"),
        vec![
            Token::BlockComment(" a ".to_string()),
            Token::Identifier("b".to_string()),
            Token::Star,
            Token::Slash,
        ]
    );
    // the slash of `/*` closes nothing
    assert_eq!(tokens("/*/ x"), vec![Token::Slash, Token::Star, Token::Slash, ident("x")]);
    assert_eq!(tokens("/*/*/"), vec![Token::BlockComment("/".to_string())]);
}

#[test]
fn tokens_are_spelled_as_written() {
    for source in [
        "<<=", ">>=", "**", "+=", "==", "!=", "&&", "||", "++", "--", "(", ")", "{", "}", "[", "]",
        ",", ";", ":", ".", "let", "const", "fn", "return", "if", "else", "import", "export",
        "while", "for", "continue", "break", "true", "false", "null", "x1", "42", "1.50", "/",
    ] {
        let found = tokens(source);
        assert_eq!(found.len(), 1, "{}", source);
        assert_eq!(found[0].spelling(), source);
    }
    assert_eq!(Token::StringLiteral("a b".to_string()).spelling(), "\"a b\"");
    assert_eq!(Token::LineComment(" c".to_string()).spelling(), "// c");
    assert_eq!(Token::BlockComment(" c ".to_string()).spelling(), "/* c */");
    assert_eq!(Token::IntLiteral(-3).spelling(), "-3");
}

#[test]
fn spellings_are_shown_by_name() {
    assert_eq!(name_shown(")"), "RightParen");
    assert_eq!(name_shown(";"), "Semicolon");
    assert_eq!(name_shown("="), "Equal");
    assert_eq!(name_shown("=="), "EqualEqual");
    assert_eq!(name_shown("<<="), "ShiftLeftEqual");
    assert_eq!(name_shown("while"), "While");
    assert_eq!(name_shown("true"), "BoolTrue");
    assert_eq!(name_shown("expression"), "expression");
    assert_eq!(name_shown("',' or ')'"), "',' or ')'");
    assert_eq!(name_shown(""), "");
    // every keyword and symbol is shown by its own description
    for source in ["<<=", "**", "*", "/", "%=", "|", "||", "[", ".", "fn", "null", "continue"] {
        let token = tokens(source).remove(0);
        assert_eq!(name_shown(&token.spelling()), token.description());
    }
}

#[test]
fn an_unclosed_block_comment_is_no_comment() {
    assert_eq!(tokens("/* a"), vec![Token::Slash, Token::Star, ident("a")]);
    assert_eq!(tokens("a /= 2"), vec![ident("a"), Token::SlashEqual, Token::IntLiteral(2)]);
    assert_eq!(tokens("a / 2"), vec![ident("a"), Token::Slash, Token::IntLiteral(2)]);
}

#[test]
fn a_character_that_starts_no_token_is_rejected() {
    assert_eq!(rejected("5 @ 3"), ("@".to_string(), 2, 3));
    assert_eq!(rejected("#"), ("#".to_string(), 0, 1));
    assert_eq!(rejected("a ? b"), ("?".to_string(), 2, 3));
    assert_eq!(rejected("'a'"), ("'".to_string(), 0, 1));
    assert_eq!(rejected("a\\b"), ("\\".to_string(), 1, 2));
}

#[test]
fn spans_count_bytes() {
    // a letter outside ASCII is no token; it is rejected as one character of two bytes
    assert_eq!(rejected("\u{3c0} = 3"), ("\u{3c0}".to_string(), 0, 2));
    assert_eq!(rejected("a \u{1F600}"), ("\u{1F600}".to_string(), 2, 6));
    // in strings and comments every character may stand
    assert_eq!(
        tokens("\"\u{e9}\" x"),
        vec![Token::StringLiteral("\u{e9}".to_string()), ident("x")]
    );
    assert_eq!(spans("\"\u{e9}\" x"), vec![(0, 4), (5, 6)]);
    assert_eq!(spans("/* \u{1F600} */ x // \u{e9}"), vec![(0, 10), (11, 12), (13, 18)]);
}

#[test]
fn a_rejection_carries_its_context() {
    match tokenize("let a = 1;\nlet b = $;") {
        Err(ParseError::BuildError { invalid_text, span, context, .. }) => {
            assert_eq!(invalid_text, "$");
            assert_eq!(span, 19..20);
            assert_eq!(context.line_number, 2);
            assert_eq!(context.column_start, 9);
            assert_eq!(context.column_end, 10);
            assert_eq!(context.line_content, "let b = $;");
            assert_eq!(context.span_in_line, 8..9);
        }
        other => panic!("expected BuildError, got {:?}", other),
    }
}

#[test]
fn comments_are_trivia() {
    assert!(Token::LineComment("x".to_string()).is_comment());
    assert!(Token::BlockComment("x".to_string()).is_comment());
    assert!(Token::LineComment("x".to_string()).is_trivia());
    assert!(Token::BlockComment("x".to_string()).is_trivia());
    assert!(!Token::Slash.is_comment());
    assert!(!Token::Identifier("x".to_string()).is_trivia());
    assert!(!Token::StringLiteral("// x".to_string()).is_trivia());
}

#[test]
fn tokens_are_described_by_name_and_payload() {
    assert_eq!(Token::Semicolon.description(), "Semicolon");
    assert_eq!(Token::ShiftLeftEqual.description(), "ShiftLeftEqual");
    assert_eq!(Token::IntLiteral(42).description(), "IntLiteral(42)");
    assert_eq!(Token::IntLiteral(0).description(), "IntLiteral(0)");
    assert_eq!(Token::IntLiteral(-7).description(), "IntLiteral(-7)");
    assert_eq!(Token::IntLiteral(i64::MAX).description(), "IntLiteral(9223372036854775807)");
    assert_eq!(Token::IntLiteral(i64::MIN).description(), "IntLiteral(-9223372036854775808)");
    assert_eq!(Token::FloatLiteral("1.50".to_string()).description(), "FloatLiteral(1.50)");
    assert_eq!(Token::Identifier("x".to_string()).description(), "Identifier(\"x\")");
    assert_eq!(
        Token::StringLiteral("a\"b\n".to_string()).description(),
        "StringLiteral(\"a\\\"b\\n\")"
    );
    assert_eq!(Token::LineComment(" c".to_string()).description(), "LineComment(\" c\")");
    assert_eq!(Token::BlockComment("".to_string()).description(), "BlockComment(\"\")");
}

#[test]
fn tokens_compare_by_variant_and_payload() {
    assert!(Token::Plus == Token::Plus);
    assert!(Token::Plus != Token::Minus);
    assert!(Token::IntLiteral(1) == Token::IntLiteral(1));
    assert!(Token::IntLiteral(1) != Token::IntLiteral(2));
    assert!(ident("a") == ident("a"));
    assert!(ident("a") != ident("b"));
    assert!(ident("a") != Token::StringLiteral("a".to_string()));
    assert!(Token::LineComment("a".to_string()) != Token::BlockComment("a".to_string()));
}

#[test]
fn a_spanned_token_stands_for_its_token() {
    let spanned = TokenSpan { token: Token::Comma, span: 3..4 };
    assert!(*spanned == Token::Comma);
    assert!(!spanned.is_comment());
    let copy = spanned.clone();
    assert_eq!(copy.span, 3..4);
    assert!(copy.token == Token::Comma);
}
