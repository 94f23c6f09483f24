use qbit_lang::ast::expr::Expr;
use qbit_lang::ast::stmt::Stmt;
use qbit_lang::lexer::tokenize;
use qbit_lang::lexer::Token;
use qbit_lang::parser::Parser;
use qbit_lang::text::chars_of;
use qbit_lang::text::push_chars;
use qbit_lang::text::push_decimal;
use qbit_lang::text::push_signed;
use qbit_lang::text::push_str;
use qbit_lang::text::push_usize;
use qbit_lang::text::repeat_char;
use qbit_lang::text::string_of;
use qbit_lang::text::utf8_width;

const PROGRAM: &str = "fn area(w, h) {\n  let half = w * h / 2; // halved\n  return half ** 2 - -w;\n}\nlet list = [1, 2.5, \"a/*b\"]; /* done */\nexport const LIMIT = list[0] /= 3;";

/// Every place between two tokens of `source`, with the token that ends
/// there, if one does.
fn places(source: &str) -> Vec<(usize, Option<Token>)> {
    let tokens = tokenize(source).unwrap();
    let mut found = vec![(0, None)];
    for spanned in tokens.iter() {
        found.push((spanned.span.start, None));
        found.push((spanned.span.end, Some(spanned.token.clone())));
    }
    found.push((source.len(), None));
    found
}

fn with(source: &str, place: usize, padding: &str) -> String {
    format!("{}{}{}", &source[..place], padding, &source[place..])
}

fn statements(source: &str) -> Vec<Stmt> {
    Parser::parse_src(source).unwrap().statements().to_vec()
}

#[test]
fn white_space_between_tokens_changes_no_statement() {
    let plain = statements(PROGRAM);
    assert_eq!(plain.len(), 3);
    for (place, _) in places(PROGRAM) {
        for padding in [" ", "\n", "\t\r\n  "] {
            let padded = with(PROGRAM, place, padding);
            assert_eq!(statements(&padded), plain, "{:?} at {}", padding, place);
        }
    }
}

#[test]
fn comments_between_tokens_change_no_statement() {
    let plain = statements(PROGRAM);
    for (place, before) in places(PROGRAM) {
        let behind_slash = matches!(before, Some(Token::Slash));
        for padding in ["/* c */", " /* a */ // b\n", "// c\n", "/**/\n/* * */", "/***/", "/* **/"] {
            // directly behind a `/` a comment would join it
            if behind_slash && padding.starts_with('/') {
                continue;
            }
            let padded = with(PROGRAM, place, padding);
            assert_eq!(statements(&padded), plain, "{:?} at {}", padding, place);
        }
    }
}

#[test]
fn a_line_comment_may_stand_last() {
    let plain = statements(PROGRAM);
    let padded = with(PROGRAM, PROGRAM.len(), " // the end");
    assert_eq!(statements(&padded), plain);
    // and before a line end
    let place = PROGRAM.find('\n').unwrap();
    let padded = with(PROGRAM, place, " // opened");
    assert_eq!(statements(&padded), plain);
}

#[test]
fn a_comment_directly_behind_a_slash_joins_it() {
    let place = "a /".len();
    let padded = with("a / b;", place, "/* c */");
    assert_eq!(padded, "a //* c */ b;");
    let tokens: Vec<Token> = tokenize(&padded).unwrap().into_iter().map(|t| t.token).collect();
    assert_eq!(
        tokens,
        vec![Token::Identifier("a".to_string()), Token::LineComment("* c */ b;".to_string())]
    );
    // with a blank before it the comment changes nothing
    assert_eq!(statements(&with("a / b;", place, " /* c */")), statements("a / b;"));
}

#[test]
fn a_line_comment_takes_the_rest_of_its_line() {
    let source = "a; // note\nb;";
    let place = "a; // note".len();
    assert_eq!(statements(&with(source, place, " /* more */")), statements(source));
    assert_eq!(statements(&with(source, place, "\n/* more */")), statements(source));
    // a comment that goes over the line end is cut in two
    let padded = with(source, place, "/* x\n y */");
    assert!(Parser::parse_src(&padded).is_err());
}

#[test]
fn white_space_inside_a_token_is_no_padding() {
    assert!(Parser::parse_src("ab;").is_ok());
    assert!(Parser::parse_src("a b;").is_err());
    let joined: Vec<Token> = tokenize("a++b").unwrap().into_iter().map(|t| t.token).collect();
    let parted: Vec<Token> = tokenize("a+ +b").unwrap().into_iter().map(|t| t.token).collect();
    assert!(joined != parted);
}

#[test]
fn trees_are_copied_whole() {
    let expr = Parser::parse_expr("f(a.b[1], [x, -y], z = 2 ** 3)++").unwrap();
    let copy = expr.clone();
    assert_eq!(copy, expr);
    assert_eq!(expr.duplicate(), expr);
    for statement in statements(PROGRAM) {
        assert_eq!(statement.clone(), statement);
        assert_eq!(statement.duplicate(), statement);
    }
    let stmt = Parser::parse_stmt("for (let i = 0; i < 3; i++) { if i { continue; } else { break; } }")
        .unwrap();
    assert_eq!(stmt.duplicate(), stmt);
    let leaf = Expr::Variable("v".to_string());
    assert_eq!(leaf.duplicate(), leaf);
}

#[test]
fn widths_of_characters() {
    assert_eq!(utf8_width('a'), 1);
    assert_eq!(utf8_width('\u{7f}'), 1);
    assert_eq!(utf8_width('\u{80}'), 2);
    assert_eq!(utf8_width('\u{7ff}'), 2);
    assert_eq!(utf8_width('\u{800}'), 3);
    assert_eq!(utf8_width('\u{ffff}'), 3);
    assert_eq!(utf8_width('\u{10000}'), 4);
    assert_eq!(utf8_width('\u{10ffff}'), 4);
    for c in ['x', '\u{e9}', '\u{20ac}', '\u{1F600}'] {
        assert_eq!(utf8_width(c), c.len_utf8());
    }
}

#[test]
fn characters_and_strings() {
    assert_eq!(chars_of(""), Vec::<char>::new());
    assert_eq!(chars_of("a\u{e9}\u{1F600}"), vec!['a', '\u{e9}', '\u{1F600}']);
    let chars = chars_of("hello");
    assert_eq!(string_of(&chars, 1, 4), "ell");
    assert_eq!(string_of(&chars, 2, 2), "");
    assert_eq!(string_of(&chars, 0, 5), "hello");
    let mut out = String::from(">");
    push_chars(&mut out, &chars, 3, 5);
    assert_eq!(out, ">lo");
    push_str(&mut out, "!?");
    assert_eq!(out, ">lo!?");
    repeat_char(&mut out, '^', 3);
    assert_eq!(out, ">lo!?^^^");
    repeat_char(&mut out, ' ', 0);
    assert_eq!(out, ">lo!?^^^");
}

#[test]
fn numbers_in_decimal() {
    let mut out = String::new();
    push_decimal(&mut out, 0);
    push_str(&mut out, ",");
    push_decimal(&mut out, 9);
    push_str(&mut out, ",");
    push_decimal(&mut out, 10);
    push_str(&mut out, ",");
    push_decimal(&mut out, 4711);
    push_str(&mut out, ",");
    push_decimal(&mut out, u64::MAX);
    assert_eq!(out, "0,9,10,4711,18446744073709551615");
    let mut out = String::new();
    push_usize(&mut out, 1000);
    push_str(&mut out, ",");
    push_usize(&mut out, usize::MAX);
    assert_eq!(out, format!("1000,{}", usize::MAX));
    let mut out = String::new();
    push_signed(&mut out, 0);
    push_str(&mut out, ",");
    push_signed(&mut out, -1);
    push_str(&mut out, ",");
    push_signed(&mut out, 105);
    push_str(&mut out, ",");
    push_signed(&mut out, i64::MIN);
    push_str(&mut out, ",");
    push_signed(&mut out, i64::MAX);
    assert_eq!(out, "0,-1,105,-9223372036854775808,9223372036854775807");
}
