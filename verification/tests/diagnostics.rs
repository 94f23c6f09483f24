use qbit_lang::ast::expr::Expr;
use qbit_lang::ast::stmt::Stmt;
use qbit_lang::ast::value::Value;
use qbit_lang::lexer::tokenize;
use qbit_lang::lexer::Token;
use qbit_lang::parser::analyzer::Analyzer;
use qbit_lang::parser::analyzer::DiagnosticLevel;
use qbit_lang::parser::Diagnostic;
use qbit_lang::parser::ErrorContext;
use qbit_lang::parser::ParseContext;
use qbit_lang::parser::ParseError;
use qbit_lang::parser::ParseWarning;
use qbit_lang::parser::Parser;
use qbit_lang::parser::ParserConfig;
use qbit_lang::vscode::VsCodeError;
use qbit_lang::vscode::VsCodeResult;

fn context(source: &str, from: usize, to: usize) -> (usize, usize, usize, String, usize, usize) {
    let found = ParseContext::from_span(source, &(from..to));
    (
        found.line_number,
        found.column_start,
        found.column_end,
        found.line_content.clone(),
        found.span_in_line.start,
        found.span_in_line.end,
    )
}

fn row(a: usize, b: usize, c: usize, text: &str, d: usize, e: usize) -> (usize, usize, usize, String, usize, usize) {
    (a, b, c, text.to_string(), d, e)
}

#[test]
fn span_on_the_first_line() {
    assert_eq!(context("5 @ 3", 2, 3), row(1, 3, 4, "5 @ 3", 2, 3));
    assert_eq!(context("abc", 0, 3), row(1, 1, 4, "abc", 0, 3));
    assert_eq!(context("abc", 0, 0), row(1, 1, 1, "abc", 0, 0));
}

#[test]
fn span_on_a_later_line() {
    assert_eq!(context("ab\ncd", 3, 5), row(2, 1, 3, "cd", 0, 2));
    assert_eq!(context("ab\ncd\nef", 7, 8), row(3, 2, 3, "ef", 1, 2));
    assert_eq!(context("ab\n\ncd", 3, 3), row(2, 1, 1, "", 0, 0));
}

#[test]
fn the_position_behind_a_line_belongs_to_it() {
    assert_eq!(context("ab\ncd", 2, 2), row(1, 3, 3, "ab", 2, 2));
    assert_eq!(context("ab\ncd", 5, 5), row(2, 3, 3, "cd", 2, 2));
}

#[test]
fn a_span_over_several_lines_stops_at_the_end_of_its_first() {
    assert_eq!(context("ab\ncd", 0, 5), row(1, 1, 3, "ab", 0, 2));
    assert_eq!(context("ab\ncd", 1, 4), row(1, 2, 3, "ab", 1, 2));
}

#[test]
fn a_span_that_starts_in_no_line_is_shown_on_the_last() {
    assert_eq!(context("", 0, 0), row(0, 1, 1, "", 0, 0));
    assert_eq!(context("ab\n", 3, 3), row(1, 1, 1, "ab", 0, 0));
    assert_eq!(context("ab\ncd", 9, 12), row(2, 1, 1, "cd", 0, 0));
}

#[test]
fn a_carriage_return_before_the_line_feed_is_no_part_of_the_line() {
    assert_eq!(context("ab\r\ncd", 4, 6), row(2, 1, 3, "cd", 0, 2));
    assert_eq!(context("ab\r\ncd", 0, 2), row(1, 1, 3, "ab", 0, 2));
    // a carriage return elsewhere is a character like any other
    assert_eq!(context("a\rb\ncd", 2, 3), row(1, 3, 4, "a\rb", 2, 3));
    assert_eq!(context("ab\r", 0, 3), row(1, 1, 4, "ab\r", 0, 3));
}

#[test]
fn columns_count_bytes() {
    assert_eq!(context("\u{e9} = @", 5, 6), row(1, 6, 7, "\u{e9} = @", 5, 6));
    assert_eq!(context("\u{1F600}\n\u{e9}x", 7, 8), row(2, 3, 4, "\u{e9}x", 2, 3));
}

#[test]
fn an_inverted_span_is_empty() {
    assert_eq!(context("abcdef", 4, 2), row(1, 5, 5, "abcdef", 4, 4));
}

#[test]
fn the_other_name_of_the_context() {
    let found = ErrorContext::from_span("ab\ncd", &(3..4));
    assert_eq!(found.line_number, 2);
    assert_eq!(found.line_content, "cd");
}

#[test]
fn a_context_is_shown_with_carets_under_its_span() {
    assert_eq!(ParseContext::from_span("5 @ 3", &(2..3)).render(), "1:3-4: 5 @ 3\n  ^");
    assert_eq!(ParseContext::from_span("ab\ncd", &(3..5)).render(), "2:1-3: cd\n^^");
    assert_eq!(ParseContext::from_span("ab\ncd", &(2..2)).render(), "1:3: ab");
    assert_eq!(ParseContext::from_span("", &(0..0)).render(), "0:1: ");
    let long = format!("{}x", " ".repeat(120));
    assert_eq!(
        ParseContext::from_span(&long, &(120..121)).render(),
        format!("1:121-122: {}\n{}^", long, " ".repeat(120))
    );
}

#[test]
fn every_error_is_rendered_with_its_context() {
    let source = "let x = @;";
    let span = 8..9;
    let context = ParseContext::from_span(source, &span);
    let shown = "1:9-10: let x = @;\n        ^";

    let error = ParseError::BuildError {
        message: "Invalid token".to_string(),
        invalid_text: "@".to_string(),
        span: span.clone(),
        context: context.clone(),
    };
    assert_eq!(error.to_string(), format!("Lexer error: Invalid token ('@')\n{}", shown));

    let error = ParseError::UnexpectedToken {
        expected: Some("expression".to_string()),
        found: "Semicolon".to_string(),
        span: span.clone(),
        context: context.clone(),
    };
    assert_eq!(error.to_string(), format!("Expected expression, found Semicolon\n{}", shown));

    let error = ParseError::UnexpectedToken {
        expected: None,
        found: "Semicolon".to_string(),
        span: span.clone(),
        context: context.clone(),
    };
    assert_eq!(error.to_string(), format!("Unexpected token Semicolon\n{}", shown));

    let error = ParseError::UnexpectedEof {
        expected: "Semicolon".to_string(),
        position: 8,
        context: context.clone(),
    };
    assert_eq!(
        error.to_string(),
        format!("Unexpected end of file, expected Semicolon\n{}", shown)
    );

    let error = ParseError::InvalidSyntax {
        message: "no".to_string(),
        span: span.clone(),
        context: context.clone(),
    };
    assert_eq!(error.to_string(), format!("Syntax error: no\n{}", shown));

    let error = ParseError::MissingToken {
        expected: "';'".to_string(),
        span: span.clone(),
        context: context.clone(),
    };
    assert_eq!(error.to_string(), format!("Missing ';'\n{}", shown));

    let error = ParseError::TooMuchRecursion { max_depth: 1000, position: 4711 };
    assert_eq!(error.to_string(), "Maximum recursion depth (1000) exceeded at position 4711");
    let error = ParseError::TooMuchRecursion { max_depth: 0, position: 0 };
    assert_eq!(error.to_string(), "Maximum recursion depth (0) exceeded at position 0");
    let error = ParseError::TooMuchRecursion { max_depth: usize::MAX, position: 10 };
    assert_eq!(
        error.to_string(),
        format!("Maximum recursion depth ({}) exceeded at position 10", usize::MAX)
    );
}

#[test]
fn errors_of_the_parser_are_rendered_in_two_lines() {
    let error = Parser::parse_expr("5 +").unwrap_err();
    assert_eq!(error.to_string(), "Unexpected end of file, expected expression\n1:4: 5 +");
    let error = Parser::parse_stmt("let 1.5 = 2;").unwrap_err();
    assert_eq!(
        error.to_string(),
        "Expected identifier, found FloatLiteral(1.5)\n1:5-8: let 1.5 = 2;\n    ^^^"
    );
    let error = Parser::parse_stmt("let \"a\" = 2;").unwrap_err();
    assert_eq!(
        error.to_string(),
        "Expected identifier, found StringLiteral(\"a\")\n1:5-8: let \"a\" = 2;\n    ^^^"
    );
    let error = Parser::parse_expr("5 @ 3").unwrap_err();
    assert_eq!(error.to_string(), "Lexer error: Invalid token ('@')\n1:3-4: 5 @ 3\n  ^");
    let error = Parser::parse_src("fn f() {\n  return 1\n}").unwrap_err();
    assert_eq!(error.to_string(), "Expected Semicolon, found RightBrace\n3:1-2: }\n^");
}

#[test]
fn every_warning_is_rendered_with_its_context() {
    let source = "let x = 1;";
    let span = 4..5;
    let context = ParseContext::from_span(source, &span);
    let shown = "1:5-6: let x = 1;\n    ^";

    let warning = ParseWarning::UnusedVariable {
        name: "x".to_string(),
        span: span.clone(),
        context: context.clone(),
    };
    assert_eq!(
        warning.to_string(),
        format!("Variable 'x' is declared but never used\n{}", shown)
    );
    let warning = ParseWarning::UnusedFunction {
        name: "f".to_string(),
        span: span.clone(),
        context: context.clone(),
    };
    assert_eq!(
        warning.to_string(),
        format!("Function 'f' is declared but never used\n{}", shown)
    );
    let warning = ParseWarning::UnreachableCode { span: span.clone(), context: context.clone() };
    assert_eq!(warning.to_string(), format!("Unreachable code\n{}", shown));
    let warning = ParseWarning::NamingConvention {
        message: "expected 'y'".to_string(),
        span: span.clone(),
        context: context.clone(),
    };
    assert_eq!(warning.to_string(), format!("expected 'y'\n{}", shown));

    let diagnostic = Diagnostic::from(warning);
    assert_eq!(diagnostic.level, DiagnosticLevel::Warn);
    assert_eq!(diagnostic.message, format!("expected 'y'\n{}", shown));
    assert_eq!(diagnostic.line, 1);
    assert_eq!(diagnostic.column, 5);
    assert_eq!(diagnostic.length, 1);
}

#[test]
fn an_error_becomes_a_diagnostic() {
    let error = Parser::parse_src("let a = 1;\nlet b = 12 34;").unwrap_err();
    let message = error.to_string();
    assert_eq!(message, "Expected Semicolon, found IntLiteral(34)\n2:12-14: let b = 12 34;\n           ^^");
    let diagnostic = Diagnostic::from(error.clone());
    assert_eq!(diagnostic.level, DiagnosticLevel::Error);
    assert_eq!(diagnostic.message, message);
    assert_eq!(diagnostic.line, 2);
    assert_eq!(diagnostic.column, 12);
    assert_eq!(diagnostic.length, 2);

    let record = VsCodeError::from(error);
    assert_eq!(record.message, message);
    assert_eq!(record.line, 2);
    assert_eq!(record.column, 12);
    assert_eq!(record.length, 2);
}

#[test]
fn an_error_without_a_span_has_length_one() {
    let error = Parser::parse_expr("(1").unwrap_err();
    let diagnostic = Diagnostic::from(error.clone());
    assert_eq!(diagnostic.line, 1);
    assert_eq!(diagnostic.column, 3);
    assert_eq!(diagnostic.length, 1);
    assert_eq!(error.length(), 1);

    let error = ParseError::TooMuchRecursion { max_depth: 5, position: 17 };
    let diagnostic = Diagnostic::from(error.clone());
    assert_eq!(diagnostic.level, DiagnosticLevel::Error);
    assert_eq!(diagnostic.line, 17);
    assert_eq!(diagnostic.column, 0);
    assert_eq!(diagnostic.length, 1);
    assert_eq!(diagnostic.message, "Maximum recursion depth (5) exceeded at position 17");
    assert!(error.context().is_none());
    let record = VsCodeError::from(error);
    assert_eq!(record.line, 17);
    assert_eq!(record.column, 0);
    assert_eq!(record.length, 1);
}

#[test]
fn an_inverted_span_has_length_zero() {
    let error = ParseError::InvalidSyntax {
        message: "m".to_string(),
        span: 5..2,
        context: ParseContext::from_span("abcdefgh", &(5..2)),
    };
    assert_eq!(error.length(), 0);
    assert_eq!(Diagnostic::from(error).length, 0);
}

#[test]
fn the_record_of_a_parse() {
    let good = VsCodeResult::from(Parser::parse_src("let a = 1;"));
    assert!(good.success);
    assert_eq!(good.errors.len(), 0);
    let bad = VsCodeResult::from(Parser::parse_src("let a = ;"));
    assert!(!bad.success);
    assert_eq!(bad.errors.len(), 1);
    assert_eq!(bad.errors[0].line, 1);
    assert_eq!(bad.errors[0].column, 9);
    assert_eq!(bad.errors[0].length, 1);
    assert_eq!(
        bad.errors[0].message,
        "Expected expression, found Semicolon\n1:9-10: let a = ;\n        ^"
    );
}

fn messages(source: &str) -> Vec<String> {
    let result = Parser::parse_src(source).unwrap();
    result
        .diagnositcs()
        .iter()
        .map(|d| d.message.lines().next().unwrap().to_string())
        .collect()
}

#[test]
fn names_of_variables_and_functions_are_snake_case() {
    assert_eq!(messages("let myVar = 1;"), vec!["expected 'my_var'"]);
    assert_eq!(messages("let my_var = 1;"), Vec::<String>::new());
    assert_eq!(messages("let _underscore = 1; let var123 = 2; let x = 3;"), Vec::<String>::new());
    assert_eq!(messages("let API_KEY = 1;"), vec!["expected 'api_key'"]);
    assert_eq!(messages("fn doSomething() { }"), vec!["expected 'do_something'"]);
    assert_eq!(messages("fn do_something() { }"), Vec::<String>::new());
}

#[test]
fn names_of_constants_are_constant_case() {
    assert_eq!(messages("const maxSize = 1;"), vec!["expected 'MAX_SIZE'"]);
    assert_eq!(messages("const max_size = 1;"), vec!["expected 'MAX_SIZE'"]);
    assert_eq!(messages("const MAX_SIZE = 1;"), Vec::<String>::new());
    assert_eq!(messages("const PI = 3;"), Vec::<String>::new());
}

#[test]
fn the_lint_looks_into_functions_blocks_and_for() {
    assert_eq!(
        messages("fn outerFn() { let innerVar = 1; { const deep = 2; } }"),
        vec!["expected 'outer_fn'", "expected 'inner_var'", "expected 'DEEP'"]
    );
    assert_eq!(
        messages("for (let loopVar = 0; loopVar < 3; loopVar++) { let bodyVar = 1; }"),
        vec!["expected 'loop_var'", "expected 'body_var'"]
    );
    assert_eq!(
        messages("{ let aB = 1; let cD = 2; } let eF = 3;"),
        vec!["expected 'a_b'", "expected 'c_d'", "expected 'e_f'"]
    );
}

#[test]
fn the_lint_does_not_look_into_if_while_and_export() {
    assert_eq!(messages("if a { let badName = 1; }"), Vec::<String>::new());
    assert_eq!(messages("while a { let badName = 1; }"), Vec::<String>::new());
    assert_eq!(messages("export let badName = 1;"), Vec::<String>::new());
    assert_eq!(messages("fn f() { if a { let badName = 1; } }"), Vec::<String>::new());
}

#[test]
fn a_finding_carries_the_span_of_the_first_token_of_its_statement() {
    let result = Parser::parse_src("let a = 1;\n  fn f() {\n    let badName = 2;\n}").unwrap();
    assert_eq!(result.statements().len(), 2);
    assert_eq!(result.diagnositcs().len(), 1);
    let found = &result.diagnositcs()[0];
    assert_eq!(found.level, DiagnosticLevel::Warn);
    assert_eq!(found.message, "expected 'bad_name'\n2:3-5:   fn f() {\n  ^^");
    assert_eq!(found.line, 2);
    assert_eq!(found.column, 3);
    assert_eq!(found.length, 2);
}

#[test]
fn the_analyzer_collects_in_order() {
    let source = "let aB = 1;";
    let mut analyzer = Analyzer::new(source);
    let first = Stmt::Let { name: "aB".to_string(), value: Expr::Literal(Value::Null) };
    let second = Stmt::Const { name: "c".to_string(), value: Expr::Literal(Value::Null) };
    let third = Stmt::Break;
    analyzer.analyze(&first, &(0..3));
    analyzer.analyze(&second, &(4..6));
    analyzer.analyze(&third, &(0..1));
    let found = analyzer.finalize();
    assert_eq!(found.len(), 2);
    assert_eq!(found[0].message, "expected 'a_b'\n1:1-4: let aB = 1;\n^^^");
    assert_eq!(found[1].message, "expected 'C'\n1:5-7: let aB = 1;\n    ^^");
    assert_eq!(found[1].column, 5);
    assert_eq!(found[1].length, 2);
}

#[test]
fn warnings_stop_no_parse() {
    let result = Parser::parse_src("let BadOne = 1; const bad_two = 2; fn BadThree() { }").unwrap();
    assert_eq!(result.statements().len(), 3);
    assert_eq!(result.diagnositcs().len(), 3);
    // an error ends the parse before any warning is handed out
    assert!(Parser::parse_src("let BadOne = 1; let = 2;").is_err());
}

fn parser_over(source: &str) -> Parser<'_> {
    Parser::new(tokenize(source).unwrap(), ParserConfig::default(), source)
}

#[test]
fn the_cursor_skips_comments() {
    let mut parser = parser_over("/* a */ x // b\n , /* c */");
    assert_eq!(parser.tokens.len(), 5);
    assert!(!parser.eof());
    assert!(matches!(parser.peek(), Some(Token::Identifier(_))));
    assert_eq!(parser.span().unwrap().span, 8..9);
    assert_eq!(parser.advance(), Some(1));
    assert_eq!(parser.pos, 2);
    assert!(matches!(parser.peek(), Some(Token::Comma)));
    assert!(!parser.consume(&Token::Semicolon));
    assert!(parser.consume(&Token::Comma));
    assert!(parser.eof());
    assert!(parser.peek().is_none());
    assert!(parser.span().is_none());
    assert_eq!(parser.advance(), None);
    // the end of input lies behind the last token, a comment here
    assert_eq!(parser.eof_position(), 25);
}

#[test]
fn expect_takes_the_token_or_names_it() {
    let mut parser = parser_over("( x");
    assert!(parser.expect(Token::LeftParen).is_ok());
    match parser.expect(Token::RightParen) {
        Err(ParseError::UnexpectedToken { expected, found, span, .. }) => {
            assert_eq!(expected, Some(")".to_string()));
            assert_eq!(found, "Identifier(\"x\")");
            assert_eq!(span, 2..3);
        }
        other => panic!("expected UnexpectedToken, got {:?}", other),
    }
    let mut parser = parser_over("(");
    assert!(parser.expect(Token::LeftParen).is_ok());
    match parser.expect(Token::RightParen) {
        Err(ParseError::UnexpectedEof { expected, position, .. }) => {
            assert_eq!(expected, ")");
            assert_eq!(position, 1);
        }
        other => panic!("expected UnexpectedEof, got {:?}", other),
    }
}

#[test]
fn an_expected_spelling_is_shown_by_name() {
    let source = "( x";
    let mut parser = parser_over(source);
    parser.expect(Token::LeftParen).unwrap();
    let error = parser.expect(Token::RightParen).unwrap_err();
    assert_eq!(
        error.to_string(),
        "Expected RightParen, found Identifier(\"x\")\n1:3-4: ( x\n  ^"
    );
    let error = Parser::parse_stmt("let x = 1").unwrap_err();
    match &error {
        ParseError::UnexpectedEof { expected, .. } => assert_eq!(expected, ";"),
        other => panic!("expected UnexpectedEof, got {:?}", other),
    }
    assert_eq!(error.to_string(), "Unexpected end of file, expected Semicolon\n1:10: let x = 1");
    let error = Parser::parse_stmt("fn f() x").unwrap_err();
    match &error {
        ParseError::UnexpectedToken { expected, .. } => {
            assert_eq!(expected, &Some("{".to_string()))
        }
        other => panic!("expected UnexpectedToken, got {:?}", other),
    }
    assert!(error.to_string().starts_with("Expected LeftBrace, found Identifier(\"x\")"));
    // a text that spells no token stands for itself
    let context = ParseContext::from_span("x", &(0..1));
    let error = ParseError::MissingToken {
        expected: "a closing bracket".to_string(),
        span: 0..1,
        context: context.clone(),
    };
    assert_eq!(error.to_string(), "Missing a closing bracket\n1:1-2: x\n^");
    let error = ParseError::MissingToken { expected: "]".to_string(), span: 0..1, context };
    assert_eq!(error.to_string(), "Missing RightBracket\n1:1-2: x\n^");
}

#[test]
fn the_error_of_the_next_token() {
    let parser = parser_over("x");
    assert!(matches!(parser.error("m", Some("e")), ParseError::UnexpectedToken { .. }));
    match parser.error("m", None) {
        ParseError::InvalidSyntax { message, span, .. } => {
            assert_eq!(message, "m");
            assert_eq!(span, 0..1);
        }
        other => panic!("expected InvalidSyntax, got {:?}", other),
    }
    let parser = parser_over("");
    match parser.error("m", Some("e")) {
        ParseError::UnexpectedEof { expected, position, .. } => {
            assert_eq!(expected, "e");
            assert_eq!(position, 0);
        }
        other => panic!("expected UnexpectedEof, got {:?}", other),
    }
    match parser.error("m", None) {
        ParseError::UnexpectedEof { expected, .. } => assert_eq!(expected, "token"),
        other => panic!("expected UnexpectedEof, got {:?}", other),
    }
}

#[test]
fn the_guard_counts_open_productions() {
    let source = "x y";
    let mut parser = Parser::new(
        tokenize(source).unwrap(),
        ParserConfig { allow_trailing_commas: true, max_recursion_depth: 2 },
        source,
    );
    assert!(parser.enter().is_ok());
    assert!(parser.enter().is_ok());
    assert_eq!(parser.depth, 2);
    match parser.enter() {
        Err(ParseError::TooMuchRecursion { max_depth, position }) => {
            assert_eq!(max_depth, 2);
            assert_eq!(position, 0);
        }
        other => panic!("expected TooMuchRecursion, got {:?}", other),
    }
    assert_eq!(parser.depth, 2);
    parser.leave();
    assert_eq!(parser.depth, 1);
    assert!(parser.enter().is_ok());
    parser.advance();
    parser.advance();
    match parser.enter() {
        Err(ParseError::TooMuchRecursion { position, .. }) => assert_eq!(position, 3),
        other => panic!("expected TooMuchRecursion, got {:?}", other),
    }
}

#[test]
fn kinds_of_values() {
    assert_eq!(Value::Int(1).kind_name(), "int");
    assert_eq!(Value::Float("1.5".to_string()).kind_name(), "float");
    assert_eq!(Value::Bool(true).kind_name(), "bool");
    assert_eq!(Value::Str("s".to_string()).kind_name(), "string");
    assert_eq!(Value::Null.kind_name(), "null");
}
