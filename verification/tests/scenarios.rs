use qbit_lang::ast::expr::Expr;
use qbit_lang::ast::op::BinaryOp;
use qbit_lang::ast::op::Precedence;
use qbit_lang::ast::op::UnaryOp;
use qbit_lang::ast::stmt::Stmt;
use qbit_lang::ast::value::Value;
use qbit_lang::lexer::Token;
use qbit_lang::parser::analyzer::DiagnosticLevel;
use qbit_lang::parser::Parse;
use qbit_lang::parser::ParseError;
use qbit_lang::parser::Parser;
use qbit_lang::parser::ParserConfig;

fn num(i: i64) -> Expr {
    Expr::Literal(Value::Int(i))
}

fn var(name: &str) -> Expr {
    Expr::Variable(name.to_string())
}

fn binary(op: BinaryOp, left: Expr, right: Expr) -> Expr {
    Expr::Binary { op, left: Box::new(left), right: Box::new(right) }
}

fn expr_with(source: &str, trailing: bool, depth: usize) -> Result<Expr, ParseError> {
    let mut parser = Parser::builder(source)
        .allow_trailing_commas(trailing)
        .max_recursion_depth(depth)
        .build()
        .unwrap();
    parser.sole_expression()
}

fn nested(parens: usize) -> String {
    format!("{}{}{}", "(".repeat(parens), "7", ")".repeat(parens))
}

#[test]
fn multiplication_nests_under_addition() {
    let expr = Parser::parse_expr("2 + 3 * 4").unwrap();
    assert_eq!(expr, binary(BinaryOp::Add, num(2), binary(BinaryOp::Mul, num(3), num(4))));
}

#[test]
fn addition_after_multiplication_is_outermost() {
    let expr = Parser::parse_expr("2 * 3 + 4").unwrap();
    assert_eq!(expr, binary(BinaryOp::Add, binary(BinaryOp::Mul, num(2), num(3)), num(4)));
}

#[test]
fn power_groups_to_the_right_for_both_spellings() {
    let want = binary(BinaryOp::Pow, num(2), binary(BinaryOp::Pow, num(3), num(2)));
    assert_eq!(Parser::parse_expr("2 ** 3 ** 2").unwrap(), want);
    let want = binary(BinaryOp::Pow, num(2), binary(BinaryOp::Pow, num(3), num(2)));
    assert_eq!(Parser::parse_expr("2 ^ 3 ^ 2").unwrap(), want);
    let want = binary(BinaryOp::Pow, num(2), binary(BinaryOp::Pow, num(3), num(2)));
    assert_eq!(Parser::parse_expr("2 ^ 3 ** 2").unwrap(), want);
}

#[test]
fn subtraction_groups_to_the_left() {
    let expr = Parser::parse_expr("10 - 5 - 2").unwrap();
    assert_eq!(expr, binary(BinaryOp::Sub, binary(BinaryOp::Sub, num(10), num(5)), num(2)));
}

#[test]
fn every_adjacent_pair_nests_by_precedence() {
    let ops = [
        ("||", BinaryOp::Or),
        ("&&", BinaryOp::And),
        ("|", BinaryOp::BitOr),
        ("&", BinaryOp::BitAnd),
        ("==", BinaryOp::Eq),
        ("!=", BinaryOp::Neq),
        ("<", BinaryOp::Lt),
        ("<=", BinaryOp::Le),
        (">", BinaryOp::Gt),
        (">=", BinaryOp::Ge),
        ("<<", BinaryOp::Shl),
        (">>", BinaryOp::Shr),
        ("+", BinaryOp::Add),
        ("-", BinaryOp::Sub),
        ("*", BinaryOp::Mul),
        ("/", BinaryOp::Div),
        ("%", BinaryOp::Mod),
        ("**", BinaryOp::Pow),
        ("^", BinaryOp::Pow),
    ];
    for (first_text, first) in ops.iter() {
        for (second_text, second) in ops.iter() {
            let source = format!("a {} b {} c", first_text, second_text);
            let expr = Parser::parse_expr(&source).unwrap();
            let inner_right = second.precedence() > first.precedence()
                || (second.precedence() == first.precedence() && first.is_right_associative());
            let want = if inner_right {
                binary(*first, var("a"), binary(*second, var("b"), var("c")))
            } else {
                binary(*second, binary(*first, var("a"), var("b")), var("c"))
            };
            assert_eq!(expr, want, "{}", source);
        }
    }
}

#[test]
fn precedence_table() {
    assert_eq!(BinaryOp::Or.precedence(), 1);
    assert_eq!(BinaryOp::And.precedence(), 2);
    assert_eq!(BinaryOp::BitOr.precedence(), 3);
    assert_eq!(BinaryOp::BitAnd.precedence(), 4);
    assert_eq!(BinaryOp::Eq.precedence(), 5);
    assert_eq!(BinaryOp::Neq.precedence(), 5);
    assert_eq!(BinaryOp::Lt.precedence(), 6);
    assert_eq!(BinaryOp::Le.precedence(), 6);
    assert_eq!(BinaryOp::Gt.precedence(), 6);
    assert_eq!(BinaryOp::Ge.precedence(), 6);
    assert_eq!(BinaryOp::Shl.precedence(), 7);
    assert_eq!(BinaryOp::Shr.precedence(), 7);
    assert_eq!(BinaryOp::Add.precedence(), 8);
    assert_eq!(BinaryOp::Sub.precedence(), 8);
    assert_eq!(BinaryOp::Mul.precedence(), 9);
    assert_eq!(BinaryOp::Div.precedence(), 9);
    assert_eq!(BinaryOp::Mod.precedence(), 9);
    assert_eq!(BinaryOp::Pow.precedence(), 10);
    assert_eq!(UnaryOp::Not.precedence(), 15);
    assert_eq!(UnaryOp::Neg.precedence(), 15);
    assert!(BinaryOp::Pow.is_right_associative());
    assert!(!BinaryOp::Sub.is_right_associative());
}

#[test]
fn operators_from_tokens() {
    assert_eq!(BinaryOp::from_token(&Token::Caret), Some(BinaryOp::Pow));
    assert_eq!(BinaryOp::from_token(&Token::DoubleStar), Some(BinaryOp::Pow));
    assert_eq!(BinaryOp::from_token(&Token::ShiftLeft), Some(BinaryOp::Shl));
    assert_eq!(BinaryOp::from_token(&Token::Bang), None);
    assert_eq!(BinaryOp::from_compound_token(&Token::ShiftRightEqual), Some(BinaryOp::Shr));
    assert_eq!(BinaryOp::from_compound_token(&Token::Equal), None);
    assert_eq!(UnaryOp::from_token(&Token::Bang), Some(UnaryOp::Not));
    assert_eq!(UnaryOp::from_token(&Token::Minus), Some(UnaryOp::Neg));
    assert_eq!(UnaryOp::from_token(&Token::Plus), None);
}

#[test]
fn unary_binds_tighter_than_binary() {
    let expr = Parser::parse_expr("-a ** 2").unwrap();
    let negated = Expr::Unary { op: UnaryOp::Neg, operand: Box::new(var("a")) };
    assert_eq!(expr, binary(BinaryOp::Pow, negated, num(2)));
}

#[test]
fn let_with_capital_name_warns() {
    let result = Parser::parse_src("let X = 1;").unwrap();
    assert_eq!(result.statements().len(), 1);
    assert_eq!(result.statements()[0], Stmt::Let { name: "X".to_string(), value: num(1) });
    assert_eq!(result.diagnositcs().len(), 1);
    let warning = &result.diagnositcs()[0];
    assert_eq!(warning.level, DiagnosticLevel::Warn);
    assert_eq!(warning.message, "expected 'x'\n1:1-4: let X = 1;\n^^^");
    assert_eq!(warning.line, 1);
    assert_eq!(warning.column, 1);
    assert_eq!(warning.length, 3);
}

#[test]
fn empty_for_head() {
    let stmt = Parser::parse_stmt("for (;;) { break; }").unwrap();
    let want = Stmt::For {
        init: None,
        condition: None,
        update: None,
        body: Box::new(Stmt::Block { statements: vec![Stmt::Break] }),
    };
    assert_eq!(stmt, want);
}

#[test]
fn unclosed_parenthesis_is_end_of_file() {
    match Parser::parse_expr("(5 + 3") {
        Err(ParseError::UnexpectedEof { expected, position, context }) => {
            assert_eq!(expected, ")");
            assert_eq!(position, 6);
            assert_eq!(context.line_number, 1);
            assert_eq!(context.column_start, 7);
        }
        other => panic!("expected UnexpectedEof, got {:?}", other),
    }
}

#[test]
fn unclosed_parenthesis_is_rendered_by_name() {
    let error = Parser::parse_expr("(5 + 3").unwrap_err();
    assert_eq!(error.to_string(), "Unexpected end of file, expected RightParen\n1:7: (5 + 3");
}

#[test]
fn stray_character_is_build_error() {
    match Parser::parse_expr("5 @ 3") {
        Err(ParseError::BuildError { message, invalid_text, span, context }) => {
            assert_eq!(message, "Invalid token");
            assert_eq!(invalid_text, "@");
            assert_eq!(span, 2..3);
            assert_eq!(context.line_number, 1);
            assert_eq!(context.column_start, 3);
            assert_eq!(context.column_end, 4);
            assert_eq!(context.line_content, "5 @ 3");
            assert_eq!(context.span_in_line, 2..3);
        }
        other => panic!("expected BuildError, got {:?}", other),
    }
}

#[test]
fn member_index_member_chain() {
    let expr = Parser::parse_expr("obj.arr[0].prop").unwrap();
    let want = Expr::Member {
        object: Box::new(Expr::Index {
            object: Box::new(Expr::Member {
                object: Box::new(var("obj")),
                property: "arr".to_string(),
            }),
            index: Box::new(num(0)),
        }),
        property: "prop".to_string(),
    };
    assert_eq!(expr, want);
}

#[test]
fn call_after_member_and_index() {
    let expr = Parser::parse_expr("a.b[0]()").unwrap();
    let want = Expr::Call {
        callee: Box::new(Expr::Index {
            object: Box::new(Expr::Member {
                object: Box::new(var("a")),
                property: "b".to_string(),
            }),
            index: Box::new(num(0)),
        }),
        args: vec![],
    };
    assert_eq!(expr, want);
}

#[test]
fn postfix_and_prefix_steps() {
    let expr = Parser::parse_expr("++a.b").unwrap();
    let want = Expr::PreIncrement {
        operand: Box::new(Expr::Member { object: Box::new(var("a")), property: "b".to_string() }),
    };
    assert_eq!(expr, want);
    let expr = Parser::parse_expr("a--").unwrap();
    assert_eq!(expr, Expr::PostDecrement { operand: Box::new(var("a")) });
    let expr = Parser::parse_expr("--a").unwrap();
    assert_eq!(expr, Expr::PreDecrement { operand: Box::new(var("a")) });
    // `-` `-` are two prefix minus signs only when they are two tokens
    let expr = Parser::parse_expr("- -a").unwrap();
    let inner = Expr::Unary { op: UnaryOp::Neg, operand: Box::new(var("a")) };
    assert_eq!(expr, Expr::Unary { op: UnaryOp::Neg, operand: Box::new(inner) });
}

#[test]
fn assignment_groups_to_the_right() {
    let expr = Parser::parse_expr("a = b += 1").unwrap();
    let want = Expr::Assignment {
        target: Box::new(var("a")),
        value: Box::new(Expr::CompoundAssignment {
            target: Box::new(var("b")),
            op: BinaryOp::Add,
            value: Box::new(num(1)),
        }),
    };
    assert_eq!(expr, want);
}

#[test]
fn any_expression_may_be_assigned_to() {
    let expr = Parser::parse_expr("1 + 2 = 3").unwrap();
    let want = Expr::Assignment {
        target: Box::new(binary(BinaryOp::Add, num(1), num(2))),
        value: Box::new(num(3)),
    };
    assert_eq!(expr, want);
}

#[test]
fn every_compound_assignment() {
    let cases = [
        ("+=", BinaryOp::Add),
        ("-=", BinaryOp::Sub),
        ("*=", BinaryOp::Mul),
        ("/=", BinaryOp::Div),
        ("%=", BinaryOp::Mod),
        ("^=", BinaryOp::Pow),
        ("&=", BinaryOp::BitAnd),
        ("|=", BinaryOp::BitOr),
        ("<<=", BinaryOp::Shl),
        (">>=", BinaryOp::Shr),
    ];
    for (text, op) in cases.iter() {
        let expr = Parser::parse_expr(&format!("x {} 2", text)).unwrap();
        let want = Expr::CompoundAssignment {
            target: Box::new(var("x")),
            op: *op,
            value: Box::new(num(2)),
        };
        assert_eq!(expr, want);
    }
}

#[test]
fn null_is_no_expression() {
    match Parser::parse_expr("null") {
        Err(ParseError::UnexpectedToken { expected, found, .. }) => {
            assert_eq!(expected, Some("expression".to_string()));
            assert_eq!(found, "NullLiteral");
        }
        other => panic!("expected UnexpectedToken, got {:?}", other),
    }
}

#[test]
fn tokens_after_an_expression_are_rejected() {
    match Parser::parse_expr("1 2") {
        Err(ParseError::UnexpectedToken { expected, found, span, .. }) => {
            assert_eq!(expected, Some("end of input".to_string()));
            assert_eq!(found, "IntLiteral(2)");
            assert_eq!(span, 2..3);
        }
        other => panic!("expected UnexpectedToken, got {:?}", other),
    }
}

#[test]
fn statement_parse_leaves_the_rest_unread() {
    let stmt = Parser::parse_stmt("break; this is not read !!").unwrap();
    assert_eq!(stmt, Stmt::Break);
}

#[test]
fn let_without_value_binds_null() {
    let stmt = Parser::parse_stmt("let x;").unwrap();
    assert_eq!(stmt, Stmt::Let { name: "x".to_string(), value: Expr::Literal(Value::Null) });
}

#[test]
fn const_needs_a_value() {
    match Parser::parse_stmt("const X;") {
        Err(ParseError::UnexpectedToken { expected, found, .. }) => {
            assert_eq!(expected, Some("=".to_string()));
            assert_eq!(found, "Semicolon");
        }
        other => panic!("expected UnexpectedToken, got {:?}", other),
    }
}

#[test]
fn else_if_chain_is_nested() {
    let stmt = Parser::parse_stmt("if a { } else if b { } else { }").unwrap();
    let want = Stmt::If {
        condition: var("a"),
        then_branch: Box::new(Stmt::Block { statements: vec![] }),
        else_branch: Some(Box::new(Stmt::If {
            condition: var("b"),
            then_branch: Box::new(Stmt::Block { statements: vec![] }),
            else_branch: Some(Box::new(Stmt::Block { statements: vec![] })),
        })),
    };
    assert_eq!(stmt, want);
}

#[test]
fn trailing_comma_in_call_follows_configuration() {
    let allowed = expr_with("f(1,2,3,)", true, 1000).unwrap();
    let want = Expr::Call { callee: Box::new(var("f")), args: vec![num(1), num(2), num(3)] };
    assert_eq!(allowed, want);
    match expr_with("f(1,2,3,)", false, 1000) {
        Err(ParseError::InvalidSyntax { message, span, context }) => {
            assert_eq!(message, "trailing ',' before ')' is not allowed");
            assert_eq!(span, 8..9);
            assert_eq!(context.column_start, 9);
        }
        other => panic!("expected InvalidSyntax, got {:?}", other),
    }
    // without a trailing comma the configuration makes no difference
    let strict = expr_with("f(1,2,3)", false, 1000).unwrap();
    let want = Expr::Call { callee: Box::new(var("f")), args: vec![num(1), num(2), num(3)] };
    assert_eq!(strict, want);
}

#[test]
fn trailing_comma_in_array_follows_configuration() {
    let allowed = expr_with("[1, 2,]", true, 1000).unwrap();
    assert_eq!(allowed, Expr::Array { elements: vec![num(1), num(2)] });
    match expr_with("[1, 2,]", false, 1000) {
        Err(ParseError::InvalidSyntax { message, .. }) => {
            assert_eq!(message, "trailing ',' before ']' is not allowed");
        }
        other => panic!("expected InvalidSyntax, got {:?}", other),
    }
}

#[test]
fn trailing_comma_in_parameters_follows_configuration() {
    let source = "fn f(a, b,) { }";
    let mut parser = Parser::builder(source).allow_trailing_commas(false).build().unwrap();
    match parser.sole_statement() {
        Err(ParseError::InvalidSyntax { message, .. }) => {
            assert_eq!(message, "trailing ',' before ')' is not allowed");
        }
        other => panic!("expected InvalidSyntax, got {:?}", other),
    }
    let mut parser = Parser::builder(source).allow_trailing_commas(true).build().unwrap();
    let want = Stmt::Function {
        name: "f".to_string(),
        params: vec!["a".to_string(), "b".to_string()],
        body: Box::new(Stmt::Block { statements: vec![] }),
    };
    assert_eq!(parser.sole_statement().unwrap(), want);
}

#[test]
fn a_lone_comma_is_no_list() {
    match Parser::parse_expr("f(,)") {
        Err(ParseError::UnexpectedToken { expected, found, .. }) => {
            assert_eq!(expected, Some("expression".to_string()));
            assert_eq!(found, "Comma");
        }
        other => panic!("expected UnexpectedToken, got {:?}", other),
    }
}

#[test]
fn missing_separator_names_both_choices() {
    match Parser::parse_expr("[1 2]") {
        Err(ParseError::UnexpectedToken { expected, found, .. }) => {
            assert_eq!(expected, Some("',' or ']'".to_string()));
            assert_eq!(found, "IntLiteral(2)");
        }
        other => panic!("expected UnexpectedToken, got {:?}", other),
    }
    match Parser::parse_expr("f(1") {
        Err(ParseError::UnexpectedEof { expected, .. }) => {
            assert_eq!(expected, "',' or ')'");
        }
        other => panic!("expected UnexpectedEof, got {:?}", other),
    }
}

#[test]
fn a_literal_opens_three_productions() {
    assert_eq!(expr_with("7", true, 3).unwrap(), num(7));
    match expr_with("7", true, 2) {
        Err(ParseError::TooMuchRecursion { max_depth, position }) => {
            assert_eq!(max_depth, 2);
            assert_eq!(position, 0);
        }
        other => panic!("expected TooMuchRecursion, got {:?}", other),
    }
    match expr_with("7", true, 0) {
        Err(ParseError::TooMuchRecursion { max_depth, position }) => {
            assert_eq!(max_depth, 0);
            assert_eq!(position, 0);
        }
        other => panic!("expected TooMuchRecursion, got {:?}", other),
    }
}

#[test]
fn every_parenthesis_opens_two_more() {
    for parens in 0..20usize {
        let source = nested(parens);
        let needed = 2 * parens + 3;
        assert!(expr_with(&source, true, needed).is_ok(), "{} at {}", source, needed);
        match expr_with(&source, true, needed - 1) {
            Err(ParseError::TooMuchRecursion { max_depth, position }) => {
                assert_eq!(max_depth, needed - 1);
                assert_eq!(position, parens);
            }
            other => panic!("expected TooMuchRecursion, got {:?}", other),
        }
    }
}

#[test]
fn nesting_beyond_the_limit_fails() {
    let limit = 50usize;
    match expr_with(&nested(limit + 1), true, limit) {
        Err(ParseError::TooMuchRecursion { max_depth, .. }) => assert_eq!(max_depth, limit),
        other => panic!("expected TooMuchRecursion, got {:?}", other),
    }
}

#[test]
fn depth_is_given_back_between_statements() {
    // each statement needs depth 5; a thousand of them in a row need no more
    let source = "a = 1;".repeat(1000);
    let mut parser = Parser::builder(&source).max_recursion_depth(5).build().unwrap();
    let result = parser.parse().unwrap();
    assert_eq!(result.statements().len(), 1000);
    let mut parser = Parser::builder(&source).max_recursion_depth(4).build().unwrap();
    assert!(matches!(parser.parse(), Err(ParseError::TooMuchRecursion { .. })));
}

#[test]
fn recursion_error_is_one_line() {
    let error = expr_with("((7))", true, 4).unwrap_err();
    assert_eq!(error.to_string(), "Maximum recursion depth (4) exceeded at position 1");
}

#[test]
fn default_configuration() {
    let config = ParserConfig::default();
    assert!(config.allow_trailing_commas());
    assert_eq!(config.max_recursion_depth(), 1000);
    let parser = Parser::builder("x").build().unwrap();
    assert!(parser.config.allow_trailing_commas());
    assert_eq!(parser.config.max_recursion_depth(), 1000);
    let parser = Parser::builder("x")
        .max_recursion_depth(7)
        .allow_trailing_commas(false)
        .build()
        .unwrap();
    assert!(!parser.config.allow_trailing_commas());
    assert_eq!(parser.config.max_recursion_depth(), 7);
}

#[test]
fn comments_and_blanks_change_no_tree() {
    let plain = Parser::parse_src("fn f(a,b){let x=a+b*2;return x;}").unwrap();
    let spaced = Parser::parse_src(
        "/* head */ fn f ( a , /* first */ b ) // params\n {\n\tlet x = a + b * 2 ; // sum\n return x ; }\n// tail",
    )
    .unwrap();
    assert_eq!(plain.statements(), spaced.statements());
}

#[test]
fn empty_source_is_an_empty_program() {
    let result = Parser::parse_src("").unwrap();
    assert_eq!(result.statements().len(), 0);
    assert_eq!(result.diagnositcs().len(), 0);
    let result = Parser::parse_src("  // nothing here\n").unwrap();
    assert_eq!(result.statements().len(), 0);
}

#[test]
fn empty_source_is_no_expression() {
    match Parser::parse_expr("") {
        Err(ParseError::UnexpectedEof { expected, position, context }) => {
            assert_eq!(expected, "expression");
            assert_eq!(position, 0);
            assert_eq!(context.line_number, 0);
            assert_eq!(context.column_start, 1);
            assert_eq!(context.line_content, "");
        }
        other => panic!("expected UnexpectedEof, got {:?}", other),
    }
}

#[test]
fn first_error_ends_the_program() {
    match Parser::parse_src("let a = 1;\nlet = 2;\nlet c = ;") {
        Err(ParseError::UnexpectedToken { expected, found, span, context }) => {
            assert_eq!(expected, Some("identifier".to_string()));
            assert_eq!(found, "Equal");
            assert_eq!(span, 15..16);
            assert_eq!(context.line_number, 2);
            assert_eq!(context.column_start, 5);
            assert_eq!(context.column_end, 6);
            assert_eq!(context.line_content, "let = 2;");
        }
        other => panic!("expected UnexpectedToken, got {:?}", other),
    }
}

#[test]
fn member_needs_a_name() {
    match Parser::parse_expr("a.1") {
        Err(ParseError::UnexpectedToken { expected, found, .. }) => {
            assert_eq!(expected, Some("identifier".to_string()));
            assert_eq!(found, "IntLiteral(1)");
        }
        other => panic!("expected UnexpectedToken, got {:?}", other),
    }
    match Parser::parse_expr("a.") {
        Err(ParseError::UnexpectedEof { expected, .. }) => assert_eq!(expected, "property name"),
        other => panic!("expected UnexpectedEof, got {:?}", other),
    }
}

#[test]
fn a_larger_limit_changes_no_parse() {
    let source = "fn f(a) { if a { return [a, (a + 1) * 2]; } else { return f(a - 1); } }";
    let mut needed = 0;
    for limit in 0..64usize {
        let mut parser = Parser::builder(source).max_recursion_depth(limit).build().unwrap();
        if parser.parse().is_ok() {
            needed = limit;
            break;
        }
    }
    assert!(needed > 0);
    let mut parser = Parser::builder(source).max_recursion_depth(needed).build().unwrap();
    let tight = parser.parse().unwrap();
    for limit in [needed + 1, needed + 7, 1000, usize::MAX] {
        let mut parser = Parser::builder(source).max_recursion_depth(limit).build().unwrap();
        let wide = parser.parse().unwrap();
        assert_eq!(wide.statements(), tight.statements());
    }
    let mut parser = Parser::builder(source).max_recursion_depth(needed - 1).build().unwrap();
    assert!(matches!(parser.parse(), Err(ParseError::TooMuchRecursion { .. })));
}

#[test]
fn allowing_trailing_commas_changes_no_parse_without_them() {
    let source = "fn f(a, b) { return g([a, b], h(1, 2)); }";
    let mut strict = Parser::builder(source).allow_trailing_commas(false).build().unwrap();
    let mut lax = Parser::builder(source).allow_trailing_commas(true).build().unwrap();
    let one = strict.parse().unwrap();
    let other = lax.parse().unwrap();
    assert_eq!(one.statements(), other.statements());
}

#[test]
fn an_expression_beyond_the_limit_fails_at_a_fresh_parser() {
    for limit in 1..40usize {
        let source = nested(limit + 1);
        let mut parser = Parser::builder(&source).max_recursion_depth(limit).build().unwrap();
        match Expr::parse(&mut parser) {
            Err(ParseError::TooMuchRecursion { max_depth, position }) => {
                assert_eq!(max_depth, limit);
                assert_eq!(position, limit / 2);
            }
            other => panic!("expected TooMuchRecursion, got {:?}", other),
        }
        assert_eq!(parser.depth, 0);
    }
}

#[test]
fn a_fresh_parser_opens_two_productions_for_a_literal() {
    for parens in 0..20usize {
        let source = nested(parens);
        let needed = 2 * parens + 2;
        let mut parser = Parser::builder(&source).max_recursion_depth(needed).build().unwrap();
        assert!(Expr::parse(&mut parser).is_ok());
        let mut parser = Parser::builder(&source).max_recursion_depth(needed - 1).build().unwrap();
        assert!(matches!(Expr::parse(&mut parser), Err(ParseError::TooMuchRecursion { .. })));
    }
}

#[test]
fn a_trailing_comma_behind_digits_follows_configuration() {
    for count in 1..8usize {
        let digits: Vec<i64> = (0..count as i64).collect();
        let inner: String = digits.iter().map(|d| format!("{},", d)).collect();
        let source = format!("f({})", inner);
        let allowed = expr_with(&source, true, 5).unwrap();
        let want = Expr::Call {
            callee: Box::new(var("f")),
            args: digits.iter().map(|d| num(*d)).collect(),
        };
        assert_eq!(allowed, want);
        match expr_with(&source, false, 5) {
            Err(ParseError::InvalidSyntax { message, .. }) => {
                assert_eq!(message, "trailing ',' before ')' is not allowed");
            }
            other => panic!("expected InvalidSyntax, got {:?}", other),
        }
    }
}
