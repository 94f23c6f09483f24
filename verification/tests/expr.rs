use qbit_lang::ast::expr::Expr;
use qbit_lang::ast::op::BinaryOp;
use qbit_lang::ast::op::UnaryOp;
use qbit_lang::ast::value::Value;
use qbit_lang::parser::Parser;

fn parse_or_panic(source: &str) -> Expr {
    match Parser::parse_expr(source) {
        Ok(expr) => expr,
        Err(e) => panic!("Failed to parse expression '{}': {}", source, e.to_string()),
    }
}

fn assert_expr_err(source: &str, expected: &str) {
    let error = Parser::parse_expr(source).unwrap_err();
    let error_str = error.to_string();

    assert!(
        error_str.contains(expected),
        "Expected error to contain '{}', got: {}",
        expected,
        error_str
    );
}

fn literal_int(expr: &Expr, expected: i64) {
    match expr {
        Expr::Literal(Value::Int(actual)) => assert_eq!(*actual, expected),
        _ => panic!("Expected Int literal {}, got {:?}", expected, expr),
    }
}

fn literal_float(expr: &Expr, expected: f64) {
    match expr {
        Expr::Literal(Value::Float(actual)) => {
            assert_eq!(actual.parse::<f64>().unwrap(), expected)
        }
        _ => panic!("Expected Float literal {}, got {:?}", expected, expr),
    }
}

fn literal_bool(expr: &Expr, expected: bool) {
    match expr {
        Expr::Literal(Value::Bool(actual)) => assert_eq!(*actual, expected),
        _ => panic!("Expected Bool literal {}, got {:?}", expected, expr),
    }
}

fn literal_string(expr: &Expr, expected: &str) {
    match expr {
        Expr::Literal(Value::Str(actual)) => assert_eq!(actual, expected),
        _ => panic!("Expected String literal '{}', got {:?}", expected, expr),
    }
}

fn variable(expr: &Expr, expected: &str) {
    match expr {
        Expr::Variable(actual) => assert_eq!(actual, expected),
        _ => panic!("Expected Variable '{}', got {:?}", expected, expr),
    }
}

fn binary_op(expr: &Expr, expected: BinaryOp) -> (&Expr, &Expr) {
    match expr {
        Expr::Binary { op, left, right } => {
            assert_eq!(
                *op, expected,
                "Expected binary op {:?}, got {:?}",
                expected, op
            );
            (left, right)
        }
        _ => panic!("Expected Binary {:?}, got {:?}", expected, expr),
    }
}

fn unary_op(expr: &Expr, expected: UnaryOp) -> &Expr {
    match expr {
        Expr::Unary { op, operand } => {
            assert_eq!(
                *op, expected,
                "Expected unary op {:?}, got {:?}",
                expected, op
            );
            operand
        }
        _ => panic!("Expected Unary {:?}, got {:?}", expected, expr),
    }
}

fn call_of<'a>(
    expr: &'a Expr,
    expected_callee: &'a str,
    expected_arg_count: usize,
) -> (&'a Expr, &'a Vec<Expr>) {
    match expr {
        Expr::Call { callee, args } => {
            variable(callee, expected_callee);
            assert_eq!(args.len(), expected_arg_count);
            (callee, args)
        }
        _ => panic!("Expected Call, got {:?}", expr),
    }
}

fn array_of(expr: &Expr, expected_len: usize) -> &Vec<Expr> {
    match expr {
        Expr::Array { elements } => {
            assert_eq!(elements.len(), expected_len);
            elements
        }
        _ => panic!("Expected Array, got {:?}", expr),
    }
}

fn member_of<'a>(expr: &'a Expr, expected_property: &'a str) -> &'a Expr {
    match expr {
        Expr::Member { object, property } => {
            assert_eq!(property, expected_property);
            object
        }
        _ => panic!("Expected Member access, got {:?}", expr),
    }
}

fn index_of(expr: &Expr) -> (&Expr, &Expr) {
    match expr {
        Expr::Index { object, index } => (object, index),
        _ => panic!("Expected Index, got {:?}", expr),
    }
}

fn group_of(expr: &Expr) -> &Expr {
    match expr {
        Expr::Group(inner) => inner,
        _ => panic!("Expected Group, got {:?}", expr),
    }
}

#[derive(Debug, Clone)]
struct BinaryOpCase {
    source: &'static str,
    op: BinaryOp,
    left: i64,
    right: i64,
}

#[derive(Debug, Clone)]
struct PrecedenceCase {
    source: &'static str,
    expected: BinaryOp,
}

#[derive(Debug, Clone)]
struct ErrorCase {
    source: &'static str,
    expected: &'static str,
}

const ARITHMETIC_OPS: &[BinaryOpCase] = &[
    BinaryOpCase {
        source: "5 + 3",
        op: BinaryOp::Add,
        left: 5,
        right: 3,
    },
    BinaryOpCase {
        source: "5 - 3",
        op: BinaryOp::Sub,
        left: 5,
        right: 3,
    },
    BinaryOpCase {
        source: "5 * 3",
        op: BinaryOp::Mul,
        left: 5,
        right: 3,
    },
    BinaryOpCase {
        source: "5 / 3",
        op: BinaryOp::Div,
        left: 5,
        right: 3,
    },
    BinaryOpCase {
        source: "5 % 3",
        op: BinaryOp::Mod,
        left: 5,
        right: 3,
    },
    BinaryOpCase {
        source: "5 ** 3",
        op: BinaryOp::Pow,
        left: 5,
        right: 3,
    },
    BinaryOpCase {
        source: "5 ^ 3",
        op: BinaryOp::Pow,
        left: 5,
        right: 3,
    },
];

const COMPARISON_OPS: &[BinaryOpCase] = &[
    BinaryOpCase {
        source: "5 > 3",
        op: BinaryOp::Gt,
        left: 5,
        right: 3,
    },
    BinaryOpCase {
        source: "5 >= 3",
        op: BinaryOp::Ge,
        left: 5,
        right: 3,
    },
    BinaryOpCase {
        source: "5 < 3",
        op: BinaryOp::Lt,
        left: 5,
        right: 3,
    },
    BinaryOpCase {
        source: "5 <= 3",
        op: BinaryOp::Le,
        left: 5,
        right: 3,
    },
    BinaryOpCase {
        source: "5 == 3",
        op: BinaryOp::Eq,
        left: 5,
        right: 3,
    },
    BinaryOpCase {
        source: "5 != 3",
        op: BinaryOp::Neq,
        left: 5,
        right: 3,
    },
];

const BITWISE_OPS: &[BinaryOpCase] = &[
    BinaryOpCase {
        source: "5 & 3",
        op: BinaryOp::BitAnd,
        left: 5,
        right: 3,
    },
    BinaryOpCase {
        source: "5 | 3",
        op: BinaryOp::BitOr,
        left: 5,
        right: 3,
    },
    BinaryOpCase {
        source: "5 << 3",
        op: BinaryOp::Shl,
        left: 5,
        right: 3,
    },
    BinaryOpCase {
        source: "5 >> 3",
        op: BinaryOp::Shr,
        left: 5,
        right: 3,
    },
];

const PRECEDENCE_CASES: &[PrecedenceCase] = &[
    PrecedenceCase {
        source: "2 + 3 * 4",
        expected: BinaryOp::Add,
    },
    PrecedenceCase {
        source: "2 * 3 + 4",
        expected: BinaryOp::Add,
    },
    PrecedenceCase {
        source: "2 ** 3 ** 4",
        expected: BinaryOp::Pow,
    },
    PrecedenceCase {
        source: "true || false && true",
        expected: BinaryOp::Or,
    },
    PrecedenceCase {
        source: "1 + 2 < 3 + 4",
        expected: BinaryOp::Lt,
    },
    PrecedenceCase {
        source: "1 | 2 & 3",
        expected: BinaryOp::BitOr,
    },
];

const ERROR_CASES: &[ErrorCase] = &[
    ErrorCase {
        source: "5 +",
        expected: "Unexpected end of file",
    },
    ErrorCase {
        source: "(5 + 3",
        expected: "Unexpected end of file",
    },
    ErrorCase {
        source: "[1, 2, 3",
        expected: "Unexpected end of file",
    },
    ErrorCase {
        source: "5 @",
        expected: "Invalid token",
    },
    ErrorCase {
        source: "func(1, 2,",
        expected: "Unexpected end of file",
    },
];

#[test]
fn literal_expr() {
    // Integer literals
    let expr = parse_or_panic("42");
    literal_int(&expr, 42);

    let expr = parse_or_panic("-123");
    let operand = unary_op(&expr, UnaryOp::Neg);
    literal_int(operand, 123);

    // Float literals
    let expr = parse_or_panic("3.14159");
    literal_float(&expr, 3.14159);

    // Boolean literals
    let expr = parse_or_panic("true");
    literal_bool(&expr, true);

    let expr = parse_or_panic("false");
    literal_bool(&expr, false);

    // String literals
    let expr = parse_or_panic(r#""Hello, World!""#);
    literal_string(&expr, "Hello, World!");

    let expr = parse_or_panic(r#""with \"quotes\"""#);
    literal_string(&expr, r#"with "quotes""#);
}

#[test]
fn var_expr() {
    let expr = parse_or_panic("myVariable");
    variable(&expr, "myVariable");

    let expr = parse_or_panic("_underscore");
    variable(&expr, "_underscore");

    let expr = parse_or_panic("var123");
    variable(&expr, "var123");
}

#[test]
fn arithmetic_op_expr() {
    for case in ARITHMETIC_OPS {
        let expr = parse_or_panic(case.source);
        let (left, right) = binary_op(&expr, case.op);
        literal_int(left, case.left);
        literal_int(right, case.right);
    }
}

#[test]
fn comparison_op_expr() {
    for case in COMPARISON_OPS {
        let expr = parse_or_panic(case.source);
        let (left, right) = binary_op(&expr, case.op);
        literal_int(left, case.left);
        literal_int(right, case.right);
    }
}

#[test]
fn bitwise_op_expr() {
    for case in BITWISE_OPS {
        let expr = parse_or_panic(case.source);
        let (left, right) = binary_op(&expr, case.op);
        literal_int(left, case.left);
        literal_int(right, case.right);
    }
}

#[test]
fn logical_op_expr() {
    // AND
    let expr = parse_or_panic("true && false");
    let (left, right) = binary_op(&expr, BinaryOp::And);
    literal_bool(left, true);
    literal_bool(right, false);

    // OR
    let expr = parse_or_panic("true || false");
    let (left, right) = binary_op(&expr, BinaryOp::Or);
    literal_bool(left, true);
    literal_bool(right, false);
}

#[test]
fn unary_op_expr() {
    // Negation
    let expr = parse_or_panic("-42");
    let operand = unary_op(&expr, UnaryOp::Neg);
    literal_int(operand, 42);

    // Logical NOT
    let expr = parse_or_panic("!true");
    let operand = unary_op(&expr, UnaryOp::Not);
    literal_bool(operand, true);

    // Chained unary
    let expr = parse_or_panic("!!true");
    let operand1 = unary_op(&expr, UnaryOp::Not);
    let operand2 = unary_op(operand1, UnaryOp::Not);
    literal_bool(operand2, true);
}

#[test]
fn op_precedence_expr() {
    for case in PRECEDENCE_CASES {
        let expr = parse_or_panic(case.source);
        let (_, _) = binary_op(&expr, case.expected);
        // Could add more detailed precedence checking here
    }
}

#[test]
fn right_assoc_expr() {
    // Power operator should be right-associative: 2 ** 3 ** 2 = 2 ** (3 ** 2)
    let expr = parse_or_panic("2 ** 3 ** 2");
    let (left, right) = binary_op(&expr, BinaryOp::Pow);
    literal_int(left, 2);

    let (inner_left, inner_right) = binary_op(right, BinaryOp::Pow);
    literal_int(inner_left, 3);
    literal_int(inner_right, 2);
}

#[test]
fn left_assoc_expr() {
    // Subtraction should be left-associative: 10 - 5 - 2 = (10 - 5) - 2
    let expr = parse_or_panic("10 - 5 - 2");
    let (left, right) = binary_op(&expr, BinaryOp::Sub);
    literal_int(right, 2);

    let (inner_left, inner_right) = binary_op(left, BinaryOp::Sub);
    literal_int(inner_left, 10);
    literal_int(inner_right, 5);
}

#[test]
fn paren_expr() {
    // Override precedence with parentheses
    let expr = parse_or_panic("(2 + 3) * 4");
    let (left, right) = binary_op(&expr, BinaryOp::Mul);
    literal_int(right, 4);

    let inner = group_of(left);
    let (inner_left, inner_right) = binary_op(inner, BinaryOp::Add);
    literal_int(inner_left, 2);
    literal_int(inner_right, 3);

    // Nested parentheses
    let expr = parse_or_panic("((1 + 2) * 3)");
    let outer = group_of(&expr);
    let (left, right) = binary_op(outer, BinaryOp::Mul);
    literal_int(right, 3);

    let inner = group_of(left);
    let (inner_left, inner_right) = binary_op(inner, BinaryOp::Add);
    literal_int(inner_left, 1);
    literal_int(inner_right, 2);
}

#[test]
fn fn_call_expr() {
    // Simple function call
    let expr = parse_or_panic("foo()");
    let (_, args) = call_of(&expr, "foo", 0);
    assert_eq!(args.len(), 0);

    // Function call with arguments
    let expr = parse_or_panic("add(1, 2, 3)");
    let (_, args) = call_of(&expr, "add", 3);
    literal_int(&args[0], 1);
    literal_int(&args[1], 2);
    literal_int(&args[2], 3);

    // Nested function calls
    let expr = parse_or_panic("outer(inner(42))");
    let (_, outer_args) = call_of(&expr, "outer", 1);
    let (_, inner_args) = call_of(&outer_args[0], "inner", 1);
    literal_int(&inner_args[0], 42);
}

#[test]
fn arr_lit_expr() {
    // Empty array
    let expr = parse_or_panic("[]");
    let elements = array_of(&expr, 0);
    assert_eq!(elements.len(), 0);

    // Array with elements
    let expr = parse_or_panic("[1, 2, 3]");
    let elements = array_of(&expr, 3);
    literal_int(&elements[0], 1);
    literal_int(&elements[1], 2);
    literal_int(&elements[2], 3);

    // Nested arrays
    let expr = parse_or_panic("[[1, 2], [3, 4]]");
    let elements = array_of(&expr, 2);

    let first_nested = array_of(&elements[0], 2);
    literal_int(&first_nested[0], 1);
    literal_int(&first_nested[1], 2);

    let second_nested = array_of(&elements[1], 2);
    literal_int(&second_nested[0], 3);
    literal_int(&second_nested[1], 4);
}

#[test]
fn arr_index_expr() {
    // Simple indexing
    let expr = parse_or_panic("arr[0]");
    let (object, index) = index_of(&expr);
    variable(object, "arr");
    literal_int(index, 0);

    // Multi-dimensional indexing
    let expr = parse_or_panic("matrix[i][j]");
    let (outer_object, outer_index) = index_of(&expr);
    variable(outer_index, "j");

    let (inner_object, inner_index) = index_of(outer_object);
    variable(inner_object, "matrix");
    variable(inner_index, "i");

    // Complex expression as index
    let expr = parse_or_panic("arr[i + 1]");
    let (object, index) = index_of(&expr);
    variable(object, "arr");

    let (left, right) = binary_op(index, BinaryOp::Add);
    variable(left, "i");
    literal_int(right, 1);
}

#[test]
fn member_expr() {
    // Simple member access
    let expr = parse_or_panic("obj.property");
    let object = member_of(&expr, "property");
    variable(object, "obj");

    // Chained member access
    let expr = parse_or_panic("obj.prop1.prop2");
    let outer_object = member_of(&expr, "prop2");
    let inner_object = member_of(outer_object, "prop1");
    variable(inner_object, "obj");

    // Mixed member access and indexing
    let expr = parse_or_panic("obj.arr[0].prop");
    let final_object = member_of(&expr, "prop");
    let (index_object, index) = index_of(final_object);
    let member_object = member_of(index_object, "arr");
    variable(member_object, "obj");
    literal_int(index, 0);
}

#[test]
fn complex_expr() {
    // Test a complex expression with multiple operators and precedence
    let expr = parse_or_panic("(a + b) * func(x, y.prop[0]) >= 10 && !flag");

    // Should parse as: ((a + b) * func(x, y.prop[0]) >= 10) && (!flag)
    let (comparison, not_expr) = binary_op(&expr, BinaryOp::And);

    // Check right side: !flag
    let flag_operand = unary_op(not_expr, UnaryOp::Not);
    variable(flag_operand, "flag");

    // Check left side: (a + b) * func(x, y.prop[0]) >= 10
    let (multiplication, ten) = binary_op(comparison, BinaryOp::Ge);
    literal_int(ten, 10);

    // Check multiplication: (a + b) * func(x, y.prop[0])
    let (grouped_add, func_call) = binary_op(multiplication, BinaryOp::Mul);

    // Check grouped addition: (a + b)
    let addition = group_of(grouped_add);
    let (a_var, b_var) = binary_op(addition, BinaryOp::Add);
    variable(a_var, "a");
    variable(b_var, "b");

    // Check function call: func(x, y.prop[0])
    let (_, args) = call_of(func_call, "func", 2);
    variable(&args[0], "x");

    // Check second argument: y.prop[0]
    let (member_obj, index) = index_of(&args[1]);
    let y_obj = member_of(member_obj, "prop");
    variable(y_obj, "y");
    literal_int(index, 0);
}

#[test]
fn error_expr() {
    for case in ERROR_CASES {
        assert_expr_err(case.source, case.expected);
    }
}

#[test]
fn comment_expr() {
    // Line comments
    let expr = parse_or_panic("5 + 3 // this is a comment");
    let (left, right) = binary_op(&expr, BinaryOp::Add);
    literal_int(left, 5);
    literal_int(right, 3);

    // Block comments
    let expr = parse_or_panic("5 /* comment */ + /* another */ 3");
    let (left, right) = binary_op(&expr, BinaryOp::Add);
    literal_int(left, 5);
    literal_int(right, 3);

    // Multi-line block comments
    let expr = parse_or_panic("5 + /* multi\nline\ncomment */ 3");
    let (left, right) = binary_op(&expr, BinaryOp::Add);
    literal_int(left, 5);
    literal_int(right, 3);
}

#[test]
fn trailing_commas_expr() {
    // Function arguments with trailing comma
    let expr = parse_or_panic("func(1, 2, 3,)");
    let (_, args) = call_of(&expr, "func", 3);
    literal_int(&args[0], 1);
    literal_int(&args[1], 2);
    literal_int(&args[2], 3);

    // Array elements with trailing comma
    let expr = parse_or_panic("[1, 2, 3,]");
    let elements = array_of(&expr, 3);
    literal_int(&elements[0], 1);
    literal_int(&elements[1], 2);
    literal_int(&elements[2], 3);
}
