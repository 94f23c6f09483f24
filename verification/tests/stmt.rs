use qbit_lang::ast::expr::Expr;
use qbit_lang::ast::op::BinaryOp;
use qbit_lang::ast::stmt::Stmt;
use qbit_lang::ast::value::Value;
use qbit_lang::parser::ParseError;
use qbit_lang::parser::Parser;

fn literal_int(expr: &Expr, expected: i64) {
    match expr {
        Expr::Literal(Value::Int(actual)) => assert_eq!(*actual, expected),
        _ => panic!("Expected Int literal {}, got {:?}", expected, expr),
    }
}

fn literal_bool(expr: &Expr, expected: bool) {
    match expr {
        Expr::Literal(Value::Bool(actual)) => assert_eq!(*actual, expected),
        _ => panic!("Expected Bool literal {}, got {:?}", expected, expr),
    }
}

fn literal_string(expr: &Expr, expected: &str) {
    match expr {
        Expr::Literal(Value::Str(actual)) => assert_eq!(actual, expected),
        _ => panic!("Expected String literal '{}', got {:?}", expected, expr),
    }
}

fn variable(expr: &Expr, expected: &str) {
    match expr {
        Expr::Variable(actual) => assert_eq!(actual, expected),
        _ => panic!("Expected Variable '{}', got {:?}", expected, expr),
    }
}

fn binary_op(expr: &Expr, expected: BinaryOp) -> (&Expr, &Expr) {
    match expr {
        Expr::Binary { op, left, right } => {
            assert_eq!(
                *op, expected,
                "Expected binary op {:?}, got {:?}",
                expected, op
            );
            (left, right)
        }
        _ => panic!("Expected Binary {:?}, got {:?}", expected, expr),
    }
}

fn call_of<'a>(
    expr: &'a Expr,
    expected_callee: &'a str,
    expected_arg_count: usize,
) -> (&'a Expr, &'a Vec<Expr>) {
    match expr {
        Expr::Call { callee, args } => {
            variable(callee, expected_callee);
            assert_eq!(args.len(), expected_arg_count);
            (callee, args)
        }
        _ => panic!("Expected Call, got {:?}", expr),
    }
}

fn index_of(expr: &Expr) -> (&Expr, &Expr) {
    match expr {
        Expr::Index { object, index } => (object, index),
        _ => panic!("Expected Index, got {:?}", expr),
    }
}

fn parse_stmt(source: &str) -> Result<Stmt, ParseError> {
    Parser::parse_stmt(source)
}

fn assert_stmt_err(source: &str, expected: &str) {
    let error = Parser::parse_stmt(source).unwrap_err();
    let error_str = error.to_string();

    assert!(
        error_str.contains(expected),
        "Expected error to contain '{}', got: {}",
        expected,
        error_str
    );
}

fn let_stmt_of<'a>(stmt: &'a Stmt, expected_name: &'a str) -> &'a Expr {
    match stmt {
        Stmt::Let { name, value } => {
            assert_eq!(name, expected_name);
            value
        }
        _ => panic!("Expected Let statement, got {:?}", stmt),
    }
}

fn const_stmt_of<'a>(stmt: &'a Stmt, expected_name: &str) -> &'a Expr {
    match stmt {
        Stmt::Const { name, value } => {
            assert_eq!(name, expected_name);
            value
        }
        _ => panic!("Expected Const statement, got {:?}", stmt),
    }
}

fn function_stmt_of<'a>(
    stmt: &'a Stmt,
    expected_name: &'a str,
    expected_param_count: usize,
) -> (&'a Vec<String>, &'a Stmt) {
    match stmt {
        Stmt::Function { name, params, body } => {
            assert_eq!(name, expected_name);
            assert_eq!(params.len(), expected_param_count);
            (params, body)
        }
        _ => panic!("Expected Function statement, got {:?}", stmt),
    }
}

fn if_stmt_of(stmt: &Stmt) -> (&Expr, &Stmt, &Option<Box<Stmt>>) {
    match stmt {
        Stmt::If {
            condition,
            then_branch,
            else_branch,
        } => (condition, then_branch, else_branch),
        _ => panic!("Expected If statement, got {:?}", stmt),
    }
}

fn while_stmt_of(stmt: &Stmt) -> (&Expr, &Stmt) {
    match stmt {
        Stmt::While { condition, body } => (condition, body),
        _ => panic!("Expected While statement, got {:?}", stmt),
    }
}

fn for_stmt_of(stmt: &Stmt) -> (&Option<Box<Stmt>>, &Option<Expr>, &Option<Expr>, &Stmt) {
    match stmt {
        Stmt::For {
            init,
            condition,
            update,
            body,
        } => (init, condition, update, body),
        _ => panic!("Expected For statement, got {:?}", stmt),
    }
}

fn return_stmt_of(stmt: &Stmt) -> &Option<Expr> {
    match stmt {
        Stmt::Return { value } => value,
        _ => panic!("Expected Return statement, got {:?}", stmt),
    }
}

fn block_stmt_of(stmt: &Stmt, expected_len: usize) -> &Vec<Stmt> {
    match stmt {
        Stmt::Block { statements } => {
            assert_eq!(statements.len(), expected_len);
            statements
        }
        _ => panic!("Expected Block statement, got {:?}", stmt),
    }
}

fn expression_stmt_of(stmt: &Stmt) -> &Expr {
    match stmt {
        Stmt::Expression { expr } => expr,
        _ => panic!("Expected Expression statement, got {:?}", stmt),
    }
}

fn import_stmt_of(stmt: &Stmt, expected_module: &str) {
    match stmt {
        Stmt::Import { module } => {
            assert_eq!(module, expected_module);
        }
        _ => panic!("Expected Import statement, got {:?}", stmt),
    }
}

fn export_stmt_of(stmt: &Stmt) -> &Stmt {
    match stmt {
        Stmt::Export { statement } => statement,
        _ => panic!("Expected Export statement, got {:?}", stmt),
    }
}

fn break_stmt_of(stmt: &Stmt) {
    match stmt {
        Stmt::Break => {}
        _ => panic!("Expected Break statement, got {:?}", stmt),
    }
}

fn continue_stmt_of(stmt: &Stmt) {
    match stmt {
        Stmt::Continue => {}
        _ => panic!("Expected Continue statement, got {:?}", stmt),
    }
}

#[derive(Debug, Clone)]
struct VariableTestCase {
    source: &'static str,
    name: &'static str,
    expected: i64,
}

#[derive(Debug, Clone)]
struct FunctionTestCase {
    source: &'static str,
    func_name: &'static str,
    param_names: &'static [&'static str],
}

#[derive(Debug, Clone)]
struct ErrorTestCase {
    source: &'static str,
    expected: &'static str,
}

const LET_CASES: &[VariableTestCase] = &[
    VariableTestCase {
        source: "let x = 42;",
        name: "x",
        expected: 42,
    },
    VariableTestCase {
        source: "let myVar = 123;",
        name: "myVar",
        expected: 123,
    },
    VariableTestCase {
        source: "let _underscore = 456;",
        name: "_underscore",
        expected: 456,
    },
];

const CONST_CASES: &[VariableTestCase] = &[
    VariableTestCase {
        source: "const PI = 314;",
        name: "PI",
        expected: 314,
    },
    VariableTestCase {
        source: "const MAX_SIZE = 1000;",
        name: "MAX_SIZE",
        expected: 1000,
    },
];

const FUNCTION_CASES: &[FunctionTestCase] = &[
    FunctionTestCase {
        source: "fn test() { return 42; }",
        func_name: "test",
        param_names: &[],
    },
    FunctionTestCase {
        source: "fn add(a, b) { return a + b; }",
        func_name: "add",
        param_names: &["a", "b"],
    },
    FunctionTestCase {
        source: "fn complex(x, y, z) { let result = x + y * z; return result; }",
        func_name: "complex",
        param_names: &["x", "y", "z"],
    },
];

const STATEMENT_ERROR_CASES: &[ErrorTestCase] = &[
    ErrorTestCase {
        source: "let;",
        expected: "Expected identifier",
    },
    ErrorTestCase {
        source: "let x = ;",
        expected: "Expected expression",
    },
    ErrorTestCase {
        source: "let x = 42",
        expected: "Unexpected end of file, expected Semicolon",
    },
    ErrorTestCase {
        source: "const;",
        expected: "Expected identifier",
    },
    ErrorTestCase {
        source: "fn;",
        expected: "Expected function name",
    },
    ErrorTestCase {
        source: "fn test;",
        expected: "Expected LeftParen",
    },
    ErrorTestCase {
        source: "fn test();",
        expected: "Expected LeftBrace",
    },
    ErrorTestCase {
        source: "fn test(a b) { }",
        expected: "Expected ',' or ')'",
    },
    ErrorTestCase {
        source: "if;",
        expected: "Expected expression",
    },
    ErrorTestCase {
        source: "if true;",
        expected: "Expected LeftBrace",
    },
    ErrorTestCase {
        source: "while;",
        expected: "Expected expression",
    },
    ErrorTestCase {
        source: "return",
        expected: "Unexpected end of file, expected Semicolon",
    },
    ErrorTestCase {
        source: "{ let x = 1;",
        expected: "expected RightBrace",
    },
    ErrorTestCase {
        source: "import;",
        expected: "Expected module name",
    },
    ErrorTestCase {
        source: "export;",
        expected: "Expected expression",
    },
];

#[test]
fn let_stmt() {
    for case in LET_CASES {
        let stmt = parse_stmt(case.source)
            .unwrap_or_else(|e| panic!("Failed to parse let statement '{}': {}", case.source, e.to_string()));

        let value = let_stmt_of(&stmt, case.name);
        literal_int(value, case.expected);
    }

    // Test let with complex expressions
    let stmt = parse_stmt("let result = 2 + 3 * 4;").unwrap();
    let value = let_stmt_of(&stmt, "result");
    let (left, right) = binary_op(value, BinaryOp::Add);
    literal_int(left, 2);

    let (mul_left, mul_right) = binary_op(right, BinaryOp::Mul);
    literal_int(mul_left, 3);
    literal_int(mul_right, 4);

    // Test let with string literal
    let stmt = parse_stmt(r#"let message = "Hello, World!";"#).unwrap();
    let value = let_stmt_of(&stmt, "message");
    literal_string(value, "Hello, World!");

    // Test let with boolean
    let stmt = parse_stmt("let flag = true;").unwrap();
    let value = let_stmt_of(&stmt, "flag");
    literal_bool(value, true);

    // Test let with variable reference
    let stmt = parse_stmt("let copy = original;").unwrap();
    let value = let_stmt_of(&stmt, "copy");
    variable(value, "original");
}

#[test]
fn const_stmt() {
    for case in CONST_CASES {
        let stmt = parse_stmt(case.source)
            .unwrap_or_else(|e| panic!("Failed to parse const statement '{}': {}", case.source, e.to_string()));

        let value = const_stmt_of(&stmt, case.name);
        literal_int(value, case.expected);
    }

    // Test const with expression
    let stmt = parse_stmt("const DOUBLED = 21 * 2;").unwrap();
    let value = const_stmt_of(&stmt, "DOUBLED");
    let (left, right) = binary_op(value, BinaryOp::Mul);
    literal_int(left, 21);
    literal_int(right, 2);
}

#[test]
fn fn_stmt() {
    for case in FUNCTION_CASES {
        let stmt = parse_stmt(case.source)
            .unwrap_or_else(|e| panic!("Failed to parse function '{}': {}", case.source, e.to_string()));

        let (params, _body) =
            function_stmt_of(&stmt, case.func_name, case.param_names.len());

        for (i, expected_param) in case.param_names.iter().enumerate() {
            assert_eq!(&params[i], expected_param);
        }
    }

    // Test function with complex body
    let stmt = parse_stmt(
        r#"
            fn calculate(x, y) {
                let sum = x + y;
                let product = x * y;
                return sum + product;
            }
        "#,
    )
    .unwrap();

    let (params, body) = function_stmt_of(&stmt, "calculate", 2);
    assert_eq!(params, &["x", "y"]);

    let statements = block_stmt_of(body, 3);

    // Check first statement: let sum = x + y;
    let sum_value = let_stmt_of(&statements[0], "sum");
    let (sum_left, sum_right) = binary_op(sum_value, BinaryOp::Add);

    variable(sum_left, "x");
    variable(sum_right, "y");

    // Check second statement: let product = x * y;
    let product_value = let_stmt_of(&statements[1], "product");
    let (prod_left, prod_right) = binary_op(product_value, BinaryOp::Mul);

    variable(prod_left, "x");
    variable(prod_right, "y");

    // Check third statement: return sum + product;
    let return_value = return_stmt_of(&statements[2]);

    assert!(return_value.is_some());

    let (ret_left, ret_right) =
        binary_op(return_value.as_ref().unwrap(), BinaryOp::Add);

    variable(ret_left, "sum");
    variable(ret_right, "product");
}

#[test]
fn if_stmt() {
    // Simple if statement
    let stmt = parse_stmt("if x > 0 { return x; }").unwrap();
    let (condition, then_branch, else_branch) = if_stmt_of(&stmt);

    let (cond_left, cond_right) = binary_op(condition, BinaryOp::Gt);
    variable(cond_left, "x");
    literal_int(cond_right, 0);

    let then_statements = block_stmt_of(then_branch, 1);
    let return_value = return_stmt_of(&then_statements[0]);
    assert!(return_value.is_some());
    variable(return_value.as_ref().unwrap(), "x");

    assert!(else_branch.is_none());

    // If-else statement
    let stmt = parse_stmt(
        r#"
            if score >= 90 {
                grade = "A";
            } else {
                grade = "B";
            }
        "#,
    )
    .unwrap();

    let (condition, .., else_branch) = if_stmt_of(&stmt);

    let (cond_left, cond_right) = binary_op(condition, BinaryOp::Ge);
    variable(cond_left, "score");
    literal_int(cond_right, 90);

    assert!(else_branch.is_some());
    let else_statements = block_stmt_of(else_branch.as_ref().unwrap(), 1);
    let else_expr = expression_stmt_of(&else_statements[0]);

    // Should be assignment: grade = "B"
    match else_expr {
        Expr::Assignment { target, value } => {
            variable(target, "grade");
            literal_string(value, "B");
        }
        _ => panic!("Expected assignment in else branch"),
    }

    // If-else if-else chain
    let stmt = parse_stmt(
        r#"
            if x < 0 {
                return -1;
            } else if x == 0 {
                return 0;
            } else {
                return 1;
            }
        "#,
    )
    .unwrap();

    let (.., else_branch) = if_stmt_of(&stmt);
    assert!(else_branch.is_some());

    // The else branch should be another if statement
    let else_if = else_branch.as_ref().unwrap();
    let (else_if_condition, _else_if_then, _final_else) = if_stmt_of(else_if);
    let (cond_left, cond_right) = binary_op(else_if_condition, BinaryOp::Eq);
    variable(cond_left, "x");
    literal_int(cond_right, 0);
}

#[test]
fn while_stmt() {
    // Simple while loop
    let stmt = parse_stmt(
        r#"
            while i < 10 {
                i = i + 1;
            }
        "#,
    )
    .unwrap();

    let (condition, body) = while_stmt_of(&stmt);

    let (cond_left, cond_right) = binary_op(condition, BinaryOp::Lt);
    variable(cond_left, "i");
    literal_int(cond_right, 10);

    let body_statements = block_stmt_of(body, 1);
    let assignment = expression_stmt_of(&body_statements[0]);

    match assignment {
        Expr::Assignment { target, value } => {
            variable(target, "i");
            let (val_left, val_right) = binary_op(value, BinaryOp::Add);
            variable(val_left, "i");
            literal_int(val_right, 1);
        }
        _ => panic!("Expected assignment in while body"),
    }

    // While with complex condition
    let stmt = parse_stmt(
        r#"
            while running && count < max_count {
                process();
                count++;
            }
        "#,
    )
    .unwrap();

    let (condition, body) = while_stmt_of(&stmt);
    let (left_cond, right_cond) = binary_op(condition, BinaryOp::And);
    variable(left_cond, "running");

    let (count_var, max_var) = binary_op(right_cond, BinaryOp::Lt);
    variable(count_var, "count");
    variable(max_var, "max_count");

    let body_statements = block_stmt_of(body, 2);

    // First statement should be function call
    let call_expr = expression_stmt_of(&body_statements[0]);
    let (_, args) = call_of(call_expr, "process", 0);
    assert_eq!(args.len(), 0);

    // Second statement should be post-increment
    let inc_expr = expression_stmt_of(&body_statements[1]);
    match inc_expr {
        Expr::PostIncrement { operand } => {
            variable(operand, "count");
        }
        _ => panic!("Expected post-increment"),
    }
}

#[test]
fn for_stmt() {
    // C-style for loop
    let stmt = parse_stmt(
        r#"
            for (let i = 0; i < 10; i++) {
                print(i);
            }
        "#,
    )
    .unwrap();

    let (init, condition, update, body) = for_stmt_of(&stmt);

    // Check init: let i = 0
    assert!(init.is_some());
    let init_value = let_stmt_of(init.as_ref().unwrap(), "i");
    literal_int(init_value, 0);

    // Check condition: i < 10
    assert!(condition.is_some());
    let (cond_left, cond_right) = binary_op(condition.as_ref().unwrap(), BinaryOp::Lt);
    variable(cond_left, "i");
    literal_int(cond_right, 10);

    // Check update: i++
    assert!(update.is_some());
    match update.as_ref().unwrap() {
        Expr::PostIncrement { operand } => {
            variable(&operand, "i");
        }
        _ => panic!("Expected post-increment in for update"),
    }

    // Check body
    let body_statements = block_stmt_of(body, 1);
    let call_expr = expression_stmt_of(&body_statements[0]);
    let (_, args) = call_of(call_expr, "print", 1);
    variable(&args[0], "i");

    // For loop with missing parts
    let stmt = parse_stmt("for (; i < 10; ) { break; }").unwrap();
    let (init, condition, update, _body) = for_stmt_of(&stmt);

    assert!(init.is_none());
    assert!(condition.is_some());
    assert!(update.is_none());

    // Infinite for loop
    let stmt = parse_stmt("for (;;) { break; }").unwrap();
    let (init, condition, update, _body) = for_stmt_of(&stmt);

    assert!(init.is_none());
    assert!(condition.is_none());
    assert!(update.is_none());
}

#[test]
fn return_stmt() {
    // Return with value
    let stmt = parse_stmt("return 42;").unwrap();
    let return_value = return_stmt_of(&stmt);
    assert!(return_value.is_some());
    literal_int(return_value.as_ref().unwrap(), 42);

    // Return with expression
    let stmt = parse_stmt("return x + y;").unwrap();
    let return_value = return_stmt_of(&stmt);
    assert!(return_value.is_some());
    let (left, right) = binary_op(return_value.as_ref().unwrap(), BinaryOp::Add);
    variable(left, "x");
    variable(right, "y");

    // Return with function call
    let stmt = parse_stmt("return calculateSum(a, b, c);").unwrap();
    let return_value = return_stmt_of(&stmt);
    assert!(return_value.is_some());
    let (_, args) = call_of(return_value.as_ref().unwrap(), "calculateSum", 3);
    variable(&args[0], "a");
    variable(&args[1], "b");
    variable(&args[2], "c");

    // Return without value
    let stmt = parse_stmt("return;").unwrap();
    let return_value = return_stmt_of(&stmt);
    assert!(return_value.is_none());
}

#[test]
fn block_stmt() {
    // Empty block
    let stmt = parse_stmt("{}").unwrap();
    let statements = block_stmt_of(&stmt, 0);
    assert_eq!(statements.len(), 0);

    // Block with multiple statements
    let stmt = parse_stmt(
        r#"
            {
                let x = 5;
                let y = 10;
                let sum = x + y;
                return sum;
            }
        "#,
    )
    .unwrap();

    let statements = block_stmt_of(&stmt, 4);

    let x_value = let_stmt_of(&statements[0], "x");
    literal_int(x_value, 5);

    let y_value = let_stmt_of(&statements[1], "y");
    literal_int(y_value, 10);

    let sum_value = let_stmt_of(&statements[2], "sum");
    let (sum_left, sum_right) = binary_op(sum_value, BinaryOp::Add);
    variable(sum_left, "x");
    variable(sum_right, "y");

    let return_value = return_stmt_of(&statements[3]);
    assert!(return_value.is_some());
    variable(return_value.as_ref().unwrap(), "sum");

    // Nested blocks
    let stmt = parse_stmt(
        r#"
            {
                let outer = 1;
                {
                    let inner = 2;
                    let total = outer + inner;
                }
                let final = outer;
            }
        "#,
    )
    .unwrap();

    let outer_statements = block_stmt_of(&stmt, 3);
    let_stmt_of(&outer_statements[0], "outer");

    let inner_statements = block_stmt_of(&outer_statements[1], 2);
    let_stmt_of(&inner_statements[0], "inner");
    let_stmt_of(&inner_statements[1], "total");

    let_stmt_of(&outer_statements[2], "final");
}

#[test]
fn expression_stmt() {
    // Function call as statement
    let stmt = parse_stmt("doSomething();").unwrap();
    let expr = expression_stmt_of(&stmt);
    let (_, args) = call_of(expr, "doSomething", 0);
    assert_eq!(args.len(), 0);

    // Assignment as statement
    let stmt = parse_stmt("x = 42;").unwrap();
    let expr = expression_stmt_of(&stmt);
    match expr {
        Expr::Assignment { target, value } => {
            variable(target, "x");
            literal_int(value, 42);
        }
        _ => panic!("Expected assignment"),
    }

    // Compound assignment as statement
    let stmt = parse_stmt("counter += 1;").unwrap();
    let expr = expression_stmt_of(&stmt);
    match expr {
        Expr::CompoundAssignment { target, op, value } => {
            variable(target, "counter");
            assert_eq!(*op, BinaryOp::Add);
            literal_int(value, 1);
        }
        _ => panic!("Expected compound assignment"),
    }

    // Post-increment as statement
    let stmt = parse_stmt("i++;").unwrap();
    let expr = expression_stmt_of(&stmt);
    match expr {
        Expr::PostIncrement { operand } => {
            variable(operand, "i");
        }
        _ => panic!("Expected post-increment"),
    }
}

#[test]
fn import_stmt() {
    // Import with string literal
    let stmt = parse_stmt(r#"import "math";"#).unwrap();
    import_stmt_of(&stmt, "math");

    // Import with identifier
    let stmt = parse_stmt("import utils;").unwrap();
    import_stmt_of(&stmt, "utils");

    // Import with path-like string
    let stmt = parse_stmt(r#"import "lib/collections";"#).unwrap();
    import_stmt_of(&stmt, "lib/collections");
}

#[test]
fn export_stmt() {
    // Export function
    let stmt = parse_stmt("export fn add(a, b) { return a + b; }").unwrap();
    let exported = export_stmt_of(&stmt);
    let (_, _) = function_stmt_of(exported, "add", 2);

    // Export variable
    let stmt = parse_stmt("export let API_KEY = \"secret\";").unwrap();
    let exported = export_stmt_of(&stmt);
    let value = let_stmt_of(exported, "API_KEY");
    literal_string(value, "secret");

    // Export const
    let stmt = parse_stmt("export const VERSION = 1;").unwrap();
    let exported = export_stmt_of(&stmt);
    let value = const_stmt_of(exported, "VERSION");
    literal_int(value, 1);
}

#[test]
fn break_continue_stmt() {
    // Break statement
    let stmt = parse_stmt("break;").unwrap();
    break_stmt_of(&stmt);

    // Continue statement
    let stmt = parse_stmt("continue;").unwrap();
    continue_stmt_of(&stmt);
}

#[test]
fn errors_stmt() {
    for case in STATEMENT_ERROR_CASES {
        assert_stmt_err(case.source, case.expected);
    }
}

#[test]
fn comment_stmt() {
    // Comments in function
    let stmt = parse_stmt(
        r#"
            fn test(/* param comment */ x) { // function comment
                // inside comment
                let y = x + 1; /* inline comment */
                return y; // return comment
            }
        "#,
    )
    .unwrap();

    let (params, body) = function_stmt_of(&stmt, "test", 1);
    assert_eq!(params[0], "x");

    let statements = block_stmt_of(body, 2);
    let_stmt_of(&statements[0], "y");
    return_stmt_of(&statements[1]);

    // Comments in blocks
    let stmt = parse_stmt(
        r#"
            {
                // First comment
                let a = 1;
                /* Block comment
                   spanning multiple
                   lines */
                let b = 2;
                // Final comment
            }
        "#,
    )
    .unwrap();

    let statements = block_stmt_of(&stmt, 2);
    let_stmt_of(&statements[0], "a");
    let_stmt_of(&statements[1], "b");
}

#[test]
fn trail_commas_stmt() {
    // Function parameters with trailing comma
    let stmt = parse_stmt("fn test(a, b, c,) { return a + b + c; }").unwrap();
    let (params, _) = function_stmt_of(&stmt, "test", 3);
    assert_eq!(params, &["a", "b", "c"]);

    // This should still work even if trailing commas are disabled
    // (since it's a parser config test, we'd need to test with custom config)
}

#[test]
fn nesting_stmt() {
    // Complex nested program
    let program = Parser::parse_src(
        r#"
            fn fibonacci(n) {
                if n <= 1 {
                    return n;
                } else {
                    return fibonacci(n - 1) + fibonacci(n - 2);
                }
            }
            
            fn main() {
                let count = 10;
                for (let i = 0; i < count; i++) {
                    let result = fibonacci(i);
                    if result > 50 {
                        break;
                    }
                    print(result);
                }
                
                while true {
                    let input = readInput();
                    if input == "quit" {
                        break;
                    }
                    process(input);
                }
            }
            
            export fn utility() {
                const MAX_RETRIES = 3;
                let attempts = 0;
                
                while attempts < MAX_RETRIES {
                    if tryOperation() {
                        return true;
                    }
                    attempts++;
                }
                
                return false;
            }
        "#,
    )
    .unwrap();

    assert_eq!(program.statements().len(), 3);

    // Test fibonacci function
    let (fib_params, fib_body) = function_stmt_of(&program.statements()[0], "fibonacci", 1);
    assert_eq!(fib_params[0], "n");

    let fib_statements = block_stmt_of(fib_body, 1);
    let (fib_condition, fib_then, fib_else) = if_stmt_of(&fib_statements[0]);

    // Check condition: n <= 1
    let (cond_left, cond_right) = binary_op(fib_condition, BinaryOp::Le);
    variable(cond_left, "n");
    literal_int(cond_right, 1);

    // Check then branch: return n
    let then_statements = block_stmt_of(fib_then, 1);
    let then_return = return_stmt_of(&then_statements[0]);
    assert!(then_return.is_some());
    variable(then_return.as_ref().unwrap(), "n");

    // Check else branch: return fibonacci(n-1) + fibonacci(n-2)
    assert!(fib_else.is_some());
    let else_statements = block_stmt_of(fib_else.as_ref().unwrap(), 1);
    let else_return = return_stmt_of(&else_statements[0]);
    assert!(else_return.is_some());

    let (add_left, add_right) =
        binary_op(else_return.as_ref().unwrap(), BinaryOp::Add);

    // Left side: fibonacci(n - 1)
    let (_, left_args) = call_of(add_left, "fibonacci", 1);
    let (sub_left, sub_right) = binary_op(&left_args[0], BinaryOp::Sub);
    variable(sub_left, "n");
    literal_int(sub_right, 1);

    // Right side: fibonacci(n - 2)
    let (_, right_args) = call_of(add_right, "fibonacci", 1);
    let (sub_left2, sub_right2) = binary_op(&right_args[0], BinaryOp::Sub);
    variable(sub_left2, "n");
    literal_int(sub_right2, 2);

    // Test main function
    let (main_params, main_body) = function_stmt_of(&program.statements()[1], "main", 0);
    assert_eq!(main_params.len(), 0);

    let main_statements = block_stmt_of(main_body, 3);

    // First statement: let count = 10;
    let count_value = let_stmt_of(&main_statements[0], "count");
    literal_int(count_value, 10);

    // Second statement: for loop
    let (for_init, for_condition, for_update, for_body) =
        for_stmt_of(&main_statements[1]);

    assert!(for_init.is_some());
    let init_value = let_stmt_of(for_init.as_ref().unwrap(), "i");
    literal_int(init_value, 0);

    assert!(for_condition.is_some());
    let (for_cond_left, for_cond_right) =
        binary_op(for_condition.as_ref().unwrap(), BinaryOp::Lt);
    variable(for_cond_left, "i");
    variable(for_cond_right, "count");

    assert!(for_update.is_some());
    match for_update.as_ref().unwrap() {
        Expr::PostIncrement { operand } => variable(&operand, "i"),
        _ => panic!("Expected post-increment"),
    }

    let for_body_statements = block_stmt_of(for_body, 3);

    // let result = fibonacci(i);
    let result_value = let_stmt_of(&for_body_statements[0], "result");
    let (_, fib_args) = call_of(result_value, "fibonacci", 1);
    variable(&fib_args[0], "i");

    // if result > 50 { break; }
    let (if_condition, if_then, if_else) = if_stmt_of(&for_body_statements[1]);
    let (if_left, if_right) = binary_op(if_condition, BinaryOp::Gt);
    variable(if_left, "result");
    literal_int(if_right, 50);

    let if_statements = block_stmt_of(if_then, 1);
    break_stmt_of(&if_statements[0]);
    assert!(if_else.is_none());

    // print(result);
    let print_expr = expression_stmt_of(&for_body_statements[2]);
    let (_, print_args) = call_of(print_expr, "print", 1);
    variable(&print_args[0], "result");

    // Third statement: while loop
    let (while_condition, while_body) = while_stmt_of(&main_statements[2]);
    literal_bool(while_condition, true);

    let while_statements = block_stmt_of(while_body, 3);

    // let input = readInput();
    let input_value = let_stmt_of(&while_statements[0], "input");
    let (_, input_args) = call_of(input_value, "readInput", 0);
    assert_eq!(input_args.len(), 0);

    // if input == "quit" { break; }
    let (quit_condition, quit_then, quit_else) = if_stmt_of(&while_statements[1]);
    let (quit_left, quit_right) = binary_op(quit_condition, BinaryOp::Eq);
    variable(quit_left, "input");
    literal_string(quit_right, "quit");

    let quit_statements = block_stmt_of(quit_then, 1);
    break_stmt_of(&quit_statements[0]);
    assert!(quit_else.is_none());

    // process(input);
    let process_expr = expression_stmt_of(&while_statements[2]);
    let (_, process_args) = call_of(process_expr, "process", 1);
    variable(&process_args[0], "input");

    // Test export utility function
    let exported = export_stmt_of(&program.statements()[2]);
    let (utility_params, utility_body) = function_stmt_of(exported, "utility", 0);
    assert_eq!(utility_params.len(), 0);

    let utility_statements = block_stmt_of(utility_body, 4);

    // const MAX_RETRIES = 3;
    let max_retries_value = const_stmt_of(&utility_statements[0], "MAX_RETRIES");
    literal_int(max_retries_value, 3);

    // let attempts = 0;
    let attempts_value = let_stmt_of(&utility_statements[1], "attempts");
    literal_int(attempts_value, 0);

    // while attempts < MAX_RETRIES { ... }
    let (util_while_condition, util_while_body) = while_stmt_of(&utility_statements[2]);
    let (util_cond_left, util_cond_right) =
        binary_op(util_while_condition, BinaryOp::Lt);
    variable(util_cond_left, "attempts");
    variable(util_cond_right, "MAX_RETRIES");

    let util_while_statements = block_stmt_of(util_while_body, 2);

    // if tryOperation() { return true; }
    let (try_condition, try_then, try_else) = if_stmt_of(&util_while_statements[0]);
    let (_, try_args) = call_of(try_condition, "tryOperation", 0);
    assert_eq!(try_args.len(), 0);

    let try_statements = block_stmt_of(try_then, 1);
    let try_return = return_stmt_of(&try_statements[0]);
    assert!(try_return.is_some());
    literal_bool(try_return.as_ref().unwrap(), true);
    assert!(try_else.is_none());

    // attempts++;
    let attempts_inc = expression_stmt_of(&util_while_statements[1]);
    match attempts_inc {
        Expr::PostIncrement { operand } => variable(operand, "attempts"),
        _ => panic!("Expected post-increment"),
    }

    // return false;
    let final_return = return_stmt_of(&utility_statements[3]);
    assert!(final_return.is_some());
    literal_bool(final_return.as_ref().unwrap(), false);
}

#[test]
fn edge_cases() {
    // Function with no parameters but with spaces
    let stmt = parse_stmt("fn test( ) { return 1; }").unwrap();
    let (params, _) = function_stmt_of(&stmt, "test", 0);
    assert_eq!(params.len(), 0);

    // Empty return in various contexts
    let stmt = parse_stmt(
        r#"
            fn test() {
                if true {
                    return;
                }
                return;
            }
        "#,
    )
    .unwrap();

    let (_, body) = function_stmt_of(&stmt, "test", 0);
    let statements = block_stmt_of(body, 2);

    let (_, if_then, _) = if_stmt_of(&statements[0]);
    let if_statements = block_stmt_of(if_then, 1);
    let if_return = return_stmt_of(&if_statements[0]);
    assert!(if_return.is_none());

    let final_return = return_stmt_of(&statements[1]);
    assert!(final_return.is_none());

    // Deeply nested blocks
    let stmt = parse_stmt(
        r#"
            {
                {
                    {
                        {
                            let deep = 42;
                        }
                    }
                }
            }
        "#,
    )
    .unwrap();

    let level1 = block_stmt_of(&stmt, 1);
    let level2 = block_stmt_of(&level1[0], 1);
    let level3 = block_stmt_of(&level2[0], 1);
    let level4 = block_stmt_of(&level3[0], 1);
    let deep_value = let_stmt_of(&level4[0], "deep");
    literal_int(deep_value, 42);

    // For loop with complex expressions
    let stmt = parse_stmt(
        r#"
            for (let i = start + offset; i < getMax() - 1; i += step * 2) {
                process(arr[i]);
            }
        "#,
    )
    .unwrap();

    let (init, condition, update, body) = for_stmt_of(&stmt);

    // Check complex init: let i = start + offset
    assert!(init.is_some());
    let init_value = let_stmt_of(init.as_ref().unwrap(), "i");
    let (init_left, init_right) = binary_op(init_value, BinaryOp::Add);
    variable(init_left, "start");
    variable(init_right, "offset");

    // Check complex condition: i < getMax() - 1
    assert!(condition.is_some());
    let (cond_left, cond_right) = binary_op(condition.as_ref().unwrap(), BinaryOp::Lt);
    variable(cond_left, "i");

    let (max_left, max_right) = binary_op(cond_right, BinaryOp::Sub);
    let (_, max_args) = call_of(max_left, "getMax", 0);
    assert_eq!(max_args.len(), 0);
    literal_int(max_right, 1);

    // Check complex update: i += step * 2
    assert!(update.is_some());
    match update.as_ref().unwrap() {
        Expr::CompoundAssignment { target, op, value } => {
            variable(target, "i");
            assert_eq!(*op, BinaryOp::Add);
            let (step_left, step_right) = binary_op(value, BinaryOp::Mul);
            variable(step_left, "step");
            literal_int(step_right, 2);
        }
        _ => panic!("Expected compound assignment in for update"),
    }

    // Check body: process(arr[i])
    let body_statements = block_stmt_of(body, 1);
    let process_expr = expression_stmt_of(&body_statements[0]);
    let (_, process_args) = call_of(process_expr, "process", 1);

    let (arr_obj, arr_index) = index_of(&process_args[0]);
    variable(arr_obj, "arr");
    variable(arr_index, "i");
}
