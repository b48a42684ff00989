use nuzo::ast::{AssignTarget, BinaryOp, Expr, MatchPattern, Program, Stmt, UnaryOp};
use nuzo::parser::{ParseError, Parser};
// 注：std::assert_matches 在 Rust 1.88.0 stable 中仍为 unstable feature，
// 改用稳定的 matches!() 宏 + assert! 组合。
// use std::assert_matches;

// 数字字面量的数值（语法树按书写保存数字文本）
fn num(text: &str) -> f64 {
    text.parse().unwrap()
}

// 辅助函数：解析源代码并返回 Program
fn parse_source(source: &str) -> Result<Program, ParseError> {
    Parser::parse(source)
}

// 辅助函数：解析单个表达式语句
fn parse_expr(source: &str) -> Result<Expr, ParseError> {
    let mut program = parse_source(source)?;
    assert_eq!(program.statements.len(), 1);
    match program.statements.remove(0) {
        Stmt::Expr(expr) => Ok(expr),
        _ => panic!("Expected expression statement"),
    }
}


#[test]
fn test_parse_import_eager() {
    let program = parse_source(r#"import "path/to/file.nuzo""#).unwrap();
    assert_eq!(program.statements.len(), 1);
    match &program.statements[0] {
        Stmt::Import { path, lazy, span, .. } => {
            assert_eq!(path, "path/to/file.nuzo");
            assert!(!*lazy, "eager import 应为 lazy=false");
            assert_eq!(span.line, 1);
            assert_eq!(span.column, 1);
        }
        other => panic!("Expected Stmt::Import, got {:?}", other),
    }
}

#[test]
fn test_parse_import_lazy() {
    let program = parse_source(r#"lazy import "path/to/file.nuzo""#).unwrap();
    assert_eq!(program.statements.len(), 1);
    match &program.statements[0] {
        Stmt::Import { path, lazy, .. } => {
            assert_eq!(path, "path/to/file.nuzo");
            assert!(*lazy, "lazy import 应为 lazy=true");
        }
        other => panic!("Expected Stmt::Import, got {:?}", other),
    }
}

#[test]
fn test_parse_import_chinese_eager() {
    let program = parse_source(r#"导入 "路径/文件.nuzo""#).unwrap();
    assert_eq!(program.statements.len(), 1);
    match &program.statements[0] {
        Stmt::Import { path, lazy, .. } => {
            assert_eq!(path, "路径/文件.nuzo");
            assert!(!*lazy);
        }
        other => panic!("Expected Stmt::Import, got {:?}", other),
    }
}

#[test]
fn test_parse_import_chinese_lazy() {
    let program = parse_source(r#"懒 导入 "路径/文件.nuzo""#).unwrap();
    assert_eq!(program.statements.len(), 1);
    match &program.statements[0] {
        Stmt::Import { path, lazy, .. } => {
            assert_eq!(path, "路径/文件.nuzo");
            assert!(*lazy);
        }
        other => panic!("Expected Stmt::Import, got {:?}", other),
    }
}

#[test]
fn test_parse_import_with_alias() {
    // alias 解析后忽略，path 仍为字面量
    let program = parse_source(r#"import "path/to/file.nuzo" as mymod"#).unwrap();
    assert_eq!(program.statements.len(), 1);
    match &program.statements[0] {
        Stmt::Import { path, lazy, .. } => {
            assert_eq!(path, "path/to/file.nuzo");
            assert!(!*lazy);
        }
        other => panic!("Expected Stmt::Import, got {:?}", other),
    }
}

#[test]
fn test_parse_import_error_non_string() {
    // import 后是数字（既非字符串也非标识符）→ "expected string literal or identifier after import"
    let err = parse_source("import 42").unwrap_err();
    assert!(
        err.message.contains("expected string literal or identifier after import"),
        "错误信息不对: {}",
        err.message
    );
}

#[test]
fn test_parse_import_error_eof() {
    // import 后 EOF → "unexpected EOF after import"
    let err = parse_source("import").unwrap_err();
    assert!(
        err.message.contains("unexpected EOF after import"),
        "错误信息不对: {}",
        err.message
    );
}

#[test]
fn test_parse_import_error_lazy_no_import() {
    // lazy 后非 import → "expected import after lazy"
    let err = parse_source("lazy 42").unwrap_err();
    assert!(
        err.message.contains("expected import after lazy"),
        "错误信息不对: {}",
        err.message
    );
}

#[test]
fn test_parse_import_error_lazy_eof() {
    // lazy 后 EOF → "expected import after lazy"
    let err = parse_source("lazy").unwrap_err();
    assert!(
        err.message.contains("expected import after lazy"),
        "错误信息不对: {}",
        err.message
    );
}

#[test]
fn test_parse_import_chinese_alias() {
    // 中文 as 别名（作为）
    let program = parse_source(r#"导入 "路径/文件.nuzo" 作为 模块别名"#).unwrap();
    assert_eq!(program.statements.len(), 1);
    match &program.statements[0] {
        Stmt::Import { path, lazy, .. } => {
            assert_eq!(path, "路径/文件.nuzo");
            assert!(!*lazy);
        }
        other => panic!("Expected Stmt::Import, got {:?}", other),
    }
}

#[test]
fn test_parse_import_multiple_statements() {
    // 多条 import 语句混合中英文
    let src = r#"
        import "a.nuzo"
        lazy import "b.nuzo"
        导入 "c.nuzo"
        懒 导入 "d.nuzo"
    "#;
    let program = parse_source(src).unwrap();
    assert_eq!(program.statements.len(), 4);
    // 第一条 eager
    match &program.statements[0] {
        Stmt::Import { path, lazy, .. } => {
            assert_eq!(path, "a.nuzo");
            assert!(!*lazy);
        }
        _ => panic!("stmt[0] 应为 Import"),
    }
    // 第二条 lazy
    match &program.statements[1] {
        Stmt::Import { path, lazy, .. } => {
            assert_eq!(path, "b.nuzo");
            assert!(*lazy);
        }
        _ => panic!("stmt[1] 应为 Import"),
    }
    // 第三条中文 eager
    match &program.statements[2] {
        Stmt::Import { path, lazy, .. } => {
            assert_eq!(path, "c.nuzo");
            assert!(!*lazy);
        }
        _ => panic!("stmt[2] 应为 Import"),
    }
    // 第四条中文 lazy
    match &program.statements[3] {
        Stmt::Import { path, lazy, .. } => {
            assert_eq!(path, "d.nuzo");
            assert!(*lazy);
        }
        _ => panic!("stmt[3] 应为 Import"),
    }
}

#[test]
fn test_import_module_name() {
    // import math — 标识符模块名，不带引号
    let program = parse_source("import math").unwrap();
    assert_eq!(program.statements.len(), 1);
    match &program.statements[0] {
        Stmt::Import { path, lazy, alias, .. } => {
            assert_eq!(path, "math");
            assert!(!*lazy, "eager import 应为 lazy=false");
            assert_eq!(*alias, None, "无 as 时 alias 应为 None");
        }
        other => panic!("Expected Stmt::Import, got {:?}", other),
    }
}

#[test]
fn test_import_string_path() {
    // import "utils.nuzo" — 字符串字面量路径
    let program = parse_source(r#"import "utils.nuzo""#).unwrap();
    assert_eq!(program.statements.len(), 1);
    match &program.statements[0] {
        Stmt::Import { path, lazy, alias, .. } => {
            assert_eq!(path, "utils.nuzo");
            assert!(!*lazy);
            assert_eq!(*alias, None);
        }
        other => panic!("Expected Stmt::Import, got {:?}", other),
    }
}

#[test]
fn test_import_with_alias() {
    // import "utils.nuzo" as utils — 字符串路径 + 别名
    let program = parse_source(r#"import "utils.nuzo" as utils"#).unwrap();
    assert_eq!(program.statements.len(), 1);
    match &program.statements[0] {
        Stmt::Import { path, lazy, alias, .. } => {
            assert_eq!(path, "utils.nuzo");
            assert!(!*lazy);
            assert_eq!(*alias, Some("utils".to_string()));
        }
        other => panic!("Expected Stmt::Import, got {:?}", other),
    }
}

#[test]
fn test_import_module_name_with_alias() {
    // import math as m — 标识符模块名 + 别名
    let program = parse_source("import math as m").unwrap();
    assert_eq!(program.statements.len(), 1);
    match &program.statements[0] {
        Stmt::Import { path, lazy, alias, .. } => {
            assert_eq!(path, "math");
            assert!(!*lazy);
            assert_eq!(*alias, Some("m".to_string()));
        }
        other => panic!("Expected Stmt::Import, got {:?}", other),
    }
}

#[test]
fn test_import_missing_path() {
    // import 后 EOF → 错误
    let err = parse_source("import").unwrap_err();
    assert!(
        err.message.contains("unexpected EOF after import"),
        "错误信息不对: {}",
        err.message
    );
}

#[test]
fn test_import_as_without_ident() {
    // import "x.nuzo" as — as 后无标识符 → 错误
    let err = parse_source(r#"import "x.nuzo" as"#).unwrap_err();
    assert!(
        err.message.contains("expected identifier after as"),
        "错误信息不对: {}",
        err.message
    );
}


#[test]
fn test_parse_integer() {
    let expr = parse_expr("42").unwrap();
    match expr {
        Expr::Number { value, .. } => assert_eq!(num(&value), 42.0),
        _ => panic!("Expected Number"),
    }
}

#[test]
fn test_parse_float() {
    let expr = parse_expr("2.5").unwrap();
    match expr {
        Expr::Number { value, .. } => assert!((num(&value) - 2.5).abs() < 1e-10),
        _ => panic!("Expected Number"),
    }
}

#[test]
fn test_parse_negative_number() {
    let expr = parse_expr("-42").unwrap();
    match expr {
        Expr::Unary { op: UnaryOp::Negate, operand, .. } => match *operand {
            Expr::Number { value, .. } => assert_eq!(num(&value), 42.0),
            _ => panic!("Expected number operand"),
        },
        _ => panic!("Expected unary negate"),
    }
}

#[test]
fn test_parse_string() {
    let expr = parse_expr("\"hello\"").unwrap();
    match expr {
        Expr::String { value, .. } => assert_eq!(value, "hello"),
        _ => panic!("Expected String"),
    }
}

#[test]
fn test_parse_string_with_spaces() {
    let expr = parse_expr("\"hello world\"").unwrap();
    match expr {
        Expr::String { value, .. } => assert_eq!(value, "hello world"),
        _ => panic!("Expected String"),
    }
}

#[test]
fn test_parse_true() {
    let expr = parse_expr("true").unwrap();
    match expr {
        Expr::Bool { value, .. } => assert!(value),
        _ => panic!("Expected Bool(true)"),
    }
}

#[test]
fn test_parse_false() {
    let expr = parse_expr("false").unwrap();
    match expr {
        Expr::Bool { value, .. } => assert!(!value),
        _ => panic!("Expected Bool(false)"),
    }
}

#[test]
fn test_parse_nil() {
    let expr = parse_expr("nil").unwrap();
    assert!(matches!(expr, Expr::Nil { .. }));
}

#[test]
fn test_parse_identifier() {
    let expr = parse_expr("myVar").unwrap();
    match expr {
        Expr::Ident { name, .. } => assert_eq!(name, "myVar"),
        _ => panic!("Expected Ident"),
    }
}

#[test]
fn test_parse_zero() {
    let expr = parse_expr("0").unwrap();
    match expr {
        Expr::Number { value, .. } => assert_eq!(num(&value), 0.0),
        _ => panic!("Expected Number(0)"),
    }
}


#[test]
fn test_addition() {
    let expr = parse_expr("1 + 2").unwrap();
    match expr {
        Expr::Binary { op: BinaryOp::Add, .. } => (),
        _ => panic!("Expected Add"),
    }
}

#[test]
fn test_subtraction() {
    let expr = parse_expr("5 - 3").unwrap();
    match expr {
        Expr::Binary { op: BinaryOp::Sub, .. } => (),
        _ => panic!("Expected Sub"),
    }
}

#[test]
fn test_multiplication() {
    let expr = parse_expr("4 * 3").unwrap();
    match expr {
        Expr::Binary { op: BinaryOp::Mul, .. } => (),
        _ => panic!("Expected Mul"),
    }
}

#[test]
fn test_division() {
    let expr = parse_expr("10 / 2").unwrap();
    match expr {
        Expr::Binary { op: BinaryOp::Div, .. } => (),
        _ => panic!("Expected Div"),
    }
}

#[test]
fn test_modulo() {
    let expr = parse_expr("7 % 3").unwrap();
    match expr {
        Expr::Binary { op: BinaryOp::Mod, .. } => (),
        _ => panic!("Expected Mod"),
    }
}

#[test]
fn test_equality() {
    let expr = parse_expr("1 == 2").unwrap();
    match expr {
        Expr::Binary { op: BinaryOp::Eq, .. } => (),
        _ => panic!("Expected Eq"),
    }
}

#[test]
fn test_inequality() {
    let expr = parse_expr("1 != 2").unwrap();
    match expr {
        Expr::Binary { op: BinaryOp::Neq, .. } => (),
        _ => panic!("Expected Neq"),
    }
}

#[test]
fn test_less_than() {
    let expr = parse_expr("1 < 2").unwrap();
    match expr {
        Expr::Binary { op: BinaryOp::Lt, .. } => (),
        _ => panic!("Expected Lt"),
    }
}

#[test]
fn test_greater_than() {
    let expr = parse_expr("2 > 1").unwrap();
    match expr {
        Expr::Binary { op: BinaryOp::Gt, .. } => (),
        _ => panic!("Expected Gt"),
    }
}

#[test]
fn test_less_equal() {
    let expr = parse_expr("1 <= 2").unwrap();
    match expr {
        Expr::Binary { op: BinaryOp::LtEq, .. } => (),
        _ => panic!("Expected LtEq"),
    }
}

#[test]
fn test_greater_equal() {
    let expr = parse_expr("2 >= 1").unwrap();
    match expr {
        Expr::Binary { op: BinaryOp::GtEq, .. } => (),
        _ => panic!("Expected GtEq"),
    }
}

#[test]
fn test_logical_and() {
    let expr = parse_expr("true && false").unwrap();
    match expr {
        Expr::And { .. } => (),
        _ => panic!("Expected And"),
    }
}

#[test]
fn test_logical_or() {
    let expr = parse_expr("true || false").unwrap();
    match expr {
        Expr::Or { .. } => (),
        _ => panic!("Expected Or"),
    }
}

#[test]
fn test_unary_negate() {
    let expr = parse_expr("-x").unwrap();
    match expr {
        Expr::Unary { op: UnaryOp::Negate, .. } => (),
        _ => panic!("Expected Negate"),
    }
}

#[test]
fn test_unary_not() {
    let expr = parse_expr("!true").unwrap();
    match expr {
        Expr::Unary { op: UnaryOp::Not, .. } => (),
        _ => panic!("Expected Not"),
    }
}

#[test]
fn test_operator_precedence_multiplication_before_addition() {
    let expr = parse_expr("2 + 3 * 4").unwrap();
    // 应该解析为 2 + (3 * 4)
    match expr {
        Expr::Binary { op: BinaryOp::Add, right, .. } => match *right {
            Expr::Binary { op: BinaryOp::Mul, .. } => (),
            _ => panic!("Right should be multiplication"),
        },
        _ => panic!("Expected Add at top level"),
    }
}

#[test]
fn test_operator_precedence_comparison_before_logical() {
    let expr = parse_expr("a < b && c > d").unwrap();
    // 应该解析为 (a < b) && (c > d)
    match expr {
        Expr::And { left, right, .. } => {
            assert!(matches!(*left, Expr::Binary { op: BinaryOp::Lt, .. }));
            assert!(matches!(*right, Expr::Binary { op: BinaryOp::Gt, .. }));
        }
        _ => panic!("Expected And"),
    }
}


#[test]
fn test_if_statement() {
    let program = parse_source("if true { 1 }").unwrap();
    assert_eq!(program.statements.len(), 1);
    if let Stmt::Expr(Expr::If { condition, then_branch, else_branch, .. }) =
        &program.statements[0]
    {
        assert!(matches!(*condition.as_ref(), Expr::Bool { value: true, .. }));
        assert!(else_branch.is_none());
        assert_eq!(then_branch.len(), 1);
    } else {
        panic!("Expected If expression");
    }
}

#[test]
fn test_if_else_statement() {
    let program = parse_source("if true { 1 } else { 2 }").unwrap();
    if let Stmt::Expr(Expr::If { else_branch, .. }) = &program.statements[0] {
        assert!(else_branch.is_some());
    } else {
        panic!("Expected If with else");
    }
}

#[test]
fn test_if_else_if_chain() {
    let program = parse_source("if a { 1 } else if b { 2 } else { 3 }").unwrap();
    if let Stmt::Expr(Expr::If { else_branch, .. }) = &program.statements[0] {
        assert!(else_branch.is_some());
        // 嵌套的 if-else-if
        if let Some(else_expr) = else_branch {
            assert!(matches!(else_expr.as_ref(), Expr::If { .. }));
        }
    }
}

#[test]
fn test_while_loop() {
    let program = parse_source("while true { break }").unwrap();
    if let Stmt::Expr(Expr::While { condition, body, .. }) = &program.statements[0] {
        assert!(matches!(*condition.as_ref(), Expr::Bool { value: true, .. }));
        assert_eq!(body.len(), 1);
    } else {
        panic!("Expected While");
    }
}

#[test]
fn test_loop_infinite() {
    let program = parse_source("loop { break }").unwrap();
    if let Stmt::Expr(Expr::Loop { body, .. }) = &program.statements[0] {
        assert_eq!(body.len(), 1);
    } else {
        panic!("Expected Loop");
    }
}

#[test]
fn test_for_in_loop() {
    let program = parse_source("for x in [1, 2, 3] { x }").unwrap();
    if let Stmt::Expr(Expr::ForIn { var_name, iterable, body, .. }) = &program.statements[0]
    {
        assert_eq!(var_name, "x");
        assert!(matches!(*iterable.as_ref(), Expr::Array { .. }));
        assert_eq!(body.len(), 1);
    } else {
        panic!("Expected ForIn");
    }
}

#[test]
fn test_return_statement() {
    let program = parse_source("return 42").unwrap();
    if let Stmt::Expr(Expr::Return { value, .. }) = &program.statements[0] {
        assert!(value.is_some());
    } else {
        panic!("Expected Return");
    }
}

#[test]
fn test_return_without_value() {
    let program = parse_source("return").unwrap();
    if let Stmt::Expr(Expr::Return { value, .. }) = &program.statements[0] {
        assert!(value.is_none());
    } else {
        panic!("Expected Return without value");
    }
}

#[test]
fn test_break_statement() {
    let program = parse_source("break").unwrap();
    if let Stmt::Expr(Expr::Break { value, .. }) = &program.statements[0] {
        assert!(value.is_none());
    } else {
        panic!("Expected Break");
    }
}

#[test]
fn test_break_with_value() {
    let program = parse_source("break 42").unwrap();
    if let Stmt::Expr(Expr::Break { value, .. }) = &program.statements[0] {
        assert!(value.is_some());
    } else {
        panic!("Expected Break with value");
    }
}

#[test]
fn test_continue_statement() {
    let program = parse_source("continue").unwrap();
    assert!(matches!(&program.statements[0], Stmt::Expr(Expr::Continue { .. })));
}

#[test]
fn test_nested_control_flow() {
    let program = parse_source("if true { while false { break } }").unwrap();
    assert_eq!(program.statements.len(), 1);
}


#[test]
fn test_array_literal() {
    let expr = parse_expr("[1, 2, 3]").unwrap();
    match expr {
        Expr::Array { elements, .. } => assert_eq!(elements.len(), 3),
        _ => panic!("Expected Array"),
    }
}

#[test]
fn test_empty_array() {
    let expr = parse_expr("[]").unwrap();
    match expr {
        Expr::Array { elements, .. } => assert!(elements.is_empty()),
        _ => panic!("Expected empty Array"),
    }
}

#[test]
fn test_single_element_array() {
    let expr = parse_expr("[42]").unwrap();
    match expr {
        Expr::Array { elements, .. } => assert_eq!(elements.len(), 1),
        _ => panic!("Expected Array with one element"),
    }
}

#[test]
fn test_tuple_literal() {
    let expr = parse_expr("(1, 2, 3)").unwrap();
    match expr {
        Expr::Tuple { elements, .. } => assert_eq!(elements.len(), 3),
        _ => panic!("Expected Tuple"),
    }
}

#[test]
fn test_parenthesized_expression() {
    let expr = parse_expr("(1 + 2)").unwrap();
    match expr {
        Expr::Number { value, .. } => assert_eq!(num(&value), 3.0), // 应该被求值为 3？不，这只是解析
        Expr::Binary { op: BinaryOp::Add, .. } => (),         // 实际上应该是二元运算
        _ => panic!("Expected parenthesized expression"),
    }
}

#[test]
fn test_dict_literal() {
    let expr = parse_expr("{a: 1, b: 2}").unwrap();
    match expr {
        Expr::Dict { pairs, .. } => assert_eq!(pairs.len(), 2),
        _ => panic!("Expected Dict"),
    }
}

#[test]
fn test_dict_with_string_keys() {
    let expr = parse_expr("{\"key\": \"value\"}").unwrap();
    match expr {
        Expr::Dict { pairs, .. } => {
            assert_eq!(pairs.len(), 1);
            assert_eq!(pairs[0].0, "key");
        }
        _ => panic!("Expected Dict with string keys"),
    }
}

#[test]
fn test_empty_dict() {
    let result = parse_expr("{}");
    match result {
        Ok(Expr::Dict { pairs, .. }) => assert!(pairs.is_empty()),
        Ok(Expr::Block { .. }) => {}
        Ok(_) => panic!("Expected empty Dict or Block"),
        Err(_) => {}
    }
}

#[test]
fn test_block_expression() {
    let result = parse_expr("{ 1; 2; 3 }");
    match result {
        Ok(Expr::Block { statements, .. }) => assert_eq!(statements.len(), 3),
        Ok(_) => {}
        Err(_) => {}
    }
}

#[test]
fn test_range_inclusive() {
    let expr = parse_expr("1..5").unwrap();
    match expr {
        Expr::Range { inclusive, .. } => assert!(inclusive),
        _ => panic!("Expected inclusive Range"),
    }
}

#[test]
fn test_range_exclusive() {
    let expr = parse_expr("1..<5").unwrap();
    match expr {
        Expr::Range { inclusive, .. } => assert!(!inclusive),
        _ => panic!("Expected exclusive Range"),
    }
}


#[test]
fn test_function_declaration() {
    let program = parse_source("fn add(a, b) { a + b }").unwrap();
    if let Stmt::Expr(Expr::Fn { name, params, body, .. }) = &program.statements[0] {
        assert_eq!(name.as_deref(), Some("add"));
        assert_eq!(params.len(), 2);
        assert_eq!(params[0], "a");
        assert_eq!(params[1], "b");
        assert_eq!(body.len(), 1);
    } else {
        panic!("Expected Fn declaration");
    }
}

#[test]
fn test_anonymous_function() {
    let program = parse_source("fn(a, b) { a + b }").unwrap();
    if let Stmt::Expr(Expr::Fn { name, params, .. }) = &program.statements[0] {
        assert!(name.is_none());
        assert_eq!(params.len(), 2);
    } else {
        panic!("Expected anonymous Fn");
    }
}

#[test]
fn test_function_no_params() {
    let program = parse_source("fn hello() { 42 }").unwrap();
    if let Stmt::Expr(Expr::Fn { params, .. }) = &program.statements[0] {
        assert!(params.is_empty());
    } else {
        panic!("Expected Fn with no params");
    }
}

#[test]
fn test_function_single_param() {
    let program = parse_source("fn square(x) { x * x }").unwrap();
    if let Stmt::Expr(Expr::Fn { params, .. }) = &program.statements[0] {
        assert_eq!(params.len(), 1);
        assert_eq!(params[0], "x");
    } else {
        panic!("Expected Fn with single param");
    }
}

#[test]
fn test_function_call_no_args() {
    let expr = parse_expr("foo()").unwrap();
    match expr {
        Expr::Call { args, .. } => assert!(args.is_empty()),
        _ => panic!("Expected Call with no args"),
    }
}

#[test]
fn test_function_call_with_args() {
    let expr = parse_expr("foo(1, 2, 3)").unwrap();
    match expr {
        Expr::Call { args, .. } => assert_eq!(args.len(), 3),
        _ => panic!("Expected Call with args"),
    }
}

#[test]
fn test_nested_function_calls() {
    let result = parse_expr("foo(bar(baz()))");
    match result {
        Ok(Expr::Call { callee, args, .. }) => {
            match *callee {
                Expr::Call { .. } => {}
                Expr::Ident { .. } => {}
                _ => {}
            }
            let _ = args;
        }
        Ok(_) => {}
        Err(_) => {}
    }
}

#[test]
fn test_function_as_value() {
    let program = parse_source("fn(x) { x }").unwrap();
    assert!(matches!(&program.statements[0], Stmt::Expr(Expr::Fn { name: None, .. })));
}

#[test]
fn test_arrow_single_param_expr() {
    let expr = parse_expr("x => x + 1").unwrap();
    match expr {
        Expr::Closure { params, body, .. } => {
            assert_eq!(params.len(), 1);
            assert_eq!(params[0], "x");
            assert_eq!(body.len(), 1);
        }
        _ => panic!("Expected Closure, got {:?}", expr),
    }
}

#[test]
fn test_arrow_single_param_block() {
    let expr = parse_expr("x => { return x }").unwrap();
    match expr {
        Expr::Closure { params, body, .. } => {
            assert_eq!(params.len(), 1);
            assert_eq!(params[0], "x");
            assert!(!body.is_empty());
        }
        _ => panic!("Expected Closure, got {:?}", expr),
    }
}

#[test]
fn test_arrow_multi_params() {
    let expr = parse_expr("(a, b) => a + b").unwrap();
    match expr {
        Expr::Closure { params, .. } => {
            assert_eq!(params.len(), 2);
            assert_eq!(params[0], "a");
            assert_eq!(params[1], "b");
        }
        _ => panic!("Expected Closure, got {:?}", expr),
    }
}

#[test]
fn test_arrow_no_params() {
    let expr = parse_expr("() => 42").unwrap();
    match expr {
        Expr::Closure { params, .. } => {
            assert!(params.is_empty());
        }
        _ => panic!("Expected Closure, got {:?}", expr),
    }
}

#[test]
fn test_arrow_assigned_to_var() {
    let program = parse_source("add = (a, b) => a + b").unwrap();
    match &program.statements[0] {
        Stmt::Assign { value, .. } => assert!(matches!(value, Expr::Closure { .. })),
        _ => panic!("Expected Assign with Closure"),
    }
}

#[test]
fn test_arrow_nested() {
    let expr = parse_expr("x => y => x + y").unwrap();
    match expr {
        Expr::Closure { params, body, .. } => {
            assert_eq!(params.len(), 1);
            assert_eq!(params[0], "x");
            if let Stmt::Expr(Expr::Return { value: Some(inner), .. }) = &body[0] {
                if let Expr::Closure { params: inner_params, .. } = inner.as_ref() {
                    assert_eq!(inner_params.len(), 1);
                    assert_eq!(inner_params[0], "y");
                } else {
                    panic!("Expected nested Closure in body");
                }
            } else {
                panic!("Expected Return wrapping Closure in body");
            }
        }
        _ => panic!("Expected outer Closure"),
    }
}

#[test]
fn test_paren_expr_not_arrow() {
    let expr = parse_expr("(1 + 2)").unwrap();
    assert!(matches!(expr, Expr::Binary { .. }));
}


#[test]
fn test_simple_assignment() {
    let program = parse_source("x = 42").unwrap();
    if let Stmt::Assign { target, value, .. } = &program.statements[0] {
        match target {
            AssignTarget::Ident { name } => assert_eq!(name, "x"),
            _ => panic!("Expected Ident target"),
        }
        assert!(matches!(value, Expr::Number { value: v, .. } if num(v) == 42.0));
    } else {
        panic!("Expected Assign statement");
    }
}

#[test]
fn test_property_assignment() {
    let program = parse_source("obj.prop = 42").unwrap();
    if let Stmt::Assign { target, .. } = &program.statements[0] {
        match target {
            AssignTarget::Field { name, .. } => assert_eq!(name, "prop"),
            _ => panic!("Expected Field target"),
        }
    } else {
        panic!("Expected Assign to property");
    }
}

#[test]
fn test_index_assignment() {
    let program = parse_source("arr[0] = 42").unwrap();
    if let Stmt::Assign { target, .. } = &program.statements[0] {
        assert!(matches!(target, AssignTarget::Index { .. }));
    } else {
        panic!("Expected Assign to index");
    }
}

#[test]
fn test_assignment_with_complex_expression() {
    let program = parse_source("x = 1 + 2 * 3").unwrap();
    if let Stmt::Assign { value, .. } = &program.statements[0] {
        assert!(matches!(*value, Expr::Binary { .. }));
    } else {
        panic!("Expected Assign with complex value");
    }
}

#[test]
fn test_chained_property_assignment() {
    let program = parse_source("obj.a.b = 42").unwrap();
    if let Stmt::Assign { target, .. } = &program.statements[0] {
        match target {
            AssignTarget::Field { object, name } => {
                assert_eq!(name, "b");
                matches!(**object, Expr::Field { .. }); // obj.a.b
            }
            _ => panic!("Expected chained Field target"),
        }
    } else {
        panic!("Expected chained property assignment");
    }
}

#[test]
fn test_invalid_assignment_target_number() {
    let result = parse_source("1 = 2");
    assert!(result.is_err());
    let err = result.unwrap_err();
    assert_eq!(err.message, "invalid assignment target");
}


#[test]
fn test_dot_access() {
    let expr = parse_expr("obj.prop").unwrap();
    match expr {
        Expr::Field { name, .. } => assert_eq!(name, "prop"),
        _ => panic!("Expected Field access"),
    }
}

#[test]
fn test_index_access() {
    let expr = parse_expr("arr[0]").unwrap();
    assert!(matches!(expr, Expr::Index { .. }));
}

#[test]
fn test_chained_dot_access() {
    let expr = parse_expr("a.b.c").unwrap();
    match expr {
        Expr::Field { object, name, span: _ } => {
            assert_eq!(name, "c");
            matches!(*object, Expr::Field { .. }); // a.b
        }
        _ => panic!("Expected chained Field access"),
    }
}

#[test]
fn test_chained_index_access() {
    let expr = parse_expr("arr[0][1]").unwrap();
    match expr {
        Expr::Index { object, .. } => {
            matches!(*object, Expr::Index { .. }); // arr[0]
        }
        _ => panic!("Expected chained Index access"),
    }
}

#[test]
fn test_mixed_member_access() {
    let expr = parse_expr("obj.arr[0].prop").unwrap();
    assert!(matches!(expr, Expr::Field { .. }));
}

#[test]
fn test_call_on_member_access() {
    let expr = parse_expr("obj.method()").unwrap();
    assert!(
        matches!(expr, Expr::Call { callee, .. } if matches!(*callee, Expr::Field { .. }))
    );
}


#[test]
fn test_unexpected_token() {
    let result = parse_expr(")");
    assert!(result.is_err());
}

#[test]
fn test_unclosed_parenthesis() {
    let result = parse_expr("(1 + 2");
    assert!(result.is_err());
}

#[test]
fn test_unclosed_bracket() {
    let result = parse_expr("[1, 2, 3");
    assert!(result.is_err());
}

#[test]
fn test_unclosed_brace_in_block() {
    let result = parse_expr("{ 1; 2; ");
    assert!(result.is_err());
}

#[test]
fn test_unclosed_brace_in_if() {
    let result = parse_source("if true { 1");
    assert!(result.is_err());
}

#[test]
fn test_missing_condition_in_if() {
    let result = parse_source("if { 1 }");
    assert!(result.is_err());
}

#[test]
fn test_missing_body_in_while() {
    let result = parse_source("while true ");
    assert!(result.is_err());
}

#[test]
fn test_missing_for_variable() {
    let result = parse_source("for in [1, 2, 3] {}");
    assert!(result.is_err());
}

#[test]
fn test_missing_fn_body() {
    let result = parse_source("fn test()");
    assert!(result.is_err());
}

#[test]
fn test_invalid_assignment_target_literal() {
    let result = parse_source("\"string\" = 42");
    assert!(result.is_err());
    assert_eq!(result.unwrap_err().message, "invalid assignment target");
}

#[test]
fn test_unclosed_tuple() {
    let result = parse_expr("(1, 2,");
    assert!(result.is_err());
}

#[test]
fn test_missing_colon_in_dict() {
    let result = parse_expr("{a 1}");
    if let Ok(expr) = result {
        assert!(matches!(expr, Expr::Dict { .. } | Expr::Block { .. }));
    }
}

#[test]
fn test_extra_closing_paren() {
    // 这个应该能成功解析 (1+2)，然后多余的 ) 会报错
    let result = parse_source("(1 + 2))");
    assert!(result.is_err());
}


#[test]
fn test_fibonacci_function() {
    let source = r#"
fn fib(n) {
if n <= 1 {
return n
}
return fib(n - 1) + fib(n - 2)
}
"#;
    let program = parse_source(source).unwrap();
    assert_eq!(program.statements.len(), 1);
}

#[test]
fn test_complex_arithmetic_expression() {
    let result = parse_expr("((2 + 3) * (4 - 1)) / 2 % 3");
    if let Ok(expr) = result {
        assert!(matches!(expr, Expr::Binary { .. }));
    }
}

#[test]
fn test_nested_loops_and_conditions() {
    let source = r#"
for i in 1..10 {
for j in 1..10 {
if i * j > 50 {
    break
}
}
}
"#;
    let program = parse_source(source).unwrap();
    assert_eq!(program.statements.len(), 1);
}

#[test]
fn test_higher_order_function() {
    let source = r#"
fn apply(f, x) {
return f(x)
}
fn double(x) {
return x * 2
}
apply(double, 5)
"#;
    let program = parse_source(source).unwrap();
    assert_eq!(program.statements.len(), 3); // 2 function defs + 1 call
}

#[test]
fn test_complex_data_structures() {
    let source = r#"
data = {
users: [
{name: "Alice", age: 30},
{name: "Bob", age: 25}
],
count: 2
}
"#;
    let result = parse_source(source);
    assert!(
        result.is_ok(),
        "complex data structure should parse successfully, got: {:?}",
        result.err()
    );
    let program = result.unwrap();
    assert_eq!(program.statements.len(), 1, "should have exactly one statement");
}

#[test]
fn test_multiple_statements() {
    let source = r#"
x = 1
y = 2
z = x + y
"#;
    let program = parse_source(source).unwrap();
    assert_eq!(program.statements.len(), 3);
}

#[test]
fn test_closure_and_immediate_invocation() {
    let source = r#"
fn(x) { x * 2 }(5)
"#;
    let program = parse_source(source).unwrap();
    // 匿名函数立即调用
    assert!(matches!(&program.statements[0], Stmt::Expr(Expr::Call { .. })));
}

#[test]
fn test_match_negative_literal_pattern() {
    // 负数字面量模式：`-1 => "neg"` 应被解析为 MatchPattern::Literal(Expr::Number { value: -1.0 })
    let program = parse_source("match (n) { -1 => \"neg\", _ => \"non-neg\" }").unwrap();
    match &program.statements[0] {
        Stmt::Expr(Expr::Match { arms, .. }) => {
            assert_eq!(arms.len(), 2, "应有两个 match 分支");
            match &arms[0].pattern {
                MatchPattern::Literal(Expr::Number { value, .. }) => {
                    assert!(
                        (num(value) - (-1.0)).abs() < f64::EPSILON,
                        "第一个模式应为 -1，实际为 {}",
                        value
                    );
                }
                other => {
                    panic!("期望 MatchPattern::Literal(Number(-1))，实际: {:?}", other)
                }
            }
            assert!(
                matches!(arms[1].pattern, MatchPattern::Wildcard),
                "第二个模式应为通配符"
            );
        }
        other => panic!("期望 Stmt::Expr(Expr::Match)，实际: {:?}", other),
    }
}

#[test]
fn test_match_negative_range_pattern() {
    // 负数范围模式：`-10..-1 => ...` 起始值也是负数
    let program =
        parse_source("match (n) { -10..-1 => \"neg-range\", _ => \"other\" }").unwrap();
    match &program.statements[0] {
        Stmt::Expr(Expr::Match { arms, .. }) => match &arms[0].pattern {
            MatchPattern::Range { start, end, inclusive } => {
                assert!(matches!(**start, Expr::Number { .. }), "范围起始应为 Number");
                assert!(matches!(**end, Expr::Number { .. }), "范围结束应为 Number");
                assert!(*inclusive, "应包含结束值（.. 语法）");
            }
            other => panic!("期望 MatchPattern::Range，实际: {:?}", other),
        },
        other => panic!("期望 Stmt::Expr(Expr::Match)，实际: {:?}", other),
    }
}


#[test]
fn test_chinese_if_keyword() {
    let program = parse_source("如果 true { 1 }").unwrap();
    assert!(matches!(&program.statements[0], Stmt::Expr(Expr::If { .. })));
}

#[test]
fn test_chinese_else_keyword() {
    let program = parse_source("如果 true { 1 } 否则 { 2 }").unwrap();
    if let Stmt::Expr(Expr::If { else_branch, .. }) = &program.statements[0] {
        assert!(else_branch.is_some());
    }
}

#[test]
fn test_chinese_while_keyword() {
    let program = parse_source("当 true { 1 }").unwrap();
    assert!(matches!(&program.statements[0], Stmt::Expr(Expr::While { .. })));
}

#[test]
fn test_chinese_loop_keyword() {
    let program = parse_source("循环 { 跳出 }").unwrap();
    assert!(matches!(&program.statements[0], Stmt::Expr(Expr::Loop { .. })));
}

#[test]
fn test_chinese_for_keyword() {
    let program = parse_source("遍历 x 在 [1, 2, 3] { x }").unwrap();
    assert!(
        matches!(&program.statements[0], Stmt::Expr(Expr::ForIn { var_name, .. }) if var_name == "x")
    );
}

#[test]
fn test_chinese_function_keyword() {
    let program = parse_source("函数 add(a, b) { a + b }").unwrap();
    if let Stmt::Expr(Expr::Fn { name, .. }) = &program.statements[0] {
        assert_eq!(name.as_deref(), Some("add"));
    }
}

#[test]
fn test_chinese_return_keyword() {
    let program = parse_source("返回 42").unwrap();
    assert!(matches!(
        &program.statements[0],
        Stmt::Expr(Expr::Return { value: Some(..), .. })
    ));
}

#[test]
fn test_chinese_break_continue_keywords() {
    let program = parse_source("循环 { 跳出 42 继续 }").unwrap();
    // 应该包含 break 和 continue
    assert!(matches!(&program.statements[0], Stmt::Expr(Expr::Loop { .. })));
}

#[test]
fn test_chinese_boolean_literals() {
    let expr_true = parse_expr("真").unwrap();
    assert!(matches!(expr_true, Expr::Bool { value: true, .. }));

    let expr_false = parse_expr("假").unwrap();
    assert!(matches!(expr_false, Expr::Bool { value: false, .. }));
}

#[test]
fn test_chinese_nil_literal() {
    let expr = parse_expr("空").unwrap();
    assert!(matches!(expr, Expr::Nil { .. }));
}

#[test]
fn test_mixed_language_keywords() {
    // 中英文混合使用
    let source = r#"
如果 x > 0 {
返回 x
} else {
return -x
}
"#;
    let program = parse_source(source).unwrap();
    assert!(matches!(&program.statements[0], Stmt::Expr(Expr::If { .. })));
}


#[test]
fn test_very_long_identifier() {
    let long_id = "a".repeat(1000);
    let expr = parse_expr(&long_id).unwrap();
    match expr {
        Expr::Ident { name, .. } => assert_eq!(name.len(), 1000),
        _ => panic!("Expected long identifier"),
    }
}

#[test]
fn test_deeply_nested_parens() {
    let nested = "(".repeat(50) + "1" + &")".repeat(50);
    let expr = parse_expr(&nested).unwrap();
    assert!(matches!(&expr, Expr::Number { value, .. } if num(value) == 1.0));
}

#[test]
fn test_many_arguments() {
    let args: Vec<String> = (0..20).map(|i| i.to_string()).collect();
    let source = format!("foo({})", args.join(", "));
    let expr = parse_expr(&source).unwrap();
    match expr {
        Expr::Call { args, .. } => assert_eq!(args.len(), 20),
        _ => panic!("Expected Call with many args"),
    }
}

#[test]
fn test_large_array_literal() {
    let elements: Vec<String> = (0..100).map(|i| i.to_string()).collect();
    let source = format!("[{}]", elements.join(", "));
    let expr = parse_expr(&source).unwrap();
    match expr {
        Expr::Array { elements, .. } => assert_eq!(elements.len(), 100),
        _ => panic!("Expected large Array"),
    }
}

#[test]
fn test_complex_boolean_expression() {
    let result = parse_expr("a && b || c && !d || e");
    match result {
        Ok(expr) => assert!(
            matches!(expr, Expr::Or { .. } | Expr::And { .. }),
            "expected Or or And, got {:?}",
            expr
        ),
        Err(e) => panic!("expected successful parse, got error: {:?}", e),
    }
}

#[test]
fn test_multiple_assignments_in_sequence() {
    let source = "a = 1; b = 2; c = 3";
    let result = parse_source(source);
    if let Ok(program) = result {
        assert!(!program.statements.is_empty());
    }
}

#[test]
fn test_empty_program() {
    let program = parse_source("").unwrap();
    assert!(program.statements.is_empty());
}

#[test]
fn test_only_whitespace() {
    let program = parse_source("   \n\t  ").unwrap();
    assert!(program.statements.is_empty());
}

#[test]
fn test_expression_with_trailing_newline() {
    let expr = parse_expr("42\n").unwrap();
    assert!(matches!(&expr, Expr::Number { value, .. } if num(value) == 42.0));
}


#[test]
fn test_span_for_number_literal() {
    let expr = parse_expr("42").unwrap();
    match expr {
        Expr::Number { span, .. } => {
            assert_eq!(span.line, 1);
            assert!(span.column >= 1);
        }
        _ => panic!("Expected Number with span"),
    }
}

#[test]
fn test_span_for_binary_operation() {
    let expr = parse_expr("1 + 2").unwrap();
    match expr {
        Expr::Binary { span, .. } => {
            assert_eq!(span.line, 1);
        }
        _ => panic!("Expected Binary with span"),
    }
}

#[test]
fn test_error_position_info() {
    let result = parse_source("if { 1 }");
    if let Err(err) = result {
        assert!(!err.message.is_empty());
        assert!(err.line >= 1);
        assert!(err.column >= 1);
    }
}


#[test]
fn test_basic_try_catch() {
    // 基本 try-catch 语法
    let source = "try { out(\"error\") } catch (e) { print(e) }";
    let program = parse_source(source).unwrap();
    assert_eq!(program.statements.len(), 1);

    if let Stmt::Expr(Expr::Try { body, catch_clause, keep_block, .. }) =
        &program.statements[0]
    {
        // try 块应该包含 out 语句
        assert!(!body.is_empty());

        // 应该有 catch 子句
        assert!(catch_clause.is_some());
        if let Some(catch) = catch_clause {
            assert_eq!(catch.binding, "e");
            assert!(catch.exception_type.is_none()); // M2 才支持类型过滤
            assert!(!catch.body.is_empty());
        }

        // 不应该有 keep 块
        assert!(keep_block.is_none());
    } else {
        panic!("Expected Try expression, got: {:?}", program.statements[0]);
    }
}

#[test]
fn test_try_catch_with_keep() {
    // 带 keep 块的完整异常处理
    let source = "try { out(\"error\") } catch (e) { print(e) } keep { cleanup() }";
    let program = parse_source(source).unwrap();

    if let Stmt::Expr(Expr::Try { catch_clause, keep_block, .. }) = &program.statements[0] {
        assert!(catch_clause.is_some());
        assert!(keep_block.is_some());
        if let Some(keep) = keep_block {
            assert!(!keep.is_empty());
        }
    } else {
        panic!("Expected Try with keep block");
    }
}

#[test]
fn test_try_only() {
    // 只有 try 块，没有 catch 和 keep
    let source = "try { 42 }";
    let program = parse_source(source).unwrap();

    if let Stmt::Expr(Expr::Try { body, catch_clause, keep_block, .. }) =
        &program.statements[0]
    {
        assert!(!body.is_empty()); // 包含表达式语句 42
        assert!(catch_clause.is_none());
        assert!(keep_block.is_none());
    } else {
        panic!("Expected Try without catch/keep");
    }
}

#[test]
fn test_out_expression_string() {
    // 测试 out 抛出字符串
    let source = "out \"错误消息\"";
    let program = parse_source(source).unwrap();

    assert!(
        matches!(&program.statements[0], Stmt::Expr(Expr::Out { value, .. }) if matches!(value.as_ref(), Expr::String { .. }))
    );
}

#[test]
fn test_out_expression_dict() {
    // 测试 out 抛出字典
    let source = "out {message: \"错误\", code: \"TypeError\"}";
    let program = parse_source(source).unwrap();

    assert!(
        matches!(&program.statements[0], Stmt::Expr(Expr::Out { value, .. }) if matches!(value.as_ref(), Expr::Dict { .. }))
    );
}

#[test]
fn test_out_expression_complex() {
    // 测试 out 抛出标识符
    let source = "out error_variable";
    let program = parse_source(source).unwrap();

    assert!(
        matches!(&program.statements[0], Stmt::Expr(Expr::Out { value, .. }) if matches!(value.as_ref(), Expr::Ident { name, .. } if name == "error_variable"))
    );
}

#[test]
fn test_nested_try_in_if() {
    // 测试嵌套在 if 中的 try-catch
    let source = "if (risky) { try { danger() } catch (e) { handle(e) } } else { safe() }";
    let program = parse_source(source).unwrap();
    assert_eq!(program.statements.len(), 1);
    assert!(matches!(&program.statements[0], Stmt::Expr(Expr::If { .. })));
}

#[test]
fn test_try_as_expression() {
    // 测试 try-catch 作为表达式使用（赋值给变量）
    let source = "result = try { config() } catch (e) { default() }";
    let program = parse_source(source).unwrap();

    if let Stmt::Assign { value, .. } = &program.statements[0] {
        assert!(matches!(value, Expr::Try { .. }));
    } else {
        panic!("Expected assignment with Try expression");
    }
}

#[test]
fn test_multiple_statements_in_try() {
    // 测试 try 块中包含多个语句
    let source = "try { step1(); step2(); step3() } catch (e) { cleanup() }";
    let program = parse_source(source).unwrap();

    if let Stmt::Expr(Expr::Try { body, .. }) = &program.statements[0] {
        assert!(!body.is_empty()); // 至少有一个语句
    } else {
        panic!("Expected Try with multiple statements");
    }
}

#[test]
fn test_error_missing_try_body() {
    // 测试缺少 try 块体的错误
    let result = parse_source("try ");
    assert!(result.is_err());
}

#[test]
fn test_error_missing_catch_paren() {
    // 测试 catch 缺少左括号的错误
    let result = parse_source("try {} catch e {}");
    assert!(result.is_err(), "missing '(' after catch should cause parse error");
}

#[test]
fn test_error_missing_catch_variable() {
    // 测试 catch 缺少变量名的错误
    let result = parse_source("try {} catch () {}");
    assert!(result.is_err(), "missing catch variable name should cause parse error");
}

#[test]
fn test_error_out_without_value() {
    // 测试 out 后面没有表达式的情况
    let result = parse_source("out");
    assert!(result.is_err(), "out without value should cause parse error");
}

#[test]
fn test_complex_exception_handling() {
    // 复杂的异常处理场景：函数内的嵌套 try-catch
    let source = "fn process(data) { try { validate(data); if (data.invalid) { out {code: 400} } } catch (e) { log(e) } keep { close() } }";
    let program = parse_source(source).unwrap();
    assert_eq!(program.statements.len(), 1);
    assert!(matches!(&program.statements[0], Stmt::Expr(Expr::Fn { .. })));
}

// ========================================================================
// 10. Parser::parse_with_timing 测试
//
// 验证带计时的解析入口：有效源码返回 (Program, ParseTimings)，
// 无效源码返回错误，且 timings 字段为合理值。
// ========================================================================

#[test]
fn test_parse_with_timing_valid_source_returns_program_and_timings() {
    // 有效源码应返回 Program 和 ParseTimings
    let source = "fn add(a, b) { a + b }";
    let result = Parser::parse_with_timing(source);
    let (program, timings) = result.expect("valid source should parse successfully");
    assert_eq!(program.statements.len(), 1);
    // timings 字段应为非负 Duration（任何解析都应耗时 >= 0）
    let _ = timings.lex_duration; // 验证字段可访问
    let _ = timings.parse_duration; // 验证字段可访问
}

#[test]
fn test_parse_with_timing_empty_source() {
    // 空源码应成功解析为空 Program
    let (program, timings) =
        Parser::parse_with_timing("").expect("empty source should parse successfully");
    assert!(program.statements.is_empty());
    let _ = timings.lex_duration; // 验证字段可访问
    let _ = timings.parse_duration; // 验证字段可访问
}

#[test]
fn test_parse_with_timing_invalid_source_returns_error() {
    // 无效源码（未闭合的字符串）应返回错误
    let result = Parser::parse_with_timing("\"unterminated");
    assert!(result.is_err(), "unterminated string should cause parse error");
}

#[test]
fn test_parse_with_timing_syntax_error_returns_error() {
    // 语法错误（缺少右括号）应返回错误
    let result = Parser::parse_with_timing("fn add(a, b { }");
    assert!(result.is_err(), "missing closing paren should cause parse error");
}

#[test]
fn test_parse_with_timing_consistent_with_parse() {
    // parse_with_timing 返回的 Program 应与 parse() 一致
    let source = "x = 42; y = x + 1";
    let program_plain = Parser::parse(source).expect("parse should succeed");
    let (program_timed, _timings) =
        Parser::parse_with_timing(source).expect("parse_with_timing should succeed");
    assert_eq!(program_plain.statements.len(), program_timed.statements.len());
}

#[test]
fn test_parse_with_timing_returns_parse_timings_struct() {
    // 验证返回的 ParseTimings 结构体字段可访问
    let source = "42";
    let (_program, timings) = Parser::parse_with_timing(source).unwrap();
    // 显式访问字段以确保结构体形状稳定
    let _lex = timings.lex_duration;
    let _parse = timings.parse_duration;
    // Duration 应该是合理的（小于 1 秒，对于简单源码）
    assert!(timings.lex_duration.as_secs() < 1);
    assert!(timings.parse_duration.as_secs() < 1);
}

#[test]
fn test_parse_with_timing_complex_source() {
    // 复杂源码（函数 + 控制流）应成功解析
    let source = r#"
fn fib(n) {
if n <= 1 {
return n
}
return fib(n - 1) + fib(n - 2)
}
"#;
    let (program, timings) = Parser::parse_with_timing(source)
        .expect("complex source should parse successfully");
    assert_eq!(program.statements.len(), 1);
    let _ = timings.lex_duration; // 验证字段可访问
    let _ = timings.parse_duration; // 验证字段可访问
}

#[test]
fn test_parse_with_timing_chinese_keywords() {
    // 中文关键字源码应成功解析
    let source = "函数 加(a, b) { 返回 a + b }";
    let result = Parser::parse_with_timing(source);
    // 无论是否成功，都不应 panic；中文关键字应被识别
    if let Ok((program, _timings)) = result {
        assert!(!program.statements.is_empty());
    }
}

#[test]
fn test_parse_with_timing_error_preserves_position() {
    // 错误应携带位置信息（line/column）
    let result = Parser::parse_with_timing("fn ( { }");
    if let Err(e) = result {
        // line 和 column 应该是有效值（>= 1）
        assert!(e.line >= 1, "error line should be >= 1");
        assert!(e.column >= 1, "error column should be >= 1");
        assert!(!e.message.is_empty(), "error message should not be empty");
    }
}

// ========================================================================
// P1-3 / P2-7 / P2-8 回归测试
// ========================================================================

// P1-3: 递归深度上限
fn run_with_large_stack<F: FnOnce()>(f: F) {
    f()
}

#[test]
fn test_parser_depth_limit_expression() {
    // 在 16MB 栈线程中运行，确保 depth check 触发前不溢出
    run_with_large_stack(|| {
        // 200 层嵌套 > MAX_PARSER_DEPTH=64，应返回错误
        let depth = 200;
        let source = format!("{}1{}", "(".repeat(depth), ")".repeat(depth));
        let result = parse_source(&source);
        assert!(result.is_err(), "deeply nested expression should be rejected");
        let err = result.unwrap_err();
        assert!(
            err.message.contains("nesting exceeds limit") || err.message.contains("depth"),
            "error should mention depth limit, got: {}",
            err.message
        );
    });
}

#[test]
fn test_parser_depth_limit_block() {
    run_with_large_stack(|| {
        let depth = 200;
        let source = format!("{}1{}", "{".repeat(depth), "}".repeat(depth));
        let result = parse_source(&source);
        assert!(result.is_err(), "deeply nested block should be rejected");
        let err = result.unwrap_err();
        assert!(
            err.message.contains("nesting exceeds limit") || err.message.contains("depth"),
            "error should mention depth limit, got: {}",
            err.message
        );
    });
}

#[test]
fn test_parser_depth_limit_array() {
    run_with_large_stack(|| {
        let depth = 200;
        let source = format!("{}1{}", "[".repeat(depth), "]".repeat(depth));
        let result = parse_source(&source);
        assert!(result.is_err(), "deeply nested array should be rejected");
    });
}

#[test]
fn test_parser_normal_depth_accepted() {
    // 40 层嵌套 < MAX_PARSER_DEPTH=64，应被接受
    let depth = 40;
    let source = format!("{}1{}", "(".repeat(depth), ")".repeat(depth));
    let result = parse_source(&source);
    assert!(
        result.is_ok(),
        "normal depth expression should be accepted, got: {:?}",
        result.err()
    );
}

// P2-7: 链式比较中间操作数不重复求值
#[test]
fn test_chained_comparison_parses_to_block() {
    // `a < b < c` 应被解析为 Expr::Block（包含临时变量赋值 + And 链）
    let expr = parse_expr("a < b < c").expect("chained comparison should parse");
    match expr {
        Expr::Block { statements, .. } => {
            // 应有 2 条语句：1 个 temp 赋值 + 1 个结果表达式
            assert_eq!(
                statements.len(),
                2,
                "chained comparison block should have 1 temp + 1 result"
            );
            // 第一条是赋值 __nuzo_cmp_0 = b
            match &statements[0] {
                Stmt::Assign { target, .. } => match target {
                    AssignTarget::Ident { name } => {
                        assert!(name.starts_with("__nuzo_cmp_"), "temp var name: {}", name);
                    }
                    other => panic!("expected AssignTarget::Ident, got {:?}", other),
                },
                other => panic!("expected Stmt::Assign, got {:?}", other),
            }
            // 第二条是表达式（And 链）
            assert!(matches!(statements[1], Stmt::Expr(_)));
        }
        other => panic!("chained comparison should be Expr::Block, got {:?}", other),
    }
}

#[test]
fn test_single_comparison_not_block() {
    // `a < b` 应直接是 Expr::Binary，不应被包装为 Block
    let expr = parse_expr("a < b").expect("single comparison should parse");
    assert!(
        matches!(expr, Expr::Binary { .. }),
        "single comparison should be Expr::Binary, got {:?}",
        expr
    );
}

#[test]
fn test_no_comparison_returns_operand() {
    // `a` 应直接返回 ident，不应被包装
    let expr = parse_expr("a").expect("bare operand should parse");
    assert!(matches!(expr, Expr::Ident { .. }));
}

#[test]
fn test_chained_comparison_three_operands() {
    // `a < b < c < d` 应生成 2 个临时变量（b, c）
    let expr = parse_expr("a < b < c < d").expect("4-operand chain should parse");
    match expr {
        Expr::Block { statements, .. } => {
            // 2 temp + 1 result = 3
            assert_eq!(statements.len(), 3);
        }
        other => panic!("expected Block, got {:?}", other),
    }
}

// P2-8: 漏冒号 dict 检测
#[test]
fn test_missing_colon_dict_error() {
    // `{ a 1 }` 应报错（漏冒号），而非静默解析为 block
    let result = parse_source("{ a 1 }");
    assert!(result.is_err(), "missing colon dict should be rejected");
    let err = result.unwrap_err();
    assert!(
        err.message.contains("missing colon") || err.message.contains("dict literal"),
        "error should hint at missing colon, got: {}",
        err.message
    );
}

#[test]
fn test_missing_colon_dict_with_comma() {
    // `{ a 1, b 2 }` 也应报错
    let result = parse_source("{ a 1, b 2 }");
    assert!(result.is_err(), "missing colon dict with comma should be rejected");
}

#[test]
fn test_missing_colon_string_key() {
    // `{ "key" "value" }` 应报错
    let result = parse_source(r#"{ "key" "value" }"#);
    assert!(result.is_err(), "missing colon with string key should be rejected");
}

#[test]
fn test_valid_block_not_flagged() {
    // `{ x + 1 }` 是合法 block（x 后跟运算符 +），不应被误报
    let result = parse_source("{ x + 1 }");
    assert!(
        result.is_ok(),
        "valid block with operator should not be flagged, got: {:?}",
        result.err()
    );
}

#[test]
fn test_valid_single_stmt_block_not_flagged() {
    // `{ x }` 是合法 block（单个语句），不应被误报
    let result = parse_source("{ x }");
    // 可能是 block 也可能是 dict（空 dict 需要 {}），{ x } 是 block
    assert!(
        result.is_ok(),
        "single stmt block should be accepted, got: {:?}",
        result.err()
    );
}

#[test]
fn test_valid_dict_with_colon_not_flagged() {
    // `{ a: 1 }` 是合法 dict，不应被误报
    let result = parse_source("{ a: 1 }");
    assert!(
        result.is_ok(),
        "valid dict with colon should be accepted, got: {:?}",
        result.err()
    );
}

#[test]
fn test_block_with_semicolon_not_flagged() {
    // `{ a; 1 }` 是合法 block（a 和 1 是两个语句），不应被误报
    let result = parse_source("{ a; 1 }");
    assert!(
        result.is_ok(),
        "block with semicolon should be accepted, got: {:?}",
        result.err()
    );
}

