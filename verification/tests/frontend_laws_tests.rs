use nuzo::ast::{AssignTarget, BinaryOp, Expr, MatchPattern, Stmt};
use nuzo::lexer::Lexer;
use nuzo::parser::{decimal_string, Parser};
use nuzo::token::{lookup_keyword, TokenKind};

#[test]
fn tokens_end_with_one_eof_and_offsets_increase() {
    let source = "如果 x >= 10 { y = \"é\" } # note\nz..<3";
    let tokens = Lexer::new(source).scan_all().unwrap();
    assert!(!tokens.is_empty());
    assert_eq!(tokens.last().unwrap().0.kind, TokenKind::Eof);
    assert_eq!(tokens.iter().filter(|(t, _)| t.kind == TokenKind::Eof).count(), 1);
    for (t, text) in &tokens {
        assert!(t.line >= 1 && t.column >= 1);
        assert!(source.contains(text.as_str()));
    }
    for w in tokens.windows(2) {
        assert!(w[0].0.offset < w[1].0.offset);
    }
}

#[test]
fn token_offsets_are_byte_offsets() {
    let tokens = Lexer::new("中 a").scan_all().unwrap();
    assert_eq!(tokens[0].0.offset, 0);
    assert_eq!(tokens[1].0.offset, 4);
    assert_eq!(tokens[1].0.column, 3);
}

#[test]
fn english_and_chinese_keywords_agree() {
    let pairs = [
        ("if", "如果"),
        ("else", "否则"),
        ("while", "当"),
        ("for", "遍历"),
        ("loop", "循环"),
        ("break", "跳出"),
        ("continue", "继续"),
        ("fn", "函数"),
        ("return", "返回"),
        ("true", "真"),
        ("false", "假"),
        ("and", "并且"),
        ("or", "或者"),
    ];
    for (en, zh) in pairs {
        assert!(lookup_keyword(en).is_some());
        assert_eq!(lookup_keyword(en), lookup_keyword(zh), "{} / {}", en, zh);
    }
}

#[test]
fn lexer_error_is_located() {
    let err = Lexer::new("\"unterminated").scan_all().unwrap_err();
    assert_eq!(err.message, "unterminated string");
    assert_eq!((err.line, err.column), (1, 1));
    assert_eq!(err.describe(), "Lexer error at 1:1: unterminated string");
}

#[test]
fn lexer_error_becomes_parse_error() {
    for source in ["\"unterminated", "a & b", "x | y", "a ? b", "@"] {
        let lex = Lexer::new(source).scan_all().unwrap_err();
        let parse = Parser::parse(source).unwrap_err();
        assert_eq!(parse.message, lex.message);
        assert_eq!((parse.line, parse.column), (lex.line, lex.column));
    }
}

#[test]
fn parse_error_describe() {
    let err = Parser::parse("\"open").unwrap_err();
    assert_eq!(err.describe(), "Parse error at 1:1: unterminated string");
}

#[test]
fn only_comments_parse_to_empty_program() {
    let program = Parser::parse("# nothing here\n   \n").unwrap();
    assert!(program.statements.is_empty());
}

#[test]
fn comparison_chain_uses_distinct_temporaries() {
    let program = Parser::parse("a < b < c < d").unwrap();
    assert_eq!(program.statements.len(), 1);
    let Stmt::Expr(Expr::Block { statements, .. }) = &program.statements[0] else {
        panic!("expected a block");
    };
    assert_eq!(statements.len(), 3);
    let names: Vec<&String> = statements[..2]
        .iter()
        .map(|s| match s {
            Stmt::Assign { target: AssignTarget::Ident { name }, .. } => name,
            other => panic!("expected an assignment, got {:?}", other),
        })
        .collect();
    assert_eq!(names, vec!["__nuzo_cmp_0", "__nuzo_cmp_1"]);
    assert!(matches!(&statements[2], Stmt::Expr(Expr::And { .. })));
}

#[test]
fn pipe_puts_left_operand_first() {
    let program = Parser::parse("x |> f(y)").unwrap();
    let Stmt::Expr(Expr::Call { args, .. }) = &program.statements[0] else {
        panic!("expected a call");
    };
    assert_eq!(args.len(), 2);
    assert!(matches!(&args[0], Expr::Ident { name, .. } if name == "x"));
    assert!(matches!(&args[1], Expr::Ident { name, .. } if name == "y"));
}

#[test]
fn single_comparison_is_binary() {
    let program = Parser::parse("1 <= 2").unwrap();
    assert!(matches!(&program.statements[0], Stmt::Expr(Expr::Binary { op: BinaryOp::LtEq, .. })));
}

#[test]
fn compound_assignment_reads_its_target() {
    let program = Parser::parse("a[i] += 1").unwrap();
    let Stmt::Assign { target, value, .. } = &program.statements[0] else {
        panic!("expected an assignment");
    };
    assert!(matches!(target, AssignTarget::Index { .. }));
    assert!(matches!(value, Expr::Binary { op: BinaryOp::Add, left, .. } if matches!(**left, Expr::Index { .. })));
}

#[test]
fn invalid_assignment_target_is_an_error() {
    let err = Parser::parse("1 = 2").unwrap_err();
    assert_eq!(err.message, "invalid assignment target");
}

#[test]
fn decimal_strings() {
    assert_eq!(decimal_string(0), "0");
    assert_eq!(decimal_string(7), "7");
    assert_eq!(decimal_string(1234567890), "1234567890");
    assert_eq!(decimal_string(u64::MAX), "18446744073709551615");
}

#[test]
fn syntax_errors_point_at_tokens() {
    for source in ["fn add(a, b { }", "1 = 2", "x = (1, 2", "match (x) { a + b => 1 }", "{ a 1 }", "if", "[1, 2"] {
        let err = Parser::parse(source).unwrap_err();
        let tokens = Lexer::new(source).scan_all().unwrap();
        assert!(
            tokens.iter().any(|(t, _)| t.line == err.line && t.column == err.column),
            "{:?}: {:?}",
            source,
            err
        );
    }
}

#[test]
fn nesting_beyond_the_limit_is_an_error() {
    let source = format!("{}1{}", "(".repeat(70), ")".repeat(70));
    let err = Parser::parse(&source).unwrap_err();
    assert!(err.message.contains("nesting exceeds limit (64)"), "{}", err.message);
    let ok = format!("{}1{}", "(".repeat(30), ")".repeat(30));
    assert!(Parser::parse(&ok).is_ok());
}

fn expr_spans(e: &Expr, out: &mut Vec<(usize, usize)>) {
    let s = e.span();
    out.push((s.line, s.column));
    match e {
        Expr::Binary { left, right, .. }
        | Expr::And { left, right, .. }
        | Expr::Or { left, right, .. }
        | Expr::NullCoalesce { left, right, .. } => {
            expr_spans(left, out);
            expr_spans(right, out);
        }
        Expr::Unary { operand, .. } => expr_spans(operand, out),
        Expr::Call { callee, args, .. } => {
            expr_spans(callee, out);
            args.iter().for_each(|a| expr_spans(a, out));
        }
        Expr::Index { object, index, .. } => {
            expr_spans(object, out);
            expr_spans(index, out);
        }
        Expr::Field { object, .. } => expr_spans(object, out),
        Expr::If { condition, then_branch, else_branch, .. } => {
            expr_spans(condition, out);
            stmt_spans(then_branch, out);
            if let Some(e) = else_branch {
                expr_spans(e, out);
            }
        }
        Expr::While { condition, body, .. } => {
            expr_spans(condition, out);
            stmt_spans(body, out);
        }
        Expr::Loop { body, .. } | Expr::Fn { body, .. } | Expr::Closure { body, .. } => stmt_spans(body, out),
        Expr::Block { statements, .. } => stmt_spans(statements, out),
        Expr::ForIn { iterable, body, .. } => {
            expr_spans(iterable, out);
            stmt_spans(body, out);
        }
        Expr::Break { value: Some(v), .. } | Expr::Return { value: Some(v), .. } | Expr::Out { value: v, .. } => {
            expr_spans(v, out)
        }
        Expr::Array { elements, .. } | Expr::Tuple { elements, .. } => {
            elements.iter().for_each(|a| expr_spans(a, out));
        }
        Expr::Dict { pairs, .. } => pairs.iter().for_each(|(_, v)| expr_spans(v, out)),
        Expr::Range { start, end, .. } => {
            expr_spans(start, out);
            expr_spans(end, out);
        }
        Expr::Match { scrutinee, arms, .. } => {
            expr_spans(scrutinee, out);
            for arm in arms {
                expr_spans(&arm.body, out);
            }
        }
        Expr::Try { body, catch_clause, keep_block, .. } => {
            stmt_spans(body, out);
            if let Some(c) = catch_clause {
                stmt_spans(&c.body, out);
            }
            if let Some(k) = keep_block {
                stmt_spans(k, out);
            }
        }
        _ => {}
    }
}

fn stmt_spans(stmts: &[Stmt], out: &mut Vec<(usize, usize)>) {
    for st in stmts {
        match st {
            Stmt::Expr(e) => expr_spans(e, out),
            Stmt::Assign { value, span, .. } => {
                out.push((span.line, span.column));
                expr_spans(value, out);
            }
            Stmt::Import { span, .. } => out.push((span.line, span.column)),
        }
    }
}

#[test]
fn every_span_points_at_a_token() {
    let sources = [
        "fn add(a, b) { a + b }\nx = add(1, 2) |> print()",
        "if a < b < c { y = [1, 2, 3][0] } else { z = {\"k\": 1}.k }",
        "for i in 0..<10 { if i % 2 == 0 { continue } ; total += i }",
        "r = match (v) { 1 => \"one\", 2..5 => \"few\", _ => nil }",
        "try { out 1 } catch (e) { print(e) } keep { done = true }",
        "f = (a, b) => a ?? b\ng = x => x ** 2",
        "如果 真 { 返回 (1, 2) }",
    ];
    for source in sources {
        let program = Parser::parse(source).unwrap();
        let tokens = Lexer::new(source).scan_all().unwrap();
        let mut spans = Vec::new();
        stmt_spans(&program.statements, &mut spans);
        assert!(!spans.is_empty());
        for (line, column) in spans {
            assert!(
                tokens.iter().any(|(t, _)| t.line == line && t.column == column),
                "{:?}: span {}:{} is at no token",
                source,
                line,
                column
            );
        }
    }
}

#[test]
fn deep_copy_is_an_equal_tree() {
    let program = Parser::parse("if a < b < c { x[i] += f(y, {\"k\": [1, 2]}) } else { match (z) { 1..3 => 0, _ => z } }").unwrap();
    for st in &program.statements {
        let copy = st.deep_copy();
        assert_eq!(format!("{:?}", copy), format!("{:?}", st));
    }
}

#[test]
fn import_errors_are_exact() {
    assert_eq!(Parser::parse("import").unwrap_err().message, "unexpected EOF after import");
    assert_eq!(
        Parser::parse("import 42").unwrap_err().message,
        "expected string literal or identifier after import"
    );
    assert_eq!(Parser::parse("import \"x.nuzo\" as").unwrap_err().message, "expected identifier after as");
    assert_eq!(Parser::parse("lazy 42").unwrap_err().message, "expected import after lazy");
}

#[test]
fn import_statement_is_exact() {
    let program = Parser::parse("import math as m").unwrap();
    assert_eq!(program.statements.len(), 1);
    let Stmt::Import { path, lazy, alias, span } = &program.statements[0] else {
        panic!("expected an import");
    };
    assert_eq!(path, "math");
    assert!(!lazy);
    assert_eq!(alias.as_deref(), Some("m"));
    assert_eq!((span.line, span.column), (1, 1));
    let program = Parser::parse("lazy import \"x.nuzo\"").unwrap();
    let Stmt::Import { path, lazy, alias, .. } = &program.statements[0] else {
        panic!("expected an import");
    };
    assert_eq!(path, "x.nuzo");
    assert!(*lazy);
    assert!(alias.is_none());
}

#[test]
fn nesting_limit_is_exactly_sixty_four() {
    let deep = format!("{}1{}", "(".repeat(64), ")".repeat(64));
    let err = Parser::parse(&deep).unwrap_err();
    assert!(err.message.starts_with("expression nesting exceeds limit (64)"), "{}", err.message);
    let shallow = format!("{}1{}", "(".repeat(63), ")".repeat(63));
    assert_eq!(Parser::parse(&shallow).unwrap().statements.len(), 1);
}

#[test]
fn negative_range_pattern() {
    let program = Parser::parse("match (n) { -10..-1 => \"neg-range\", _ => \"other\" }").unwrap();
    let Stmt::Expr(Expr::Match { arms, .. }) = &program.statements[0] else {
        panic!("expected a match");
    };
    assert_eq!(arms.len(), 2);
    let MatchPattern::Range { start, end, inclusive } = &arms[0].pattern else {
        panic!("expected a range");
    };
    assert!(*inclusive);
    assert!(matches!(&**start, Expr::Number { value, .. } if value == "-10"));
    assert!(matches!(&**end, Expr::Number { value, .. } if value == "-1"));
    assert!(matches!(&arms[1].pattern, MatchPattern::Wildcard));
}

#[test]
fn arithmetic_follows_precedence_and_associativity() {
    let program = Parser::parse("1 + 2 * 3 - 4").unwrap();
    assert_eq!(program.statements.len(), 1);
    let Stmt::Expr(Expr::Binary { left, op: BinaryOp::Sub, right, .. }) = &program.statements[0] else {
        panic!("expected a subtraction at the top");
    };
    assert!(matches!(&**right, Expr::Number { value, .. } if value == "4"));
    let Expr::Binary { left: one, op: BinaryOp::Add, right: product, .. } = &**left else {
        panic!("expected an addition on the left");
    };
    assert!(matches!(&**one, Expr::Number { value, .. } if value == "1"));
    assert!(matches!(&**product, Expr::Binary { op: BinaryOp::Mul, .. }));
}

#[test]
fn modulo_and_inequality() {
    let program = Parser::parse("x % 2 != 0").unwrap();
    let Stmt::Expr(Expr::Binary { left, op: BinaryOp::Neq, right, .. }) = &program.statements[0] else {
        panic!("expected an inequality");
    };
    assert!(matches!(&**left, Expr::Binary { op: BinaryOp::Mod, .. }));
    assert!(matches!(&**right, Expr::Number { value, .. } if value == "0"));
}
