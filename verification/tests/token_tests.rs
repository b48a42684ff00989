use nuzo::token::{lookup_keyword, TokenKind};

// ========================================================================
// TokenKind::is_* 谓词方法测试
//
// 每个测试验证目标变体返回 true，并抽样验证其他变体返回 false。
// 对于 is_and / is_or，额外验证符号形式（AndAnd / OrOr）也返回 true。
// ========================================================================

#[test]
fn test_is_if_true_for_if_variant() {
    assert!(TokenKind::If.is_if());
}

#[test]
fn test_is_if_false_for_other_variants() {
    assert!(!TokenKind::Else.is_if());
    assert!(!TokenKind::While.is_if());
    assert!(!TokenKind::Number.is_if());
    assert!(!TokenKind::Eof.is_if());
}

#[test]
fn test_is_else_true_for_else_variant() {
    assert!(TokenKind::Else.is_else());
}

#[test]
fn test_is_else_false_for_other_variants() {
    assert!(!TokenKind::If.is_else());
    assert!(!TokenKind::While.is_else());
    assert!(!TokenKind::Return.is_else());
    assert!(!TokenKind::Ident.is_else());
}

#[test]
fn test_is_while_true_for_while_variant() {
    assert!(TokenKind::While.is_while());
}

#[test]
fn test_is_while_false_for_other_variants() {
    assert!(!TokenKind::For.is_while());
    assert!(!TokenKind::Loop.is_while());
    assert!(!TokenKind::If.is_while());
    assert!(!TokenKind::Break.is_while());
}

#[test]
fn test_is_for_true_for_for_variant() {
    assert!(TokenKind::For.is_for());
}

#[test]
fn test_is_for_false_for_other_variants() {
    assert!(!TokenKind::While.is_for());
    assert!(!TokenKind::In.is_for());
    assert!(!TokenKind::Loop.is_for());
    assert!(!TokenKind::Continue.is_for());
}

#[test]
fn test_is_loop_true_for_loop_variant() {
    assert!(TokenKind::Loop.is_loop());
}

#[test]
fn test_is_loop_false_for_other_variants() {
    assert!(!TokenKind::While.is_loop());
    assert!(!TokenKind::For.is_loop());
    assert!(!TokenKind::Break.is_loop());
    assert!(!TokenKind::Continue.is_loop());
}

#[test]
fn test_is_break_true_for_break_variant() {
    assert!(TokenKind::Break.is_break());
}

#[test]
fn test_is_break_false_for_other_variants() {
    assert!(!TokenKind::Continue.is_break());
    assert!(!TokenKind::Loop.is_break());
    assert!(!TokenKind::Return.is_break());
    assert!(!TokenKind::While.is_break());
}

#[test]
fn test_is_continue_true_for_continue_variant() {
    assert!(TokenKind::Continue.is_continue());
}

#[test]
fn test_is_continue_false_for_other_variants() {
    assert!(!TokenKind::Break.is_continue());
    assert!(!TokenKind::Loop.is_continue());
    assert!(!TokenKind::Return.is_continue());
    assert!(!TokenKind::While.is_continue());
}

#[test]
fn test_is_fn_true_for_fn_variant() {
    assert!(TokenKind::Fn.is_fn());
}

#[test]
fn test_is_fn_false_for_other_variants() {
    assert!(!TokenKind::Return.is_fn());
    assert!(!TokenKind::If.is_fn());
    assert!(!TokenKind::Ident.is_fn());
    assert!(!TokenKind::True.is_fn());
}

#[test]
fn test_is_return_true_for_return_variant() {
    assert!(TokenKind::Return.is_return());
}

#[test]
fn test_is_return_false_for_other_variants() {
    assert!(!TokenKind::Fn.is_return());
    assert!(!TokenKind::Break.is_return());
    assert!(!TokenKind::Continue.is_return());
    assert!(!TokenKind::Nil.is_return());
}

#[test]
fn test_is_true_true_for_true_variant() {
    assert!(TokenKind::True.is_true());
}

#[test]
fn test_is_true_false_for_other_variants() {
    assert!(!TokenKind::False.is_true());
    assert!(!TokenKind::Nil.is_true());
    assert!(!TokenKind::If.is_true());
    assert!(!TokenKind::Number.is_true());
}

#[test]
fn test_is_false_true_for_false_variant() {
    assert!(TokenKind::False.is_false());
}

#[test]
fn test_is_false_false_for_other_variants() {
    assert!(!TokenKind::True.is_false());
    assert!(!TokenKind::Nil.is_false());
    assert!(!TokenKind::If.is_false());
    assert!(!TokenKind::String.is_false());
}

#[test]
fn test_is_and_true_for_and_variant() {
    assert!(TokenKind::And.is_and());
}

#[test]
fn test_is_and_true_for_andand_symbol_variant() {
    // is_and 同时匹配单词形式 And 和符号形式 AndAnd
    assert!(TokenKind::AndAnd.is_and());
}

#[test]
fn test_is_and_false_for_other_variants() {
    assert!(!TokenKind::Or.is_and());
    assert!(!TokenKind::OrOr.is_and());
    assert!(!TokenKind::If.is_and());
    assert!(!TokenKind::Bang.is_and());
}

#[test]
fn test_is_or_true_for_or_variant() {
    assert!(TokenKind::Or.is_or());
}

#[test]
fn test_is_or_true_for_oror_symbol_variant() {
    // is_or 同时匹配单词形式 Or 和符号形式 OrOr
    assert!(TokenKind::OrOr.is_or());
}

#[test]
fn test_is_or_false_for_other_variants() {
    assert!(!TokenKind::And.is_or());
    assert!(!TokenKind::AndAnd.is_or());
    assert!(!TokenKind::If.is_or());
    assert!(!TokenKind::Bang.is_or());
}

// ========================================================================
// 双语关键字映射验证（间接验证 is_* 方法的双语透明性）
// ========================================================================

#[test]
fn test_bilingual_keywords_map_to_same_variant() {
    // 英文和中文关键字应映射到同一 TokenKind，
    // 从而 is_* 方法对两者都返回 true。
    assert!(lookup_keyword("if").unwrap().is_if());
    assert!(lookup_keyword("如果").unwrap().is_if());

    assert!(lookup_keyword("else").unwrap().is_else());
    assert!(lookup_keyword("否则").unwrap().is_else());

    assert!(lookup_keyword("while").unwrap().is_while());
    assert!(lookup_keyword("当").unwrap().is_while());

    assert!(lookup_keyword("for").unwrap().is_for());
    assert!(lookup_keyword("遍历").unwrap().is_for());

    assert!(lookup_keyword("loop").unwrap().is_loop());
    assert!(lookup_keyword("循环").unwrap().is_loop());

    assert!(lookup_keyword("break").unwrap().is_break());
    assert!(lookup_keyword("跳出").unwrap().is_break());

    assert!(lookup_keyword("continue").unwrap().is_continue());
    assert!(lookup_keyword("继续").unwrap().is_continue());

    assert!(lookup_keyword("fn").unwrap().is_fn());
    assert!(lookup_keyword("函数").unwrap().is_fn());

    assert!(lookup_keyword("return").unwrap().is_return());
    assert!(lookup_keyword("返回").unwrap().is_return());

    assert!(lookup_keyword("true").unwrap().is_true());
    assert!(lookup_keyword("真").unwrap().is_true());

    assert!(lookup_keyword("false").unwrap().is_false());
    assert!(lookup_keyword("假").unwrap().is_false());

    assert!(lookup_keyword("and").unwrap().is_and());
    assert!(lookup_keyword("并且").unwrap().is_and());

    assert!(lookup_keyword("or").unwrap().is_or());
    assert!(lookup_keyword("或者").unwrap().is_or());
}

#[test]
fn test_lookup_keyword_returns_none_for_identifier() {
    // 非关键字应返回 None
    assert!(lookup_keyword("variable").is_none());
    assert!(lookup_keyword("myFunc").is_none());
    assert!(lookup_keyword("").is_none());
}


#[test]
fn negation_displays_as_its_symbol() {
    assert_eq!(TokenKind::Bang.display_text(), "!");
    assert_eq!(TokenKind::BangEq.display_text(), "!=");
    assert_eq!(TokenKind::Plus.display_text(), "+");
    assert_eq!(TokenKind::If.display_text(), "if");
    assert_eq!(lookup_keyword("not"), Some(TokenKind::Bang));
}
