use nuzo::lexer::Lexer;
use nuzo::token::{lookup_keyword, TokenKind};

#[test]
fn test_basic_tokens() {
    let tokens = Lexer::new("1 + 2").scan_all().unwrap();
    assert_eq!(tokens[0].0.kind, TokenKind::Number);
    assert_eq!(tokens[1].0.kind, TokenKind::Plus);
    assert_eq!(tokens[2].0.kind, TokenKind::Number);
}

#[test]
fn test_chinese_keywords() {
    let tokens = Lexer::new("如果 真 { }").scan_all().unwrap();
    assert_eq!(tokens[0].0.kind, TokenKind::If);
    assert_eq!(tokens[1].0.kind, TokenKind::True);
}

#[test]
fn test_bilingual_equivalence() {
    assert!(TokenKind::If.is_if());
    // Chinese keywords map to the same variant as English
    assert!(lookup_keyword("如果").unwrap().is_if());
    assert!(lookup_keyword("函数").unwrap().is_fn());
}

#[test]
fn test_string_literals() {
    let tokens = Lexer::new("\"hello\" 'world'").scan_all().unwrap();
    assert_eq!(tokens[0].0.kind, TokenKind::String);
    assert_eq!(tokens[0].1, "hello");
    assert_eq!(tokens[1].0.kind, TokenKind::String);
    assert_eq!(tokens[1].1, "world");
}

#[test]
fn test_range_operators() {
    let tokens = Lexer::new("1..10 0..<5").scan_all().unwrap();
    assert_eq!(tokens[1].0.kind, TokenKind::DotDot);
    assert_eq!(tokens[4].0.kind, TokenKind::DotDotLt);
}

#[test]
fn test_utf8_multibyte_characters() {
    // Verify that Chinese characters don't cause 4x inflation
    let source = "如果函数变量";
    let lexer = Lexer::new(source);
    // The source holds 18 bytes: six three-byte characters.
    assert_eq!(source.len(), 18);
    let tokens = lexer.scan_all().unwrap();
    assert_eq!(tokens[0].0.kind, TokenKind::If); // 如果
    assert_eq!(tokens[1].0.kind, TokenKind::Fn); // 函数
    assert_eq!(tokens[2].0.kind, TokenKind::Ident); // 变量
}

#[test]
fn test_zero_copy_slices_are_valid_utf8() {
    let source = "hello 世界 123";
    let tokens = Lexer::new(source).scan_all().unwrap();
    // All returned slices should be valid &str pointing into source
    for (_tok, text) in &tokens {
        assert!(source.contains(text.as_str()));
    }
}

#[test]
fn test_scan_all_empty_source() {
    // 空源码应只返回 EOF token
    let tokens = Lexer::new("").scan_all().unwrap();
    assert_eq!(tokens.len(), 1);
    assert_eq!(tokens[0].0.kind, TokenKind::Eof);
}

#[test]
fn test_scan_all_whitespace_only() {
    // 仅含空白字符的源码应只返回 EOF token
    let tokens = Lexer::new("   \t\n  \n").scan_all().unwrap();
    assert_eq!(tokens.len(), 1);
    assert_eq!(tokens[0].0.kind, TokenKind::Eof);
}

#[test]
fn test_scan_all_returns_eof_at_end() {
    // 任何有效源码扫描后末尾必须是 EOF
    let tokens = Lexer::new("42").scan_all().unwrap();
    assert!(tokens.len() >= 2);
    let last = tokens.last().expect("tokens should not be empty");
    assert_eq!(last.0.kind, TokenKind::Eof);
}

#[test]
fn test_scan_all_preserves_token_order() {
    // 验证 token 顺序与源码顺序一致
    let tokens = Lexer::new("a + b").scan_all().unwrap();
    let kinds: Vec<_> = tokens.iter().map(|(t, _)| t.kind).collect();
    assert_eq!(
        kinds,
        vec![TokenKind::Ident, TokenKind::Plus, TokenKind::Ident, TokenKind::Eof]
    );
}

#[test]
fn test_scan_all_unterminated_string_returns_error() {
    // 未闭合的字符串应返回错误
    let result = Lexer::new("\"unterminated").scan_all();
    assert!(result.is_err());
}

#[test]
fn test_scan_all_mixed_keywords_and_identifiers() {
    // 混合关键字和标识符
    let tokens = Lexer::new("if x else y").scan_all().unwrap();
    assert_eq!(tokens[0].0.kind, TokenKind::If);
    assert_eq!(tokens[1].0.kind, TokenKind::Ident);
    assert_eq!(tokens[1].1, "x");
    assert_eq!(tokens[2].0.kind, TokenKind::Else);
    assert_eq!(tokens[3].0.kind, TokenKind::Ident);
    assert_eq!(tokens[3].1, "y");
}

#[test]
fn test_scan_all_chinese_and_english_keywords_mixed() {
    // 中英文关键字混合使用
    let tokens = Lexer::new("如果 true 否则 false").scan_all().unwrap();
    assert_eq!(tokens[0].0.kind, TokenKind::If);
    assert_eq!(tokens[1].0.kind, TokenKind::True);
    assert_eq!(tokens[2].0.kind, TokenKind::Else);
    assert_eq!(tokens[3].0.kind, TokenKind::False);
}

#[test]
fn test_scan_all_all_operators() {
    // 验证各类运算符都能被正确扫描
    let tokens =
        Lexer::new("+ - * / % == != < > <= >= && || => |> ?? += -= *= /=").scan_all().unwrap();
    let ops = vec![
        TokenKind::Plus,
        TokenKind::Minus,
        TokenKind::Star,
        TokenKind::Slash,
        TokenKind::Percent,
        TokenKind::EqEq,
        TokenKind::BangEq,
        TokenKind::Lt,
        TokenKind::Gt,
        TokenKind::LtEq,
        TokenKind::GtEq,
        TokenKind::AndAnd,
        TokenKind::OrOr,
        TokenKind::Arrow,
        TokenKind::Pipe,
        TokenKind::QuestionQuestion,
        TokenKind::PlusEqual,
        TokenKind::MinusEqual,
        TokenKind::StarEqual,
        TokenKind::SlashEqual,
    ];
    let kinds: Vec<_> = tokens.iter().map(|(t, _)| t.kind).collect();
    // 最后一个是 EOF
    assert_eq!(kinds.len(), ops.len() + 1);
    for (i, op) in ops.iter().enumerate() {
        assert_eq!(kinds[i], *op, "operator at index {} mismatch", i);
    }
    assert_eq!(kinds.last().unwrap(), &TokenKind::Eof);
}

#[test]
fn test_scan_all_all_delimiters() {
    // 验证所有分隔符
    let tokens = Lexer::new("() {} [] , . : ;").scan_all().unwrap();
    let delims = vec![
        TokenKind::LParen,
        TokenKind::RParen,
        TokenKind::LBrace,
        TokenKind::RBrace,
        TokenKind::LBracket,
        TokenKind::RBracket,
        TokenKind::Comma,
        TokenKind::Dot,
        TokenKind::Colon,
        TokenKind::Semicolon,
    ];
    let kinds: Vec<_> = tokens.iter().map(|(t, _)| t.kind).collect();
    assert_eq!(kinds.len(), delims.len() + 1);
    for (i, d) in delims.iter().enumerate() {
        assert_eq!(kinds[i], *d, "delimiter at index {} mismatch", i);
    }
}

#[test]
fn test_scan_all_bom_handling() {
    // UTF-8 BOM 应被跳过
    let bom_source = "\u{FEFF}42";
    let tokens = Lexer::new(bom_source).scan_all().unwrap();
    assert_eq!(tokens[0].0.kind, TokenKind::Number);
    assert_eq!(tokens[0].1, "42");
}

#[test]
fn test_scan_all_comments_are_skipped() {
    // 行注释（以 # 开头）应被跳过
    let tokens = Lexer::new("# this is a comment\n42").scan_all().unwrap();
    // 第一个 token 应该是 42，注释被跳过
    let number_token = tokens.iter().find(|(t, _)| t.kind == TokenKind::Number);
    assert!(number_token.is_some(), "number token should be found after comment");
}

#[test]
fn test_scan_all_range_operators_in_expression() {
    // 验证范围运算符在表达式中的扫描
    let tokens = Lexer::new("1..10 0..<5").scan_all().unwrap();
    // 1 .. 10 0 ..< 5 EOF
    assert_eq!(tokens[0].0.kind, TokenKind::Number);
    assert_eq!(tokens[1].0.kind, TokenKind::DotDot);
    assert_eq!(tokens[2].0.kind, TokenKind::Number);
    assert_eq!(tokens[3].0.kind, TokenKind::Number);
    assert_eq!(tokens[4].0.kind, TokenKind::DotDotLt);
    assert_eq!(tokens[5].0.kind, TokenKind::Number);
}

#[test]
fn test_scan_all_returns_text_slices() {
    // 验证返回的文本切片正确指向源码
    let source = "hello 42";
    let tokens = Lexer::new(source).scan_all().unwrap();
    assert_eq!(tokens[0].1, "hello");
    assert_eq!(tokens[1].1, "42");
}

// ========================================================================
// P1-1: UTF-8 处理回归测试
// ========================================================================
//
// 由于 `Lexer::new(source: &'a str)` 的入参类型由 Rust 类型系统保证是合法 UTF-8，
// "拒绝非法 UTF-8" 的责任实际上由 `&str` 的构造方承担（编译期保证）。
// 因此本组测试聚焦于：合法 UTF-8 的边界情况必须被正确处理，不触发
// `current_char_len` / `current_char_as_str` / `slice` 中的 debug_assert 兜底分支。

#[test]
fn test_lexer_rejects_invalid_utf8() {
    // Rust 的 &str 类型在构造时就拒绝非法 UTF-8（编译期/运行期由 str 构造方保证），
    // 因此 Lexer::new 永远不会接收到非法 UTF-8。本测试断言该不变量：
    // 任何合法 &str（包括所有边界情况）都应被 Lexer 正确处理，不触发 panic。
    //
    // 覆盖的边界场景：
    // 1. 空字符串
    // 2. 仅 BOM
    // 3. ASCII / 2 字节 / 3 字节 / 4 字节字符混合
    // 4. 字符串末尾是多字节字符（验证 current_char_len 边界）
    // 5. 字符串开头就是多字节字符
    let cases: &[&str] = &[
        "",
        "\u{FEFF}",      // 仅 BOM
        "a",             // 单 ASCII
        "ä",             // 2 字节
        "中",            // 3 字节
        "𝓐",             // 4 字节 (U+1D4D0)
        "abc中𝓐",        // 混合
        "中",            // 开头是 3 字节
        "𝓐",             // 开头是 4 字节
        "hello 世界 🌍", // 结尾是 4 字节 Emoji
        "\u{FEFF}if 真", // BOM + 关键字 + CJK
    ];
    for &src in cases {
        // 不应 panic
        let _ = Lexer::new(src).scan_all();
    }
}

#[test]
fn test_lexer_multibyte_at_end_of_source() {
    // 字符串末尾是 3 字节 CJK 字符，验证 current_char_len 不会越界读取。
    // 注意：CJK 字符是合法标识符字符，所以 "x中" 会被扫描为单个标识符 "x中"。
    // 测试重点是 lexer 不 panic 且正确处理末尾多字节字符。
    let src = "x 中"; // 空格分隔，确保分词为两个 ident
    let tokens = Lexer::new(src).scan_all().unwrap();
    assert_eq!(tokens[0].0.kind, TokenKind::Ident);
    assert_eq!(tokens[0].1, "x");
    assert_eq!(tokens[1].0.kind, TokenKind::Ident);
    assert_eq!(tokens[1].1, "中");
}

#[test]
fn test_lexer_four_byte_char_at_end() {
    // 字符串末尾是 4 字节 Emoji，验证 current_char_len 正确返回 4 不越界。
    // Emoji 不是合法标识符字符，lexer 会报 "unexpected character" 错误。
    // 测试重点是 lexer 不 panic 且正确读取 4 字节序列。
    let src = "hi 🌍";
    let result = Lexer::new(src).scan_all();
    // 应该成功扫描 "hi" 然后在 emoji 处报错，或者整体失败
    // 关键是不应 panic 或读越界
    match result {
        Ok(tokens) => {
            // 如果成功，至少 "hi" 应被识别
            assert!(tokens.iter().any(|(t, _)| t.kind == TokenKind::Ident));
        }
        Err(e) => {
            // 报错是可接受的（emoji 非法字符），关键是错误信息合理
            assert!(
                e.message.contains("unexpected character") || e.message.contains("emoji"),
                "unexpected error: {}",
                e.message
            );
        }
    }
}

// ========================================================================
// P1-2: scan_cjk_token 边界回归测试
// ========================================================================

#[test]
fn test_cjk_boundary_at_end_of_source() {
    // 单字符 CJK 关键字在源码末尾（无后续字符）—— 验证 peek() 返回 None
    // 时不会错误地尝试读取 two_char_text
    let tokens = Lexer::new("真").scan_all().unwrap();
    assert_eq!(tokens[0].0.kind, TokenKind::True);
    assert_eq!(tokens[1].0.kind, TokenKind::Eof);
}

#[test]
fn test_cjk_two_char_keyword_at_end() {
    // 双字符 CJK 关键字在源码末尾（恰好两个字符）—— 验证 two_char_end 计算
    // 不会越界且能正确识别关键字
    let tokens = Lexer::new("如果").scan_all().unwrap();
    assert_eq!(tokens[0].0.kind, TokenKind::If);
    assert_eq!(tokens[1].0.kind, TokenKind::Eof);
}

#[test]
fn test_cjk_single_char_followed_by_non_cjk() {
    // CJK 单字关键字后跟 ASCII 字符 —— 验证不误判为双字关键字
    let tokens = Lexer::new("真x").scan_all().unwrap();
    assert_eq!(tokens[0].0.kind, TokenKind::True);
    assert_eq!(tokens[1].0.kind, TokenKind::Ident);
    assert_eq!(tokens[1].1, "x");
}

#[test]
fn test_cjk_keyword_then_cjk_identifier() {
    // CJK 关键字后紧跟 CJK 标识符（非关键字）—— 验证 cjk_keyword_starts_at
    // 边界检测在多字节字符间正确切分
    let tokens = Lexer::new("如果变量").scan_all().unwrap();
    assert_eq!(tokens[0].0.kind, TokenKind::If); // 如果
    assert_eq!(tokens[1].0.kind, TokenKind::Ident); // 变量
    assert_eq!(tokens[1].1, "变量");
}


#[test]
fn end_of_input_sits_at_the_source_length() {
    for source in ["", "42", "x = 1 # trailing comment", "\u{FEFF}打印(\"你好\")\n\n", "a\n  "] {
        let tokens = Lexer::new(source).scan_all().unwrap();
        let (last, text) = tokens.last().unwrap();
        assert_eq!(last.kind, TokenKind::Eof);
        assert_eq!(last.offset, source.len());
        assert_eq!(text, "");
        assert_eq!(tokens.iter().filter(|(t, _)| t.kind == TokenKind::Eof).count(), 1);
    }
}
