use nuzo::format::{
    align_left, align_right, fill_template, find_close_brace, hex_string, parse_format_spec,
    scan_template, FormatSpec, TemplatePiece,
};

fn fill(template: &str, values: &[&str]) -> String {
    let pieces = scan_template(template);
    let values: Vec<String> = values.iter().map(|v| v.to_string()).collect();
    fill_template(&pieces, &values)
}

#[test]
fn format_fills_one_placeholder() {
    assert_eq!(fill("Hello, {}!", &["world"]), "Hello, world!");
}

#[test]
fn format_fills_placeholders_in_order() {
    assert_eq!(fill("{} + {} = {}", &["1", "2", "3"]), "1 + 2 = 3");
}

#[test]
fn format_empty_template_ignores_arguments() {
    assert_eq!(fill("", &["1", "2", "3"]), "");
}

#[test]
fn format_without_placeholders_is_unchanged() {
    assert_eq!(fill("hello world", &[]), "hello world");
}

#[test]
fn format_keeps_placeholders_without_arguments() {
    assert_eq!(fill("{} {}", &["a"]), "a {}");
    assert_eq!(fill("{:x} and {:>4}", &[]), "{:x} and {:>4}");
}

#[test]
fn format_ignores_extra_arguments() {
    assert_eq!(fill("{}", &["a", "b", "c"]), "a");
}

#[test]
fn format_escaped_braces() {
    assert_eq!(fill("{{}}", &[]), "{}");
    assert_eq!(fill("{{hello}}", &[]), "{hello}");
}

#[test]
fn format_invalid_placeholder_is_text() {
    // `{abc}` is no placeholder: it is kept and takes no argument.
    assert_eq!(fill("{abc} {}", &["x"]), "{abc} x");
}

#[test]
fn format_unclosed_brace_is_text() {
    assert_eq!(fill("a { b", &["x"]), "a { b");
    assert_eq!(fill("a } b", &["x"]), "a } b");
}

#[test]
fn format_empty_specifier_is_written_back_as_plain_placeholder() {
    assert_eq!(fill("{:}", &[]), "{}");
    assert_eq!(fill("{:}", &["v"]), "v");
}

#[test]
fn format_pieces_of_a_template() {
    let pieces = scan_template("a{:.2}b{}");
    assert_eq!(pieces.len(), 4);
    assert!(matches!(&pieces[0], TemplatePiece::Text(t) if t == "a"));
    assert!(matches!(&pieces[1], TemplatePiece::Slot(s) if s == ".2"));
    assert!(matches!(&pieces[2], TemplatePiece::Text(t) if t == "b"));
    assert!(matches!(&pieces[3], TemplatePiece::Slot(s) if s.is_empty()));
}

#[test]
fn format_spec_kinds() {
    assert_eq!(parse_format_spec(""), FormatSpec::Default);
    assert_eq!(parse_format_spec(".2"), FormatSpec::Float(2));
    assert_eq!(parse_format_spec(".+3"), FormatSpec::Float(3));
    assert_eq!(parse_format_spec("."), FormatSpec::Default);
    assert_eq!(parse_format_spec(".-1"), FormatSpec::Default);
    assert_eq!(parse_format_spec("x"), FormatSpec::HexLower);
    assert_eq!(parse_format_spec("X"), FormatSpec::HexUpper);
    assert_eq!(parse_format_spec("xx"), FormatSpec::Default);
    assert_eq!(parse_format_spec(">5"), FormatSpec::RightAlign(5));
    assert_eq!(parse_format_spec("<007"), FormatSpec::LeftAlign(7));
    assert_eq!(parse_format_spec(">"), FormatSpec::Default);
    assert_eq!(parse_format_spec("<+"), FormatSpec::Default);
    assert_eq!(parse_format_spec("?"), FormatSpec::Default);
}

#[test]
fn format_spec_number_too_large() {
    let too_big = format!(".{}0", usize::MAX);
    assert_eq!(parse_format_spec(&too_big), FormatSpec::Default);
    let max = format!(">{}", usize::MAX);
    assert_eq!(parse_format_spec(&max), FormatSpec::RightAlign(usize::MAX));
}

#[test]
fn format_find_close_brace() {
    let chars: Vec<char> = "a{b}c}".chars().collect();
    assert_eq!(find_close_brace(&chars, 0), Some(3));
    assert_eq!(find_close_brace(&chars, 4), Some(5));
    assert_eq!(find_close_brace(&chars, 6), None);
    assert_eq!(find_close_brace(&chars, 9), None);
    let none: Vec<char> = "abc".chars().collect();
    assert_eq!(find_close_brace(&none, 0), None);
}

#[test]
fn format_hex() {
    assert_eq!(hex_string(255, false), "ff");
    assert_eq!(hex_string(255, true), "FF");
    assert_eq!(hex_string(0, false), "0");
    assert_eq!(hex_string(4096, false), "1000");
    assert_eq!(hex_string(-1, false), "ffffffffffffffff");
    assert_eq!(hex_string(i64::MIN, true), "8000000000000000");
}

#[test]
fn format_alignment() {
    assert_eq!(align_right("hi", 5), "   hi");
    assert_eq!(align_left("hi", 5), "hi   ");
    assert_eq!(align_right("hello", 3), "hello");
    assert_eq!(align_left("", 2), "  ");
    // Width counts characters, not bytes.
    assert_eq!(align_right("中", 3), "  中");
}
