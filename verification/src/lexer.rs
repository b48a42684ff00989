//! The lexer: turns source text into tokens.
//!
//! The lexer reads the source character by character. Columns count
//! characters, token offsets count UTF-8 bytes. Whitespace, a leading byte
//! order mark and `#` line comments are skipped between tokens; the token
//! list always ends with an end-of-input token. The first error stops the
//! scan.
//!
//! The behaviour is stated as a small state machine over the source
//! characters: [`skip_trivia`] skips what lies between tokens,
//! [`token_at`] reads one token, and [`scan_from`] reads all of them.

use vstd::prelude::*;
use crate::token::{Token, TokenKind, keyword_kind, lookup_keyword_chars, chars_of, kind_text};
use crate::parser::{decimal, decimal_string};

verus! {

// ---------------------------------------------------------------------------
// Character classes
// ---------------------------------------------------------------------------

/// ASCII decimal digit.
pub open spec fn is_digit(c: char) -> bool {
    0x30 <= (c as u32) <= 0x39
}

/// ASCII letter.
pub open spec fn is_alpha(c: char) -> bool {
    (0x41 <= (c as u32) <= 0x5A) || (0x61 <= (c as u32) <= 0x7A)
}

/// A CJK ideograph: the unified block, extension A, or the compatibility block.
pub open spec fn is_cjk(c: char) -> bool {
    (0x4E00 <= (c as u32) <= 0x9FFF) || (0x3400 <= (c as u32) <= 0x4DBF) || (0xF900
        <= (c as u32) <= 0xFAFF)
}

/// A character that may start an identifier.
pub open spec fn is_ident_start_char(c: char) -> bool {
    is_alpha(c) || c == '_' || is_cjk(c)
}

/// A character that may continue an identifier.
pub open spec fn is_ident_continue_char(c: char) -> bool {
    is_alpha(c) || is_digit(c) || c == '_' || is_cjk(c)
}

/// Whitespace and the byte order mark, skipped between tokens.
pub open spec fn is_blank(c: char) -> bool {
    c == ' ' || c == '\t' || c == '\r' || c == '\n' || c == '\u{FEFF}'
}

fn is_digit_char(c: char) -> (r: bool)
    ensures
        r == is_digit(c),
{
    let u = c as u32;
    0x30 <= u && u <= 0x39
}

fn is_ascii_alpha_char(c: char) -> (r: bool)
    ensures
        r == is_alpha(c),
{
    let u = c as u32;
    (0x41 <= u && u <= 0x5A) || (0x61 <= u && u <= 0x7A)
}

/// Whether `c` is a CJK ideograph (see [`is_cjk`]).
fn is_cjk_ident(c: char) -> (r: bool)
    ensures
        r == is_cjk(c),
{
    let u = c as u32;
    (0x4E00 <= u && u <= 0x9FFF) || (0x3400 <= u && u <= 0x4DBF) || (0xF900 <= u && u <= 0xFAFF)
}

/// Whether `c` may start an identifier.
fn is_ident_start(c: char) -> (r: bool)
    ensures
        r == is_ident_start_char(c),
{
    is_ascii_alpha_char(c) || c == '_' || is_cjk_ident(c)
}

/// Whether `c` may continue an identifier.
fn is_ident_continue(c: char) -> (r: bool)
    ensures
        r == is_ident_continue_char(c),
{
    is_ascii_alpha_char(c) || is_digit_char(c) || c == '_' || is_cjk_ident(c)
}

// ---------------------------------------------------------------------------
// UTF-8 widths
// ---------------------------------------------------------------------------

/// The number of bytes of the UTF-8 encoding of `c`.
pub open spec fn utf8_width(c: char) -> nat {
    if (c as u32) <= 0x7F {
        1
    } else if (c as u32) <= 0x7FF {
        2
    } else if (c as u32) <= 0xFFFF {
        3
    } else {
        4
    }
}

/// The number of bytes of the UTF-8 encoding of `s`.
pub open spec fn byte_len(s: Seq<char>) -> nat
    decreases s.len(),
{
    if s.len() == 0 {
        0
    } else {
        byte_len(s.drop_last()) + utf8_width(s.last())
    }
}

/// The byte offset of the character at index `p` of `s`.
pub open spec fn byte_offset(s: Seq<char>, p: int) -> nat {
    byte_len(s.take(p))
}

proof fn lemma_byte_offset_step(s: Seq<char>, p: int)
    requires
        0 <= p < s.len(),
    ensures
        byte_offset(s, p + 1) == byte_offset(s, p) + utf8_width(s[p]),
{
    assert(s.take(p + 1).drop_last() =~= s.take(p));
}

proof fn lemma_byte_offset_mono(s: Seq<char>, p: int, q: int)
    requires
        0 <= p <= q <= s.len(),
    ensures
        byte_offset(s, p) <= byte_offset(s, q),
    decreases q - p,
{
    if p < q {
        lemma_byte_offset_step(s, q - 1);
        lemma_byte_offset_mono(s, p, q - 1);
    }
}

proof fn lemma_byte_offset_full(s: Seq<char>)
    ensures
        byte_offset(s, s.len() as int) == byte_len(s),
{
    assert(s.take(s.len() as int) =~= s);
}

fn utf8_width_of(c: char) -> (r: usize)
    ensures
        r == utf8_width(c),
{
    let u = c as u32;
    if u <= 0x7F {
        1
    } else if u <= 0x7FF {
        2
    } else if u <= 0xFFFF {
        3
    } else {
        4
    }
}

// ---------------------------------------------------------------------------
// The lexer state machine, as a specification
// ---------------------------------------------------------------------------

/// A reading position: the index of the next character, and the 1-based
/// line and column at which it stands.
pub struct Cursor {
    pub pos: int,
    pub line: int,
    pub column: int,
}

/// The character under the cursor, if any.
pub open spec fn char_at(s: Seq<char>, c: Cursor) -> Option<char> {
    if 0 <= c.pos < s.len() {
        Some(s[c.pos])
    } else {
        None
    }
}

/// Reads one character: a newline moves to column 1 of the next line, any
/// other character moves one column right. At the end of input nothing moves.
pub open spec fn step(s: Seq<char>, c: Cursor) -> Cursor {
    if 0 <= c.pos < s.len() {
        if s[c.pos] == '\n' {
            Cursor { pos: c.pos + 1, line: c.line + 1, column: 1 }
        } else {
            Cursor { pos: c.pos + 1, line: c.line, column: c.column + 1 }
        }
    } else {
        c
    }
}

/// Moves the cursor to index `e` over characters that hold no newline.
pub open spec fn run_to(c: Cursor, e: int) -> Cursor {
    Cursor { pos: e, line: c.line, column: c.column + (e - c.pos) }
}

/// Skips whitespace, byte order marks and `#` comments (a comment runs to
/// the end of its line; the newline itself is then skipped as whitespace).
/// `in_comment` says whether the cursor is inside a comment.
pub open spec fn skip_trivia(s: Seq<char>, c: Cursor, in_comment: bool) -> Cursor
    decreases s.len() - c.pos, (if in_comment { 1int } else { 0int }),
{
    if !(0 <= c.pos < s.len()) {
        c
    } else if in_comment {
        if s[c.pos] == '\n' {
            skip_trivia(s, c, false)
        } else {
            skip_trivia(s, step(s, c), true)
        }
    } else if is_blank(s[c.pos]) {
        skip_trivia(s, step(s, c), false)
    } else if s[c.pos] == '#' {
        skip_trivia(s, step(s, c), true)
    } else {
        c
    }
}

/// The index after the run of digits that starts at `i`.
pub open spec fn digits_end(s: Seq<char>, i: int) -> int
    decreases s.len() - i,
{
    if 0 <= i < s.len() && is_digit(s[i]) {
        digits_end(s, i + 1)
    } else {
        i
    }
}

/// The index after a number whose first digit has been read and whose next
/// character is at `i`: more digits, then optionally `.` followed by at least
/// one digit and more digits.
pub open spec fn number_end(s: Seq<char>, i: int) -> int {
    let e = digits_end(s, i);
    if 0 <= e && e + 1 < s.len() && s[e] == '.' && is_digit(s[e + 1]) {
        digits_end(s, e + 1)
    } else {
        e
    }
}

/// The index after the run of identifier characters that starts at `i`.
pub open spec fn ident_end(s: Seq<char>, i: int) -> int
    decreases s.len() - i,
{
    if 0 <= i < s.len() && is_ident_continue_char(s[i]) {
        ident_end(s, i + 1)
    } else {
        i
    }
}

/// Whether a CJK keyword (of one or two characters) starts at index `i`.
pub open spec fn cjk_keyword_at(s: Seq<char>, i: int) -> bool {
    &&& 0 <= i < s.len()
    &&& is_cjk(s[i])
    &&& ((i + 1 < s.len() && is_cjk(s[i + 1]) && keyword_kind(s.subrange(i, i + 2)) is Some)
        || keyword_kind(s.subrange(i, i + 1)) is Some)
}

/// The index after a CJK identifier whose first character has been read and
/// whose next character is at `i`: it stops before a character that cannot
/// continue an identifier and before a CJK keyword.
pub open spec fn cjk_ident_end(s: Seq<char>, i: int) -> int
    decreases s.len() - i,
{
    if 0 <= i < s.len() && is_ident_continue_char(s[i]) && !(is_cjk(s[i]) && cjk_keyword_at(
        s,
        i,
    )) {
        cjk_ident_end(s, i + 1)
    } else {
        i
    }
}

/// Reads the contents of a string literal up to its closing `quote`.
/// A backslash makes the next character part of the contents. Returns
/// whether the closing quote was found, and the cursor on it (or where the
/// literal broke off: at a newline, or at the end of input).
pub open spec fn string_scan(s: Seq<char>, c: Cursor, quote: char) -> (bool, Cursor)
    decreases s.len() - c.pos,
{
    if !(0 <= c.pos < s.len()) {
        (false, c)
    } else if s[c.pos] == quote {
        (true, c)
    } else if s[c.pos] == '\n' {
        (false, c)
    } else if s[c.pos] == '\\' {
        string_scan(s, step(s, step(s, c)), quote)
    } else {
        string_scan(s, step(s, c), quote)
    }
}

/// A lexing error: message, line and column.
pub type LexFault = (Seq<char>, int, int);

/// One token read: the token, its text and the cursor after it.
pub type LexStep = Result<(Token, Seq<char>, Cursor), LexFault>;

/// A token of `kind` that starts at `start` and ends at `end`; its text is
/// the source between the two.
pub open spec fn token_between(s: Seq<char>, kind: TokenKind, start: Cursor, end: Cursor) -> LexStep {
    Ok(
        (
            Token {
                kind,
                line: end.line as usize,
                column: start.column as usize,
                offset: byte_offset(s, start.pos) as usize,
            },
            s.subrange(start.pos, end.pos),
            end,
        ),
    )
}

/// Whether the character under `c` is `ch`.
pub open spec fn at_char(s: Seq<char>, c: Cursor, ch: char) -> bool {
    char_at(s, c) == Some(ch)
}

/// A one-character token, or a two-character one when the second character
/// is `second`.
pub open spec fn one_or_two(
    s: Seq<char>,
    c: Cursor,
    second: char,
    two: TokenKind,
    one: TokenKind,
) -> LexStep {
    let c1 = step(s, c);
    if at_char(s, c1, second) {
        token_between(s, two, c, step(s, c1))
    } else {
        token_between(s, one, c, c1)
    }
}

/// A token made of an identifier that starts with a CJK ideograph at `c`:
/// a two-character keyword, else a one-character keyword, else an
/// identifier that stops before the next CJK keyword.
pub open spec fn cjk_token(s: Seq<char>, c: Cursor) -> LexStep {
    let c1 = step(s, c);
    if c.pos + 1 < s.len() && is_cjk(s[c.pos + 1]) && keyword_kind(s.subrange(c.pos, c.pos + 2)) is Some {
        token_between(s, keyword_kind(s.subrange(c.pos, c.pos + 2))->0, c, step(s, c1))
    } else if keyword_kind(s.subrange(c.pos, c.pos + 1)) is Some {
        token_between(s, keyword_kind(s.subrange(c.pos, c.pos + 1))->0, c, c1)
    } else {
        token_between(s, TokenKind::Ident, c, run_to(c, cjk_ident_end(s, c.pos + 1)))
    }
}

/// An identifier or keyword with an ASCII start at `c`.
pub open spec fn word_token(s: Seq<char>, c: Cursor) -> LexStep {
    let e = ident_end(s, c.pos + 1);
    let text = s.subrange(c.pos, e);
    let kind = match keyword_kind(text) {
        Some(k) => k,
        None => TokenKind::Ident,
    };
    token_between(s, kind, c, run_to(c, e))
}

/// A string literal whose opening quote is at `c`; its text is its contents.
pub open spec fn string_token(s: Seq<char>, c: Cursor, quote: char) -> LexStep {
    let c1 = step(s, c);
    let (closed, q) = string_scan(s, c1, quote);
    if closed {
        let e = step(s, q);
        Ok(
            (
                Token {
                    kind: TokenKind::String,
                    line: e.line as usize,
                    column: c.column as usize,
                    offset: byte_offset(s, c.pos) as usize,
                },
                s.subrange(c1.pos, q.pos),
                e,
            ),
        )
    } else {
        Err(("unterminated string"@, q.line, c.column))
    }
}

/// The token that starts at `c` (no whitespace or comment stands there).
pub open spec fn token_at(s: Seq<char>, c: Cursor) -> LexStep {
    if !(0 <= c.pos < s.len()) {
        Ok(
            (
                Token {
                    kind: TokenKind::Eof,
                    line: c.line as usize,
                    column: c.column as usize,
                    offset: byte_offset(s, c.pos) as usize,
                },
                Seq::empty(),
                c,
            ),
        )
    } else {
        let ch = s[c.pos];
        let c1 = step(s, c);
        if ch == '(' {
            token_between(s, TokenKind::LParen, c, c1)
        } else if ch == ')' {
            token_between(s, TokenKind::RParen, c, c1)
        } else if ch == '{' {
            token_between(s, TokenKind::LBrace, c, c1)
        } else if ch == '}' {
            token_between(s, TokenKind::RBrace, c, c1)
        } else if ch == '[' {
            token_between(s, TokenKind::LBracket, c, c1)
        } else if ch == ']' {
            token_between(s, TokenKind::RBracket, c, c1)
        } else if ch == ',' {
            token_between(s, TokenKind::Comma, c, c1)
        } else if ch == ':' {
            token_between(s, TokenKind::Colon, c, c1)
        } else if ch == ';' {
            token_between(s, TokenKind::Semicolon, c, c1)
        } else if ch == '.' {
            if at_char(s, c1, '.') {
                let c2 = step(s, c1);
                if at_char(s, c2, '<') {
                    token_between(s, TokenKind::DotDotLt, c, step(s, c2))
                } else {
                    token_between(s, TokenKind::DotDot, c, c2)
                }
            } else {
                token_between(s, TokenKind::Dot, c, c1)
            }
        } else if ch == '+' {
            one_or_two(s, c, '=', TokenKind::PlusEqual, TokenKind::Plus)
        } else if ch == '-' {
            one_or_two(s, c, '=', TokenKind::MinusEqual, TokenKind::Minus)
        } else if ch == '*' {
            if at_char(s, c1, '*') {
                token_between(s, TokenKind::StarStar, c, step(s, c1))
            } else {
                one_or_two(s, c, '=', TokenKind::StarEqual, TokenKind::Star)
            }
        } else if ch == '/' {
            one_or_two(s, c, '=', TokenKind::SlashEqual, TokenKind::Slash)
        } else if ch == '%' {
            token_between(s, TokenKind::Percent, c, c1)
        } else if ch == '=' {
            if at_char(s, c1, '=') {
                token_between(s, TokenKind::EqEq, c, step(s, c1))
            } else {
                one_or_two(s, c, '>', TokenKind::Arrow, TokenKind::Eq)
            }
        } else if ch == '!' {
            one_or_two(s, c, '=', TokenKind::BangEq, TokenKind::Bang)
        } else if ch == '<' {
            one_or_two(s, c, '=', TokenKind::LtEq, TokenKind::Lt)
        } else if ch == '>' {
            one_or_two(s, c, '=', TokenKind::GtEq, TokenKind::Gt)
        } else if ch == '&' {
            if at_char(s, c1, '&') {
                token_between(s, TokenKind::AndAnd, c, step(s, c1))
            } else {
                Err(("expected '&&' for logical AND"@, c1.line, c.column))
            }
        } else if ch == '|' {
            if at_char(s, c1, '|') {
                token_between(s, TokenKind::OrOr, c, step(s, c1))
            } else if at_char(s, c1, '>') {
                token_between(s, TokenKind::Pipe, c, step(s, c1))
            } else {
                Err(("expected '||' for logical OR or '|>' for pipe"@, c1.line, c.column))
            }
        } else if ch == '?' {
            if at_char(s, c1, '?') {
                token_between(s, TokenKind::QuestionQuestion, c, step(s, c1))
            } else {
                Err(("expected '??' for null coalescing"@, c1.line, c.column))
            }
        } else if ch == '"' || ch == '\'' {
            string_token(s, c, ch)
        } else if is_digit(ch) {
            token_between(s, TokenKind::Number, c, run_to(c, number_end(s, c.pos + 1)))
        } else if is_ident_start_char(ch) {
            if is_cjk(ch) {
                cjk_token(s, c)
            } else {
                word_token(s, c)
            }
        } else {
            Err(("unexpected character: '"@ + seq![ch] + "'"@, c1.line, c.column))
        }
    }
}

/// The next token from `c`: trivia skipped, then one token read.
pub open spec fn next_token_from(s: Seq<char>, c: Cursor) -> LexStep {
    token_at(s, skip_trivia(s, c, false))
}

/// All tokens from `c` on, up to and including the end-of-input token, each
/// with its text; or the first error.
pub open spec fn scan_from(s: Seq<char>, c: Cursor) -> Result<Seq<(Token, Seq<char>)>, LexFault>
    decreases s.len() - c.pos,
{
    match next_token_from(s, c) {
        Err(e) => Err(e),
        Ok((t, text, c2)) => {
            if t.kind == TokenKind::Eof || !(c.pos < c2.pos <= s.len()) {
                Ok(seq![(t, text)])
            } else {
                match scan_from(s, c2) {
                    Err(e) => Err(e),
                    Ok(rest) => Ok(seq![(t, text)] + rest),
                }
            }
        },
    }
}

/// Where reading starts: after a leading byte order mark, at line 1, column 1.
pub open spec fn start_cursor(s: Seq<char>) -> Cursor {
    Cursor { pos: if s.len() > 0 && s[0] == '\u{FEFF}' { 1 } else { 0 }, line: 1, column: 1 }
}

/// The tokens of the whole source `s` (see [`scan_from`]).
pub open spec fn tokenize(s: Seq<char>) -> Result<Seq<(Token, Seq<char>)>, LexFault> {
    scan_from(s, start_cursor(s))
}


// ---------------------------------------------------------------------------
// Facts about the specification
// ---------------------------------------------------------------------------

/// A cursor inside `s` (or at its end) whose line and column are at least 1
/// and no more than one past the position.
pub open spec fn cursor_ok(s: Seq<char>, c: Cursor) -> bool {
    &&& 0 <= c.pos <= s.len()
    &&& 1 <= c.line <= c.pos + 1
    &&& 1 <= c.column <= c.pos + 1
}

proof fn lemma_digits_end_bounds(s: Seq<char>, i: int)
    requires
        0 <= i <= s.len(),
    ensures
        i <= digits_end(s, i) <= s.len(),
    decreases s.len() - i,
{
    if i < s.len() && is_digit(s[i]) {
        lemma_digits_end_bounds(s, i + 1);
    }
}

proof fn lemma_ident_end_bounds(s: Seq<char>, i: int)
    requires
        0 <= i <= s.len(),
    ensures
        i <= ident_end(s, i) <= s.len(),
    decreases s.len() - i,
{
    if i < s.len() && is_ident_continue_char(s[i]) {
        lemma_ident_end_bounds(s, i + 1);
    }
}

proof fn lemma_cjk_ident_end_bounds(s: Seq<char>, i: int)
    requires
        0 <= i <= s.len(),
    ensures
        i <= cjk_ident_end(s, i) <= s.len(),
    decreases s.len() - i,
{
    if i < s.len() && is_ident_continue_char(s[i]) && !(is_cjk(s[i]) && cjk_keyword_at(s, i)) {
        lemma_cjk_ident_end_bounds(s, i + 1);
    }
}

proof fn lemma_number_end_bounds(s: Seq<char>, i: int)
    requires
        0 <= i <= s.len(),
    ensures
        i <= number_end(s, i) <= s.len(),
{
    lemma_digits_end_bounds(s, i);
    let e = digits_end(s, i);
    if 0 <= e && e + 1 < s.len() && s[e] == '.' && is_digit(s[e + 1]) {
        lemma_digits_end_bounds(s, e + 1);
    }
}

proof fn lemma_string_scan_bounds(s: Seq<char>, c: Cursor, quote: char)
    requires
        cursor_ok(s, c),
    ensures
        c.pos <= string_scan(s, c, quote).1.pos <= s.len(),
        cursor_ok(s, string_scan(s, c, quote).1),
        string_scan(s, c, quote).0 ==> string_scan(s, c, quote).1.pos < s.len(),
    decreases s.len() - c.pos,
{
    if 0 <= c.pos < s.len() && s[c.pos] != quote && s[c.pos] != '\n' {
        if s[c.pos] == '\\' {
            lemma_string_scan_bounds(s, step(s, step(s, c)), quote);
        } else {
            lemma_string_scan_bounds(s, step(s, c), quote);
        }
    }
}

proof fn lemma_skip_trivia_bounds(s: Seq<char>, c: Cursor, in_comment: bool)
    requires
        cursor_ok(s, c),
    ensures
        c.pos <= skip_trivia(s, c, in_comment).pos <= s.len(),
        cursor_ok(s, skip_trivia(s, c, in_comment)),
    decreases s.len() - c.pos, (if in_comment { 1int } else { 0int }),
{
    if 0 <= c.pos < s.len() {
        if in_comment {
            if s[c.pos] == '\n' {
                lemma_skip_trivia_bounds(s, c, false);
            } else {
                lemma_skip_trivia_bounds(s, step(s, c), true);
            }
        } else if is_blank(s[c.pos]) || s[c.pos] == '#' {
            lemma_skip_trivia_bounds(s, step(s, c), s[c.pos] == '#');
        }
    }
}

/// The `n` characters of `s` from index `p`.
pub open spec fn piece_at(s: Seq<char>, p: int, n: int) -> Seq<char> {
    s.subrange(p, p + n)
}

/// Whether `text` occurs in `s` as a run of consecutive characters.
pub open spec fn is_piece(text: Seq<char>, s: Seq<char>) -> bool {
    exists|p: int| 0 <= p && p + text.len() <= s.len() && text == #[trigger] piece_at(s, p, text.len() as int)
}

/// What one token read from `d` looks like: it starts at `d` (its offset is
/// that of `d`, its column is `d`'s), it ends between `d` and the end of the
/// source, its text is a piece of the source, and only the end-of-input
/// token consumes nothing.
proof fn lemma_token_at_props(s: Seq<char>, d: Cursor)
    requires
        cursor_ok(s, d),
        s.len() < usize::MAX,
    ensures
        token_at(s, d) matches Ok((t, text, e)) ==> {
            &&& d.pos <= e.pos <= s.len()
            &&& cursor_ok(s, e)
            &&& t.line as int == e.line
            &&& t.column as int == d.column
            &&& t.offset as int == byte_offset(s, d.pos) as usize as int
            &&& (t.kind != TokenKind::Eof <==> d.pos < e.pos)
            &&& (t.kind == TokenKind::Eof ==> d.pos == s.len() && e == d && text.len() == 0)
            &&& is_piece(text, s)
        },
{
    if 0 <= d.pos < s.len() {
        let ch = s[d.pos];
        let d1 = step(s, d);
        if ch == '"' || ch == '\'' {
            lemma_string_scan_bounds(s, d1, ch);
            let (closed, q) = string_scan(s, d1, ch);
            if closed {
                let text = s.subrange(d1.pos, q.pos);
                assert(text == piece_at(s, d1.pos, text.len() as int));
            }
        } else if is_digit(ch) {
            lemma_number_end_bounds(s, d.pos + 1);
        } else if is_ident_start_char(ch) {
            lemma_ident_end_bounds(s, d.pos + 1);
            lemma_cjk_ident_end_bounds(s, d.pos + 1);
        }
        match token_at(s, d) {
            Ok((t, text, e)) => {
                if t.kind != TokenKind::String {
                    assert(text == piece_at(s, d.pos, text.len() as int));
                }
            },
            Err(_) => {},
        }
    } else {
        assert(Seq::<char>::empty() =~= piece_at(s, 0, 0));
    }
}

/// A token other than the end of input consumes at least one character, and
/// reading never goes past the end of the source.
pub proof fn lemma_token_advances(s: Seq<char>, c: Cursor)
    requires
        cursor_ok(s, c),
        s.len() < usize::MAX,
    ensures
        next_token_from(s, c) matches Ok((t, _, c2)) ==> {
            &&& c.pos <= c2.pos <= s.len()
            &&& cursor_ok(s, c2)
            &&& (t.kind != TokenKind::Eof ==> c.pos < c2.pos)
        },
{
    lemma_skip_trivia_bounds(s, c, false);
    lemma_token_at_props(s, skip_trivia(s, c, false));
}

proof fn lemma_byte_offset_strict(s: Seq<char>, p: int, q: int)
    requires
        0 <= p < q <= s.len(),
    ensures
        byte_offset(s, p) < byte_offset(s, q),
{
    lemma_byte_offset_step(s, p);
    lemma_byte_offset_mono(s, p + 1, q);
}

/// The shape of a token list read from `c` on: it is never empty, it ends
/// with the end-of-input token and holds no other; every token has a line
/// and a column of at least 1; the offsets grow strictly from one token to
/// the next and are no less than that of `c`; and every text is a piece of
/// the source.
proof fn lemma_scan_from_shape(s: Seq<char>, c: Cursor)
    requires
        cursor_ok(s, c),
        s.len() < usize::MAX,
        byte_len(s) <= usize::MAX,
    ensures
        scan_from(s, c) matches Ok(w) ==> {
            &&& w.len() > 0
            &&& w.last().0.kind == TokenKind::Eof
            &&& forall|i: int| 0 <= i < w.len() - 1 ==> w[i].0.kind != TokenKind::Eof
            &&& forall|i: int| 0 <= i < w.len() ==> w[i].0.line >= 1 && w[i].0.column >= 1
            &&& forall|i: int| 0 <= i < w.len() ==> w[i].0.offset >= byte_offset(s, c.pos)
            &&& forall|i: int, j: int| 0 <= i < j < w.len() ==> w[i].0.offset < w[j].0.offset
            &&& forall|i: int| 0 <= i < w.len() ==> is_piece(#[trigger] w[i].1, s)
        },
    decreases s.len() - c.pos,
{
    lemma_skip_trivia_bounds(s, c, false);
    let d = skip_trivia(s, c, false);
    lemma_token_at_props(s, d);
    lemma_token_advances(s, c);
    lemma_byte_offset_mono(s, c.pos, d.pos);
    lemma_byte_offset_mono(s, d.pos, s.len() as int);
    lemma_byte_offset_full(s);
    match next_token_from(s, c) {
        Err(_) => {},
        Ok((t, text, c2)) => {
            if t.kind == TokenKind::Eof {
            } else {
                lemma_scan_from_shape(s, c2);
                match scan_from(s, c2) {
                    Ok(rest) => {
                        let w = seq![(t, text)] + rest;
                        lemma_byte_offset_strict(s, d.pos, c2.pos);
                        assert forall|i: int| 0 <= i < w.len() implies w[i].0.offset >= byte_offset(s, c.pos) by {
                            if i > 0 {
                                assert(w[i] == rest[i - 1]);
                            }
                        }
                        assert forall|i: int, j: int| 0 <= i < j < w.len() implies w[i].0.offset < w[j].0.offset by {
                            assert(w[j] == rest[j - 1]);
                            if i > 0 {
                                assert(w[i] == rest[i - 1]);
                            }
                        }
                        assert forall|i: int| 0 <= i < w.len() implies is_piece(#[trigger] w[i].1, s) by {
                            if i > 0 {
                                assert(w[i] == rest[i - 1]);
                            }
                        }
                        assert forall|i: int| 0 <= i < w.len() - 1 implies w[i].0.kind != TokenKind::Eof by {
                            if i > 0 {
                                assert(w[i] == rest[i - 1]);
                            }
                        }
                        assert forall|i: int| 0 <= i < w.len() implies w[i].0.line >= 1 && w[i].0.column >= 1 by {
                            if i > 0 {
                                assert(w[i] == rest[i - 1]);
                            }
                        }
                    },
                    Err(_) => {},
                }
            }
        },
    }
}

/// What every successful tokenization looks like: the list is never empty,
/// it ends with the end-of-input token and holds no other; lines and columns
/// are at least 1; offsets grow strictly along the list; and every token
/// text is a piece of the source.
pub proof fn lemma_tokenize_shape(s: Seq<char>)
    requires
        s.len() < usize::MAX,
        byte_len(s) <= usize::MAX,
    ensures
        tokenize(s) matches Ok(w) ==> {
            &&& w.len() > 0
            &&& w.last().0.kind == TokenKind::Eof
            &&& forall|i: int| 0 <= i < w.len() - 1 ==> w[i].0.kind != TokenKind::Eof
            &&& forall|i: int| 0 <= i < w.len() ==> w[i].0.line >= 1 && w[i].0.column >= 1
            &&& forall|i: int, j: int| 0 <= i < j < w.len() ==> w[i].0.offset < w[j].0.offset
            &&& forall|i: int| 0 <= i < w.len() ==> is_piece(#[trigger] w[i].1, s)
        },
{
    lemma_scan_from_shape(s, start_cursor(s));
}

/// The last token read from `c` on stands at the end of the source: its
/// offset is the source's byte length and its text is empty.
proof fn lemma_scan_from_end(s: Seq<char>, c: Cursor)
    requires
        cursor_ok(s, c),
        s.len() < usize::MAX,
        byte_len(s) <= usize::MAX,
    ensures
        scan_from(s, c) matches Ok(w) ==> w.len() > 0 && w.last().0.offset == byte_len(s) && w.last().1.len() == 0,
    decreases s.len() - c.pos,
{
    lemma_skip_trivia_bounds(s, c, false);
    let d = skip_trivia(s, c, false);
    lemma_token_at_props(s, d);
    lemma_token_advances(s, c);
    lemma_byte_offset_full(s);
    match next_token_from(s, c) {
        Err(_) => {},
        Ok((t, text, c2)) => {
            if t.kind == TokenKind::Eof || !(c.pos < c2.pos <= s.len()) {
                assert(t.kind == TokenKind::Eof);
                assert(d.pos == s.len());
            } else {
                lemma_scan_from_end(s, c2);
                match scan_from(s, c2) {
                    Ok(rest) => {
                        let w = seq![(t, text)] + rest;
                        assert(w.last() == rest.last());
                    },
                    Err(_) => {},
                }
            }
        },
    }
}

/// Every successful tokenization ends with the end-of-input token, placed at
/// the byte length of the source and with an empty text, and holds no other
/// end-of-input token.
pub proof fn lemma_tokenize_ends_at_source_end(s: Seq<char>)
    requires
        s.len() < usize::MAX,
        byte_len(s) <= usize::MAX,
    ensures
        tokenize(s) matches Ok(w) ==> {
            &&& w.len() > 0
            &&& w.last().0.kind == TokenKind::Eof
            &&& w.last().0.offset == byte_len(s)
            &&& w.last().1.len() == 0
            &&& forall|i: int| 0 <= i < w.len() - 1 ==> w[i].0.kind != TokenKind::Eof
        },
{
    lemma_scan_from_shape(s, start_cursor(s));
    lemma_scan_from_end(s, start_cursor(s));
}

/// Once the end of input has been read, reading on gives the same
/// end-of-input token again and leaves the reading position where it is.
pub proof fn lemma_end_of_input_repeats(s: Seq<char>, c: Cursor)
    requires
        cursor_ok(s, c),
        s.len() < usize::MAX,
    ensures
        next_token_from(s, c) matches Ok((t, _, c2)) ==> (t.kind == TokenKind::Eof ==> {
            &&& c2.pos == s.len()
            &&& next_token_from(s, c2) == next_token_from(s, c)
        }),
{
    lemma_skip_trivia_bounds(s, c, false);
    let d = skip_trivia(s, c, false);
    lemma_token_at_props(s, d);
    if d.pos == s.len() {
        assert(skip_trivia(s, d, false) == d);
    }
}

/// Whether `b` is well-formed contents of a string literal closed by
/// `quote`: each character is either a backslash followed by any character
/// (the two standing for that character), or one that is neither `quote`,
/// a backslash nor a newline.
pub open spec fn escaped_contents(b: Seq<char>, quote: char) -> bool
    decreases b.len(),
{
    if b.len() == 0 {
        true
    } else if b[0] == '\\' {
        b.len() >= 2 && escaped_contents(b.subrange(2, b.len() as int), quote)
    } else {
        b[0] != quote && b[0] != '\n' && escaped_contents(b.subrange(1, b.len() as int), quote)
    }
}

/// Scanning well-formed contents `b` that stand in `s` from the cursor on,
/// with `quote` right after them, finds the closing quote right after them.
proof fn lemma_string_scan_contents(s: Seq<char>, c: Cursor, b: Seq<char>, quote: char)
    requires
        0 <= c.pos,
        c.pos + b.len() < s.len(),
        s.subrange(c.pos, c.pos + b.len()) == b,
        s[c.pos + b.len()] == quote,
        quote != '\\',
        escaped_contents(b, quote),
    ensures
        string_scan(s, c, quote).0,
        string_scan(s, c, quote).1.pos == c.pos + b.len(),
    decreases b.len(),
{
    if b.len() == 0 {
    } else {
        assert(s[c.pos] == b[0]);
        if b[0] == '\\' {
            let c2 = step(s, step(s, c));
            assert(c2.pos == c.pos + 2);
            let rest = b.subrange(2, b.len() as int);
            assert(s.subrange(c2.pos, c2.pos + rest.len()) =~= rest);
            lemma_string_scan_contents(s, c2, rest, quote);
        } else {
            let c1 = step(s, c);
            let rest = b.subrange(1, b.len() as int);
            assert(s.subrange(c1.pos, c1.pos + rest.len()) =~= rest);
            lemma_string_scan_contents(s, c1, rest, quote);
        }
    }
}

/// A source that is one string literal, in double or single quotes, whose
/// contents are ordinary characters and backslash escapes (an escaped quote
/// among them), reads as exactly one string token whose text is the whole
/// contents, escapes included, followed by the end of input.
pub proof fn lemma_escaped_string_literal(b: Seq<char>, quote: char)
    requires
        quote == '"' || quote == '\'',
        escaped_contents(b, quote),
    ensures
        tokenize(seq![quote] + b + seq![quote]) matches Ok(w) && w.len() == 2 && w[0].0.kind == TokenKind::String
            && w[0].1 == b && w[1].0.kind == TokenKind::Eof,
{
    let s = seq![quote] + b + seq![quote];
    let c0 = start_cursor(s);
    assert(s[0] == quote);
    assert(c0.pos == 0);
    assert(skip_trivia(s, c0, false) == c0);
    let c1 = step(s, c0);
    assert(c1.pos == 1);
    assert(s.subrange(1, 1 + b.len() as int) =~= b);
    assert(s[1 + b.len() as int] == quote);
    lemma_string_scan_contents(s, c1, b, quote);
    let q = string_scan(s, c1, quote).1;
    let e = step(s, q);
    assert(e.pos == s.len());
    assert(token_at(s, c0) == string_token(s, c0, quote));
    assert(next_token_from(s, c0) matches Ok((t, text, c2)) && t.kind == TokenKind::String && text == b && c2 == e);
    assert(skip_trivia(s, e, false) == e);
    assert(next_token_from(s, e) matches Ok((t, text, c3)) && t.kind == TokenKind::Eof);
    assert(scan_from(s, e) matches Ok(w) && w.len() == 1 && w[0].0.kind == TokenKind::Eof);
}

/// The run of digits from index `i` ends at `j` where `s` holds digits
/// from `i` up to `j` and no digit at `j`.
proof fn lemma_digits_run(s: Seq<char>, i: int, j: int)
    requires
        0 <= i <= j <= s.len(),
        forall|k: int| i <= k < j ==> is_digit(#[trigger] s[k]),
        j < s.len() ==> !is_digit(s[j]),
    ensures
        digits_end(s, i) == j,
    decreases j - i,
{
    if i < j {
        lemma_digits_run(s, i + 1, j);
    }
}

/// The run of identifier characters from index `i` ends at `j` where `s`
/// holds letters from `i` up to `j` and nothing follows.
proof fn lemma_letters_run(s: Seq<char>, i: int)
    requires
        0 <= i <= s.len(),
        forall|k: int| i <= k < s.len() ==> is_alpha(#[trigger] s[k]),
    ensures
        ident_end(s, i) == s.len(),
    decreases s.len() - i,
{
    if i < s.len() {
        lemma_letters_run(s, i + 1);
    }
}

/// A source of digits `a`, or of digits `a`, a point and digits `b`, reads
/// as exactly one number token whose text is the whole source, followed by
/// the end of input.
pub proof fn lemma_number_literal(a: Seq<char>, b: Seq<char>)
    requires
        a.len() >= 1,
        forall|k: int| 0 <= k < a.len() ==> is_digit(#[trigger] a[k]),
        forall|k: int| 0 <= k < b.len() ==> is_digit(#[trigger] b[k]),
    ensures
        ({
            let s = if b.len() == 0 { a } else { a + seq!['.'] + b };
            tokenize(s) matches Ok(w) && w.len() == 2 && w[0].0.kind == TokenKind::Number && w[0].1 == s && w[1].0.kind
                == TokenKind::Eof
        }),
{
    let s = if b.len() == 0 { a } else { a + seq!['.'] + b };
    let c0 = start_cursor(s);
    assert(s[0] == a[0]);
    assert(is_digit(s[0]));
    assert(c0.pos == 0);
    assert(skip_trivia(s, c0, false) == c0);
    if b.len() == 0 {
        lemma_digits_run(s, 1, s.len() as int);
    } else {
        let p = a.len() as int;
        assert forall|k: int| 1 <= k < p implies is_digit(#[trigger] s[k]) by {
            assert(s[k] == a[k]);
        }
        assert(s[p] == '.');
        lemma_digits_run(s, 1, p);
        assert(s[p + 1] == b[0]);
        assert forall|k: int| p + 1 <= k < s.len() implies is_digit(#[trigger] s[k]) by {
            assert(s[k] == b[k - p - 1]);
        }
        lemma_digits_run(s, p + 1, s.len() as int);
    }
    assert(number_end(s, 1) == s.len());
    let e = run_to(c0, s.len() as int);
    assert(s.subrange(0, s.len() as int) =~= s);
    assert(next_token_from(s, c0) matches Ok((t, text, c2)) && t.kind == TokenKind::Number && text == s && c2 == e);
    assert(skip_trivia(s, e, false) == e);
    assert(scan_from(s, e) matches Ok(w) && w.len() == 1 && w[0].0.kind == TokenKind::Eof);
}

/// A source of ASCII letters reads as exactly one token whose text is the
/// whole source: the keyword it spells, or else a name; then the end of
/// input.
pub proof fn lemma_word_literal(s: Seq<char>)
    requires
        s.len() >= 1,
        forall|k: int| 0 <= k < s.len() ==> is_alpha(#[trigger] s[k]),
    ensures
        tokenize(s) matches Ok(w) && w.len() == 2 && w[0].0.kind == (match keyword_kind(s) {
            Some(k) => k,
            None => TokenKind::Ident,
        }) && w[0].1 == s && w[1].0.kind == TokenKind::Eof,
{
    let c0 = start_cursor(s);
    assert(is_alpha(s[0]));
    assert(c0.pos == 0);
    assert(skip_trivia(s, c0, false) == c0);
    lemma_letters_run(s, 1);
    let e = run_to(c0, s.len() as int);
    assert(s.subrange(0, s.len() as int) =~= s);
    assert(next_token_from(s, c0) == word_token(s, c0));
    assert(skip_trivia(s, e, false) == e);
    assert(scan_from(s, e) matches Ok(w) && w.len() == 1 && w[0].0.kind == TokenKind::Eof);
}

/// Whether a token kind is an operator or a punctuation mark.
pub open spec fn symbol_kind(k: TokenKind) -> bool {
    k == TokenKind::Plus
        || k == TokenKind::Minus
        || k == TokenKind::Star
        || k == TokenKind::Slash
        || k == TokenKind::Percent
        || k == TokenKind::Eq
        || k == TokenKind::EqEq
        || k == TokenKind::Bang
        || k == TokenKind::BangEq
        || k == TokenKind::Lt
        || k == TokenKind::Gt
        || k == TokenKind::LtEq
        || k == TokenKind::GtEq
        || k == TokenKind::AndAnd
        || k == TokenKind::OrOr
        || k == TokenKind::Arrow
        || k == TokenKind::PlusEqual
        || k == TokenKind::MinusEqual
        || k == TokenKind::StarEqual
        || k == TokenKind::SlashEqual
        || k == TokenKind::Pipe
        || k == TokenKind::QuestionQuestion
        || k == TokenKind::LParen
        || k == TokenKind::RParen
        || k == TokenKind::LBrace
        || k == TokenKind::RBrace
        || k == TokenKind::LBracket
        || k == TokenKind::RBracket
        || k == TokenKind::Comma
        || k == TokenKind::Dot
        || k == TokenKind::Colon
        || k == TokenKind::Semicolon
        || k == TokenKind::DotDot
        || k == TokenKind::DotDotLt
}

/// Lexing the symbol by which an operator or punctuation kind is shown (see
/// [`kind_text`]) gives back exactly one token of that kind, whose text is
/// that symbol, then the end of input.
pub proof fn lemma_symbol_round_trip(k: TokenKind)
    requires
        symbol_kind(k),
    ensures
        tokenize(kind_text(k)) matches Ok(w) && w.len() == 2 && w[0].0.kind == k && w[0].1 == kind_text(k) && w[1].0.kind
            == TokenKind::Eof,
{
    if k == TokenKind::Plus {
        reveal_strlit("+");
    }
    if k == TokenKind::Minus {
        reveal_strlit("-");
    }
    if k == TokenKind::Star {
        reveal_strlit("*");
    }
    if k == TokenKind::Slash {
        reveal_strlit("/");
    }
    if k == TokenKind::Percent {
        reveal_strlit("%");
    }
    if k == TokenKind::Eq {
        reveal_strlit("=");
    }
    if k == TokenKind::EqEq {
        reveal_strlit("==");
    }
    if k == TokenKind::Bang {
        reveal_strlit("!");
    }
    if k == TokenKind::BangEq {
        reveal_strlit("!=");
    }
    if k == TokenKind::Lt {
        reveal_strlit("<");
    }
    if k == TokenKind::Gt {
        reveal_strlit(">");
    }
    if k == TokenKind::LtEq {
        reveal_strlit("<=");
    }
    if k == TokenKind::GtEq {
        reveal_strlit(">=");
    }
    if k == TokenKind::AndAnd {
        reveal_strlit("&&");
    }
    if k == TokenKind::OrOr {
        reveal_strlit("||");
    }
    if k == TokenKind::Arrow {
        reveal_strlit("=>");
    }
    if k == TokenKind::PlusEqual {
        reveal_strlit("+=");
    }
    if k == TokenKind::MinusEqual {
        reveal_strlit("-=");
    }
    if k == TokenKind::StarEqual {
        reveal_strlit("*=");
    }
    if k == TokenKind::SlashEqual {
        reveal_strlit("/=");
    }
    if k == TokenKind::Pipe {
        reveal_strlit("|>");
    }
    if k == TokenKind::QuestionQuestion {
        reveal_strlit("??");
    }
    if k == TokenKind::LParen {
        reveal_strlit("(");
    }
    if k == TokenKind::RParen {
        reveal_strlit(")");
    }
    if k == TokenKind::LBrace {
        reveal_strlit("{");
    }
    if k == TokenKind::RBrace {
        reveal_strlit("}");
    }
    if k == TokenKind::LBracket {
        reveal_strlit("[");
    }
    if k == TokenKind::RBracket {
        reveal_strlit("]");
    }
    if k == TokenKind::Comma {
        reveal_strlit(",");
    }
    if k == TokenKind::Dot {
        reveal_strlit(".");
    }
    if k == TokenKind::Colon {
        reveal_strlit(":");
    }
    if k == TokenKind::Semicolon {
        reveal_strlit(";");
    }
    if k == TokenKind::DotDot {
        reveal_strlit("..");
    }
    if k == TokenKind::DotDotLt {
        reveal_strlit("..<");
    }
    let s = kind_text(k);
    let c0 = start_cursor(s);
    assert(c0.pos == 0);
    assert(skip_trivia(s, c0, false) == c0);
    assert(s.subrange(0, s.len() as int) =~= s);
    assert(next_token_from(s, c0) matches Ok((t, text, c2)) && t.kind == k && text == s && c2.pos == s.len());
    let c2 = next_token_from(s, c0)->Ok_0.2;
    assert(skip_trivia(s, c2, false) == c2);
    assert(scan_from(s, c2) matches Ok(w) && w.len() == 1 && w[0].0.kind == TokenKind::Eof);
}

/// Whether a token kind is a keyword with an English spelling.
pub open spec fn word_kind(k: TokenKind) -> bool {
    k == TokenKind::If
        || k == TokenKind::Else
        || k == TokenKind::While
        || k == TokenKind::For
        || k == TokenKind::In
        || k == TokenKind::Loop
        || k == TokenKind::Break
        || k == TokenKind::Continue
        || k == TokenKind::Fn
        || k == TokenKind::Return
        || k == TokenKind::True
        || k == TokenKind::False
        || k == TokenKind::Nil
        || k == TokenKind::And
        || k == TokenKind::Or
        || k == TokenKind::Try
        || k == TokenKind::Catch
        || k == TokenKind::Out
        || k == TokenKind::Keep
        || k == TokenKind::Match
        || k == TokenKind::Import
        || k == TokenKind::Lazy
        || k == TokenKind::As
}

/// Lexing the English word by which a keyword is shown (see [`kind_text`])
/// gives back exactly one token of that keyword, whose text is that word,
/// then the end of input.
pub proof fn lemma_keyword_round_trip(k: TokenKind)
    requires
        word_kind(k),
    ensures
        tokenize(kind_text(k)) matches Ok(w) && w.len() == 2 && w[0].0.kind == k && w[0].1 == kind_text(k) && w[1].0.kind
            == TokenKind::Eof,
{
    if k == TokenKind::If || k == TokenKind::Else || k == TokenKind::While || k == TokenKind::For {
        lemma_keyword_round_trip_0(k);
    } else if k == TokenKind::In || k == TokenKind::Loop || k == TokenKind::Break || k == TokenKind::Continue {
        lemma_keyword_round_trip_1(k);
    } else if k == TokenKind::Fn || k == TokenKind::Return || k == TokenKind::True || k == TokenKind::False {
        lemma_keyword_round_trip_2(k);
    } else if k == TokenKind::Nil || k == TokenKind::And || k == TokenKind::Or || k == TokenKind::Try {
        lemma_keyword_round_trip_3(k);
    } else if k == TokenKind::Catch || k == TokenKind::Out || k == TokenKind::Keep || k == TokenKind::Match {
        lemma_keyword_round_trip_4(k);
    } else if k == TokenKind::Import || k == TokenKind::Lazy || k == TokenKind::As {
        lemma_keyword_round_trip_5(k);
    }
}

/// [`lemma_keyword_round_trip`] for `if`, `else`, `while`, `for`.
proof fn lemma_keyword_round_trip_0(k: TokenKind)
    requires
        k == TokenKind::If || k == TokenKind::Else || k == TokenKind::While || k == TokenKind::For,
    ensures
        tokenize(kind_text(k)) matches Ok(w) && w.len() == 2 && w[0].0.kind == k && w[0].1 == kind_text(k) && w[1].0.kind
            == TokenKind::Eof,
{
    if k == TokenKind::If {
        reveal_strlit("if");
        let s = kind_text(k);
        assert(s =~= seq!['i', 'f']);
        assert(keyword_kind(s) == Some(k));
        assert forall|i: int| 0 <= i < s.len() implies is_alpha(#[trigger] s[i]) by {}
        lemma_word_literal(s);
    } else if k == TokenKind::Else {
        reveal_strlit("else");
        let s = kind_text(k);
        assert(s =~= seq!['e', 'l', 's', 'e']);
        assert(keyword_kind(s) == Some(k));
        assert forall|i: int| 0 <= i < s.len() implies is_alpha(#[trigger] s[i]) by {}
        lemma_word_literal(s);
    } else if k == TokenKind::While {
        reveal_strlit("while");
        let s = kind_text(k);
        assert(s =~= seq!['w', 'h', 'i', 'l', 'e']);
        assert(keyword_kind(s) == Some(k));
        assert forall|i: int| 0 <= i < s.len() implies is_alpha(#[trigger] s[i]) by {}
        lemma_word_literal(s);
    } else if k == TokenKind::For {
        reveal_strlit("for");
        let s = kind_text(k);
        assert(s =~= seq!['f', 'o', 'r']);
        assert(keyword_kind(s) == Some(k));
        assert forall|i: int| 0 <= i < s.len() implies is_alpha(#[trigger] s[i]) by {}
        lemma_word_literal(s);
    }
}

/// [`lemma_keyword_round_trip`] for `in`, `loop`, `break`, `continue`.
proof fn lemma_keyword_round_trip_1(k: TokenKind)
    requires
        k == TokenKind::In || k == TokenKind::Loop || k == TokenKind::Break || k == TokenKind::Continue,
    ensures
        tokenize(kind_text(k)) matches Ok(w) && w.len() == 2 && w[0].0.kind == k && w[0].1 == kind_text(k) && w[1].0.kind
            == TokenKind::Eof,
{
    if k == TokenKind::In {
        reveal_strlit("in");
        let s = kind_text(k);
        assert(s =~= seq!['i', 'n']);
        assert(keyword_kind(s) == Some(k));
        assert forall|i: int| 0 <= i < s.len() implies is_alpha(#[trigger] s[i]) by {}
        lemma_word_literal(s);
    } else if k == TokenKind::Loop {
        reveal_strlit("loop");
        let s = kind_text(k);
        assert(s =~= seq!['l', 'o', 'o', 'p']);
        assert(keyword_kind(s) == Some(k));
        assert forall|i: int| 0 <= i < s.len() implies is_alpha(#[trigger] s[i]) by {}
        lemma_word_literal(s);
    } else if k == TokenKind::Break {
        reveal_strlit("break");
        let s = kind_text(k);
        assert(s =~= seq!['b', 'r', 'e', 'a', 'k']);
        assert(keyword_kind(s) == Some(k));
        assert forall|i: int| 0 <= i < s.len() implies is_alpha(#[trigger] s[i]) by {}
        lemma_word_literal(s);
    } else if k == TokenKind::Continue {
        reveal_strlit("continue");
        let s = kind_text(k);
        assert(s =~= seq!['c', 'o', 'n', 't', 'i', 'n', 'u', 'e']);
        assert(keyword_kind(s) == Some(k));
        assert forall|i: int| 0 <= i < s.len() implies is_alpha(#[trigger] s[i]) by {}
        lemma_word_literal(s);
    }
}

/// [`lemma_keyword_round_trip`] for `fn`, `return`, `true`, `false`.
proof fn lemma_keyword_round_trip_2(k: TokenKind)
    requires
        k == TokenKind::Fn || k == TokenKind::Return || k == TokenKind::True || k == TokenKind::False,
    ensures
        tokenize(kind_text(k)) matches Ok(w) && w.len() == 2 && w[0].0.kind == k && w[0].1 == kind_text(k) && w[1].0.kind
            == TokenKind::Eof,
{
    if k == TokenKind::Fn {
        reveal_strlit("fn");
        let s = kind_text(k);
        assert(s =~= seq!['f', 'n']);
        assert(keyword_kind(s) == Some(k));
        assert forall|i: int| 0 <= i < s.len() implies is_alpha(#[trigger] s[i]) by {}
        lemma_word_literal(s);
    } else if k == TokenKind::Return {
        reveal_strlit("return");
        let s = kind_text(k);
        assert(s =~= seq!['r', 'e', 't', 'u', 'r', 'n']);
        assert(keyword_kind(s) == Some(k));
        assert forall|i: int| 0 <= i < s.len() implies is_alpha(#[trigger] s[i]) by {}
        lemma_word_literal(s);
    } else if k == TokenKind::True {
        reveal_strlit("true");
        let s = kind_text(k);
        assert(s =~= seq!['t', 'r', 'u', 'e']);
        assert(keyword_kind(s) == Some(k));
        assert forall|i: int| 0 <= i < s.len() implies is_alpha(#[trigger] s[i]) by {}
        lemma_word_literal(s);
    } else if k == TokenKind::False {
        reveal_strlit("false");
        let s = kind_text(k);
        assert(s =~= seq!['f', 'a', 'l', 's', 'e']);
        assert(keyword_kind(s) == Some(k));
        assert forall|i: int| 0 <= i < s.len() implies is_alpha(#[trigger] s[i]) by {}
        lemma_word_literal(s);
    }
}

/// [`lemma_keyword_round_trip`] for `nil`, `and`, `or`, `try`.
proof fn lemma_keyword_round_trip_3(k: TokenKind)
    requires
        k == TokenKind::Nil || k == TokenKind::And || k == TokenKind::Or || k == TokenKind::Try,
    ensures
        tokenize(kind_text(k)) matches Ok(w) && w.len() == 2 && w[0].0.kind == k && w[0].1 == kind_text(k) && w[1].0.kind
            == TokenKind::Eof,
{
    if k == TokenKind::Nil {
        reveal_strlit("nil");
        let s = kind_text(k);
        assert(s =~= seq!['n', 'i', 'l']);
        assert(keyword_kind(s) == Some(k));
        assert forall|i: int| 0 <= i < s.len() implies is_alpha(#[trigger] s[i]) by {}
        lemma_word_literal(s);
    } else if k == TokenKind::And {
        reveal_strlit("and");
        let s = kind_text(k);
        assert(s =~= seq!['a', 'n', 'd']);
        assert(keyword_kind(s) == Some(k));
        assert forall|i: int| 0 <= i < s.len() implies is_alpha(#[trigger] s[i]) by {}
        lemma_word_literal(s);
    } else if k == TokenKind::Or {
        reveal_strlit("or");
        let s = kind_text(k);
        assert(s =~= seq!['o', 'r']);
        assert(keyword_kind(s) == Some(k));
        assert forall|i: int| 0 <= i < s.len() implies is_alpha(#[trigger] s[i]) by {}
        lemma_word_literal(s);
    } else if k == TokenKind::Try {
        reveal_strlit("try");
        let s = kind_text(k);
        assert(s =~= seq!['t', 'r', 'y']);
        assert(keyword_kind(s) == Some(k));
        assert forall|i: int| 0 <= i < s.len() implies is_alpha(#[trigger] s[i]) by {}
        lemma_word_literal(s);
    }
}

/// [`lemma_keyword_round_trip`] for `catch`, `out`, `keep`, `match`.
proof fn lemma_keyword_round_trip_4(k: TokenKind)
    requires
        k == TokenKind::Catch || k == TokenKind::Out || k == TokenKind::Keep || k == TokenKind::Match,
    ensures
        tokenize(kind_text(k)) matches Ok(w) && w.len() == 2 && w[0].0.kind == k && w[0].1 == kind_text(k) && w[1].0.kind
            == TokenKind::Eof,
{
    if k == TokenKind::Catch {
        reveal_strlit("catch");
        let s = kind_text(k);
        assert(s =~= seq!['c', 'a', 't', 'c', 'h']);
        assert(keyword_kind(s) == Some(k));
        assert forall|i: int| 0 <= i < s.len() implies is_alpha(#[trigger] s[i]) by {}
        lemma_word_literal(s);
    } else if k == TokenKind::Out {
        reveal_strlit("out");
        let s = kind_text(k);
        assert(s =~= seq!['o', 'u', 't']);
        assert(keyword_kind(s) == Some(k));
        assert forall|i: int| 0 <= i < s.len() implies is_alpha(#[trigger] s[i]) by {}
        lemma_word_literal(s);
    } else if k == TokenKind::Keep {
        reveal_strlit("keep");
        let s = kind_text(k);
        assert(s =~= seq!['k', 'e', 'e', 'p']);
        assert(keyword_kind(s) == Some(k));
        assert forall|i: int| 0 <= i < s.len() implies is_alpha(#[trigger] s[i]) by {}
        lemma_word_literal(s);
    } else if k == TokenKind::Match {
        reveal_strlit("match");
        let s = kind_text(k);
        assert(s =~= seq!['m', 'a', 't', 'c', 'h']);
        assert(keyword_kind(s) == Some(k));
        assert forall|i: int| 0 <= i < s.len() implies is_alpha(#[trigger] s[i]) by {}
        lemma_word_literal(s);
    }
}

/// [`lemma_keyword_round_trip`] for `import`, `lazy`, `as`.
proof fn lemma_keyword_round_trip_5(k: TokenKind)
    requires
        k == TokenKind::Import || k == TokenKind::Lazy || k == TokenKind::As,
    ensures
        tokenize(kind_text(k)) matches Ok(w) && w.len() == 2 && w[0].0.kind == k && w[0].1 == kind_text(k) && w[1].0.kind
            == TokenKind::Eof,
{
    if k == TokenKind::Import {
        reveal_strlit("import");
        let s = kind_text(k);
        assert(s =~= seq!['i', 'm', 'p', 'o', 'r', 't']);
        assert(keyword_kind(s) == Some(k));
        assert forall|i: int| 0 <= i < s.len() implies is_alpha(#[trigger] s[i]) by {}
        lemma_word_literal(s);
    } else if k == TokenKind::Lazy {
        reveal_strlit("lazy");
        let s = kind_text(k);
        assert(s =~= seq!['l', 'a', 'z', 'y']);
        assert(keyword_kind(s) == Some(k));
        assert forall|i: int| 0 <= i < s.len() implies is_alpha(#[trigger] s[i]) by {}
        lemma_word_literal(s);
    } else if k == TokenKind::As {
        reveal_strlit("as");
        let s = kind_text(k);
        assert(s =~= seq!['a', 's']);
        assert(keyword_kind(s) == Some(k));
        assert forall|i: int| 0 <= i < s.len() implies is_alpha(#[trigger] s[i]) by {}
        lemma_word_literal(s);
    }
}

// ---------------------------------------------------------------------------
// The lexer
// ---------------------------------------------------------------------------

/// An error met while lexing: what went wrong, and where (1-based line and
/// column of the offending token's start).
#[derive(Debug)]
pub struct LexerError {
    /// What went wrong.
    pub message: String,
    /// The line (1-based).
    pub line: usize,
    /// The column (1-based).
    pub column: usize,
}

impl LexerError {
    /// The error as a fault of the specification.
    pub open spec fn fault(&self) -> LexFault {
        (self.message@, self.line as int, self.column as int)
    }

    /// The error as one line: `Lexer error at LINE:COLUMN: MESSAGE`.
    pub fn describe(&self) -> (r: String)
        ensures
            r@ == located_message("Lexer error at "@, self.line as nat, self.column as nat, self.message@),
    {
        describe_located("Lexer error at ", self.line, self.column, self.message.as_str())
    }
}

/// `prefix`, then `LINE:COLUMN: `, then the message.
pub open spec fn located_message(prefix: Seq<char>, line: nat, column: nat, message: Seq<char>) -> Seq<char> {
    prefix + decimal(line) + ":"@ + decimal(column) + ": "@ + message
}

/// Writes `prefix`, then `LINE:COLUMN: `, then the message.
pub(crate) fn describe_located(prefix: &str, line: usize, column: usize, message: &str) -> (r: String)
    ensures
        r@ == located_message(prefix@, line as nat, column as nat, message@),
{
    let mut out = prefix.to_owned();
    let l = decimal_string(line as u64);
    let c = decimal_string(column as u64);
    push_str(&mut out, l.as_str());
    push_str(&mut out, ":");
    push_str(&mut out, c.as_str());
    push_str(&mut out, ": ");
    push_str(&mut out, message);
    proof {
        reveal_strlit(":");
        reveal_strlit(": ");
    }
    assert(out@ =~= located_message(prefix@, line as nat, column as nat, message@));
    out
}

/// Whether a token read by the lexer agrees with one read by the specification.
pub open spec fn agrees(r: Result<(Token, String), LexerError>, spec: LexStep) -> bool {
    match (r, spec) {
        (Ok((t, text)), Ok((t2, text2, _))) => t == t2 && text@ == text2,
        (Err(e), Err(f)) => e.fault() == f,
        _ => false,
    }
}

/// Whether a token read by the lexer agrees with one read by the
/// specification, including where reading stopped.
pub open spec fn agrees_at(r: Result<(Token, String), LexerError>, spec: LexStep, end: Cursor) -> bool {
    match (r, spec) {
        (Ok((t, text)), Ok((t2, text2, c2))) => t == t2 && text@ == text2 && end == c2,
        (Err(e), Err(f)) => e.fault() == f,
        _ => false,
    }
}

/// The texts of a token list, as character sequences.
pub open spec fn tokens_view(v: Seq<(Token, String)>) -> Seq<(Token, Seq<char>)> {
    v.map_values(|p: (Token, String)| (p.0, p.1@))
}

/// Appends a character to a string (`String::push`).
#[verifier::external_body]
pub(crate) fn push_char(s: &mut String, c: char)
    ensures
        final(s)@ == old(s)@.push(c),
{
    s.push(c);
}

/// Appends a string slice to a string (`String::push_str`).
#[verifier::external_body]
pub(crate) fn push_str(s: &mut String, t: &str)
    ensures
        final(s)@ == old(s)@ + t@,
{
    s.push_str(t);
}

/// The string made of the characters `v[from..to]`.
pub(crate) fn string_of(v: &Vec<char>, from: usize, to: usize) -> (r: String)
    requires
        from <= to <= v@.len(),
    ensures
        r@ == v@.subrange(from as int, to as int),
{
    let mut out = String::new();
    let mut i = from;
    while i < to
        invariant
            from <= i <= to <= v@.len(),
            out@ == v@.subrange(from as int, i as int),
        decreases to - i,
    {
        push_char(&mut out, v[i]);
        assert(v@.subrange(from as int, i + 1) =~= v@.subrange(from as int, i as int).push(v@[i as int]));
        i += 1;
    }
    out
}

/// The characters `v[from..to]`.
pub(crate) fn sub_chars(v: &Vec<char>, from: usize, to: usize) -> (r: Vec<char>)
    requires
        from <= to <= v@.len(),
    ensures
        r@ == v@.subrange(from as int, to as int),
{
    let mut out: Vec<char> = Vec::new();
    let mut i = from;
    while i < to
        invariant
            from <= i <= to <= v@.len(),
            out@ == v@.subrange(from as int, i as int),
        decreases to - i,
    {
        out.push(v[i]);
        assert(v@.subrange(from as int, i + 1) =~= v@.subrange(from as int, i as int).push(v@[i as int]));
        i += 1;
    }
    out
}

/// A lexer over one source text.
///
/// The token texts it returns are copies of the source (the contents of a
/// string literal, without its quotes; the spelling of any other token).
pub struct Lexer {
    chars: Vec<char>,
    pos: usize,
    offset: usize,
    line: usize,
    column: usize,
}

impl Lexer {
    /// The source text, as characters.
    pub closed spec fn source(&self) -> Seq<char> {
        self.chars@
    }

    /// Where the lexer stands.
    pub closed spec fn cursor(&self) -> Cursor {
        Cursor { pos: self.pos as int, line: self.line as int, column: self.column as int }
    }

    /// The lexer's internal consistency: the byte offset matches the
    /// position, and the counters cannot overflow.
    pub closed spec fn wf(&self) -> bool {
        &&& self.pos <= self.chars@.len()
        &&& self.offset == byte_offset(self.chars@, self.pos as int)
        &&& byte_len(self.chars@) <= usize::MAX
        &&& self.chars@.len() < usize::MAX
        &&& 1 <= self.line <= self.pos + 1
        &&& 1 <= self.column <= self.pos + 1
    }

    /// Creates a lexer that starts at the beginning of `source`, after a
    /// leading byte order mark if there is one.
    pub fn new(source: &str) -> (r: Lexer)
        requires
            source@.len() < usize::MAX,
            byte_len(source@) <= usize::MAX,
        ensures
            r.wf(),
            r.source() == source@,
            r.cursor() == start_cursor(source@),
    {
        let chars = chars_of(source);
        let bom = chars.len() > 0 && chars[0] == '\u{FEFF}';
        let pos: usize = if bom { 1 } else { 0 };
        let offset: usize = if bom { 3 } else { 0 };
        proof {
            if bom {
                lemma_byte_offset_step(chars@, 0);
                assert(chars@.take(0) =~= Seq::<char>::empty());
            } else {
                assert(chars@.take(0) =~= Seq::<char>::empty());
            }
        }
        Lexer { chars, pos, offset, line: 1, column: 1 }
    }

    /// The UTF-8 width of the character under the cursor (0 at the end).
    fn current_char_len(&self) -> (r: usize)
        requires
            self.wf(),
        ensures
            r == (if self.pos < self.chars@.len() { utf8_width(self.chars@[self.pos as int]) } else { 0 }),
    {
        if self.pos < self.chars.len() {
            utf8_width_of(self.chars[self.pos])
        } else {
            0
        }
    }

    /// The character under the cursor, if any.
    fn peek(&self) -> (r: Option<char>)
        requires
            self.wf(),
        ensures
            r == char_at(self.chars@, self.cursor()),
    {
        if self.pos < self.chars.len() {
            Some(self.chars[self.pos])
        } else {
            None
        }
    }

    /// The character after the one under the cursor, if any.
    fn peek_next(&self) -> (r: Option<char>)
        requires
            self.wf(),
        ensures
            r == (if self.pos + 1 < self.chars@.len() { Some(self.chars@[self.pos + 1]) } else { None::<char> }),
    {
        if self.pos < self.chars.len() && self.pos + 1 < self.chars.len() {
            Some(self.chars[self.pos + 1])
        } else {
            None
        }
    }

    /// Reads the character under the cursor (see [`step`]).
    fn advance(&mut self) -> (r: Option<char>)
        requires
            old(self).wf(),
        ensures
            final(self).wf(),
            final(self).chars@ == old(self).chars@,
            final(self).cursor() == step(old(self).chars@, old(self).cursor()),
            r == char_at(old(self).chars@, old(self).cursor()),
    {
        if self.pos >= self.chars.len() {
            return None;
        }
        let ch = self.chars[self.pos];
        let w = self.current_char_len();
        proof {
            lemma_byte_offset_step(self.chars@, self.pos as int);
            lemma_byte_offset_mono(self.chars@, self.pos + 1, self.chars@.len() as int);
            lemma_byte_offset_full(self.chars@);
        }
        self.pos = self.pos + 1;
        self.offset = self.offset + w;
        if ch == '\n' {
            self.line = self.line + 1;
            self.column = 1;
        } else {
            self.column = self.column + 1;
        }
        Some(ch)
    }

    /// Reads the character under the cursor when it is `expected`.
    fn match_char(&mut self, expected: char) -> (r: bool)
        requires
            old(self).wf(),
        ensures
            final(self).wf(),
            final(self).chars@ == old(self).chars@,
            r == at_char(old(self).chars@, old(self).cursor(), expected),
            final(self).cursor() == (if r { step(old(self).chars@, old(self).cursor()) } else { old(self).cursor() }),
    {
        if self.peek() == Some(expected) {
            self.advance();
            true
        } else {
            false
        }
    }

    /// The source text from character `start` up to the cursor.
    fn slice(&self, start: usize) -> (r: String)
        requires
            self.wf(),
            start <= self.pos,
        ensures
            r@ == self.chars@.subrange(start as int, self.pos as int),
    {
        string_of(&self.chars, start, self.pos)
    }

    /// A token of `kind` that started at `start_pos` (byte offset
    /// `start_offset`, column `start_col`) and ends at the cursor.
    fn make_token(&self, kind: TokenKind, start_pos: usize, start_offset: usize, start_col: usize) -> (r: (Token, String))
        requires
            self.wf(),
            start_pos <= self.pos,
        ensures
            r.0 == (Token { kind, line: self.line, column: start_col, offset: start_offset }),
            r.1@ == self.chars@.subrange(start_pos as int, self.pos as int),
    {
        let text = self.slice(start_pos);
        (Token::new(kind, self.line, start_col, start_offset), text)
    }

    /// Skips whitespace, byte order marks and comments (see [`skip_trivia`]).
    fn skip_whitespace_and_comments(&mut self)
        requires
            old(self).wf(),
        ensures
            final(self).wf(),
            final(self).chars@ == old(self).chars@,
            final(self).cursor() == skip_trivia(old(self).chars@, old(self).cursor(), false),
    {
        let ghost s = self.chars@;
        let ghost target = skip_trivia(s, self.cursor(), false);
        loop
            invariant
                self.wf(),
                self.chars@ == s,
                skip_trivia(s, self.cursor(), false) == target,
            ensures
                self.wf(),
                self.chars@ == s,
                self.cursor() == target,
            decreases s.len() - self.pos,
        {
            match self.peek() {
                Some(c) => {
                    if c == ' ' || c == '\t' || c == '\r' || c == '\n' || c == '\u{FEFF}' {
                        self.advance();
                    } else if c == '#' {
                        self.advance();
                        let ghost after_hash = self.pos;
                        loop
                            invariant
                                self.wf(),
                                self.pos >= after_hash,
                                self.chars@ == s,
                                skip_trivia(s, self.cursor(), true) == target,
                            ensures
                                self.wf(),
                                self.pos >= after_hash,
                                self.chars@ == s,
                                skip_trivia(s, self.cursor(), false) == target,
                            decreases s.len() - self.pos,
                        {
                            match self.peek() {
                                Some(d) => {
                                    if d == '\n' {
                                        break;
                                    }
                                    self.advance();
                                },
                                None => {
                                    break;
                                },
                            }
                        }
                    } else {
                        break;
                    }
                },
                None => {
                    break;
                },
            }
        }
    }

    /// Reads the rest of a number whose first digit, at `start_pos`, has
    /// been read (see [`number_end`]).
    fn scan_number(&mut self, start_pos: usize, start_offset: usize, start_col: usize, Ghost(c): Ghost<Cursor>) -> (r: (Token, String))
        requires
            old(self).wf(),
            c.pos == start_pos,
            c.column == start_col,
            c.line == old(self).line,
            start_pos < old(self).chars@.len(),
            is_digit(old(self).chars@[start_pos as int]),
            old(self).cursor() == step(old(self).chars@, c),
            start_offset == byte_offset(old(self).chars@, start_pos as int),
        ensures
            final(self).wf(),
            final(self).chars@ == old(self).chars@,
            token_between(old(self).chars@, TokenKind::Number, c, run_to(c, number_end(old(self).chars@, start_pos + 1)))
                == Ok::<(Token, Seq<char>, Cursor), LexFault>((r.0, r.1@, final(self).cursor())),
    {
        let ghost s = self.chars@;
        loop
            invariant
                self.wf(),
                self.chars@ == s,
                start_pos < self.pos,
                self.line == c.line,
                self.column == c.column + (self.pos - c.pos),
                digits_end(s, self.pos as int) == digits_end(s, start_pos + 1),
            ensures
                self.wf(),
                self.chars@ == s,
                start_pos < self.pos,
                self.line == c.line,
                self.column == c.column + (self.pos - c.pos),
                self.pos == digits_end(s, start_pos + 1),
            decreases s.len() - self.pos,
        {
            match self.peek() {
                Some(ch) => {
                    if is_digit_char(ch) {
                        self.advance();
                    } else {
                        break;
                    }
                },
                None => {
                    break;
                },
            }
        }
        let ghost e = self.pos as int;
        let dot_digit = match self.peek_next() {
            Some(n) => self.peek() == Some('.') && is_digit_char(n),
            None => false,
        };
        if dot_digit {
            self.advance();
            loop
                invariant
                    self.wf(),
                    self.chars@ == s,
                    e < self.pos,
                    self.line == c.line,
                    self.column == c.column + (self.pos - c.pos),
                    digits_end(s, self.pos as int) == digits_end(s, e + 1),
                ensures
                    self.wf(),
                    self.chars@ == s,
                    self.line == c.line,
                    self.column == c.column + (self.pos - c.pos),
                    self.pos == digits_end(s, e + 1),
                decreases s.len() - self.pos,
            {
                match self.peek() {
                    Some(ch) => {
                        if is_digit_char(ch) {
                            self.advance();
                        } else {
                            break;
                        }
                    },
                    None => {
                        break;
                    },
                }
            }
        }
        self.make_token(TokenKind::Number, start_pos, start_offset, start_col)
    }

    /// Whether a CJK keyword starts at character index `i`; if so, its
    /// length in bytes (two characters are tried before one).
    fn cjk_keyword_starts_at(&self, i: usize) -> (r: Option<usize>)
        requires
            self.wf(),
        ensures
            r is Some <==> cjk_keyword_at(self.chars@, i as int),
    {
        if i >= self.chars.len() {
            return None;
        }
        let first = self.chars[i];
        if !is_cjk_ident(first) {
            return None;
        }
        if i + 1 < self.chars.len() {
            let second = self.chars[i + 1];
            if is_cjk_ident(second) {
                let two = sub_chars(&self.chars, i, i + 2);
                if lookup_keyword_chars(two.as_slice()).is_some() {
                    return Some(utf8_width_of(first) + utf8_width_of(second));
                }
            }
        }
        let one = sub_chars(&self.chars, i, i + 1);
        if lookup_keyword_chars(one.as_slice()).is_some() {
            return Some(utf8_width_of(first));
        }
        None
    }

    /// Reads the rest of an identifier or keyword whose first character
    /// `first`, at `start_pos`, has been read (see [`word_token`] and
    /// [`cjk_token`]).
    fn scan_identifier(&mut self, first: char, start_pos: usize, start_offset: usize, start_col: usize, Ghost(c): Ghost<Cursor>) -> (r: (Token, String))
        requires
            old(self).wf(),
            c.pos == start_pos,
            c.column == start_col,
            c.line == old(self).line,
            start_pos < old(self).chars@.len(),
            first == old(self).chars@[start_pos as int],
            is_ident_start_char(first),
            old(self).cursor() == step(old(self).chars@, c),
            start_offset == byte_offset(old(self).chars@, start_pos as int),
        ensures
            final(self).wf(),
            final(self).chars@ == old(self).chars@,
            (if is_cjk(first) { cjk_token(old(self).chars@, c) } else { word_token(old(self).chars@, c) })
                == Ok::<(Token, Seq<char>, Cursor), LexFault>((r.0, r.1@, final(self).cursor())),
    {
        if is_cjk_ident(first) {
            return self.scan_cjk_token(start_pos, start_offset, start_col, Ghost(c));
        }
        let ghost s = self.chars@;
        loop
            invariant
                self.wf(),
                self.chars@ == s,
                start_pos < self.pos,
                self.line == c.line,
                self.column == c.column + (self.pos - c.pos),
                ident_end(s, self.pos as int) == ident_end(s, start_pos + 1),
            ensures
                self.wf(),
                self.chars@ == s,
                start_pos < self.pos,
                self.line == c.line,
                self.column == c.column + (self.pos - c.pos),
                self.pos == ident_end(s, start_pos + 1),
            decreases s.len() - self.pos,
        {
            match self.peek() {
                Some(ch) => {
                    if is_ident_continue(ch) {
                        self.advance();
                    } else {
                        break;
                    }
                },
                None => {
                    break;
                },
            }
        }
        let word = sub_chars(&self.chars, start_pos, self.pos);
        let kind = match lookup_keyword_chars(word.as_slice()) {
            Some(k) => k,
            None => TokenKind::Ident,
        };
        self.make_token(kind, start_pos, start_offset, start_col)
    }

    /// Reads the rest of a token whose first character, a CJK ideograph at
    /// `start_pos`, has been read (see [`cjk_token`]).
    fn scan_cjk_token(&mut self, start_pos: usize, start_offset: usize, start_col: usize, Ghost(c): Ghost<Cursor>) -> (r: (Token, String))
        requires
            old(self).wf(),
            c.pos == start_pos,
            c.column == start_col,
            c.line == old(self).line,
            start_pos < old(self).chars@.len(),
            is_cjk(old(self).chars@[start_pos as int]),
            old(self).cursor() == step(old(self).chars@, c),
            start_offset == byte_offset(old(self).chars@, start_pos as int),
        ensures
            final(self).wf(),
            final(self).chars@ == old(self).chars@,
            cjk_token(old(self).chars@, c) == Ok::<(Token, Seq<char>, Cursor), LexFault>((r.0, r.1@, final(self).cursor())),
    {
        let ghost s = self.chars@;
        match self.peek() {
            Some(next_ch) => {
                if is_cjk_ident(next_ch) {
                    let two = sub_chars(&self.chars, start_pos, self.pos + 1);
                    match lookup_keyword_chars(two.as_slice()) {
                        Some(kind) => {
                            self.advance();
                            return self.make_token(kind, start_pos, start_offset, start_col);
                        },
                        None => {},
                    }
                }
            },
            None => {},
        }
        let one = sub_chars(&self.chars, start_pos, self.pos);
        match lookup_keyword_chars(one.as_slice()) {
            Some(kind) => {
                return self.make_token(kind, start_pos, start_offset, start_col);
            },
            None => {},
        }
        loop
            invariant
                self.wf(),
                self.chars@ == s,
                start_pos < self.pos,
                self.line == c.line,
                self.column == c.column + (self.pos - c.pos),
                cjk_ident_end(s, self.pos as int) == cjk_ident_end(s, start_pos + 1),
            ensures
                self.wf(),
                self.chars@ == s,
                start_pos < self.pos,
                self.line == c.line,
                self.column == c.column + (self.pos - c.pos),
                self.pos == cjk_ident_end(s, start_pos + 1),
            decreases s.len() - self.pos,
        {
            match self.peek() {
                Some(ch) => {
                    if !is_ident_continue(ch) {
                        break;
                    }
                    if is_cjk_ident(ch) && self.cjk_keyword_starts_at(self.pos).is_some() {
                        break;
                    }
                    self.advance();
                },
                None => {
                    break;
                },
            }
        }
        self.make_token(TokenKind::Ident, start_pos, start_offset, start_col)
    }

    /// Reads a string literal whose opening `quote`, at `start_pos`, has been
    /// read (see [`string_token`]). The token's text is the literal's
    /// contents as written, escapes included.
    fn scan_string(&mut self, quote: char, start_pos: usize, start_offset: usize, start_col: usize, Ghost(c): Ghost<Cursor>) -> (r: Result<(Token, String), LexerError>)
        requires
            old(self).wf(),
            c.pos == start_pos,
            c.column == start_col,
            c.line == old(self).line,
            start_pos < old(self).chars@.len(),
            quote == old(self).chars@[start_pos as int],
            old(self).cursor() == step(old(self).chars@, c),
            start_offset == byte_offset(old(self).chars@, start_pos as int),
        ensures
            final(self).wf(),
            final(self).chars@ == old(self).chars@,
            agrees_at(r, string_token(old(self).chars@, c, quote), final(self).cursor()),
    {
        let ghost s = self.chars@;
        let ghost c1 = self.cursor();
        let content_start = self.pos;
        loop
            invariant
                self.wf(),
                self.chars@ == s,
                old(self).chars@ == s,
                content_start == c1.pos,
                content_start <= self.pos,
                c.pos == start_pos,
                c.column == start_col,
                start_pos < s.len(),
                quote == s[start_pos as int],
                start_offset == byte_offset(s, start_pos as int),
                c1 == step(s, c),
                string_scan(s, self.cursor(), quote) == string_scan(s, c1, quote),
            decreases s.len() - self.pos,
        {
            match self.peek() {
                None => {
                    return Err(LexerError { message: "unterminated string".to_owned(), line: self.line, column: start_col });
                },
                Some(ch) => {
                    if ch == quote {
                        let content = self.slice(content_start);
                        self.advance();
                        return Ok((Token::new(TokenKind::String, self.line, start_col, start_offset), content));
                    }
                    if ch == '\n' {
                        return Err(LexerError { message: "unterminated string".to_owned(), line: self.line, column: start_col });
                    }
                    if ch == '\\' {
                        self.advance();
                    }
                    self.advance();
                },
            }
        }
    }

    /// Reads the next token (see [`next_token_from`]).
    #[verifier::rlimit(40)]
    fn next_token(&mut self) -> (r: Result<(Token, String), LexerError>)
        requires
            old(self).wf(),
        ensures
            final(self).wf(),
            final(self).chars@ == old(self).chars@,
            agrees_at(r, next_token_from(old(self).chars@, old(self).cursor()), final(self).cursor()),
    {
        self.skip_whitespace_and_comments();
        let ghost c = self.cursor();
        let start_pos = self.pos;
        let start_offset = self.offset;
        let start_col = self.column;
        let ch = match self.advance() {
            Some(ch) => ch,
            None => {
                return Ok((Token::eof(self.line, self.column, self.offset), String::new()));
            },
        };
        if ch == '(' {
            Ok(self.make_token(TokenKind::LParen, start_pos, start_offset, start_col))
        } else if ch == ')' {
            Ok(self.make_token(TokenKind::RParen, start_pos, start_offset, start_col))
        } else if ch == '{' {
            Ok(self.make_token(TokenKind::LBrace, start_pos, start_offset, start_col))
        } else if ch == '}' {
            Ok(self.make_token(TokenKind::RBrace, start_pos, start_offset, start_col))
        } else if ch == '[' {
            Ok(self.make_token(TokenKind::LBracket, start_pos, start_offset, start_col))
        } else if ch == ']' {
            Ok(self.make_token(TokenKind::RBracket, start_pos, start_offset, start_col))
        } else if ch == ',' {
            Ok(self.make_token(TokenKind::Comma, start_pos, start_offset, start_col))
        } else if ch == ':' {
            Ok(self.make_token(TokenKind::Colon, start_pos, start_offset, start_col))
        } else if ch == ';' {
            Ok(self.make_token(TokenKind::Semicolon, start_pos, start_offset, start_col))
        } else if ch == '.' {
            if self.match_char('.') {
                if self.match_char('<') {
                    Ok(self.make_token(TokenKind::DotDotLt, start_pos, start_offset, start_col))
                } else {
                    Ok(self.make_token(TokenKind::DotDot, start_pos, start_offset, start_col))
                }
            } else {
                Ok(self.make_token(TokenKind::Dot, start_pos, start_offset, start_col))
            }
        } else if ch == '+' {
            if self.match_char('=') {
                Ok(self.make_token(TokenKind::PlusEqual, start_pos, start_offset, start_col))
            } else {
                Ok(self.make_token(TokenKind::Plus, start_pos, start_offset, start_col))
            }
        } else if ch == '-' {
            if self.match_char('=') {
                Ok(self.make_token(TokenKind::MinusEqual, start_pos, start_offset, start_col))
            } else {
                Ok(self.make_token(TokenKind::Minus, start_pos, start_offset, start_col))
            }
        } else if ch == '*' {
            if self.match_char('*') {
                Ok(self.make_token(TokenKind::StarStar, start_pos, start_offset, start_col))
            } else if self.match_char('=') {
                Ok(self.make_token(TokenKind::StarEqual, start_pos, start_offset, start_col))
            } else {
                Ok(self.make_token(TokenKind::Star, start_pos, start_offset, start_col))
            }
        } else if ch == '/' {
            if self.match_char('=') {
                Ok(self.make_token(TokenKind::SlashEqual, start_pos, start_offset, start_col))
            } else {
                Ok(self.make_token(TokenKind::Slash, start_pos, start_offset, start_col))
            }
        } else if ch == '%' {
            Ok(self.make_token(TokenKind::Percent, start_pos, start_offset, start_col))
        } else if ch == '=' {
            if self.match_char('=') {
                Ok(self.make_token(TokenKind::EqEq, start_pos, start_offset, start_col))
            } else if self.match_char('>') {
                Ok(self.make_token(TokenKind::Arrow, start_pos, start_offset, start_col))
            } else {
                Ok(self.make_token(TokenKind::Eq, start_pos, start_offset, start_col))
            }
        } else if ch == '!' {
            if self.match_char('=') {
                Ok(self.make_token(TokenKind::BangEq, start_pos, start_offset, start_col))
            } else {
                Ok(self.make_token(TokenKind::Bang, start_pos, start_offset, start_col))
            }
        } else if ch == '<' {
            if self.match_char('=') {
                Ok(self.make_token(TokenKind::LtEq, start_pos, start_offset, start_col))
            } else {
                Ok(self.make_token(TokenKind::Lt, start_pos, start_offset, start_col))
            }
        } else if ch == '>' {
            if self.match_char('=') {
                Ok(self.make_token(TokenKind::GtEq, start_pos, start_offset, start_col))
            } else {
                Ok(self.make_token(TokenKind::Gt, start_pos, start_offset, start_col))
            }
        } else if ch == '&' {
            if self.match_char('&') {
                Ok(self.make_token(TokenKind::AndAnd, start_pos, start_offset, start_col))
            } else {
                Err(LexerError { message: "expected '&&' for logical AND".to_owned(), line: self.line, column: start_col })
            }
        } else if ch == '|' {
            if self.match_char('|') {
                Ok(self.make_token(TokenKind::OrOr, start_pos, start_offset, start_col))
            } else if self.match_char('>') {
                Ok(self.make_token(TokenKind::Pipe, start_pos, start_offset, start_col))
            } else {
                Err(LexerError { message: "expected '||' for logical OR or '|>' for pipe".to_owned(), line: self.line, column: start_col })
            }
        } else if ch == '?' {
            if self.match_char('?') {
                Ok(self.make_token(TokenKind::QuestionQuestion, start_pos, start_offset, start_col))
            } else {
                Err(LexerError { message: "expected '??' for null coalescing".to_owned(), line: self.line, column: start_col })
            }
        } else if ch == '"' || ch == '\'' {
            self.scan_string(ch, start_pos, start_offset, start_col, Ghost(c))
        } else if is_digit_char(ch) {
            Ok(self.scan_number(start_pos, start_offset, start_col, Ghost(c)))
        } else if is_ident_start(ch) {
            Ok(self.scan_identifier(ch, start_pos, start_offset, start_col, Ghost(c)))
        } else {
            let mut message = "unexpected character: '".to_owned();
            push_char(&mut message, ch);
            push_char(&mut message, '\'');
            proof {
                assert(message@ =~= "unexpected character: '"@ + seq![ch] + "'"@) by {
                    reveal_strlit("'");
                }
            }
            Err(LexerError { message, line: self.line, column: start_col })
        }
    }

    /// Reads every token, up to and including the end of input, each with
    /// its text; stops at the first error (see [`scan_from`]).
    #[verifier::rlimit(40)]
    pub fn scan_all(self) -> (r: Result<Vec<(Token, String)>, LexerError>)
        requires
            self.wf(),
        ensures
            match (r, scan_from(self.source(), self.cursor())) {
                (Ok(v), Ok(w)) => tokens_view(v@) == w,
                (Err(e), Err(f)) => e.fault() == f,
                _ => false,
            },
    {
        let mut lexer = self;
        let ghost s = lexer.chars@;
        let ghost c0 = lexer.cursor();
        let mut tokens: Vec<(Token, String)> = Vec::new();
        loop
            invariant
                lexer.wf(),
                lexer.chars@ == s,
                s == self.source(),
                c0 == self.cursor(),
                scan_from(s, c0) == (match scan_from(s, lexer.cursor()) {
                    Ok(rest) => Ok(tokens_view(tokens@) + rest),
                    Err(e) => Err(e),
                }),
            decreases s.len() - lexer.pos,
        {
            let ghost before = lexer.cursor();
            let ghost old_tokens = tokens@;
            proof {
                lemma_token_advances(s, before);
            }
            assert(cursor_ok(s, lexer.cursor()));
            match lexer.next_token() {
                Err(e) => {
                    return Err(e);
                },
                Ok((token, text)) => {
                    let is_eof = token.kind == TokenKind::Eof;
                    tokens.push((token, text));
                    proof {
                        assert(tokens_view(tokens@) =~= tokens_view(old_tokens) + seq![(token, text@)]);
                        match scan_from(s, lexer.cursor()) {
                            Ok(rest) => {
                                assert(tokens_view(old_tokens) + (seq![(token, text@)] + rest) =~= tokens_view(tokens@) + rest);
                            },
                            Err(_) => {},
                        }
                    }
                    if is_eof {
                        proof {
                            assert(tokens_view(tokens@) =~= tokens_view(old_tokens) + seq![(token, text@)]);
                        }
                        return Ok(tokens);
                    }
                },
            }
        }
    }
}

} // verus!
