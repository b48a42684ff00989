//! Token kinds, tokens and the bilingual keyword table.
//!
//! Every keyword has an English and a Chinese spelling; both map to the same
//! [`TokenKind`], so the parser never needs to know which one was written.

use vstd::prelude::*;

verus! {

/// The category of a lexical token.
///
/// Keyword variants are shared by the English and the Chinese spelling of the
/// keyword (for example `if` and `如果` are both [`TokenKind::If`]).
#[derive(Debug, Clone, Copy, PartialEq, Eq, Hash, Structural)]
pub enum TokenKind {
    /// A numeric literal such as `42` or `3.14`.
    Number,
    /// A string literal in double or single quotes.
    String,
    /// An identifier.
    Ident,
    /// Keyword `if` / `如果`.
    If,
    /// Keyword `else` / `否则`.
    Else,
    /// Keyword `while` / `当`.
    While,
    /// Keyword `for` / `遍历`.
    For,
    /// Keyword `in` / `在`.
    In,
    /// Keyword `loop` / `循环`.
    Loop,
    /// Keyword `break` / `跳出`.
    Break,
    /// Keyword `continue` / `继续`.
    Continue,
    /// Keyword `fn` / `函数`.
    Fn,
    /// Keyword `return` / `返回`.
    Return,
    /// Keyword `try` / `尝试`.
    Try,
    /// Keyword `catch` / `捕获`.
    Catch,
    /// Keyword `out` / `抛出`.
    Out,
    /// Keyword `keep` / `始终`.
    Keep,
    /// Keyword `match` / `匹配`.
    Match,
    /// Keyword `true` / `真`.
    True,
    /// Keyword `false` / `假`.
    False,
    /// Keyword `nil` / `空`.
    Nil,
    /// Keyword `and` / `并且`.
    And,
    /// Keyword `or` / `或者`.
    Or,
    /// Keyword `import` / `导入`.
    Import,
    /// Keyword `lazy` / `懒`.
    Lazy,
    /// Keyword `as` / `作为`.
    As,
    /// `+`.
    Plus,
    /// `-`.
    Minus,
    /// `*`.
    Star,
    /// Power operator `**`.
    StarStar,
    /// `/`.
    Slash,
    /// `%`.
    Percent,
    /// `=`.
    Eq,
    /// `==`.
    EqEq,
    /// Keyword `not` / `非`.
    Bang,
    /// `!=`.
    BangEq,
    /// `<`.
    Lt,
    /// `>`.
    Gt,
    /// `<=`.
    LtEq,
    /// `>=`.
    GtEq,
    /// `&&`.
    AndAnd,
    /// `||`.
    OrOr,
    /// `=>`.
    Arrow,
    /// `+=`.
    PlusEqual,
    /// `-=`.
    MinusEqual,
    /// `*=`.
    StarEqual,
    /// `/=`.
    SlashEqual,
    /// `|>`.
    Pipe,
    /// `??`.
    QuestionQuestion,
    /// `(`.
    LParen,
    /// `)`.
    RParen,
    /// `{`.
    LBrace,
    /// `}`.
    RBrace,
    /// `[`.
    LBracket,
    /// `]`.
    RBracket,
    /// `,`.
    Comma,
    /// `.`.
    Dot,
    /// `:`.
    Colon,
    /// `;`.
    Semicolon,
    /// `..`.
    DotDot,
    /// `..<`.
    DotDotLt,
    /// End of input.
    Eof,
}

/// A token: its kind and where it starts in the source.
///
/// `line` and `column` are 1-based (the column counts characters, not bytes);
/// `offset` is the 0-based byte offset of the token's first byte.
#[derive(Debug, Clone, Copy, PartialEq, Eq, Structural)]
pub struct Token {
    /// The token's kind.
    pub kind: TokenKind,
    /// Line number (1-based).
    pub line: usize,
    /// Column number in characters (1-based).
    pub column: usize,
    /// Byte offset in the source (0-based).
    pub offset: usize,
}

impl Token {
    /// Builds a token from its parts.
    pub fn new(kind: TokenKind, line: usize, column: usize, offset: usize) -> (r: Token)
        ensures
            r == (Token { kind, line, column, offset }),
    {
        Token { kind, line, column, offset }
    }

    /// Builds the end-of-input token at the given position.
    pub fn eof(line: usize, column: usize, offset: usize) -> (r: Token)
        ensures
            r == (Token { kind: TokenKind::Eof, line, column, offset }),
    {
        Token::new(TokenKind::Eof, line, column, offset)
    }
}

/// The keyword table: `(english, chinese, kind)` for every keyword, in the
/// order in which a lookup tries them.
pub open spec fn keyword_table() -> Seq<(Seq<char>, Seq<char>, TokenKind)> {
    seq![
        (seq!['i', 'f'], seq!['如', '果'], TokenKind::If),
        (seq!['e', 'l', 's', 'e'], seq!['否', '则'], TokenKind::Else),
        (seq!['w', 'h', 'i', 'l', 'e'], seq!['当'], TokenKind::While),
        (seq!['f', 'o', 'r'], seq!['遍', '历'], TokenKind::For),
        (seq!['i', 'n'], seq!['在'], TokenKind::In),
        (seq!['l', 'o', 'o', 'p'], seq!['循', '环'], TokenKind::Loop),
        (seq!['b', 'r', 'e', 'a', 'k'], seq!['跳', '出'], TokenKind::Break),
        (seq!['c', 'o', 'n', 't', 'i', 'n', 'u', 'e'], seq!['继', '续'], TokenKind::Continue),
        (seq!['f', 'n'], seq!['函', '数'], TokenKind::Fn),
        (seq!['r', 'e', 't', 'u', 'r', 'n'], seq!['返', '回'], TokenKind::Return),
        (seq!['t', 'r', 'u', 'e'], seq!['真'], TokenKind::True),
        (seq!['f', 'a', 'l', 's', 'e'], seq!['假'], TokenKind::False),
        (seq!['n', 'i', 'l'], seq!['空'], TokenKind::Nil),
        (seq!['a', 'n', 'd'], seq!['并', '且'], TokenKind::And),
        (seq!['o', 'r'], seq!['或', '者'], TokenKind::Or),
        (seq!['n', 'o', 't'], seq!['非'], TokenKind::Bang),
        (seq!['t', 'r', 'y'], seq!['尝', '试'], TokenKind::Try),
        (seq!['c', 'a', 't', 'c', 'h'], seq!['捕', '获'], TokenKind::Catch),
        (seq!['o', 'u', 't'], seq!['抛', '出'], TokenKind::Out),
        (seq!['k', 'e', 'e', 'p'], seq!['始', '终'], TokenKind::Keep),
        (seq!['m', 'a', 't', 'c', 'h'], seq!['匹', '配'], TokenKind::Match),
        (seq!['i', 'm', 'p', 'o', 'r', 't'], seq!['导', '入'], TokenKind::Import),
        (seq!['l', 'a', 'z', 'y'], seq!['懒'], TokenKind::Lazy),
        (seq!['a', 's'], seq!['作', '为'], TokenKind::As),
    ]
}

/// The kind of the keyword spelled `t`, in either language, or `None` when
/// `t` is not a keyword.
pub open spec fn keyword_kind(t: Seq<char>) -> Option<TokenKind> {
    if t == seq!['i', 'f'] || t == seq!['如', '果'] {
        Some(TokenKind::If)
    } else if t == seq!['e', 'l', 's', 'e'] || t == seq!['否', '则'] {
        Some(TokenKind::Else)
    } else if t == seq!['w', 'h', 'i', 'l', 'e'] || t == seq!['当'] {
        Some(TokenKind::While)
    } else if t == seq!['f', 'o', 'r'] || t == seq!['遍', '历'] {
        Some(TokenKind::For)
    } else if t == seq!['i', 'n'] || t == seq!['在'] {
        Some(TokenKind::In)
    } else if t == seq!['l', 'o', 'o', 'p'] || t == seq!['循', '环'] {
        Some(TokenKind::Loop)
    } else if t == seq!['b', 'r', 'e', 'a', 'k'] || t == seq!['跳', '出'] {
        Some(TokenKind::Break)
    } else if t == seq!['c', 'o', 'n', 't', 'i', 'n', 'u', 'e'] || t == seq!['继', '续'] {
        Some(TokenKind::Continue)
    } else if t == seq!['f', 'n'] || t == seq!['函', '数'] {
        Some(TokenKind::Fn)
    } else if t == seq!['r', 'e', 't', 'u', 'r', 'n'] || t == seq!['返', '回'] {
        Some(TokenKind::Return)
    } else if t == seq!['t', 'r', 'u', 'e'] || t == seq!['真'] {
        Some(TokenKind::True)
    } else if t == seq!['f', 'a', 'l', 's', 'e'] || t == seq!['假'] {
        Some(TokenKind::False)
    } else if t == seq!['n', 'i', 'l'] || t == seq!['空'] {
        Some(TokenKind::Nil)
    } else if t == seq!['a', 'n', 'd'] || t == seq!['并', '且'] {
        Some(TokenKind::And)
    } else if t == seq!['o', 'r'] || t == seq!['或', '者'] {
        Some(TokenKind::Or)
    } else if t == seq!['n', 'o', 't'] || t == seq!['非'] {
        Some(TokenKind::Bang)
    } else if t == seq!['t', 'r', 'y'] || t == seq!['尝', '试'] {
        Some(TokenKind::Try)
    } else if t == seq!['c', 'a', 't', 'c', 'h'] || t == seq!['捕', '获'] {
        Some(TokenKind::Catch)
    } else if t == seq!['o', 'u', 't'] || t == seq!['抛', '出'] {
        Some(TokenKind::Out)
    } else if t == seq!['k', 'e', 'e', 'p'] || t == seq!['始', '终'] {
        Some(TokenKind::Keep)
    } else if t == seq!['m', 'a', 't', 'c', 'h'] || t == seq!['匹', '配'] {
        Some(TokenKind::Match)
    } else if t == seq!['i', 'm', 'p', 'o', 'r', 't'] || t == seq!['导', '入'] {
        Some(TokenKind::Import)
    } else if t == seq!['l', 'a', 'z', 'y'] || t == seq!['懒'] {
        Some(TokenKind::Lazy)
    } else if t == seq!['a', 's'] || t == seq!['作', '为'] {
        Some(TokenKind::As)
    } else {
        None
    }
}

/// Whether two character slices hold the same characters.
pub fn same_chars(a: &[char], b: &[char]) -> (r: bool)
    ensures
        r == (a@ == b@),
{
    if a.len() != b.len() {
        return false;
    }
    let mut i: usize = 0;
    while i < a.len()
        invariant
            a@.len() == b@.len(),
            i <= a@.len(),
            forall|j: int| 0 <= j < i ==> a@[j] == b@[j],
        decreases a@.len() - i,
    {
        if a[i] != b[i] {
            return false;
        }
        i += 1;
    }
    assert(a@ =~= b@);
    true
}

/// Looks up the keyword spelled by the characters `t`.
pub fn lookup_keyword_chars(t: &[char]) -> (r: Option<TokenKind>)
    ensures
        r == keyword_kind(t@),
{
    let if_e: &[char] = &['i', 'f'];
    assert(if_e@ =~= seq!['i', 'f']);
    let if_c: &[char] = &['如', '果'];
    assert(if_c@ =~= seq!['如', '果']);
    let else_e: &[char] = &['e', 'l', 's', 'e'];
    assert(else_e@ =~= seq!['e', 'l', 's', 'e']);
    let else_c: &[char] = &['否', '则'];
    assert(else_c@ =~= seq!['否', '则']);
    let while_e: &[char] = &['w', 'h', 'i', 'l', 'e'];
    assert(while_e@ =~= seq!['w', 'h', 'i', 'l', 'e']);
    let while_c: &[char] = &['当'];
    assert(while_c@ =~= seq!['当']);
    let for_e: &[char] = &['f', 'o', 'r'];
    assert(for_e@ =~= seq!['f', 'o', 'r']);
    let for_c: &[char] = &['遍', '历'];
    assert(for_c@ =~= seq!['遍', '历']);
    let in_e: &[char] = &['i', 'n'];
    assert(in_e@ =~= seq!['i', 'n']);
    let in_c: &[char] = &['在'];
    assert(in_c@ =~= seq!['在']);
    let loop_e: &[char] = &['l', 'o', 'o', 'p'];
    assert(loop_e@ =~= seq!['l', 'o', 'o', 'p']);
    let loop_c: &[char] = &['循', '环'];
    assert(loop_c@ =~= seq!['循', '环']);
    let break_e: &[char] = &['b', 'r', 'e', 'a', 'k'];
    assert(break_e@ =~= seq!['b', 'r', 'e', 'a', 'k']);
    let break_c: &[char] = &['跳', '出'];
    assert(break_c@ =~= seq!['跳', '出']);
    let continue_e: &[char] = &['c', 'o', 'n', 't', 'i', 'n', 'u', 'e'];
    assert(continue_e@ =~= seq!['c', 'o', 'n', 't', 'i', 'n', 'u', 'e']);
    let continue_c: &[char] = &['继', '续'];
    assert(continue_c@ =~= seq!['继', '续']);
    let fn_e: &[char] = &['f', 'n'];
    assert(fn_e@ =~= seq!['f', 'n']);
    let fn_c: &[char] = &['函', '数'];
    assert(fn_c@ =~= seq!['函', '数']);
    let return_e: &[char] = &['r', 'e', 't', 'u', 'r', 'n'];
    assert(return_e@ =~= seq!['r', 'e', 't', 'u', 'r', 'n']);
    let return_c: &[char] = &['返', '回'];
    assert(return_c@ =~= seq!['返', '回']);
    let true_e: &[char] = &['t', 'r', 'u', 'e'];
    assert(true_e@ =~= seq!['t', 'r', 'u', 'e']);
    let true_c: &[char] = &['真'];
    assert(true_c@ =~= seq!['真']);
    let false_e: &[char] = &['f', 'a', 'l', 's', 'e'];
    assert(false_e@ =~= seq!['f', 'a', 'l', 's', 'e']);
    let false_c: &[char] = &['假'];
    assert(false_c@ =~= seq!['假']);
    let nil_e: &[char] = &['n', 'i', 'l'];
    assert(nil_e@ =~= seq!['n', 'i', 'l']);
    let nil_c: &[char] = &['空'];
    assert(nil_c@ =~= seq!['空']);
    let and_e: &[char] = &['a', 'n', 'd'];
    assert(and_e@ =~= seq!['a', 'n', 'd']);
    let and_c: &[char] = &['并', '且'];
    assert(and_c@ =~= seq!['并', '且']);
    let or_e: &[char] = &['o', 'r'];
    assert(or_e@ =~= seq!['o', 'r']);
    let or_c: &[char] = &['或', '者'];
    assert(or_c@ =~= seq!['或', '者']);
    let bang_e: &[char] = &['n', 'o', 't'];
    assert(bang_e@ =~= seq!['n', 'o', 't']);
    let bang_c: &[char] = &['非'];
    assert(bang_c@ =~= seq!['非']);
    let try_e: &[char] = &['t', 'r', 'y'];
    assert(try_e@ =~= seq!['t', 'r', 'y']);
    let try_c: &[char] = &['尝', '试'];
    assert(try_c@ =~= seq!['尝', '试']);
    let catch_e: &[char] = &['c', 'a', 't', 'c', 'h'];
    assert(catch_e@ =~= seq!['c', 'a', 't', 'c', 'h']);
    let catch_c: &[char] = &['捕', '获'];
    assert(catch_c@ =~= seq!['捕', '获']);
    let out_e: &[char] = &['o', 'u', 't'];
    assert(out_e@ =~= seq!['o', 'u', 't']);
    let out_c: &[char] = &['抛', '出'];
    assert(out_c@ =~= seq!['抛', '出']);
    let keep_e: &[char] = &['k', 'e', 'e', 'p'];
    assert(keep_e@ =~= seq!['k', 'e', 'e', 'p']);
    let keep_c: &[char] = &['始', '终'];
    assert(keep_c@ =~= seq!['始', '终']);
    let match_e: &[char] = &['m', 'a', 't', 'c', 'h'];
    assert(match_e@ =~= seq!['m', 'a', 't', 'c', 'h']);
    let match_c: &[char] = &['匹', '配'];
    assert(match_c@ =~= seq!['匹', '配']);
    let import_e: &[char] = &['i', 'm', 'p', 'o', 'r', 't'];
    assert(import_e@ =~= seq!['i', 'm', 'p', 'o', 'r', 't']);
    let import_c: &[char] = &['导', '入'];
    assert(import_c@ =~= seq!['导', '入']);
    let lazy_e: &[char] = &['l', 'a', 'z', 'y'];
    assert(lazy_e@ =~= seq!['l', 'a', 'z', 'y']);
    let lazy_c: &[char] = &['懒'];
    assert(lazy_c@ =~= seq!['懒']);
    let as_e: &[char] = &['a', 's'];
    assert(as_e@ =~= seq!['a', 's']);
    let as_c: &[char] = &['作', '为'];
    assert(as_c@ =~= seq!['作', '为']);
    if same_chars(t, if_e) || same_chars(t, if_c) {
        Some(TokenKind::If)
    } else if same_chars(t, else_e) || same_chars(t, else_c) {
        Some(TokenKind::Else)
    } else if same_chars(t, while_e) || same_chars(t, while_c) {
        Some(TokenKind::While)
    } else if same_chars(t, for_e) || same_chars(t, for_c) {
        Some(TokenKind::For)
    } else if same_chars(t, in_e) || same_chars(t, in_c) {
        Some(TokenKind::In)
    } else if same_chars(t, loop_e) || same_chars(t, loop_c) {
        Some(TokenKind::Loop)
    } else if same_chars(t, break_e) || same_chars(t, break_c) {
        Some(TokenKind::Break)
    } else if same_chars(t, continue_e) || same_chars(t, continue_c) {
        Some(TokenKind::Continue)
    } else if same_chars(t, fn_e) || same_chars(t, fn_c) {
        Some(TokenKind::Fn)
    } else if same_chars(t, return_e) || same_chars(t, return_c) {
        Some(TokenKind::Return)
    } else if same_chars(t, true_e) || same_chars(t, true_c) {
        Some(TokenKind::True)
    } else if same_chars(t, false_e) || same_chars(t, false_c) {
        Some(TokenKind::False)
    } else if same_chars(t, nil_e) || same_chars(t, nil_c) {
        Some(TokenKind::Nil)
    } else if same_chars(t, and_e) || same_chars(t, and_c) {
        Some(TokenKind::And)
    } else if same_chars(t, or_e) || same_chars(t, or_c) {
        Some(TokenKind::Or)
    } else if same_chars(t, bang_e) || same_chars(t, bang_c) {
        Some(TokenKind::Bang)
    } else if same_chars(t, try_e) || same_chars(t, try_c) {
        Some(TokenKind::Try)
    } else if same_chars(t, catch_e) || same_chars(t, catch_c) {
        Some(TokenKind::Catch)
    } else if same_chars(t, out_e) || same_chars(t, out_c) {
        Some(TokenKind::Out)
    } else if same_chars(t, keep_e) || same_chars(t, keep_c) {
        Some(TokenKind::Keep)
    } else if same_chars(t, match_e) || same_chars(t, match_c) {
        Some(TokenKind::Match)
    } else if same_chars(t, import_e) || same_chars(t, import_c) {
        Some(TokenKind::Import)
    } else if same_chars(t, lazy_e) || same_chars(t, lazy_c) {
        Some(TokenKind::Lazy)
    } else if same_chars(t, as_e) || same_chars(t, as_c) {
        Some(TokenKind::As)
    } else {
        None
    }
}

/// The characters of a string slice, in order.
pub fn chars_of(s: &str) -> (r: Vec<char>)
    ensures
        r@ == s@,
{
    let mut v: Vec<char> = Vec::new();
    for c in it: s.chars()
        invariant
            v@ == it.seq().take(it.index() as int),
            it.seq() == s@,
    {
        v.push(c);
    }
    v
}

/// Looks up a keyword by its text, English or Chinese.
///
/// Returns `None` for any text that is not a keyword.
pub fn lookup_keyword(ident: &str) -> (r: Option<TokenKind>)
    ensures
        r == keyword_kind(ident@),
{
    let chars = chars_of(ident);
    lookup_keyword_chars(chars.as_slice())
}

/// The text that names a token kind in messages: the English keyword for a
/// keyword kind, the symbol for an operator or delimiter (`!` for the
/// negation, whose keywords are `not` / `非`), and a word for the literal
/// kinds and the end of input.
pub open spec fn kind_text(k: TokenKind) -> Seq<char> {
    match k {
        TokenKind::Number => "number"@,
        TokenKind::String => "string"@,
        TokenKind::Ident => "identifier"@,
        TokenKind::If => "if"@,
        TokenKind::Else => "else"@,
        TokenKind::While => "while"@,
        TokenKind::For => "for"@,
        TokenKind::In => "in"@,
        TokenKind::Loop => "loop"@,
        TokenKind::Break => "break"@,
        TokenKind::Continue => "continue"@,
        TokenKind::Fn => "fn"@,
        TokenKind::Return => "return"@,
        TokenKind::Try => "try"@,
        TokenKind::Catch => "catch"@,
        TokenKind::Out => "out"@,
        TokenKind::Keep => "keep"@,
        TokenKind::Match => "match"@,
        TokenKind::True => "true"@,
        TokenKind::False => "false"@,
        TokenKind::Nil => "nil"@,
        TokenKind::And => "and"@,
        TokenKind::Or => "or"@,
        TokenKind::Import => "import"@,
        TokenKind::Lazy => "lazy"@,
        TokenKind::As => "as"@,
        TokenKind::Plus => "+"@,
        TokenKind::Minus => "-"@,
        TokenKind::Star => "*"@,
        TokenKind::StarStar => "StarStar"@,
        TokenKind::Slash => "/"@,
        TokenKind::Percent => "%"@,
        TokenKind::Eq => "="@,
        TokenKind::EqEq => "=="@,
        TokenKind::Bang => "!"@,
        TokenKind::BangEq => "!="@,
        TokenKind::Lt => "<"@,
        TokenKind::Gt => ">"@,
        TokenKind::LtEq => "<="@,
        TokenKind::GtEq => ">="@,
        TokenKind::AndAnd => "&&"@,
        TokenKind::OrOr => "||"@,
        TokenKind::Arrow => "=>"@,
        TokenKind::PlusEqual => "+="@,
        TokenKind::MinusEqual => "-="@,
        TokenKind::StarEqual => "*="@,
        TokenKind::SlashEqual => "/="@,
        TokenKind::Pipe => "|>"@,
        TokenKind::QuestionQuestion => "??"@,
        TokenKind::LParen => "("@,
        TokenKind::RParen => ")"@,
        TokenKind::LBrace => "{"@,
        TokenKind::RBrace => "}"@,
        TokenKind::LBracket => "["@,
        TokenKind::RBracket => "]"@,
        TokenKind::Comma => ","@,
        TokenKind::Dot => "."@,
        TokenKind::Colon => ":"@,
        TokenKind::Semicolon => ";"@,
        TokenKind::DotDot => ".."@,
        TokenKind::DotDotLt => "..<"@,
        TokenKind::Eof => "EOF"@,
    }
}

impl TokenKind {
    /// The text that names this kind in messages (see [`kind_text`]).
    pub fn display_text(self) -> (r: &'static str)
        ensures
            r@ == kind_text(self),
    {
        match self {
            TokenKind::Number => "number",
            TokenKind::String => "string",
            TokenKind::Ident => "identifier",
            TokenKind::If => "if",
            TokenKind::Else => "else",
            TokenKind::While => "while",
            TokenKind::For => "for",
            TokenKind::In => "in",
            TokenKind::Loop => "loop",
            TokenKind::Break => "break",
            TokenKind::Continue => "continue",
            TokenKind::Fn => "fn",
            TokenKind::Return => "return",
            TokenKind::Try => "try",
            TokenKind::Catch => "catch",
            TokenKind::Out => "out",
            TokenKind::Keep => "keep",
            TokenKind::Match => "match",
            TokenKind::True => "true",
            TokenKind::False => "false",
            TokenKind::Nil => "nil",
            TokenKind::And => "and",
            TokenKind::Or => "or",
            TokenKind::Import => "import",
            TokenKind::Lazy => "lazy",
            TokenKind::As => "as",
            TokenKind::Plus => "+",
            TokenKind::Minus => "-",
            TokenKind::Star => "*",
            TokenKind::StarStar => "StarStar",
            TokenKind::Slash => "/",
            TokenKind::Percent => "%",
            TokenKind::Eq => "=",
            TokenKind::EqEq => "==",
            TokenKind::Bang => "!",
            TokenKind::BangEq => "!=",
            TokenKind::Lt => "<",
            TokenKind::Gt => ">",
            TokenKind::LtEq => "<=",
            TokenKind::GtEq => ">=",
            TokenKind::AndAnd => "&&",
            TokenKind::OrOr => "||",
            TokenKind::Arrow => "=>",
            TokenKind::PlusEqual => "+=",
            TokenKind::MinusEqual => "-=",
            TokenKind::StarEqual => "*=",
            TokenKind::SlashEqual => "/=",
            TokenKind::Pipe => "|>",
            TokenKind::QuestionQuestion => "??",
            TokenKind::LParen => "(",
            TokenKind::RParen => ")",
            TokenKind::LBrace => "{",
            TokenKind::RBrace => "}",
            TokenKind::LBracket => "[",
            TokenKind::RBracket => "]",
            TokenKind::Comma => ",",
            TokenKind::Dot => ".",
            TokenKind::Colon => ":",
            TokenKind::Semicolon => ";",
            TokenKind::DotDot => "..",
            TokenKind::DotDotLt => "..<",
            TokenKind::Eof => "EOF",
        }
    }

    /// Whether this is the `if` / `如果` keyword.
    pub fn is_if(self) -> (r: bool)
        ensures
            r == (self == TokenKind::If),
    {
        self == TokenKind::If
    }

    /// Whether this is the `else` / `否则` keyword.
    pub fn is_else(self) -> (r: bool)
        ensures
            r == (self == TokenKind::Else),
    {
        self == TokenKind::Else
    }

    /// Whether this is the `while` / `当` keyword.
    pub fn is_while(self) -> (r: bool)
        ensures
            r == (self == TokenKind::While),
    {
        self == TokenKind::While
    }

    /// Whether this is the `for` / `遍历` keyword.
    pub fn is_for(self) -> (r: bool)
        ensures
            r == (self == TokenKind::For),
    {
        self == TokenKind::For
    }

    /// Whether this is the `in` / `在` keyword.
    pub fn is_in(self) -> (r: bool)
        ensures
            r == (self == TokenKind::In),
    {
        self == TokenKind::In
    }

    /// Whether this is the `loop` / `循环` keyword.
    pub fn is_loop(self) -> (r: bool)
        ensures
            r == (self == TokenKind::Loop),
    {
        self == TokenKind::Loop
    }

    /// Whether this is the `break` / `跳出` keyword.
    pub fn is_break(self) -> (r: bool)
        ensures
            r == (self == TokenKind::Break),
    {
        self == TokenKind::Break
    }

    /// Whether this is the `continue` / `继续` keyword.
    pub fn is_continue(self) -> (r: bool)
        ensures
            r == (self == TokenKind::Continue),
    {
        self == TokenKind::Continue
    }

    /// Whether this is the `fn` / `函数` keyword.
    pub fn is_fn(self) -> (r: bool)
        ensures
            r == (self == TokenKind::Fn),
    {
        self == TokenKind::Fn
    }

    /// Whether this is the `return` / `返回` keyword.
    pub fn is_return(self) -> (r: bool)
        ensures
            r == (self == TokenKind::Return),
    {
        self == TokenKind::Return
    }

    /// Whether this is the `true` / `真` keyword.
    pub fn is_true(self) -> (r: bool)
        ensures
            r == (self == TokenKind::True),
    {
        self == TokenKind::True
    }

    /// Whether this is the `false` / `假` keyword.
    pub fn is_false(self) -> (r: bool)
        ensures
            r == (self == TokenKind::False),
    {
        self == TokenKind::False
    }

    /// Whether this is the `nil` / `空` keyword.
    pub fn is_nil(self) -> (r: bool)
        ensures
            r == (self == TokenKind::Nil),
    {
        self == TokenKind::Nil
    }

    /// Whether this is the `match` / `匹配` keyword.
    pub fn is_match(self) -> (r: bool)
        ensures
            r == (self == TokenKind::Match),
    {
        self == TokenKind::Match
    }

    /// Whether this is a logical AND: the word `and` / `并且` or the symbol `&&`.
    pub fn is_and(self) -> (r: bool)
        ensures
            r == (self == TokenKind::AndAnd || self == TokenKind::And),
    {
        self == TokenKind::AndAnd || self == TokenKind::And
    }

    /// Whether this is a logical OR: the word `or` / `或者` or the symbol `||`.
    pub fn is_or(self) -> (r: bool)
        ensures
            r == (self == TokenKind::OrOr || self == TokenKind::Or),
    {
        self == TokenKind::OrOr || self == TokenKind::Or
    }
}

/// The two spellings of every keyword map to the same kind, and that kind is
/// the one the keyword table gives.
pub proof fn lemma_bilingual_keywords(i: int)
    requires
        0 <= i < keyword_table().len(),
    ensures
        keyword_kind(keyword_table()[i].0) == Some(keyword_table()[i].2),
        keyword_kind(keyword_table()[i].1) == Some(keyword_table()[i].2),
        keyword_kind(keyword_table()[i].0) == keyword_kind(keyword_table()[i].1),
{
    let row = keyword_table()[i];
    if i == 0 {
        assert(keyword_kind(seq!['i', 'f']) == Some(TokenKind::If));
        assert(seq!['如', '果'][0] != seq!['i', 'f'][0]);
        assert(keyword_kind(seq!['如', '果']) == Some(TokenKind::If));
    }
    if i == 1 {
        assert(keyword_kind(seq!['e', 'l', 's', 'e']) == Some(TokenKind::Else));
        assert(seq!['否', '则'][0] != seq!['i', 'f'][0]);
        assert(seq!['否', '则'][0] != seq!['如', '果'][0]);
        assert(keyword_kind(seq!['否', '则']) == Some(TokenKind::Else));
    }
    if i == 2 {
        assert(keyword_kind(seq!['w', 'h', 'i', 'l', 'e']) == Some(TokenKind::While));
        assert(keyword_kind(seq!['当']) == Some(TokenKind::While));
    }
    if i == 3 {
        assert(keyword_kind(seq!['f', 'o', 'r']) == Some(TokenKind::For));
        assert(seq!['遍', '历'][0] != seq!['i', 'f'][0]);
        assert(seq!['遍', '历'][0] != seq!['如', '果'][0]);
        assert(seq!['遍', '历'][0] != seq!['否', '则'][0]);
        assert(keyword_kind(seq!['遍', '历']) == Some(TokenKind::For));
    }
    if i == 4 {
        assert(seq!['i', 'n'][1] != seq!['i', 'f'][1]);
        assert(seq!['i', 'n'][0] != seq!['如', '果'][0]);
        assert(seq!['i', 'n'][0] != seq!['否', '则'][0]);
        assert(seq!['i', 'n'][0] != seq!['遍', '历'][0]);
        assert(keyword_kind(seq!['i', 'n']) == Some(TokenKind::In));
        assert(seq!['在'][0] != seq!['当'][0]);
        assert(keyword_kind(seq!['在']) == Some(TokenKind::In));
    }
    if i == 5 {
        assert(seq!['l', 'o', 'o', 'p'][0] != seq!['e', 'l', 's', 'e'][0]);
        assert(keyword_kind(seq!['l', 'o', 'o', 'p']) == Some(TokenKind::Loop));
        assert(seq!['循', '环'][0] != seq!['i', 'f'][0]);
        assert(seq!['循', '环'][0] != seq!['如', '果'][0]);
        assert(seq!['循', '环'][0] != seq!['否', '则'][0]);
        assert(seq!['循', '环'][0] != seq!['遍', '历'][0]);
        assert(seq!['循', '环'][0] != seq!['i', 'n'][0]);
        assert(keyword_kind(seq!['循', '环']) == Some(TokenKind::Loop));
    }
    if i == 6 {
        assert(seq!['b', 'r', 'e', 'a', 'k'][0] != seq!['w', 'h', 'i', 'l', 'e'][0]);
        assert(keyword_kind(seq!['b', 'r', 'e', 'a', 'k']) == Some(TokenKind::Break));
        assert(seq!['跳', '出'][0] != seq!['i', 'f'][0]);
        assert(seq!['跳', '出'][0] != seq!['如', '果'][0]);
        assert(seq!['跳', '出'][0] != seq!['否', '则'][0]);
        assert(seq!['跳', '出'][0] != seq!['遍', '历'][0]);
        assert(seq!['跳', '出'][0] != seq!['i', 'n'][0]);
        assert(seq!['跳', '出'][0] != seq!['循', '环'][0]);
        assert(keyword_kind(seq!['跳', '出']) == Some(TokenKind::Break));
    }
    if i == 7 {
        assert(keyword_kind(seq!['c', 'o', 'n', 't', 'i', 'n', 'u', 'e']) == Some(TokenKind::Continue));
        assert(seq!['继', '续'][0] != seq!['i', 'f'][0]);
        assert(seq!['继', '续'][0] != seq!['如', '果'][0]);
        assert(seq!['继', '续'][0] != seq!['否', '则'][0]);
        assert(seq!['继', '续'][0] != seq!['遍', '历'][0]);
        assert(seq!['继', '续'][0] != seq!['i', 'n'][0]);
        assert(seq!['继', '续'][0] != seq!['循', '环'][0]);
        assert(seq!['继', '续'][0] != seq!['跳', '出'][0]);
        assert(keyword_kind(seq!['继', '续']) == Some(TokenKind::Continue));
    }
    if i == 8 {
        assert(seq!['f', 'n'][0] != seq!['i', 'f'][0]);
        assert(seq!['f', 'n'][0] != seq!['如', '果'][0]);
        assert(seq!['f', 'n'][0] != seq!['否', '则'][0]);
        assert(seq!['f', 'n'][0] != seq!['遍', '历'][0]);
        assert(seq!['f', 'n'][0] != seq!['i', 'n'][0]);
        assert(seq!['f', 'n'][0] != seq!['循', '环'][0]);
        assert(seq!['f', 'n'][0] != seq!['跳', '出'][0]);
        assert(seq!['f', 'n'][0] != seq!['继', '续'][0]);
        assert(keyword_kind(seq!['f', 'n']) == Some(TokenKind::Fn));
        assert(seq!['函', '数'][0] != seq!['i', 'f'][0]);
        assert(seq!['函', '数'][0] != seq!['如', '果'][0]);
        assert(seq!['函', '数'][0] != seq!['否', '则'][0]);
        assert(seq!['函', '数'][0] != seq!['遍', '历'][0]);
        assert(seq!['函', '数'][0] != seq!['i', 'n'][0]);
        assert(seq!['函', '数'][0] != seq!['循', '环'][0]);
        assert(seq!['函', '数'][0] != seq!['跳', '出'][0]);
        assert(seq!['函', '数'][0] != seq!['继', '续'][0]);
        assert(seq!['函', '数'][0] != seq!['f', 'n'][0]);
        assert(keyword_kind(seq!['函', '数']) == Some(TokenKind::Fn));
    }
    if i == 9 {
        assert(keyword_kind(seq!['r', 'e', 't', 'u', 'r', 'n']) == Some(TokenKind::Return));
        assert(seq!['返', '回'][0] != seq!['i', 'f'][0]);
        assert(seq!['返', '回'][0] != seq!['如', '果'][0]);
        assert(seq!['返', '回'][0] != seq!['否', '则'][0]);
        assert(seq!['返', '回'][0] != seq!['遍', '历'][0]);
        assert(seq!['返', '回'][0] != seq!['i', 'n'][0]);
        assert(seq!['返', '回'][0] != seq!['循', '环'][0]);
        assert(seq!['返', '回'][0] != seq!['跳', '出'][0]);
        assert(seq!['返', '回'][0] != seq!['继', '续'][0]);
        assert(seq!['返', '回'][0] != seq!['f', 'n'][0]);
        assert(seq!['返', '回'][0] != seq!['函', '数'][0]);
        assert(keyword_kind(seq!['返', '回']) == Some(TokenKind::Return));
    }
    if i == 10 {
        assert(seq!['t', 'r', 'u', 'e'][0] != seq!['e', 'l', 's', 'e'][0]);
        assert(seq!['t', 'r', 'u', 'e'][0] != seq!['l', 'o', 'o', 'p'][0]);
        assert(keyword_kind(seq!['t', 'r', 'u', 'e']) == Some(TokenKind::True));
        assert(seq!['真'][0] != seq!['当'][0]);
        assert(seq!['真'][0] != seq!['在'][0]);
        assert(keyword_kind(seq!['真']) == Some(TokenKind::True));
    }
    if i == 11 {
        assert(seq!['f', 'a', 'l', 's', 'e'][0] != seq!['w', 'h', 'i', 'l', 'e'][0]);
        assert(seq!['f', 'a', 'l', 's', 'e'][0] != seq!['b', 'r', 'e', 'a', 'k'][0]);
        assert(keyword_kind(seq!['f', 'a', 'l', 's', 'e']) == Some(TokenKind::False));
        assert(seq!['假'][0] != seq!['当'][0]);
        assert(seq!['假'][0] != seq!['在'][0]);
        assert(seq!['假'][0] != seq!['真'][0]);
        assert(keyword_kind(seq!['假']) == Some(TokenKind::False));
    }
    if i == 12 {
        assert(seq!['n', 'i', 'l'][0] != seq!['f', 'o', 'r'][0]);
        assert(keyword_kind(seq!['n', 'i', 'l']) == Some(TokenKind::Nil));
        assert(seq!['空'][0] != seq!['当'][0]);
        assert(seq!['空'][0] != seq!['在'][0]);
        assert(seq!['空'][0] != seq!['真'][0]);
        assert(seq!['空'][0] != seq!['假'][0]);
        assert(keyword_kind(seq!['空']) == Some(TokenKind::Nil));
    }
    if i == 13 {
        assert(seq!['a', 'n', 'd'][0] != seq!['f', 'o', 'r'][0]);
        assert(seq!['a', 'n', 'd'][0] != seq!['n', 'i', 'l'][0]);
        assert(keyword_kind(seq!['a', 'n', 'd']) == Some(TokenKind::And));
        assert(seq!['并', '且'][0] != seq!['i', 'f'][0]);
        assert(seq!['并', '且'][0] != seq!['如', '果'][0]);
        assert(seq!['并', '且'][0] != seq!['否', '则'][0]);
        assert(seq!['并', '且'][0] != seq!['遍', '历'][0]);
        assert(seq!['并', '且'][0] != seq!['i', 'n'][0]);
        assert(seq!['并', '且'][0] != seq!['循', '环'][0]);
        assert(seq!['并', '且'][0] != seq!['跳', '出'][0]);
        assert(seq!['并', '且'][0] != seq!['继', '续'][0]);
        assert(seq!['并', '且'][0] != seq!['f', 'n'][0]);
        assert(seq!['并', '且'][0] != seq!['函', '数'][0]);
        assert(seq!['并', '且'][0] != seq!['返', '回'][0]);
        assert(keyword_kind(seq!['并', '且']) == Some(TokenKind::And));
    }
    if i == 14 {
        assert(seq!['o', 'r'][0] != seq!['i', 'f'][0]);
        assert(seq!['o', 'r'][0] != seq!['如', '果'][0]);
        assert(seq!['o', 'r'][0] != seq!['否', '则'][0]);
        assert(seq!['o', 'r'][0] != seq!['遍', '历'][0]);
        assert(seq!['o', 'r'][0] != seq!['i', 'n'][0]);
        assert(seq!['o', 'r'][0] != seq!['循', '环'][0]);
        assert(seq!['o', 'r'][0] != seq!['跳', '出'][0]);
        assert(seq!['o', 'r'][0] != seq!['继', '续'][0]);
        assert(seq!['o', 'r'][0] != seq!['f', 'n'][0]);
        assert(seq!['o', 'r'][0] != seq!['函', '数'][0]);
        assert(seq!['o', 'r'][0] != seq!['返', '回'][0]);
        assert(seq!['o', 'r'][0] != seq!['并', '且'][0]);
        assert(keyword_kind(seq!['o', 'r']) == Some(TokenKind::Or));
        assert(seq!['或', '者'][0] != seq!['i', 'f'][0]);
        assert(seq!['或', '者'][0] != seq!['如', '果'][0]);
        assert(seq!['或', '者'][0] != seq!['否', '则'][0]);
        assert(seq!['或', '者'][0] != seq!['遍', '历'][0]);
        assert(seq!['或', '者'][0] != seq!['i', 'n'][0]);
        assert(seq!['或', '者'][0] != seq!['循', '环'][0]);
        assert(seq!['或', '者'][0] != seq!['跳', '出'][0]);
        assert(seq!['或', '者'][0] != seq!['继', '续'][0]);
        assert(seq!['或', '者'][0] != seq!['f', 'n'][0]);
        assert(seq!['或', '者'][0] != seq!['函', '数'][0]);
        assert(seq!['或', '者'][0] != seq!['返', '回'][0]);
        assert(seq!['或', '者'][0] != seq!['并', '且'][0]);
        assert(seq!['或', '者'][0] != seq!['o', 'r'][0]);
        assert(keyword_kind(seq!['或', '者']) == Some(TokenKind::Or));
    }
    if i == 15 {
        assert(seq!['n', 'o', 't'][0] != seq!['f', 'o', 'r'][0]);
        assert(seq!['n', 'o', 't'][1] != seq!['n', 'i', 'l'][1]);
        assert(seq!['n', 'o', 't'][0] != seq!['a', 'n', 'd'][0]);
        assert(keyword_kind(seq!['n', 'o', 't']) == Some(TokenKind::Bang));
        assert(seq!['非'][0] != seq!['当'][0]);
        assert(seq!['非'][0] != seq!['在'][0]);
        assert(seq!['非'][0] != seq!['真'][0]);
        assert(seq!['非'][0] != seq!['假'][0]);
        assert(seq!['非'][0] != seq!['空'][0]);
        assert(keyword_kind(seq!['非']) == Some(TokenKind::Bang));
    }
    if i == 16 {
        assert(seq!['t', 'r', 'y'][0] != seq!['f', 'o', 'r'][0]);
        assert(seq!['t', 'r', 'y'][0] != seq!['n', 'i', 'l'][0]);
        assert(seq!['t', 'r', 'y'][0] != seq!['a', 'n', 'd'][0]);
        assert(seq!['t', 'r', 'y'][0] != seq!['n', 'o', 't'][0]);
        assert(keyword_kind(seq!['t', 'r', 'y']) == Some(TokenKind::Try));
        assert(seq!['尝', '试'][0] != seq!['i', 'f'][0]);
        assert(seq!['尝', '试'][0] != seq!['如', '果'][0]);
        assert(seq!['尝', '试'][0] != seq!['否', '则'][0]);
        assert(seq!['尝', '试'][0] != seq!['遍', '历'][0]);
        assert(seq!['尝', '试'][0] != seq!['i', 'n'][0]);
        assert(seq!['尝', '试'][0] != seq!['循', '环'][0]);
        assert(seq!['尝', '试'][0] != seq!['跳', '出'][0]);
        assert(seq!['尝', '试'][0] != seq!['继', '续'][0]);
        assert(seq!['尝', '试'][0] != seq!['f', 'n'][0]);
        assert(seq!['尝', '试'][0] != seq!['函', '数'][0]);
        assert(seq!['尝', '试'][0] != seq!['返', '回'][0]);
        assert(seq!['尝', '试'][0] != seq!['并', '且'][0]);
        assert(seq!['尝', '试'][0] != seq!['o', 'r'][0]);
        assert(seq!['尝', '试'][0] != seq!['或', '者'][0]);
        assert(keyword_kind(seq!['尝', '试']) == Some(TokenKind::Try));
    }
    if i == 17 {
        assert(seq!['c', 'a', 't', 'c', 'h'][0] != seq!['w', 'h', 'i', 'l', 'e'][0]);
        assert(seq!['c', 'a', 't', 'c', 'h'][0] != seq!['b', 'r', 'e', 'a', 'k'][0]);
        assert(seq!['c', 'a', 't', 'c', 'h'][0] != seq!['f', 'a', 'l', 's', 'e'][0]);
        assert(keyword_kind(seq!['c', 'a', 't', 'c', 'h']) == Some(TokenKind::Catch));
        assert(seq!['捕', '获'][0] != seq!['i', 'f'][0]);
        assert(seq!['捕', '获'][0] != seq!['如', '果'][0]);
        assert(seq!['捕', '获'][0] != seq!['否', '则'][0]);
        assert(seq!['捕', '获'][0] != seq!['遍', '历'][0]);
        assert(seq!['捕', '获'][0] != seq!['i', 'n'][0]);
        assert(seq!['捕', '获'][0] != seq!['循', '环'][0]);
        assert(seq!['捕', '获'][0] != seq!['跳', '出'][0]);
        assert(seq!['捕', '获'][0] != seq!['继', '续'][0]);
        assert(seq!['捕', '获'][0] != seq!['f', 'n'][0]);
        assert(seq!['捕', '获'][0] != seq!['函', '数'][0]);
        assert(seq!['捕', '获'][0] != seq!['返', '回'][0]);
        assert(seq!['捕', '获'][0] != seq!['并', '且'][0]);
        assert(seq!['捕', '获'][0] != seq!['o', 'r'][0]);
        assert(seq!['捕', '获'][0] != seq!['或', '者'][0]);
        assert(seq!['捕', '获'][0] != seq!['尝', '试'][0]);
        assert(keyword_kind(seq!['捕', '获']) == Some(TokenKind::Catch));
    }
    if i == 18 {
        assert(seq!['o', 'u', 't'][0] != seq!['f', 'o', 'r'][0]);
        assert(seq!['o', 'u', 't'][0] != seq!['n', 'i', 'l'][0]);
        assert(seq!['o', 'u', 't'][0] != seq!['a', 'n', 'd'][0]);
        assert(seq!['o', 'u', 't'][0] != seq!['n', 'o', 't'][0]);
        assert(seq!['o', 'u', 't'][0] != seq!['t', 'r', 'y'][0]);
        assert(keyword_kind(seq!['o', 'u', 't']) == Some(TokenKind::Out));
        assert(seq!['抛', '出'][0] != seq!['i', 'f'][0]);
        assert(seq!['抛', '出'][0] != seq!['如', '果'][0]);
        assert(seq!['抛', '出'][0] != seq!['否', '则'][0]);
        assert(seq!['抛', '出'][0] != seq!['遍', '历'][0]);
        assert(seq!['抛', '出'][0] != seq!['i', 'n'][0]);
        assert(seq!['抛', '出'][0] != seq!['循', '环'][0]);
        assert(seq!['抛', '出'][0] != seq!['跳', '出'][0]);
        assert(seq!['抛', '出'][0] != seq!['继', '续'][0]);
        assert(seq!['抛', '出'][0] != seq!['f', 'n'][0]);
        assert(seq!['抛', '出'][0] != seq!['函', '数'][0]);
        assert(seq!['抛', '出'][0] != seq!['返', '回'][0]);
        assert(seq!['抛', '出'][0] != seq!['并', '且'][0]);
        assert(seq!['抛', '出'][0] != seq!['o', 'r'][0]);
        assert(seq!['抛', '出'][0] != seq!['或', '者'][0]);
        assert(seq!['抛', '出'][0] != seq!['尝', '试'][0]);
        assert(seq!['抛', '出'][0] != seq!['捕', '获'][0]);
        assert(keyword_kind(seq!['抛', '出']) == Some(TokenKind::Out));
    }
    if i == 19 {
        assert(seq!['k', 'e', 'e', 'p'][0] != seq!['e', 'l', 's', 'e'][0]);
        assert(seq!['k', 'e', 'e', 'p'][0] != seq!['l', 'o', 'o', 'p'][0]);
        assert(seq!['k', 'e', 'e', 'p'][0] != seq!['t', 'r', 'u', 'e'][0]);
        assert(keyword_kind(seq!['k', 'e', 'e', 'p']) == Some(TokenKind::Keep));
        assert(seq!['始', '终'][0] != seq!['i', 'f'][0]);
        assert(seq!['始', '终'][0] != seq!['如', '果'][0]);
        assert(seq!['始', '终'][0] != seq!['否', '则'][0]);
        assert(seq!['始', '终'][0] != seq!['遍', '历'][0]);
        assert(seq!['始', '终'][0] != seq!['i', 'n'][0]);
        assert(seq!['始', '终'][0] != seq!['循', '环'][0]);
        assert(seq!['始', '终'][0] != seq!['跳', '出'][0]);
        assert(seq!['始', '终'][0] != seq!['继', '续'][0]);
        assert(seq!['始', '终'][0] != seq!['f', 'n'][0]);
        assert(seq!['始', '终'][0] != seq!['函', '数'][0]);
        assert(seq!['始', '终'][0] != seq!['返', '回'][0]);
        assert(seq!['始', '终'][0] != seq!['并', '且'][0]);
        assert(seq!['始', '终'][0] != seq!['o', 'r'][0]);
        assert(seq!['始', '终'][0] != seq!['或', '者'][0]);
        assert(seq!['始', '终'][0] != seq!['尝', '试'][0]);
        assert(seq!['始', '终'][0] != seq!['捕', '获'][0]);
        assert(seq!['始', '终'][0] != seq!['抛', '出'][0]);
        assert(keyword_kind(seq!['始', '终']) == Some(TokenKind::Keep));
    }
    if i == 20 {
        assert(seq!['m', 'a', 't', 'c', 'h'][0] != seq!['w', 'h', 'i', 'l', 'e'][0]);
        assert(seq!['m', 'a', 't', 'c', 'h'][0] != seq!['b', 'r', 'e', 'a', 'k'][0]);
        assert(seq!['m', 'a', 't', 'c', 'h'][0] != seq!['f', 'a', 'l', 's', 'e'][0]);
        assert(seq!['m', 'a', 't', 'c', 'h'][0] != seq!['c', 'a', 't', 'c', 'h'][0]);
        assert(keyword_kind(seq!['m', 'a', 't', 'c', 'h']) == Some(TokenKind::Match));
        assert(seq!['匹', '配'][0] != seq!['i', 'f'][0]);
        assert(seq!['匹', '配'][0] != seq!['如', '果'][0]);
        assert(seq!['匹', '配'][0] != seq!['否', '则'][0]);
        assert(seq!['匹', '配'][0] != seq!['遍', '历'][0]);
        assert(seq!['匹', '配'][0] != seq!['i', 'n'][0]);
        assert(seq!['匹', '配'][0] != seq!['循', '环'][0]);
        assert(seq!['匹', '配'][0] != seq!['跳', '出'][0]);
        assert(seq!['匹', '配'][0] != seq!['继', '续'][0]);
        assert(seq!['匹', '配'][0] != seq!['f', 'n'][0]);
        assert(seq!['匹', '配'][0] != seq!['函', '数'][0]);
        assert(seq!['匹', '配'][0] != seq!['返', '回'][0]);
        assert(seq!['匹', '配'][0] != seq!['并', '且'][0]);
        assert(seq!['匹', '配'][0] != seq!['o', 'r'][0]);
        assert(seq!['匹', '配'][0] != seq!['或', '者'][0]);
        assert(seq!['匹', '配'][0] != seq!['尝', '试'][0]);
        assert(seq!['匹', '配'][0] != seq!['捕', '获'][0]);
        assert(seq!['匹', '配'][0] != seq!['抛', '出'][0]);
        assert(seq!['匹', '配'][0] != seq!['始', '终'][0]);
        assert(keyword_kind(seq!['匹', '配']) == Some(TokenKind::Match));
    }
    if i == 21 {
        assert(seq!['i', 'm', 'p', 'o', 'r', 't'][0] != seq!['r', 'e', 't', 'u', 'r', 'n'][0]);
        assert(keyword_kind(seq!['i', 'm', 'p', 'o', 'r', 't']) == Some(TokenKind::Import));
        assert(seq!['导', '入'][0] != seq!['i', 'f'][0]);
        assert(seq!['导', '入'][0] != seq!['如', '果'][0]);
        assert(seq!['导', '入'][0] != seq!['否', '则'][0]);
        assert(seq!['导', '入'][0] != seq!['遍', '历'][0]);
        assert(seq!['导', '入'][0] != seq!['i', 'n'][0]);
        assert(seq!['导', '入'][0] != seq!['循', '环'][0]);
        assert(seq!['导', '入'][0] != seq!['跳', '出'][0]);
        assert(seq!['导', '入'][0] != seq!['继', '续'][0]);
        assert(seq!['导', '入'][0] != seq!['f', 'n'][0]);
        assert(seq!['导', '入'][0] != seq!['函', '数'][0]);
        assert(seq!['导', '入'][0] != seq!['返', '回'][0]);
        assert(seq!['导', '入'][0] != seq!['并', '且'][0]);
        assert(seq!['导', '入'][0] != seq!['o', 'r'][0]);
        assert(seq!['导', '入'][0] != seq!['或', '者'][0]);
        assert(seq!['导', '入'][0] != seq!['尝', '试'][0]);
        assert(seq!['导', '入'][0] != seq!['捕', '获'][0]);
        assert(seq!['导', '入'][0] != seq!['抛', '出'][0]);
        assert(seq!['导', '入'][0] != seq!['始', '终'][0]);
        assert(seq!['导', '入'][0] != seq!['匹', '配'][0]);
        assert(keyword_kind(seq!['导', '入']) == Some(TokenKind::Import));
    }
    if i == 22 {
        assert(seq!['l', 'a', 'z', 'y'][0] != seq!['e', 'l', 's', 'e'][0]);
        assert(seq!['l', 'a', 'z', 'y'][1] != seq!['l', 'o', 'o', 'p'][1]);
        assert(seq!['l', 'a', 'z', 'y'][0] != seq!['t', 'r', 'u', 'e'][0]);
        assert(seq!['l', 'a', 'z', 'y'][0] != seq!['k', 'e', 'e', 'p'][0]);
        assert(keyword_kind(seq!['l', 'a', 'z', 'y']) == Some(TokenKind::Lazy));
        assert(seq!['懒'][0] != seq!['当'][0]);
        assert(seq!['懒'][0] != seq!['在'][0]);
        assert(seq!['懒'][0] != seq!['真'][0]);
        assert(seq!['懒'][0] != seq!['假'][0]);
        assert(seq!['懒'][0] != seq!['空'][0]);
        assert(seq!['懒'][0] != seq!['非'][0]);
        assert(keyword_kind(seq!['懒']) == Some(TokenKind::Lazy));
    }
    if i == 23 {
        assert(seq!['a', 's'][0] != seq!['i', 'f'][0]);
        assert(seq!['a', 's'][0] != seq!['如', '果'][0]);
        assert(seq!['a', 's'][0] != seq!['否', '则'][0]);
        assert(seq!['a', 's'][0] != seq!['遍', '历'][0]);
        assert(seq!['a', 's'][0] != seq!['i', 'n'][0]);
        assert(seq!['a', 's'][0] != seq!['循', '环'][0]);
        assert(seq!['a', 's'][0] != seq!['跳', '出'][0]);
        assert(seq!['a', 's'][0] != seq!['继', '续'][0]);
        assert(seq!['a', 's'][0] != seq!['f', 'n'][0]);
        assert(seq!['a', 's'][0] != seq!['函', '数'][0]);
        assert(seq!['a', 's'][0] != seq!['返', '回'][0]);
        assert(seq!['a', 's'][0] != seq!['并', '且'][0]);
        assert(seq!['a', 's'][0] != seq!['o', 'r'][0]);
        assert(seq!['a', 's'][0] != seq!['或', '者'][0]);
        assert(seq!['a', 's'][0] != seq!['尝', '试'][0]);
        assert(seq!['a', 's'][0] != seq!['捕', '获'][0]);
        assert(seq!['a', 's'][0] != seq!['抛', '出'][0]);
        assert(seq!['a', 's'][0] != seq!['始', '终'][0]);
        assert(seq!['a', 's'][0] != seq!['匹', '配'][0]);
        assert(seq!['a', 's'][0] != seq!['导', '入'][0]);
        assert(keyword_kind(seq!['a', 's']) == Some(TokenKind::As));
        assert(seq!['作', '为'][0] != seq!['i', 'f'][0]);
        assert(seq!['作', '为'][0] != seq!['如', '果'][0]);
        assert(seq!['作', '为'][0] != seq!['否', '则'][0]);
        assert(seq!['作', '为'][0] != seq!['遍', '历'][0]);
        assert(seq!['作', '为'][0] != seq!['i', 'n'][0]);
        assert(seq!['作', '为'][0] != seq!['循', '环'][0]);
        assert(seq!['作', '为'][0] != seq!['跳', '出'][0]);
        assert(seq!['作', '为'][0] != seq!['继', '续'][0]);
        assert(seq!['作', '为'][0] != seq!['f', 'n'][0]);
        assert(seq!['作', '为'][0] != seq!['函', '数'][0]);
        assert(seq!['作', '为'][0] != seq!['返', '回'][0]);
        assert(seq!['作', '为'][0] != seq!['并', '且'][0]);
        assert(seq!['作', '为'][0] != seq!['o', 'r'][0]);
        assert(seq!['作', '为'][0] != seq!['或', '者'][0]);
        assert(seq!['作', '为'][0] != seq!['尝', '试'][0]);
        assert(seq!['作', '为'][0] != seq!['捕', '获'][0]);
        assert(seq!['作', '为'][0] != seq!['抛', '出'][0]);
        assert(seq!['作', '为'][0] != seq!['始', '终'][0]);
        assert(seq!['作', '为'][0] != seq!['匹', '配'][0]);
        assert(seq!['作', '为'][0] != seq!['导', '入'][0]);
        assert(seq!['作', '为'][0] != seq!['a', 's'][0]);
        assert(keyword_kind(seq!['作', '为']) == Some(TokenKind::As));
    }
}

} // verus!
