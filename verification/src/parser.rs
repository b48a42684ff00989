//! The parser: recursive descent from tokens to the syntax tree.
//!
//! Operator precedence, from loosest to tightest: assignment (a statement),
//! pipe `|>`, arrow functions `=>`, `or`, `??`, `and`, comparisons (chains
//! such as `a < b < c` are allowed), ranges, `+ -`, `* / % mod`, `**`
//! (right-associative), unary `- !`, then calls, indexing and fields.
//!
//! Parsing stops at the first error. Nesting of expressions and blocks is
//! limited to [`MAX_PARSER_DEPTH`] levels.

use vstd::prelude::*;
use crate::ast::{Span, Program, Stmt, AssignTarget, CatchClause, Expr, MatchPattern, MatchArm, BinaryOp, UnaryOp, ExprV, StmtV, AssignTargetV, CatchClauseV, MatchPatternV, MatchArmV, stmts_view, exprs_view, arms_view, pairs_view, opt_expr_view, names_view};
use crate::lexer::{Lexer, tokenize, tokens_view, byte_len, lemma_tokenize_shape, located_message, describe_located, push_char, push_str};
use crate::token::{Token, TokenKind, same_chars, chars_of, kind_text};

verus! {

/// A syntax error: what went wrong and where (1-based line and column).
#[derive(Debug)]
pub struct ParseError {
    /// What went wrong.
    pub message: String,
    /// The line (1-based).
    pub line: usize,
    /// The column (1-based).
    pub column: usize,
}

impl ParseError {
    /// The error as one line: `Parse error at LINE:COLUMN: MESSAGE`.
    pub fn describe(&self) -> (r: String)
        ensures
            r@ == located_message("Parse error at "@, self.line as nat, self.column as nat, self.message@),
    {
        describe_located("Parse error at ", self.line, self.column, self.message.as_str())
    }
}

/// How long each stage of [`Parser::parse_with_timing`] took.
#[derive(Debug, Clone, Copy)]
pub struct ParseTimings {
    /// Time spent turning the source into tokens.
    pub lex_duration: core::time::Duration,
    /// Time spent turning the tokens into the syntax tree.
    pub parse_duration: core::time::Duration,
}

#[verifier::external_type_specification]
#[verifier::external_body]
pub struct ExInstant(web_time::Instant);

/// Reads the clock (`web_time::Instant::now`). Nothing is claimed of the
/// instant returned: it depends on the time of the call.
#[verifier::external_body]
fn clock_now() -> (r: web_time::Instant) {
    web_time::Instant::now()
}

/// The time elapsed since `start` (`web_time::Instant::elapsed`). Nothing is
/// claimed of the duration returned: it depends on the time of the call.
#[verifier::external_body]
fn elapsed_since(start: &web_time::Instant) -> (r: core::time::Duration) {
    start.elapsed()
}

/// How deeply expressions and blocks may nest.
pub const MAX_PARSER_DEPTH: usize = 64;

/// The decimal digit character for a value below 10.
pub open spec fn digit_char(d: nat) -> char {
    (0x30 + d) as char
}

/// The decimal notation of `n`, without leading zeros.
pub open spec fn decimal(n: nat) -> Seq<char>
    decreases n,
{
    if n < 10 {
        seq![digit_char(n)]
    } else {
        decimal(n / 10).push(digit_char(n % 10))
    }
}

/// The decimal notation of `n`.
pub fn decimal_string(n: u64) -> (r: String)
    ensures
        r@ == decimal(n as nat),
    decreases n,
{
    let d = (n % 10) as u8;
    let ch = (0x30u8 + d) as char;
    if n < 10 {
        let mut s = String::new();
        push_char(&mut s, ch);
        proof {
            assert(s@ =~= seq![digit_char(n as nat)]);
        }
        s
    } else {
        let mut s = decimal_string(n / 10);
        push_char(&mut s, ch);
        s
    }
}

proof fn lemma_decimal_len(n: nat)
    ensures
        decimal(n).len() >= 1,
        n >= 10 ==> decimal(n).len() >= 2,
    decreases n,
{
    if n >= 10 {
        lemma_decimal_len(n / 10);
    }
}

/// Different numbers have different decimal notations.
pub proof fn lemma_decimal_injective(a: nat, b: nat)
    requires
        decimal(a) == decimal(b),
    ensures
        a == b,
    decreases a + b,
{
    lemma_decimal_len(a);
    lemma_decimal_len(b);
    if a >= 10 && b >= 10 {
        let da = decimal(a);
        let db = decimal(b);
        assert(da.last() == digit_char(a % 10));
        assert(db.last() == digit_char(b % 10));
        assert(a % 10 == b % 10);
        assert(da.drop_last() =~= decimal(a / 10));
        assert(db.drop_last() =~= decimal(b / 10));
        lemma_decimal_injective(a / 10, b / 10);
    } else if a < 10 && b < 10 {
        assert(decimal(a)[0] == digit_char(a));
        assert(decimal(b)[0] == digit_char(b));
    }
}

/// The temporaries of comparison chains are told apart by their number:
/// different numbers give different names, so each temporary the parser
/// makes (its counter only grows) has a name of its own.
pub proof fn lemma_tmp_names_distinct(a: nat, b: nat)
    requires
        a != b,
    ensures
        tmp_name(a) != tmp_name(b),
{
    let p = "__nuzo_cmp_"@;
    if tmp_name(a) == tmp_name(b) {
        assert(tmp_name(a).skip(p.len() as int) =~= decimal(a));
        assert(tmp_name(b).skip(p.len() as int) =~= decimal(b));
        lemma_decimal_injective(a, b);
    }
}

/// The name of the `n`-th temporary that holds an operand of a comparison chain.
pub open spec fn tmp_name(n: nat) -> Seq<char> {
    "__nuzo_cmp_"@ + decimal(n)
}

/// Whether `line` and `column` are where one of the tokens `t` starts.
pub open spec fn at_token(line: usize, column: usize, t: Seq<Token>) -> bool {
    exists|i: int| 0 <= i < t.len() && (#[trigger] t[i]).line == line && t[i].column == column
}

/// Whether a span points at one of the tokens `t`.
pub open spec fn span_on(s: Span, t: Seq<Token>) -> bool {
    at_token(s.line, s.column, t)
}

/// Whether every span in an expression points at one of the tokens `t`.
pub open spec fn expr_on(e: ExprV, t: Seq<Token>) -> bool
    decreases e,
{
    match e {
        ExprV::Number { span, .. } => span_on(span, t),
        ExprV::String { span, .. } => span_on(span, t),
        ExprV::Bool { span, .. } => span_on(span, t),
        ExprV::Nil { span } => span_on(span, t),
        ExprV::Ident { span, .. } => span_on(span, t),
        ExprV::Binary { left, right, span, .. } => span_on(span, t) && expr_on(*left, t) && expr_on(*right, t),
        ExprV::Unary { operand, span, .. } => span_on(span, t) && expr_on(*operand, t),
        ExprV::Call { callee, args, span } => span_on(span, t) && expr_on(*callee, t) && exprs_on(args, t),
        ExprV::Index { object, index, span } => span_on(span, t) && expr_on(*object, t) && expr_on(*index, t),
        ExprV::Field { object, span, .. } => span_on(span, t) && expr_on(*object, t),
        ExprV::If { condition, then_branch, else_branch, span } => span_on(span, t) && expr_on(*condition, t)
            && stmts_on(then_branch, t) && match else_branch {
            Some(b) => expr_on(*b, t),
            None => true,
        },
        ExprV::While { condition, body, span } => span_on(span, t) && expr_on(*condition, t) && stmts_on(body, t),
        ExprV::Loop { body, span } => span_on(span, t) && stmts_on(body, t),
        ExprV::ForIn { iterable, body, span, .. } => span_on(span, t) && expr_on(*iterable, t) && stmts_on(body, t),
        ExprV::Break { value, span } => span_on(span, t) && match value {
            Some(b) => expr_on(*b, t),
            None => true,
        },
        ExprV::Continue { span } => span_on(span, t),
        ExprV::Return { value, span } => span_on(span, t) && match value {
            Some(b) => expr_on(*b, t),
            None => true,
        },
        ExprV::Try { body, catch_clause, keep_block, span } => span_on(span, t) && stmts_on(body, t) && match catch_clause {
            Some(c) => catch_on(*c, t),
            None => true,
        } && match keep_block {
            Some(k) => stmts_on(k, t),
            None => true,
        },
        ExprV::Out { value, span } => span_on(span, t) && expr_on(*value, t),
        ExprV::Fn { body, span, .. } => span_on(span, t) && stmts_on(body, t),
        ExprV::Closure { body, span, .. } => span_on(span, t) && stmts_on(body, t),
        ExprV::Block { statements, span } => span_on(span, t) && stmts_on(statements, t),
        ExprV::Array { elements, span } => span_on(span, t) && exprs_on(elements, t),
        ExprV::Dict { pairs, span } => span_on(span, t) && pairs_on(pairs, t),
        ExprV::Tuple { elements, span } => span_on(span, t) && exprs_on(elements, t),
        ExprV::Range { start, end, span, .. } => span_on(span, t) && expr_on(*start, t) && expr_on(*end, t),
        ExprV::And { left, right, span } => span_on(span, t) && expr_on(*left, t) && expr_on(*right, t),
        ExprV::Or { left, right, span } => span_on(span, t) && expr_on(*left, t) && expr_on(*right, t),
        ExprV::NullCoalesce { left, right, span } => span_on(span, t) && expr_on(*left, t) && expr_on(*right, t),
        ExprV::Match { scrutinee, arms, span } => span_on(span, t) && expr_on(*scrutinee, t) && arms_on(arms, t),
    }
}

/// Whether every span in a list of expressions points at a token.
pub open spec fn exprs_on(s: Seq<ExprV>, t: Seq<Token>) -> bool
    decreases s,
{
    s.len() == 0 || (exprs_on(s.drop_last(), t) && expr_on(s[s.len() - 1], t))
}

/// Whether every span in a statement points at a token.
pub open spec fn stmt_on(st: StmtV, t: Seq<Token>) -> bool
    decreases st,
{
    match st {
        StmtV::Expr(e) => expr_on(e, t),
        StmtV::Assign { target, value, span } => span_on(span, t) && target_on(target, t) && expr_on(value, t),
        StmtV::Import { span, .. } => span_on(span, t),
    }
}

/// Whether every span in a list of statements points at a token.
pub open spec fn stmts_on(s: Seq<StmtV>, t: Seq<Token>) -> bool
    decreases s,
{
    s.len() == 0 || (stmts_on(s.drop_last(), t) && stmt_on(s[s.len() - 1], t))
}

/// Whether every span in an assignment target points at a token.
pub open spec fn target_on(a: AssignTargetV, t: Seq<Token>) -> bool
    decreases a,
{
    match a {
        AssignTargetV::Ident { .. } => true,
        AssignTargetV::Index { object, index } => expr_on(*object, t) && expr_on(*index, t),
        AssignTargetV::Field { object, .. } => expr_on(*object, t),
    }
}

/// Whether every span in a catch clause points at a token.
pub open spec fn catch_on(c: CatchClauseV, t: Seq<Token>) -> bool
    decreases c,
{
    stmts_on(c.body, t) && match c.exception_type {
        Some(b) => expr_on(*b, t),
        None => true,
    }
}

/// Whether every span in a match pattern points at a token.
pub open spec fn pattern_on(p: MatchPatternV, t: Seq<Token>) -> bool
    decreases p,
{
    match p {
        MatchPatternV::Literal(b) => expr_on(*b, t),
        MatchPatternV::Range { start, end, .. } => expr_on(*start, t) && expr_on(*end, t),
        MatchPatternV::Variable(_) => true,
        MatchPatternV::Wildcard => true,
    }
}

/// Whether every span in a list of match arms points at a token.
pub open spec fn arms_on(s: Seq<MatchArmV>, t: Seq<Token>) -> bool
    decreases s,
{
    s.len() == 0 || (arms_on(s.drop_last(), t) && pattern_on(s[s.len() - 1].pattern, t) && expr_on(
        s[s.len() - 1].body,
        t,
    ))
}

/// Whether every span in a list of dictionary entries points at a token.
pub open spec fn pairs_on(s: Seq<(Seq<char>, ExprV)>, t: Seq<Token>) -> bool
    decreases s,
{
    s.len() == 0 || (pairs_on(s.drop_last(), t) && expr_on(s[s.len() - 1].1, t))
}

proof fn lemma_exprs_view_push(s: Seq<Expr>, x: Expr)
    ensures
        exprs_view(s.push(x)) == exprs_view(s).push(x.view()),
{
    assert(s.push(x).drop_last() =~= s);
}

proof fn lemma_stmts_view_push(s: Seq<Stmt>, x: Stmt)
    ensures
        stmts_view(s.push(x)) == stmts_view(s).push(x.view()),
{
    assert(s.push(x).drop_last() =~= s);
}

proof fn lemma_arms_view_push(s: Seq<MatchArm>, x: MatchArm)
    ensures
        arms_view(s.push(x)) == arms_view(s).push(x.view()),
{
    assert(s.push(x).drop_last() =~= s);
}

proof fn lemma_pairs_view_push(s: Seq<(String, Expr)>, x: (String, Expr))
    ensures
        pairs_view(s.push(x)) == pairs_view(s).push((x.0@, x.1.view())),
{
    assert(s.push(x).drop_last() =~= s);
}

proof fn lemma_exprs_on_push(s: Seq<ExprV>, x: ExprV, t: Seq<Token>)
    ensures
        exprs_on(s.push(x), t) == (exprs_on(s, t) && expr_on(x, t)),
{
    assert(s.push(x).drop_last() =~= s);
}

proof fn lemma_stmts_on_push(s: Seq<StmtV>, x: StmtV, t: Seq<Token>)
    ensures
        stmts_on(s.push(x), t) == (stmts_on(s, t) && stmt_on(x, t)),
{
    assert(s.push(x).drop_last() =~= s);
}

proof fn lemma_arms_on_push(s: Seq<MatchArmV>, x: MatchArmV, t: Seq<Token>)
    ensures
        arms_on(s.push(x), t) == (arms_on(s, t) && pattern_on(x.pattern, t) && expr_on(x.body, t)),
{
    assert(s.push(x).drop_last() =~= s);
}

proof fn lemma_pairs_on_push(s: Seq<(Seq<char>, ExprV)>, x: (Seq<char>, ExprV), t: Seq<Token>)
    ensures
        pairs_on(s.push(x), t) == (pairs_on(s, t) && expr_on(x.1, t)),
{
    assert(s.push(x).drop_last() =~= s);
}

proof fn lemma_exprs_view_prepend(x: Expr, s: Seq<Expr>)
    ensures
        exprs_view(seq![x] + s) == seq![x.view()] + exprs_view(s),
    decreases s.len(),
{
    if s.len() == 0 {
        assert(seq![x] + s =~= seq![x]);
        assert(seq![x].drop_last() =~= s);
        assert(seq![x.view()] + exprs_view(s) =~= seq![x.view()]);
    } else {
        lemma_exprs_view_prepend(x, s.drop_last());
        assert((seq![x] + s).drop_last() =~= seq![x] + s.drop_last());
        assert(seq![x.view()] + exprs_view(s) =~= (seq![x.view()] + exprs_view(s.drop_last())).push(
            s[s.len() - 1].view(),
        ));
    }
}

proof fn lemma_exprs_on_prepend(x: ExprV, s: Seq<ExprV>, t: Seq<Token>)
    ensures
        exprs_on(seq![x] + s, t) == (expr_on(x, t) && exprs_on(s, t)),
    decreases s.len(),
{
    if s.len() == 0 {
        assert((seq![x] + s).drop_last() =~= s);
    } else {
        lemma_exprs_on_prepend(x, s.drop_last(), t);
        assert((seq![x] + s).drop_last() =~= seq![x] + s.drop_last());
    }
}

/// Appends an expression to a list.
fn push_expr(v: &mut Vec<Expr>, e: Expr)
    ensures
        final(v)@ == old(v)@.push(e),
        exprs_view(final(v)@) == exprs_view(old(v)@).push(e.view()),
        forall|t: Seq<Token>|
            #[trigger] exprs_on(exprs_view(final(v)@), t) == (exprs_on(exprs_view(old(v)@), t) && expr_on(e.view(), t)),
{
    let ghost before = v@;
    let ghost ee = e;
    v.push(e);
    proof {
        assert(v@ == before.push(ee));
        lemma_exprs_view_push(before, ee);
        assert forall|t: Seq<Token>|
            #[trigger] exprs_on(exprs_view(v@), t) == (exprs_on(exprs_view(before), t) && expr_on(ee.view(), t)) by {
            lemma_exprs_on_push(exprs_view(before), ee.view(), t);
        }
    }
}

/// Appends a statement to a list.
fn push_stmt(v: &mut Vec<Stmt>, st: Stmt)
    ensures
        final(v)@ == old(v)@.push(st),
        stmts_view(final(v)@) == stmts_view(old(v)@).push(st.view()),
        forall|t: Seq<Token>|
            #[trigger] stmts_on(stmts_view(final(v)@), t) == (stmts_on(stmts_view(old(v)@), t) && stmt_on(st.view(), t)),
{
    let ghost before = v@;
    let ghost ee = st;
    v.push(st);
    proof {
        assert(v@ == before.push(ee));
        lemma_stmts_view_push(before, ee);
        assert forall|t: Seq<Token>|
            #[trigger] stmts_on(stmts_view(v@), t) == (stmts_on(stmts_view(before), t) && stmt_on(ee.view(), t)) by {
            lemma_stmts_on_push(stmts_view(before), ee.view(), t);
        }
    }
}

/// Appends a match arm to a list.
fn push_arm(v: &mut Vec<MatchArm>, a: MatchArm)
    ensures
        final(v)@ == old(v)@.push(a),
        arms_view(final(v)@) == arms_view(old(v)@).push(a.view()),
        forall|t: Seq<Token>|
            #[trigger] arms_on(arms_view(final(v)@), t) == (arms_on(arms_view(old(v)@), t) && pattern_on(
                a.view().pattern,
                t,
            ) && expr_on(a.view().body, t)),
{
    let ghost before = v@;
    let ghost ee = a;
    v.push(a);
    proof {
        assert(v@ == before.push(ee));
        lemma_arms_view_push(before, ee);
        assert forall|t: Seq<Token>|
            #[trigger] arms_on(arms_view(v@), t) == (arms_on(arms_view(before), t) && pattern_on(ee.view().pattern, t)
                && expr_on(ee.view().body, t)) by {
            lemma_arms_on_push(arms_view(before), ee.view(), t);
        }
    }
}

/// Appends a dictionary entry to a list.
fn push_pair(v: &mut Vec<(String, Expr)>, key: String, value: Expr)
    ensures
        final(v)@ == old(v)@.push((key, value)),
        pairs_view(final(v)@) == pairs_view(old(v)@).push((key@, value.view())),
        forall|t: Seq<Token>|
            #[trigger] pairs_on(pairs_view(final(v)@), t) == (pairs_on(pairs_view(old(v)@), t) && expr_on(value.view(), t)),
{
    let ghost before = v@;
    let ghost kk = key;
    let ghost ee = value;
    v.push((key, value));
    proof {
        assert(v@ == before.push((kk, ee)));
        lemma_pairs_view_push(before, (kk, ee));
        assert forall|t: Seq<Token>|
            #[trigger] pairs_on(pairs_view(v@), t) == (pairs_on(pairs_view(before), t) && expr_on(ee.view(), t)) by {
            lemma_pairs_on_push(pairs_view(before), (kk@, ee.view()), t);
        }
    }
}

/// Whether `line` and `column` are where one of the tokens read from a
/// source starts.
pub open spec fn at_source_token(line: usize, column: usize, w: Seq<(Token, Seq<char>)>) -> bool {
    exists|i: int| 0 <= i < w.len() && (#[trigger] w[i]).0.line == line && w[i].0.column == column
}

/// What `import` at index `i` of the tokens `t` (with texts `x`) reads:
/// `Ok` with the import statement and the index after it, or `Err` with the
/// message and the index of the token the error points at. The path is a
/// string or a name; `as` and a name may follow.
pub open spec fn import_at(t: Seq<Token>, x: Seq<Seq<char>>, i: int, lazy: bool) -> Result<(StmtV, int), (Seq<char>, int)> {
    let span = Span { line: t[i].line, column: t[i].column };
    let p = i + 1;
    if t[p].kind == TokenKind::Eof {
        Err(("unexpected EOF after import"@, p))
    } else if t[p].kind == TokenKind::String || t[p].kind == TokenKind::Ident {
        if t[p + 1].kind == TokenKind::As {
            if t[p + 2].kind == TokenKind::Ident {
                Ok((StmtV::Import { path: x[p], lazy, alias: Some(x[p + 2]), span }, p + 3))
            } else {
                Err(("expected identifier after as"@, p + 2))
            }
        } else {
            Ok((StmtV::Import { path: x[p], lazy, alias: None, span }, p + 1))
        }
    } else {
        Err(("expected string literal or identifier after import"@, p))
    }
}

/// What `lazy` at index `i` reads: `lazy import ...` is a lazy import.
pub open spec fn lazy_import_at(t: Seq<Token>, x: Seq<Seq<char>>, i: int) -> Result<(StmtV, int), (Seq<char>, int)> {
    if t[i + 1].kind == TokenKind::Import {
        import_at(t, x, i + 1, true)
    } else {
        Err(("expected import after lazy"@, i + 1))
    }
}

/// The import a declaration at index `i` reads, if it starts with `import`
/// or `lazy`.
pub open spec fn declaration_import_at(t: Seq<Token>, x: Seq<Seq<char>>, i: int) -> Option<Result<(StmtV, int), (Seq<char>, int)>> {
    if t[i].kind == TokenKind::Import {
        Some(import_at(t, x, i, false))
    } else if t[i].kind == TokenKind::Lazy {
        Some(lazy_import_at(t, x, i))
    } else {
        None
    }
}

/// Whether `r`, read from the parser `p0` leaving the parser `p1`, is the
/// outcome `o`: the statement with the parser after it, or the error at the
/// token it names.
pub open spec fn import_outcome(r: Result<Stmt, ParseError>, o: Result<(StmtV, int), (Seq<char>, int)>, t: Seq<Token>, end: int) -> bool {
    match o {
        Ok((st, n)) => r matches Ok(s2) && s2.view() == st && end == n,
        Err((m, k)) => r matches Err(e) && e.message@ == m && e.line == t[k].line && e.column == t[k].column,
    }
}

/// The texts of the tokens read from a source.
pub open spec fn source_texts(w: Seq<(Token, Seq<char>)>) -> Seq<Seq<char>> {
    w.map_values(|p: (Token, Seq<char>)| p.1)
}

/// The message of an expression nested too deeply.
pub open spec fn expression_nesting_message() -> Seq<char> {
    "expression nesting exceeds limit (64) — possible stack overflow protection"@
}

/// Whether the `m` tokens of `t` from index `i` are all `(`, and the token
/// after them is neither `)` nor a name (so no arrow function's parameter
/// list starts there).
pub open spec fn deep_parens(t: Seq<Token>, i: int, m: int) -> bool {
    &&& 0 <= i && 0 <= m && i + m < t.len()
    &&& forall|k: int| i <= k < i + m ==> #[trigger] t[k].kind == TokenKind::LParen
    &&& t[i + m].kind != TokenKind::RParen && t[i + m].kind != TokenKind::Ident
}

/// Whether a token kind is a one-token operand: a number, a string, a
/// name, `true`, `false` or `nil`.
pub open spec fn leaf_kind(k: TokenKind) -> bool {
    k == TokenKind::Number || k == TokenKind::String || k == TokenKind::Ident || k == TokenKind::True
        || k == TokenKind::False || k == TokenKind::Nil
}

/// Whether a token kind continues an operand as a call, an index or a field.
pub open spec fn postfix_kind(k: TokenKind) -> bool {
    k == TokenKind::LParen || k == TokenKind::LBracket || k == TokenKind::Dot
}

/// The span of the token at index `i`.
pub open spec fn token_span(t: Seq<Token>, i: int) -> Span {
    Span { line: t[i].line, column: t[i].column }
}

/// The expression a one-token operand at index `i` stands for.
pub open spec fn leaf_view(t: Seq<Token>, x: Seq<Seq<char>>, i: int) -> ExprV {
    let sp = token_span(t, i);
    match t[i].kind {
        TokenKind::Number => ExprV::Number { value: x[i], span: sp },
        TokenKind::String => ExprV::String { value: x[i], span: sp },
        TokenKind::Ident => ExprV::Ident { name: x[i], span: sp },
        TokenKind::True => ExprV::Bool { value: true, span: sp },
        TokenKind::False => ExprV::Bool { value: false, span: sp },
        _ => ExprV::Nil { span: sp },
    }
}

/// Whether a token kind, standing right after an operand, ends that operand
/// for every precedence level below `level`: 0 is a postfix expression, 1 a
/// power, 2 a product, 3 a sum, 4 a range, 5 a comparison. (A name after an
/// operand is left out from level 2 on, as `mod` is written as a name.)
pub open spec fn ends_operand(k: TokenKind, level: int) -> bool {
    &&& !postfix_kind(k)
    &&& (level >= 1 ==> k != TokenKind::StarStar)
    &&& (level >= 2 ==> k != TokenKind::Star && k != TokenKind::Slash && k != TokenKind::Percent && k != TokenKind::Ident)
    &&& (level >= 3 ==> k != TokenKind::Plus && k != TokenKind::Minus)
    &&& (level >= 4 ==> k != TokenKind::DotDot && k != TokenKind::DotDotLt)
    &&& (level >= 5 ==> comparison_op_of(k) is None)
}

/// Whether the token at index `i` is a one-token operand that the token
/// after it ends for every level below `level` (see [`ends_operand`]).
pub open spec fn leaf_operand(t: Seq<Token>, i: int, level: int) -> bool {
    0 <= i && i + 1 < t.len() && leaf_kind(t[i].kind) && ends_operand(t[i + 1].kind, level)
}

/// The additive operator of a token.
pub open spec fn add_op_of(k: TokenKind) -> Option<BinaryOp> {
    match k {
        TokenKind::Plus => Some(BinaryOp::Add),
        TokenKind::Minus => Some(BinaryOp::Sub),
        _ => None,
    }
}

/// Whether a token kind may stand right after a whole expression: the end
/// of input, `)`, `,`, `;`, `]`, `}` or `{`.
pub open spec fn ends_expression(k: TokenKind) -> bool {
    k == TokenKind::Eof || k == TokenKind::RParen || k == TokenKind::Comma || k == TokenKind::Semicolon
        || k == TokenKind::RBracket || k == TokenKind::RBrace || k == TokenKind::LBrace
}

/// The multiplicative operator of a token (`mod`, a name, is left out).
pub open spec fn mul_op_of(k: TokenKind) -> Option<BinaryOp> {
    match k {
        TokenKind::Star => Some(BinaryOp::Mul),
        TokenKind::Slash => Some(BinaryOp::Div),
        TokenKind::Percent => Some(BinaryOp::Mod),
        _ => None,
    }
}

// The arithmetic and comparison expressions over one-token operands. Each
// function below reads from index `i`, with
// the parser at nesting depth `d` and `m` temporaries made so far, and gives
// the expression, the index after it and the number of temporaries made by
// then; `None` where the tokens leave this part of the grammar.

/// An operand: a one-token operand.
pub open spec fn frag_atom(t: Seq<Token>, x: Seq<Seq<char>>, i: int, d: int, m: nat) -> Option<(ExprV, int, nat)> {
    if 0 <= i < t.len() && leaf_kind(t[i].kind) {
        Some((leaf_view(t, x, i), i + 1, m))
    } else {
        None
    }
}

/// A unary expression: `-` or `!` (also `not`) applied to the unary
/// expression after it, the node spanning the operator; else an operand not
/// followed by a call, an index or a field access.
pub open spec fn frag_unary(t: Seq<Token>, x: Seq<Seq<char>>, i: int, d: int, m: nat) -> Option<(ExprV, int, nat)>
    decreases t.len() - i,
{
    if !(0 <= i < t.len()) {
        None
    } else if t[i].kind == TokenKind::Minus || t[i].kind == TokenKind::Bang {
        match frag_unary(t, x, i + 1, d, m) {
            Some((e, j, m1)) => Some(
                (
                    ExprV::Unary {
                        op: if t[i].kind == TokenKind::Minus { UnaryOp::Negate } else { UnaryOp::Not },
                        operand: Box::new(e),
                        span: token_span(t, i),
                    },
                    j,
                    m1,
                ),
            ),
            None => None,
        }
    } else {
        match frag_atom(t, x, i, d, m) {
            Some((a, j, m1)) => if i < j < t.len() && !postfix_kind(t[j].kind) {
                Some((a, j, m1))
            } else {
                None
            },
            None => None,
        }
    }
}

/// A power: a unary expression (see [`frag_unary`]), and where `**`
/// follows it, that expression raised to the power read after `**` (so
/// `a ** b ** c` is `a ** (b ** c)`); the node spans the token after `**`.
pub open spec fn frag_factor(t: Seq<Token>, x: Seq<Seq<char>>, i: int, d: int, m: nat) -> Option<(ExprV, int, nat)>
    decreases t.len() - i, 1int,
{
    match frag_unary(t, x, i, d, m) {
        Some((a, j, m1)) => if i < j < t.len() {
            if t[j].kind == TokenKind::StarStar {
                match frag_factor(t, x, j + 1, d, m1) {
                    Some((b, k, m2)) => Some(
                        (
                            ExprV::Binary { left: Box::new(a), op: BinaryOp::Pow, right: Box::new(b), span: token_span(t, j + 1) },
                            k,
                            m2,
                        ),
                    ),
                    None => None,
                }
            } else {
                Some((a, j, m1))
            }
        } else {
            None
        },
        None => None,
    }
}

/// A product continued from index `i`, `acc` standing before: each `*`, `/`
/// or `%` and the operand after it make a binary node on the left, spanning
/// the operator.
pub open spec fn product_from(t: Seq<Token>, x: Seq<Seq<char>>, i: int, d: int, m: nat, acc: ExprV) -> Option<
    (ExprV, int, nat),
>
    decreases t.len() - i, 2int,
{
    if !(0 <= i < t.len()) || t[i].kind == TokenKind::Ident {
        None
    } else {
        match mul_op_of(t[i].kind) {
            None => Some((acc, i, m)),
            Some(op) => match frag_factor(t, x, i + 1, d, m) {
                Some((b, j, m1)) => if i < j < t.len() {
                    product_from(
                        t,
                        x,
                        j,
                        d,
                        m1,
                        ExprV::Binary { left: Box::new(acc), op, right: Box::new(b), span: token_span(t, i) },
                    )
                } else {
                    None
                },
                None => None,
            },
        }
    }
}

/// A product of operands.
pub open spec fn frag_product(t: Seq<Token>, x: Seq<Seq<char>>, i: int, d: int, m: nat) -> Option<(ExprV, int, nat)>
    decreases t.len() - i, 3int,
{
    match frag_factor(t, x, i, d, m) {
        Some((a, j, m1)) => if i < j < t.len() {
            product_from(t, x, j, d, m1, a)
        } else {
            None
        },
        None => None,
    }
}

/// A sum continued from index `i`, `acc` standing before: each `+` or `-`
/// and the product after it make a binary node on the left, spanning the
/// operator.
pub open spec fn sum_from(t: Seq<Token>, x: Seq<Seq<char>>, i: int, d: int, m: nat, acc: ExprV) -> Option<
    (ExprV, int, nat),
>
    decreases t.len() - i, 4int,
{
    if !(0 <= i < t.len()) {
        None
    } else {
        match add_op_of(t[i].kind) {
            None => Some((acc, i, m)),
            Some(op) => match frag_product(t, x, i + 1, d, m) {
                Some((b, j, m1)) => if i < j < t.len() {
                    sum_from(
                        t,
                        x,
                        j,
                        d,
                        m1,
                        ExprV::Binary { left: Box::new(acc), op, right: Box::new(b), span: token_span(t, i) },
                    )
                } else {
                    None
                },
                None => None,
            },
        }
    }
}

/// A sum of products.
pub open spec fn frag_sum(t: Seq<Token>, x: Seq<Seq<char>>, i: int, d: int, m: nat) -> Option<(ExprV, int, nat)>
    decreases t.len() - i, 5int,
{
    match frag_product(t, x, i, d, m) {
        Some((a, j, m1)) => if i < j < t.len() {
            sum_from(t, x, j, d, m1, a)
        } else {
            None
        },
        None => None,
    }
}

/// A range continued from index `i`, `acc` standing before: each `..`
/// (inclusive) or `..<` (exclusive) and the sum after it make a range node
/// on the left, spanning the token after the operator.
pub open spec fn range_from(t: Seq<Token>, x: Seq<Seq<char>>, i: int, d: int, m: nat, acc: ExprV) -> Option<
    (ExprV, int, nat),
>
    decreases t.len() - i, 6int,
{
    if !(0 <= i < t.len()) {
        None
    } else if t[i].kind == TokenKind::DotDot || t[i].kind == TokenKind::DotDotLt {
        match frag_sum(t, x, i + 1, d, m) {
            Some((b, j, m1)) => if i < j < t.len() {
                range_from(
                    t,
                    x,
                    j,
                    d,
                    m1,
                    ExprV::Range {
                        start: Box::new(acc),
                        end: Box::new(b),
                        inclusive: t[i].kind == TokenKind::DotDot,
                        span: token_span(t, i + 1),
                    },
                )
            } else {
                None
            },
            None => None,
        }
    } else {
        Some((acc, i, m))
    }
}

/// A sum, or a range of sums.
pub open spec fn frag_range(t: Seq<Token>, x: Seq<Seq<char>>, i: int, d: int, m: nat) -> Option<(ExprV, int, nat)>
    decreases t.len() - i, 7int,
{
    match frag_sum(t, x, i, d, m) {
        Some((a, j, m1)) => if i < j < t.len() {
            range_from(t, x, j, d, m1, a)
        } else {
            None
        },
        None => None,
    }
}

/// A chain of comparisons continued from index `i`, with the operands `ov`
/// and operators `ops` read so far: the operands, the operators, the index
/// after the chain and the temporaries made by then.
pub open spec fn chain_from(
    t: Seq<Token>,
    x: Seq<Seq<char>>,
    i: int,
    d: int,
    m: nat,
    ov: Seq<ExprV>,
    ops: Seq<BinaryOp>,
) -> Option<(Seq<ExprV>, Seq<BinaryOp>, int, nat)>
    decreases t.len() - i, 7int,
{
    if !(0 <= i < t.len()) {
        None
    } else {
        match comparison_op_of(t[i].kind) {
            None => Some((ov, ops, i, m)),
            Some(op) => match frag_range(t, x, i + 1, d, m) {
                Some((b, j, m1)) => if i < j < t.len() {
                    chain_from(t, x, j, d, m1, ov.push(b), ops.push(op))
                } else {
                    None
                },
                None => None,
            },
        }
    }
}

/// A comparison, or a chain of them (see [`comparison_view`]); a chain of
/// two or more makes one temporary for each middle operand, once all the
/// operands are read. Its span is that of the token after it.
#[verifier::opaque]
pub open spec fn frag_comparison(t: Seq<Token>, x: Seq<Seq<char>>, i: int, d: int, m: nat) -> Option<(ExprV, int, nat)>
    decreases t.len() - i, 8int,
{
    match frag_range(t, x, i, d, m) {
        Some((a, j, m1)) => if i < j < t.len() {
            match chain_from(t, x, j, d, m1, seq![a], Seq::empty()) {
                Some((ov, ops, n, m2)) => if 0 <= n < t.len() {
                    Some(
                        (
                            comparison_view(ov, ops, m2, token_span(t, n)),
                            n,
                            if ops.len() >= 2 { (m2 + ops.len() - 1) as nat } else { m2 },
                        ),
                    )
                } else {
                    None
                },
                None => None,
            }
        } else {
            None
        },
        None => None,
    }
}

/// A comparison standing as a whole expression: followed by a token that
/// may end one (see [`ends_expression`]).
pub open spec fn frag_body(t: Seq<Token>, x: Seq<Seq<char>>, i: int, d: int, m: nat) -> Option<(ExprV, int, nat)>
    decreases t.len() - i, 9int,
{
    match frag_comparison(t, x, i, d, m) {
        Some((e, j, m1)) => if i < j < t.len() && ends_expression(t[j].kind) {
            Some((e, j, m1))
        } else {
            None
        },
        None => None,
    }
}

/// Whether a token kind is the logical AND operator (`and`, `&&`).
pub open spec fn and_kind(k: TokenKind) -> bool {
    k == TokenKind::And || k == TokenKind::AndAnd
}

/// Whether a token kind is the logical OR operator (`or`, `||`).
pub open spec fn or_kind(k: TokenKind) -> bool {
    k == TokenKind::Or || k == TokenKind::OrOr
}

/// A conjunction continued from index `i`, `acc` standing before: each AND
/// operator and the comparison after it make an AND node on the left,
/// spanning the token after the operator.
pub open spec fn and_from(t: Seq<Token>, x: Seq<Seq<char>>, i: int, d: int, m: nat, acc: ExprV) -> Option<(ExprV, int, nat)>
    decreases t.len() - i,
{
    if !(0 <= i < t.len()) {
        None
    } else if and_kind(t[i].kind) {
        match frag_comparison(t, x, i + 1, d, m) {
            Some((b, j, m1)) => if i < j < t.len() {
                and_from(t, x, j, d, m1, ExprV::And { left: Box::new(acc), right: Box::new(b), span: token_span(t, i + 1) })
            } else {
                None
            },
            None => None,
        }
    } else {
        Some((acc, i, m))
    }
}

/// A conjunction of comparisons.
pub open spec fn frag_and(t: Seq<Token>, x: Seq<Seq<char>>, i: int, d: int, m: nat) -> Option<(ExprV, int, nat)> {
    match frag_comparison(t, x, i, d, m) {
        Some((a, j, m1)) => if i < j < t.len() {
            and_from(t, x, j, d, m1, a)
        } else {
            None
        },
        None => None,
    }
}

/// A chain of `??` continued from index `i`, `acc` standing before: each
/// `??` and the conjunction after it make a node on the left, spanning the
/// token after the operator.
pub open spec fn coalesce_from(t: Seq<Token>, x: Seq<Seq<char>>, i: int, d: int, m: nat, acc: ExprV) -> Option<
    (ExprV, int, nat),
>
    decreases t.len() - i,
{
    if !(0 <= i < t.len()) {
        None
    } else if t[i].kind == TokenKind::QuestionQuestion {
        match frag_and(t, x, i + 1, d, m) {
            Some((b, j, m1)) => if i < j < t.len() {
                coalesce_from(
                    t,
                    x,
                    j,
                    d,
                    m1,
                    ExprV::NullCoalesce { left: Box::new(acc), right: Box::new(b), span: token_span(t, i + 1) },
                )
            } else {
                None
            },
            None => None,
        }
    } else {
        Some((acc, i, m))
    }
}

/// A chain of `??` over conjunctions.
pub open spec fn frag_coalesce(t: Seq<Token>, x: Seq<Seq<char>>, i: int, d: int, m: nat) -> Option<(ExprV, int, nat)> {
    match frag_and(t, x, i, d, m) {
        Some((a, j, m1)) => if i < j < t.len() {
            coalesce_from(t, x, j, d, m1, a)
        } else {
            None
        },
        None => None,
    }
}

/// A disjunction continued from index `i`, `acc` standing before: each OR
/// operator and the `??` chain after it make an OR node on the left,
/// spanning the token after the operator.
pub open spec fn or_from(t: Seq<Token>, x: Seq<Seq<char>>, i: int, d: int, m: nat, acc: ExprV) -> Option<(ExprV, int, nat)>
    decreases t.len() - i,
{
    if !(0 <= i < t.len()) {
        None
    } else if or_kind(t[i].kind) {
        match frag_coalesce(t, x, i + 1, d, m) {
            Some((b, j, m1)) => if i < j < t.len() {
                or_from(t, x, j, d, m1, ExprV::Or { left: Box::new(acc), right: Box::new(b), span: token_span(t, i + 1) })
            } else {
                None
            },
            None => None,
        }
    } else {
        Some((acc, i, m))
    }
}

/// A disjunction of `??` chains.
pub open spec fn frag_or(t: Seq<Token>, x: Seq<Seq<char>>, i: int, d: int, m: nat) -> Option<(ExprV, int, nat)> {
    match frag_coalesce(t, x, i, d, m) {
        Some((a, j, m1)) => if i < j < t.len() {
            or_from(t, x, j, d, m1, a)
        } else {
            None
        },
        None => None,
    }
}

/// A logical expression standing as a whole expression: followed by a token
/// that may end one (see [`ends_expression`]).
pub open spec fn frag_logic_body(t: Seq<Token>, x: Seq<Seq<char>>, i: int, d: int, m: nat) -> Option<(ExprV, int, nat)> {
    match frag_or(t, x, i, d, m) {
        Some((e, j, m1)) => if i < j < t.len() && ends_expression(t[j].kind) {
            Some((e, j, m1))
        } else {
            None
        },
        None => None,
    }
}

/// A logical expression read one level deeper than `d`: `None` at the
/// nesting limit.
pub open spec fn frag_logic(t: Seq<Token>, x: Seq<Seq<char>>, i: int, d: int, m: nat) -> Option<(ExprV, int, nat)> {
    if d >= 64 {
        None
    } else {
        frag_logic_body(t, x, i, d + 1, m)
    }
}

/// A comparison starts with a one-token operand, `-` or `!`.
proof fn lemma_comparison_start(t: Seq<Token>, x: Seq<Seq<char>>, i: int, d: int, m: nat)
    ensures
        frag_comparison(t, x, i, d, m) is Some ==> 0 <= i < t.len() && (leaf_kind(t[i].kind) || t[i].kind == TokenKind::Minus
            || t[i].kind == TokenKind::Bang),
{
    reveal(frag_comparison);
}

/// A name followed by `=>` is no whole expression and no assignment target:
/// it opens an arrow function.
proof fn lemma_name_before_arrow(t: Seq<Token>, x: Seq<Seq<char>>, i: int, d: int, m: nat)
    requires
        0 <= i,
        i + 1 < t.len(),
        t[i].kind == TokenKind::Ident,
        t[i + 1].kind == TokenKind::Arrow,
    ensures
        frag_body(t, x, i, d, m) is None,
        frag_target(t, x, i, d, m) is None,
        frag_logic_body(t, x, i, d, m) is None,
{
    reveal(frag_comparison);
    let a = leaf_view(t, x, i);
    assert(frag_factor(t, x, i, d, m) == Some((a, i + 1, m)));
    assert(frag_product(t, x, i, d, m) == Some((a, i + 1, m)));
    assert(frag_sum(t, x, i, d, m) == Some((a, i + 1, m)));
    assert(frag_range(t, x, i, d, m) == Some((a, i + 1, m)));
    let ov = seq![a];
    assert(chain_from(t, x, i + 1, d, m, ov, Seq::empty()) == Some((ov, Seq::<BinaryOp>::empty(), i + 1, m)));
    assert(comparison_view(ov, Seq::empty(), m, token_span(t, i + 1)) == a);
    assert(frag_comparison(t, x, i, d, m) == Some((a, i + 1, m)));
    assert(frag_and(t, x, i, d, m) == Some((a, i + 1, m)));
    assert(frag_coalesce(t, x, i, d, m) == Some((a, i + 1, m)));
    assert(frag_or(t, x, i, d, m) == Some((a, i + 1, m)));
}

/// A comparison standing as the target of an assignment: followed by `=`
/// or a compound assignment operator.
pub open spec fn frag_target(t: Seq<Token>, x: Seq<Seq<char>>, i: int, d: int, m: nat) -> Option<(ExprV, int, nat)> {
    match frag_comparison(t, x, i, d, m) {
        Some((e, j, m1)) => if i < j < t.len() && (t[j].kind == TokenKind::Eq || compound_op(t[j].kind) is Some) {
            Some((e, j, m1))
        } else {
            None
        },
        None => None,
    }
}

/// An assignment target read one level deeper than `d`: `None` at the
/// nesting limit.
pub open spec fn frag_target_expr(t: Seq<Token>, x: Seq<Seq<char>>, i: int, d: int, m: nat) -> Option<(ExprV, int, nat)> {
    if d >= 64 {
        None
    } else {
        frag_target(t, x, i, d + 1, m)
    }
}

/// An expression read one level deeper than `d`: `None` at the nesting
/// limit.
pub open spec fn frag_expr(t: Seq<Token>, x: Seq<Seq<char>>, i: int, d: int, m: nat) -> Option<(ExprV, int, nat)>
    decreases t.len() - i, 10int,
{
    if d >= 64 {
        None
    } else {
        frag_body(t, x, i, d + 1, m)
    }
}

/// The arguments of a call continued from index `i`, `acc` read so far:
/// each a whole expression (see [`frag_expr`]), separated by commas, in the
/// order they are written. The arguments, the index of the token after the
/// last one and the temporaries made by then.
pub open spec fn args_from(t: Seq<Token>, x: Seq<Seq<char>>, i: int, d: int, m: nat, acc: Seq<ExprV>) -> Option<
    (Seq<ExprV>, int, nat),
>
    decreases t.len() - i,
{
    match frag_expr(t, x, i, d, m) {
        Some((e, j, m1)) => if i < j < t.len() {
            if t[j].kind == TokenKind::Comma {
                args_from(t, x, j + 1, d, m1, acc.push(e))
            } else {
                Some((acc.push(e), j, m1))
            }
        } else {
            None
        },
        None => None,
    }
}

/// The arguments of a call whose `(` comes right before index `i`: none
/// where `)` follows at once, else those of [`args_from`].
pub open spec fn call_args(t: Seq<Token>, x: Seq<Seq<char>>, i: int, d: int, m: nat) -> Option<(Seq<ExprV>, int, nat)> {
    if 0 <= i < t.len() && t[i].kind == TokenKind::RParen {
        Some((Seq::empty(), i, m))
    } else {
        args_from(t, x, i, d, m, Seq::empty())
    }
}

/// The index of the first token from `j` on that is not `;`.
pub open spec fn semis_end(t: Seq<Token>, j: int) -> int
    decreases t.len() - j,
{
    if 0 <= j < t.len() && t[j].kind == TokenKind::Semicolon {
        semis_end(t, j + 1)
    } else {
        j
    }
}

/// The statements of a block continued from index `i`, `acc` read so far,
/// with the parser at depth `d` inside the block: expression statements
/// (see [`frag_expr`]), each followed by any number of `;`, up to the
/// closing `}`. The statements, the index after the `}` and the temporaries
/// made by then.
pub open spec fn block_from(t: Seq<Token>, x: Seq<Seq<char>>, i: int, d: int, m: nat, acc: Seq<StmtV>) -> Option<
    (Seq<StmtV>, int, nat),
>
    decreases t.len() - i,
{
    if !(0 <= i < t.len()) {
        None
    } else if t[i].kind == TokenKind::RBrace {
        Some((acc, i + 1, m))
    } else {
        match frag_expr(t, x, i, d, m) {
            Some((e, j, m1)) => if i < j && j <= semis_end(t, j) <= t.len() {
                block_from(t, x, semis_end(t, j), d, m1, acc.push(StmtV::Expr(e)))
            } else {
                None
            },
            None => None,
        }
    }
}

/// The statements of a block whose `{` comes right before index `i`, read
/// with the parser at depth `d` (see [`block_from`]); `None` at the nesting
/// limit.
pub open spec fn block_at(t: Seq<Token>, x: Seq<Seq<char>>, i: int, d: int, m: nat) -> Option<(Seq<StmtV>, int, nat)> {
    if d >= 64 {
        None
    } else {
        block_from(t, x, i, d + 1, m, Seq::empty())
    }
}

/// The `if` expression whose `if` is at index `i`: the condition, the
/// statements of the block right after it as the branch taken when the
/// condition holds, and, where `else` and a block follow, that block as the
/// other branch; the node spans the condition's first token. `None` outside
/// the part of the grammar [`frag_expr`] and [`block_at`] cover, and for
/// `else if`.
pub open spec fn if_at(t: Seq<Token>, x: Seq<Seq<char>>, i: int, d: int, m: nat) -> Option<(ExprV, int, nat)> {
    if !(0 <= i && i + 1 < t.len() && t[i].kind == TokenKind::If) {
        None
    } else {
        let sp = token_span(t, i + 1);
        match frag_expr(t, x, i + 1, d, m) {
            Some((cond, j, m1)) => if j < t.len() && t[j].kind == TokenKind::LBrace {
                match block_at(t, x, j + 1, d, m1) {
                    Some((a, k, m2)) => if !(0 <= k < t.len()) {
                        None
                    } else if t[k].kind != TokenKind::Else {
                        Some((ExprV::If { condition: Box::new(cond), then_branch: a, else_branch: None, span: sp }, k, m2))
                    } else if k + 1 < t.len() && t[k + 1].kind == TokenKind::LBrace {
                        match block_at(t, x, k + 2, d, m2) {
                            Some((b, n, m3)) => Some(
                                (
                                    ExprV::If {
                                        condition: Box::new(cond),
                                        then_branch: a,
                                        else_branch: Some(Box::new(ExprV::Block { statements: b, span: sp })),
                                        span: sp,
                                    },
                                    n,
                                    m3,
                                ),
                            ),
                            None => None,
                        }
                    } else {
                        None
                    },
                    None => None,
                }
            } else {
                None
            },
            None => None,
        }
    }
}

/// The catch clause that may stand at index `j` after a `try` block:
/// `catch (name)` and a block give the clause binding that name, whose body
/// is that block's statements; any other token gives none.
pub open spec fn catch_at(t: Seq<Token>, x: Seq<Seq<char>>, j: int, d: int, m: nat) -> Option<
    (Option<Box<CatchClauseV>>, int, nat),
> {
    if !(0 <= j < t.len()) {
        None
    } else if t[j].kind != TokenKind::Catch {
        Some((None, j, m))
    } else if j + 4 < t.len() && t[j + 1].kind == TokenKind::LParen && t[j + 2].kind == TokenKind::Ident && t[j + 3].kind
        == TokenKind::RParen && t[j + 4].kind == TokenKind::LBrace {
        match block_at(t, x, j + 5, d, m) {
            Some((b, n, m1)) => Some((Some(Box::new(CatchClauseV { binding: x[j + 2], exception_type: None, body: b })), n, m1)),
            None => None,
        }
    } else {
        None
    }
}

/// The `keep` block that may stand at index `k`: `keep` and a block give
/// that block's statements; any other token gives none.
pub open spec fn keep_at(t: Seq<Token>, x: Seq<Seq<char>>, k: int, d: int, m: nat) -> Option<(Option<Seq<StmtV>>, int, nat)> {
    if !(0 <= k < t.len()) {
        None
    } else if t[k].kind != TokenKind::Keep {
        Some((None, k, m))
    } else if k + 1 < t.len() && t[k + 1].kind == TokenKind::LBrace {
        match block_at(t, x, k + 2, d, m) {
            Some((b, n, m1)) => Some((Some(b), n, m1)),
            None => None,
        }
    } else {
        None
    }
}

/// The `try` expression whose `try` is at index `i`: the block after `try`
/// as its body, then the catch clause (see [`catch_at`]), then the `keep`
/// block (see [`keep_at`]); the node spans the `{` after `try`.
pub open spec fn try_at(t: Seq<Token>, x: Seq<Seq<char>>, i: int, d: int, m: nat) -> Option<(ExprV, int, nat)> {
    if !(0 <= i && i + 1 < t.len() && t[i].kind == TokenKind::Try && t[i + 1].kind == TokenKind::LBrace) {
        None
    } else {
        match block_at(t, x, i + 2, d, m) {
            Some((body, j, m1)) => match catch_at(t, x, j, d, m1) {
                Some((cc, k, m2)) => match keep_at(t, x, k, d, m2) {
                    Some((kb, n, m3)) => Some(
                        (ExprV::Try { body, catch_clause: cc, keep_block: kb, span: token_span(t, i + 1) }, n, m3),
                    ),
                    None => None,
                },
                None => None,
            },
            None => None,
        }
    }
}

/// The `while` loop whose `while` is at index `i`: the condition, and the
/// block right after it as the body; the node spans the condition's first
/// token.
pub open spec fn while_at(t: Seq<Token>, x: Seq<Seq<char>>, i: int, d: int, m: nat) -> Option<(ExprV, int, nat)> {
    if !(0 <= i && i + 1 < t.len() && t[i].kind == TokenKind::While) {
        None
    } else {
        match frag_expr(t, x, i + 1, d, m) {
            Some((cond, j, m1)) => if j < t.len() && t[j].kind == TokenKind::LBrace {
                match block_at(t, x, j + 1, d, m1) {
                    Some((body, n, m2)) => Some(
                        (ExprV::While { condition: Box::new(cond), body, span: token_span(t, i + 1) }, n, m2),
                    ),
                    None => None,
                }
            } else {
                None
            },
            None => None,
        }
    }
}

/// The loop `for name in iterable { body }` whose `for` is at index `i`;
/// the node spans the name.
pub open spec fn for_at(t: Seq<Token>, x: Seq<Seq<char>>, i: int, d: int, m: nat) -> Option<(ExprV, int, nat)> {
    if !(0 <= i && i + 3 < t.len() && t[i].kind == TokenKind::For && t[i + 1].kind == TokenKind::Ident && t[i + 2].kind
        == TokenKind::In) {
        None
    } else {
        match frag_expr(t, x, i + 3, d, m) {
            Some((iter, j, m1)) => if j < t.len() && t[j].kind == TokenKind::LBrace {
                match block_at(t, x, j + 1, d, m1) {
                    Some((body, n, m2)) => Some(
                        (ExprV::ForIn { var_name: x[i + 1], iterable: Box::new(iter), body, span: token_span(t, i + 1) }, n, m2),
                    ),
                    None => None,
                }
            } else {
                None
            },
            None => None,
        }
    }
}

/// The `return` whose keyword is at index `i`: without a value where `}`,
/// `;` or the end of input follows, else with the expression after it; the
/// node spans the keyword.
pub open spec fn return_at(t: Seq<Token>, x: Seq<Seq<char>>, i: int, d: int, m: nat) -> Option<(ExprV, int, nat)> {
    if !(0 <= i && i + 1 < t.len() && t[i].kind == TokenKind::Return) {
        None
    } else if t[i + 1].kind == TokenKind::RBrace || t[i + 1].kind == TokenKind::Semicolon || t[i + 1].kind == TokenKind::Eof {
        Some((ExprV::Return { value: None, span: token_span(t, i) }, i + 1, m))
    } else {
        match frag_expr(t, x, i + 1, d, m) {
            Some((e, j, m1)) => Some((ExprV::Return { value: Some(Box::new(e)), span: token_span(t, i) }, j, m1)),
            None => None,
        }
    }
}

/// The `break` whose keyword is at index `i`: without a value where `}`,
/// `;` or the end of input follows, else with the expression after it; the
/// node spans the keyword.
pub open spec fn break_at(t: Seq<Token>, x: Seq<Seq<char>>, i: int, d: int, m: nat) -> Option<(ExprV, int, nat)> {
    if !(0 <= i && i + 1 < t.len() && t[i].kind == TokenKind::Break) {
        None
    } else if t[i + 1].kind == TokenKind::RBrace || t[i + 1].kind == TokenKind::Semicolon || t[i + 1].kind == TokenKind::Eof {
        Some((ExprV::Break { value: None, span: token_span(t, i) }, i + 1, m))
    } else {
        match frag_expr(t, x, i + 1, d, m) {
            Some((e, j, m1)) => Some((ExprV::Break { value: Some(Box::new(e)), span: token_span(t, i) }, j, m1)),
            None => None,
        }
    }
}

/// The `continue` at index `i`, spanning its keyword.
pub open spec fn continue_at(t: Seq<Token>, i: int, m: nat) -> Option<(ExprV, int, nat)> {
    if 0 <= i < t.len() && t[i].kind == TokenKind::Continue {
        Some((ExprV::Continue { span: token_span(t, i) }, i + 1, m))
    } else {
        None
    }
}

/// The `loop { body }` whose `loop` is at index `i`; the node spans the `{`.
pub open spec fn loop_at(t: Seq<Token>, x: Seq<Seq<char>>, i: int, d: int, m: nat) -> Option<(ExprV, int, nat)> {
    if !(0 <= i && i + 1 < t.len() && t[i].kind == TokenKind::Loop && t[i + 1].kind == TokenKind::LBrace) {
        None
    } else {
        match block_at(t, x, i + 2, d, m) {
            Some((body, n, m1)) => Some((ExprV::Loop { body, span: token_span(t, i + 1) }, n, m1)),
            None => None,
        }
    }
}

/// The arms of a match continued from index `i`, `acc` read so far: each a
/// simple pattern (see [`simple_pattern`]), `=>` and a body expression (see
/// [`frag_logic`]), separated by commas (one may follow the last), up to the
/// closing `}`, in the order they are written. The arms, the index after
/// the `}` and the temporaries made by then.
pub open spec fn arms_from(t: Seq<Token>, x: Seq<Seq<char>>, i: int, d: int, m: nat, acc: Seq<MatchArmV>) -> Option<
    (Seq<MatchArmV>, int, nat),
>
    decreases t.len() - i,
{
    match simple_pattern(t, x, i) {
        Some((p, j)) => if i < j && j + 1 < t.len() && t[j].kind == TokenKind::Arrow {
            match frag_logic(t, x, j + 1, d, m) {
                Some((b, k, m1)) => if j < k && k + 1 < t.len() {
                    let acc2 = acc.push(MatchArmV { pattern: p, body: b });
                    if t[k].kind == TokenKind::Comma {
                        if t[k + 1].kind == TokenKind::RBrace {
                            Some((acc2, k + 2, m1))
                        } else {
                            arms_from(t, x, k + 1, d, m1, acc2)
                        }
                    } else if t[k].kind == TokenKind::RBrace {
                        Some((acc2, k + 1, m1))
                    } else {
                        None
                    }
                } else {
                    None
                },
                None => None,
            }
        } else {
            None
        },
        None => None,
    }
}

/// The arms of a match whose `{` comes right before index `i`: none where
/// `}` follows at once, else those of [`arms_from`].
pub open spec fn match_arms_at(t: Seq<Token>, x: Seq<Seq<char>>, i: int, d: int, m: nat) -> Option<(Seq<MatchArmV>, int, nat)> {
    if 0 <= i < t.len() && t[i].kind == TokenKind::RBrace {
        Some((Seq::empty(), i + 1, m))
    } else {
        arms_from(t, x, i, d, m, Seq::empty())
    }
}

/// The `match (scrutinee) { arms }` whose `match` is at index `i`; the node
/// spans the `(`.
pub open spec fn match_at(t: Seq<Token>, x: Seq<Seq<char>>, i: int, d: int, m: nat) -> Option<(ExprV, int, nat)> {
    if !(0 <= i && i + 1 < t.len() && t[i].kind == TokenKind::Match && t[i + 1].kind == TokenKind::LParen) {
        None
    } else {
        match frag_logic(t, x, i + 2, d, m) {
            Some((sc, j, m1)) => if 0 <= j && j + 1 < t.len() && t[j].kind == TokenKind::RParen && t[j + 1].kind == TokenKind::LBrace {
                match match_arms_at(t, x, j + 2, d, m1) {
                    Some((arms, n, m2)) => Some((ExprV::Match { scrutinee: Box::new(sc), arms, span: token_span(t, i + 1) }, n, m2)),
                    None => None,
                }
            } else {
                None
            },
            None => None,
        }
    }
}

/// The parameter names continued from index `i`, `acc` read so far: names
/// (the keyword `fn` counts as one) separated by commas, in the order they
/// are written; with the index after the last one.
pub open spec fn params_from(t: Seq<Token>, x: Seq<Seq<char>>, i: int, acc: Seq<Seq<char>>) -> Option<(Seq<Seq<char>>, int)>
    decreases t.len() - i,
{
    if !(0 <= i && i + 1 < t.len() && (t[i].kind == TokenKind::Ident || t[i].kind == TokenKind::Fn)) {
        None
    } else if t[i + 1].kind == TokenKind::Comma {
        params_from(t, x, i + 2, acc.push(x[i]))
    } else {
        Some((acc.push(x[i]), i + 1))
    }
}

/// The parameter names of a function whose `(` comes right before index
/// `i`: none where `)` follows at once, else those of [`params_from`].
pub open spec fn params_at(t: Seq<Token>, x: Seq<Seq<char>>, i: int) -> Option<(Seq<Seq<char>>, int)> {
    if 0 <= i < t.len() && t[i].kind == TokenKind::RParen {
        Some((Seq::empty(), i))
    } else {
        params_from(t, x, i, Seq::empty())
    }
}

/// The named function `fn name(params) { body }` whose `fn` is at index
/// `i`; the node spans the keyword.
pub open spec fn fn_at(t: Seq<Token>, x: Seq<Seq<char>>, i: int, d: int, m: nat) -> Option<(ExprV, int, nat)> {
    if !(0 <= i && i + 2 < t.len() && t[i].kind == TokenKind::Fn && t[i + 1].kind == TokenKind::Ident && t[i + 2].kind
        == TokenKind::LParen) {
        None
    } else {
        match params_at(t, x, i + 3) {
            Some((ps, j)) => if 0 <= j && j + 1 < t.len() && t[j].kind == TokenKind::RParen && t[j + 1].kind == TokenKind::LBrace {
                match block_at(t, x, j + 2, d, m) {
                    Some((body, n, m1)) => Some(
                        (ExprV::Fn { name: Some(x[i + 1]), params: ps, body, span: token_span(t, i) }, n, m1),
                    ),
                    None => None,
                }
            } else {
                None
            },
            None => None,
        }
    }
}

/// The declaration at index `i`: a named function (see [`fn_at`]), else a
/// statement (see [`statement_at`]).
pub open spec fn declaration_at(t: Seq<Token>, x: Seq<Seq<char>>, i: int, d: int, m: nat) -> Option<(ExprV, int, nat)> {
    if 0 <= i && i + 1 < t.len() && t[i].kind == TokenKind::Fn && t[i + 1].kind == TokenKind::Ident {
        fn_at(t, x, i, d, m)
    } else {
        statement_at(t, x, i, d, m)
    }
}

/// The assignment statement at index `i`: a name, then `=` and the value,
/// or a compound operator `op=` and an operand, the value then being the
/// name's value combined with that operand by `op`; both nodes span the
/// token after the operator.
pub open spec fn assign_at(t: Seq<Token>, x: Seq<Seq<char>>, i: int, d: int, m: nat) -> Option<(StmtV, int, nat)> {
    if !(0 <= i < t.len() && t[i].kind == TokenKind::Ident) {
        None
    } else {
        match frag_target_expr(t, x, i, d, m) {
        Some((target, j, m1)) => match target {
            ExprV::Ident { name, span: _ } => match frag_expr(t, x, j + 1, d, m1) {
                Some((v, n, m2)) => if t[j].kind == TokenKind::Eq {
                    Some((StmtV::Assign { target: AssignTargetV::Ident { name }, value: v, span: token_span(t, j + 1) }, n, m2))
                } else {
                    Some(
                        (
                            StmtV::Assign {
                                target: AssignTargetV::Ident { name },
                                value: ExprV::Binary {
                                    left: Box::new(target),
                                    op: compound_op(t[j].kind)->0,
                                    right: Box::new(v),
                                    span: token_span(t, j + 1),
                                },
                                span: token_span(t, j + 1),
                            },
                            n,
                            m2,
                        ),
                    )
                },
                None => None,
            },
            _ => None,
        },
        None => None,
        }
    }
}

/// The expression statement at index `i`: an `if` (see [`if_at`]), a `try`
/// (see [`try_at`]), a `while` (see [`while_at`]), a `for` (see
/// [`for_at`]), a `return` (see [`return_at`]), a `break` (see
/// [`break_at`]), a `continue`, a `loop` (see [`loop_at`]), a `match` (see
/// [`match_at`]), or an arithmetic, comparison or logical expression (see
/// [`frag_logic`]). The expression, the index after it and the temporaries
/// made by then.
pub open spec fn statement_at(t: Seq<Token>, x: Seq<Seq<char>>, i: int, d: int, m: nat) -> Option<(ExprV, int, nat)> {
    if 0 <= i < t.len() && t[i].kind == TokenKind::If {
        if_at(t, x, i, d, m)
    } else if 0 <= i < t.len() && t[i].kind == TokenKind::Try {
        try_at(t, x, i, d, m)
    } else if 0 <= i < t.len() && t[i].kind == TokenKind::While {
        while_at(t, x, i, d, m)
    } else if 0 <= i < t.len() && t[i].kind == TokenKind::For {
        for_at(t, x, i, d, m)
    } else if 0 <= i < t.len() && t[i].kind == TokenKind::Return {
        return_at(t, x, i, d, m)
    } else if 0 <= i < t.len() && t[i].kind == TokenKind::Break {
        break_at(t, x, i, d, m)
    } else if 0 <= i < t.len() && t[i].kind == TokenKind::Continue {
        continue_at(t, i, m)
    } else if 0 <= i < t.len() && t[i].kind == TokenKind::Loop {
        loop_at(t, x, i, d, m)
    } else if 0 <= i < t.len() && t[i].kind == TokenKind::Match {
        match_at(t, x, i, d, m)
    } else {
        frag_logic(t, x, i, d, m)
    }
}

/// The assignment that makes up the whole program of the tokens `t` with
/// texts `x`, as its only statement (see [`assign_at`]); `None` otherwise.
pub open spec fn single_assignment(t: Seq<Token>, x: Seq<Seq<char>>) -> Option<StmtV> {
    match assign_at(t, x, 0, 0, 0) {
        Some((st, n, _)) => if 0 <= n < t.len() && t[n].kind == TokenKind::Eof {
            Some(st)
        } else {
            None
        },
        None => None,
    }
}

/// The expression that makes up the whole program of the tokens `t` with
/// texts `x`, as its only statement (see [`declaration_at`]); `None`
/// otherwise.
pub open spec fn single_statement(t: Seq<Token>, x: Seq<Seq<char>>) -> Option<ExprV> {
    match declaration_at(t, x, 0, 0, 0) {
        Some((e, n, _)) => if 0 <= n < t.len() && t[n].kind == TokenKind::Eof {
            Some(e)
        } else {
            None
        },
        None => None,
    }
}

/// The expression that makes up the whole of the tokens `t` with texts `x`,
/// where it lies in the arithmetic and comparison part of the grammar (see
/// [`frag_expr`]); `None` otherwise.
pub open spec fn single_expression(t: Seq<Token>, x: Seq<Seq<char>>) -> Option<ExprV> {
    match frag_expr(t, x, 0, 0, 0) {
        Some((e, n, _)) => if 0 <= n < t.len() && t[n].kind == TokenKind::Eof {
            Some(e)
        } else {
            None
        },
        None => None,
    }
}

/// An operand of a match pattern made of one or two tokens at index `i`,
/// with the index after it: `-` and a number make a negative number; a
/// one-token operand not followed by a call, index or field stands for
/// itself. `None` for any other operand.
pub open spec fn simple_operand(t: Seq<Token>, x: Seq<Seq<char>>, i: int) -> Option<(ExprV, int)> {
    if 0 <= i && i + 1 < t.len() && t[i].kind == TokenKind::Minus && t[i + 1].kind == TokenKind::Number {
        Some((ExprV::Number { value: "-"@ + x[i + 1], span: token_span(t, i) }, i + 2))
    } else if 0 <= i && i + 1 < t.len() && leaf_kind(t[i].kind) && !postfix_kind(t[i + 1].kind) {
        Some((leaf_view(t, x, i), i + 1))
    } else {
        None
    }
}

/// Whether a token kind is a range operator.
pub open spec fn range_kind(k: TokenKind) -> bool {
    k == TokenKind::DotDot || k == TokenKind::DotDotLt
}

/// The match pattern at index `i`, with the index after it, where it is made
/// of simple operands (see [`simple_operand`]): `_`; a name not followed by
/// a range operator (a variable); a literal; or two operands joined by `..`
/// (inclusive) or `..<`. `None` where an operand is anything else.
pub open spec fn simple_pattern(t: Seq<Token>, x: Seq<Seq<char>>, i: int) -> Option<(MatchPatternV, int)> {
    if !(0 <= i && i + 1 < t.len()) {
        None
    } else if t[i].kind == TokenKind::Ident && x[i] == seq!['_'] {
        Some((MatchPatternV::Wildcard, i + 1))
    } else if t[i].kind == TokenKind::Ident && !range_kind(t[i + 1].kind) {
        Some((MatchPatternV::Variable(x[i]), i + 1))
    } else {
        operand_pattern(t, x, i)
    }
}

/// The match pattern at index `i` that starts with a simple operand: a range
/// where `..` or `..<` and a second simple operand follow, else a literal
/// (a number, a string, `true`, `false` or `nil`); `None` otherwise.
pub open spec fn operand_pattern(t: Seq<Token>, x: Seq<Seq<char>>, i: int) -> Option<(MatchPatternV, int)> {
    match simple_operand(t, x, i) {
        Some((a, j)) => if 0 <= j < t.len() && range_kind(t[j].kind) {
            match simple_operand(t, x, j + 1) {
                Some((b, k)) => Some(
                    (MatchPatternV::Range { start: Box::new(a), end: Box::new(b), inclusive: t[j].kind == TokenKind::DotDot }, k),
                ),
                None => None,
            }
        } else if a is Number || a is String || a is Bool || a is Nil {
            Some((MatchPatternV::Literal(Box::new(a)), j))
        } else {
            None
        },
        None => None,
    }
}

/// The tokens read from a source, without their texts.
pub open spec fn source_tokens(w: Seq<(Token, Seq<char>)>) -> Seq<Token> {
    w.map_values(|p: (Token, Seq<char>)| p.0)
}

/// A recursive-descent parser over the tokens of one source text.
pub struct Parser {
    tokens: Vec<Token>,
    texts: Vec<String>,
    current: usize,
    depth: usize,
    tmp_counter: u64,
}

impl Parser {
    /// The parser's consistency: a non-empty token list that ends with the
    /// end-of-input token, a text per token, the current index inside the
    /// list, a nesting depth within the limit, and no more temporaries made
    /// than tokens read.
    pub closed spec fn wf(self) -> bool {
        &&& self.tokens@.len() > 0
        &&& self.texts@.len() == self.tokens@.len()
        &&& self.tokens@.last().kind == TokenKind::Eof
        &&& self.current < self.tokens@.len()
        &&& self.depth <= MAX_PARSER_DEPTH
        &&& self.tmp_counter <= self.current
    }

    /// The tokens.
    pub closed spec fn tokens_seq(self) -> Seq<Token> {
        self.tokens@
    }

    /// The texts of the tokens.
    pub closed spec fn text_seq(self) -> Seq<Seq<char>> {
        self.texts@.map_values(|s: String| s@)
    }

    /// The index of the current token.
    pub closed spec fn pos(self) -> int {
        self.current as int
    }

    /// The current token.
    pub closed spec fn cur(self) -> Token {
        self.tokens@[self.current as int]
    }

    /// Whether the current token is the end of input.
    pub closed spec fn at_end(self) -> bool {
        self.tokens@[self.current as int].kind == TokenKind::Eof
    }

    /// Whether the current token is a one-token operand that the next token
    /// ends for every level below `level` (see [`ends_operand`]).
    pub closed spec fn leaf_then(self, level: int) -> bool {
        leaf_operand(self.tokens@, self.current as int, level)
    }

    /// Whether `r`, read from `self` leaving the parser `after`, is the
    /// current one-token operand itself, one token read and no temporary made.
    pub closed spec fn gives_leaf(self, r: Result<Expr, ParseError>, after: Parser) -> bool {
        &&& r matches Ok(e) && e.view() == leaf_view(self.tokens@, self.text_seq(), self.current as int)
        &&& after.current == self.current + 1
        &&& after.tmp_counter == self.tmp_counter
    }

    /// The part of the arithmetic and comparison grammar read from the
    /// current token at precedence `level`: 0 an operand, 1 an operand no
    /// call, index or field follows, 2 a power, 3 a product, 4 a
    /// sum, 5 a range, 6 a comparison, 7 a whole expression at this depth, 8
    /// an expression one level deeper, 9 a unary expression, 10 an assignment
    /// target at this depth, 11 one a level deeper, 12 a conjunction, 13 a
    /// `??` chain, 14 a disjunction, 15 a logical expression at this depth,
    /// 16 one a level deeper.
    pub closed spec fn frag(self, level: int) -> Option<(ExprV, int, nat)> {
        let t = self.tokens@;
        let x = self.text_seq();
        let i = self.current as int;
        let d = self.depth as int;
        let m = self.tmp_counter as nat;
        if level == 0 {
            frag_atom(t, x, i, d, m)
        } else if level == 1 {
            match frag_atom(t, x, i, d, m) {
                Some((a, j, m1)) => if i < j < t.len() && !postfix_kind(t[j].kind) {
                    Some((a, j, m1))
                } else {
                    None
                },
                None => None,
            }
        } else if level == 2 {
            frag_factor(t, x, i, d, m)
        } else if level == 3 {
            frag_product(t, x, i, d, m)
        } else if level == 4 {
            frag_sum(t, x, i, d, m)
        } else if level == 5 {
            frag_range(t, x, i, d, m)
        } else if level == 6 {
            frag_comparison(t, x, i, d, m)
        } else if level == 7 {
            frag_body(t, x, i, d, m)
        } else if level == 8 {
            frag_expr(t, x, i, d, m)
        } else if level == 9 {
            frag_unary(t, x, i, d, m)
        } else if level == 10 {
            frag_target(t, x, i, d, m)
        } else if level == 11 {
            frag_target_expr(t, x, i, d, m)
        } else if level == 12 {
            frag_and(t, x, i, d, m)
        } else if level == 13 {
            frag_coalesce(t, x, i, d, m)
        } else if level == 14 {
            frag_or(t, x, i, d, m)
        } else if level == 15 {
            frag_logic_body(t, x, i, d, m)
        } else {
            frag_logic(t, x, i, d, m)
        }
    }

    /// The operands and operators of the chain of comparisons whose first
    /// operand starts at the current token (see [`chain_from`]).
    pub closed spec fn chain_tail(self) -> Option<(Seq<ExprV>, Seq<BinaryOp>, int, nat)> {
        match self.frag(5) {
            Some((a, j, m1)) => chain_from(self.tokens@, self.text_seq(), j, self.depth as int, m1, seq![a], Seq::empty()),
            None => None,
        }
    }

    /// Whether `r`, read from `self` leaving the parser `after`, is what `f`
    /// gives where `f` gives anything: the expression, the position after it
    /// and the count of temporaries.
    pub closed spec fn yields(self, r: Result<Expr, ParseError>, after: Parser, f: Option<(ExprV, int, nat)>) -> bool {
        f matches Some((e, n, m)) ==> (r matches Ok(q) && q.view() == e && after.current == n && after.tmp_counter == m)
    }

    /// Whether the current token, not the end of input, is of `kind`.
    pub closed spec fn sees(self, kind: TokenKind) -> bool {
        !self.at_end() && self.tokens@[self.current as int].kind == kind
    }

    /// How `self` relates to the parser `prev` it was before a step of
    /// parsing: still consistent, the same tokens, no step backwards, the
    /// same depth, and no more temporaries made than tokens read.
    pub closed spec fn moved_on(self, prev: Parser) -> bool {
        &&& self.wf()
        &&& self.tokens@ == prev.tokens@
        &&& self.texts@ == prev.texts@
        &&& prev.current <= self.current
        &&& self.depth == prev.depth
        &&& prev.tmp_counter <= self.tmp_counter
        &&& self.tmp_counter - prev.tmp_counter <= self.current - prev.current
    }

    /// The parser unchanged but for having read `n` more tokens.
    pub closed spec fn read_only(self, prev: Parser, n: int) -> bool {
        &&& self.wf()
        &&& self.tokens@ == prev.tokens@
        &&& self.texts@ == prev.texts@
        &&& self.current == prev.current + n
        &&& self.depth == prev.depth
        &&& self.tmp_counter == prev.tmp_counter
    }

    /// The current token.
    fn peek(&self) -> (r: Token)
        requires
            self.wf(),
        ensures
            r == self.cur(),
    {
        self.tokens[self.current]
    }

    /// The token before the current one.
    fn previous(&self) -> (r: Token)
        requires
            self.wf(),
            self.current > 0,
        ensures
            r == self.tokens@[self.current - 1],
    {
        self.tokens[self.current - 1]
    }

    /// Whether the current token is the end of input.
    fn is_at_end(&self) -> (r: bool)
        requires
            self.wf(),
        ensures
            r == self.at_end(),
    {
        self.tokens[self.current].kind == TokenKind::Eof
    }

    /// Reads the current token unless it is the end of input; returns the
    /// token before the new position.
    fn advance(&mut self) -> (r: Token)
        requires
            old(self).wf(),
            old(self).current > 0 || !old(self).at_end(),
        ensures
            final(self).read_only(*old(self), if old(self).at_end() { 0 } else { 1 }),
            r == final(self).tokens@[final(self).current - 1],
    {
        if !self.is_at_end() {
            let c = self.current;
            let n = self.tokens.len();
            assert(self.tokens@[c as int].kind != TokenKind::Eof);
            assert(c + 1 < n);
            self.current = c + 1;
        }
        self.previous()
    }

    /// Whether the current token is of `kind` (never at the end of input).
    fn check(&self, kind: TokenKind) -> (r: bool)
        requires
            self.wf(),
        ensures
            r == self.sees(kind),
    {
        !self.is_at_end() && self.peek().kind == kind
    }

    /// Whether the current token's kind satisfies `f` (never at the end of input).
    fn check_if<F: Fn(TokenKind) -> bool>(&self, f: F) -> (r: bool)
        requires
            self.wf(),
            forall|k: TokenKind| f.requires((k,)),
        ensures
            self.at_end() ==> !r,
            !self.at_end() ==> f.ensures((self.cur().kind,), r),
    {
        !self.is_at_end() && f(self.peek().kind)
    }

    /// Reads the current token if it is of `kind`.
    fn match_kind(&mut self, kind: TokenKind) -> (r: bool)
        requires
            old(self).wf(),
        ensures
            r == old(self).sees(kind),
            final(self).read_only(*old(self), if r { 1 } else { 0 }),
    {
        if self.check(kind) {
            self.advance();
            true
        } else {
            false
        }
    }

    /// Reads the current token if its kind satisfies `f`.
    fn match_if<F: Fn(TokenKind) -> bool>(&mut self, f: F) -> (r: bool)
        requires
            old(self).wf(),
            forall|k: TokenKind| f.requires((k,)),
        ensures
            old(self).at_end() ==> !r,
            !old(self).at_end() ==> f.ensures((old(self).cur().kind,), r),
            final(self).read_only(*old(self), if r { 1 } else { 0 }),
    {
        if self.check_if(f) {
            self.advance();
            true
        } else {
            false
        }
    }

    /// The error `msg` at the current token.
    fn error_here(&self, msg: &str) -> (r: ParseError)
        requires
            self.wf(),
        ensures
            r.message@ == msg@,
            r.line == self.cur().line,
            r.column == self.cur().column,
    {
        let tok = self.peek();
        ParseError { message: msg.to_owned(), line: tok.line, column: tok.column }
    }

    /// Reads a token of `kind`, or fails with `msg` at the current token.
    fn consume(&mut self, kind: TokenKind, msg: &str) -> (r: Result<Token, ParseError>)
        requires
            old(self).wf(),
        ensures
            r is Ok <==> old(self).sees(kind),
            r matches Ok(t) ==> t == old(self).cur() && final(self).read_only(*old(self), 1),
            r matches Err(e) ==> e.message@ == msg@ && e.line == old(self).cur().line
                && e.column == old(self).cur().column && final(self).read_only(*old(self), 0),
    {
        if self.check(kind) {
            Ok(self.advance())
        } else {
            Err(self.error_here(msg))
        }
    }

    /// Reads a token whose kind satisfies `f`, or fails with `msg` at the
    /// current token.
    fn consume_if<F: Fn(TokenKind) -> bool>(&mut self, f: F, msg: &str) -> (r: Result<Token, ParseError>)
        requires
            old(self).wf(),
            forall|k: TokenKind| f.requires((k,)),
        ensures
            old(self).at_end() ==> r is Err,
            !old(self).at_end() ==> f.ensures((old(self).cur().kind,), r is Ok),
            r matches Ok(t) ==> t == old(self).cur() && final(self).read_only(*old(self), 1),
            r matches Err(e) ==> e.message@ == msg@ && e.line == old(self).cur().line
                && e.column == old(self).cur().column && final(self).read_only(*old(self), 0),
    {
        if self.check_if(f) {
            Ok(self.advance())
        } else {
            Err(self.error_here(msg))
        }
    }

    /// The span of the current token.
    fn span_here(&self) -> (r: Span)
        requires
            self.wf(),
        ensures
            r == (Span { line: self.cur().line, column: self.cur().column }),
    {
        let tok = self.peek();
        Span::new(tok.line, tok.column)
    }

    /// The span of a token.
    fn span_at(&self, token: &Token) -> (r: Span)
        ensures
            r == (Span { line: token.line, column: token.column }),
    {
        Span::new(token.line, token.column)
    }

    /// A fresh name for a temporary of a comparison chain
    /// (`__nuzo_cmp_0`, `__nuzo_cmp_1`, ...).
    fn gen_tmp_name(&mut self) -> (r: String)
        requires
            old(self).wf(),
            old(self).tmp_counter < old(self).current,
        ensures
            r@ == tmp_name(old(self).tmp_counter as nat),
            final(self).tokens@ == old(self).tokens@,
            final(self).texts@ == old(self).texts@,
            final(self).current == old(self).current,
            final(self).depth == old(self).depth,
            final(self).tmp_counter == old(self).tmp_counter + 1,
            final(self).wf(),
    {
        let mut name = "__nuzo_cmp_".to_owned();
        let digits = decimal_string(self.tmp_counter);
        push_str(&mut name, digits.as_str());
        self.tmp_counter = self.tmp_counter + 1;
        name
    }

    /// The source text of the token at index `idx`.
    fn text_of(&self, idx: usize) -> (r: String)
        requires
            self.wf(),
            idx < self.tokens@.len(),
        ensures
            r@ == self.texts@[idx as int]@,
    {
        self.texts[idx].clone()
    }

    /// Whether the text of the token at index `idx` is `lit`.
    fn text_is(&self, idx: usize, lit: &[char]) -> (r: bool)
        requires
            self.wf(),
            idx < self.tokens@.len(),
        ensures
            r == (self.texts@[idx as int]@ == lit@),
    {
        let chars = chars_of(self.texts[idx].as_str());
        same_chars(chars.as_slice(), lit)
    }

    /// Skips any number of semicolons.
    fn skip_semicolons(&mut self)
        requires
            old(self).wf(),
        ensures
            final(self).moved_on(*old(self)),
            !final(self).sees(TokenKind::Semicolon),
            !old(self).sees(TokenKind::Semicolon) ==> final(self).current == old(self).current,
            final(self).current == semis_end(old(self).tokens@, old(self).current as int),
            final(self).tmp_counter == old(self).tmp_counter,
    {
        loop
            invariant
                self.moved_on(*old(self)),
                semis_end(self.tokens@, self.current as int) == semis_end(old(self).tokens@, old(self).current as int),
                self.tmp_counter == old(self).tmp_counter,
                !old(self).sees(TokenKind::Semicolon) ==> self.current == old(self).current,
            ensures
                self.moved_on(*old(self)),
                !self.sees(TokenKind::Semicolon),
                self.current == semis_end(old(self).tokens@, old(self).current as int),
                self.tmp_counter == old(self).tmp_counter,
            decreases self.tokens@.len() - self.current,
        {
            if !self.match_kind(TokenKind::Semicolon) {
                break;
            }
        }
    }

    /// Whether a `{` at the current token opens a dictionary literal: it is
    /// followed by `}`, or by a name or string and then `:`.
    fn is_dict_literal(&self) -> (r: bool)
        requires
            self.wf(),
        ensures
            r == dict_ahead(self.tokens@, self.current as int),
    {
        if self.current >= self.tokens.len() {
            return false;
        }
        let cur = self.tokens[self.current].kind;
        if cur != TokenKind::LBrace {
            return false;
        }
        if self.tokens.len() - self.current > 1 {
            let next = self.tokens[self.current + 1].kind;
            if next == TokenKind::RBrace {
                return true;
            }
        }
        if self.tokens.len() - self.current > 2 {
            let next = self.tokens[self.current + 1].kind;
            let after = self.tokens[self.current + 2].kind;
            if (next == TokenKind::Ident || next == TokenKind::String) && after == TokenKind::Colon {
                return true;
            }
        }
        false
    }

    /// Whether the tokens at the cursor look like a dictionary literal that
    /// lacks a colon: `{`, a name or string, a value (number, string or
    /// name), then `}` or `,`.
    fn looks_like_dict_with_missing_colon(&self) -> (r: bool)
        requires
            self.wf(),
        ensures
            r == dict_missing_colon_ahead(self.tokens@, self.current as int),
    {
        if self.tokens.len() - self.current <= 3 {
            return false;
        }
        let cur = self.tokens[self.current].kind;
        if cur != TokenKind::LBrace {
            return false;
        }
        let next = self.tokens[self.current + 1].kind;
        let after = self.tokens[self.current + 2].kind;
        let after_after = self.tokens[self.current + 3].kind;
        let next_is_key = next == TokenKind::Ident || next == TokenKind::String;
        let after_is_value = after == TokenKind::Number || after == TokenKind::String || after == TokenKind::Ident;
        let after_value_is_dict_end = after_after == TokenKind::RBrace || after_after == TokenKind::Comma;
        next_is_key && after_is_value && after_value_is_dict_end
    }

    /// Reads a compound assignment operator (`+=`, `-=`, `*=`, `/=`) and
    /// returns the arithmetic operator it stands for.
    fn match_compound_assign(&mut self) -> (r: Option<BinaryOp>)
        requires
            old(self).wf(),
        ensures
            r == compound_op(old(self).cur().kind),
            final(self).read_only(*old(self), if r is Some { 1 } else { 0 }),
    {
        let op = match self.peek().kind {
            TokenKind::PlusEqual => BinaryOp::Add,
            TokenKind::MinusEqual => BinaryOp::Sub,
            TokenKind::StarEqual => BinaryOp::Mul,
            TokenKind::SlashEqual => BinaryOp::Div,
            _ => {
                return None;
            },
        };
        self.advance();
        Some(op)
    }

    /// Tries to read the parameter list of an arrow function at a `(`:
    /// `()` or `(a, b, ...)` followed by `=>`. On success the `=>` has been
    /// read too; on failure the caller restores the position.
    fn try_arrow_params(&mut self) -> (r: Option<Vec<String>>)
        requires
            old(self).wf(),
            old(self).sees(TokenKind::LParen),
        ensures
            old(self).tokens@[old(self).current + 1].kind != TokenKind::RParen && old(self).tokens@[old(self).current + 1].kind != TokenKind::Ident ==> r is None,
            final(self).tokens@ == old(self).tokens@,
            final(self).texts@ == old(self).texts@,
            final(self).depth == old(self).depth,
            final(self).tmp_counter == old(self).tmp_counter,
            final(self).wf(),
            old(self).current < final(self).current,
            r is Some ==> final(self).tokens@[final(self).current - 1].kind == TokenKind::Arrow,
    {
        self.advance();
        let mut params: Vec<String> = Vec::new();
        if self.check(TokenKind::RParen) {
            self.advance();
        } else {
            loop
                invariant
                    self.tokens@ == old(self).tokens@,
                    self.texts@ == old(self).texts@,
                    self.depth == old(self).depth,
                    self.tmp_counter == old(self).tmp_counter,
                    self.wf(),
                    old(self).current < self.current,
                    old(self).tokens@[old(self).current + 1].kind != TokenKind::RParen && old(self).tokens@[old(self).current
                        + 1].kind != TokenKind::Ident ==> self.current == old(self).current + 1,
                decreases self.tokens@.len() - self.current,
            {
                if !self.check(TokenKind::Ident) {
                    return None;
                }
                let tok_idx = self.current;
                self.advance();
                params.push(self.text_of(tok_idx));
                if !self.match_kind(TokenKind::Comma) {
                    break;
                }
            }
            if !self.check(TokenKind::RParen) {
                return None;
            }
            self.advance();
        }
        if !self.check(TokenKind::Arrow) {
            return None;
        }
        self.advance();
        Some(params)
    }
}

/// The expression an assignment target denotes (see
/// `Parser::expr_to_assign_target`): a variable, an element or a field.
pub open spec fn assignable(e: Expr) -> bool {
    e is Ident || e is Index || e is Field
}

impl Parser {
    /// Turns an expression on the left of `=` into an assignment target.
    fn expr_to_assign_target(&self, expr: Expr) -> (r: Result<AssignTarget, ParseError>)
        ensures
            r is Ok <==> assignable(expr),
            expr matches Expr::Ident { name, .. } ==> r == Ok::<AssignTarget, ParseError>(AssignTarget::Ident { name }),
            expr matches Expr::Index { object, index, .. } ==> r == Ok::<AssignTarget, ParseError>(AssignTarget::Index { object, index }),
            expr matches Expr::Field { object, name, .. } ==> r == Ok::<AssignTarget, ParseError>(AssignTarget::Field { object, name }),
            r matches Err(e) ==> e.message@ == "invalid assignment target"@ && e.line == expr.span_of().line
                && e.column == expr.span_of().column,
    {
        match expr {
            Expr::Ident { name, .. } => Ok(AssignTarget::Ident { name }),
            Expr::Index { object, index, .. } => Ok(AssignTarget::Index { object, index }),
            Expr::Field { object, name, .. } => Ok(AssignTarget::Field { object, name }),
            _ => {
                let span = *expr.span();
                Err(ParseError { message: "invalid assignment target".to_owned(), line: span.line, column: span.column })
            },
        }
    }

    /// A copy of an assignment target as an expression that reads it, for
    /// the left operand of a compound assignment.
    fn assign_target_to_expr(&self, expr: &Expr) -> (r: Result<Expr, ParseError>)
        ensures
            r is Ok <==> assignable(*expr),
            r matches Ok(e) ==> e.view() == expr.view(),
            r matches Err(e) ==> e.message@ == "invalid assignment target"@ && e.line == expr.span_of().line
                && e.column == expr.span_of().column,
    {
        match expr {
            Expr::Ident { name, span } => Ok(Expr::Ident { name: name.clone(), span: *span }),
            Expr::Index { object, index, span } => Ok(Expr::Index { object: Box::new(object.deep_copy()), index: Box::new(index.deep_copy()), span: *span }),
            Expr::Field { object, name, span } => Ok(Expr::Field { object: Box::new(object.deep_copy()), name: name.clone(), span: *span }),
            _ => {
                let span = *expr.span();
                Err(ParseError { message: "invalid assignment target".to_owned(), line: span.line, column: span.column })
            },
        }
    }

    /// Desugars `left |> right`: a call on the right gets `left` as its new
    /// first argument; anything else is called with `left` alone.
    fn desugar_pipe(&self, left: Expr, right: Expr, span: Span) -> (r: Expr)
        ensures
            right matches Expr::Call { callee, args, span: call_span } ==> (r matches Expr::Call { callee: c, args: a, span: s }
                && c == callee && a@ == seq![left] + args@ && s == call_span),
            !(right is Call) ==> (r matches Expr::Call { callee: c, args: a, span: s } && *c == right && a@ == seq![left] && s == span),
            forall|t: Seq<Token>|
                expr_on(left.view(), t) && expr_on(right.view(), t) && span_on(span, t) ==> #[trigger] expr_on(r.view(), t),
    {
        let ghost lv = left.view();
        let ghost lx = left;
        let ghost rv = right.view();
        match right {
            Expr::Call { callee, mut args, span: call_span } => {
                let ghost old_args = args@;
                assert(rv == ExprV::Call { callee: Box::new((*callee).view()), args: exprs_view(old_args), span: call_span });
                args.insert(0, left);
                proof {
                    assert(args@ =~= seq![lx] + old_args);
                    lemma_exprs_view_prepend(lx, old_args);
                    assert forall|t: Seq<Token>| #[trigger] exprs_on(exprs_view(args@), t) == (expr_on(lv, t)
                        && exprs_on(exprs_view(old_args), t)) by {
                        lemma_exprs_on_prepend(lv, exprs_view(old_args), t);
                    }
                }
                let res = Expr::Call { callee, args, span: call_span };
                assert forall|t: Seq<Token>| expr_on(lv, t) && expr_on(rv, t) && span_on(span, t) implies #[trigger] expr_on(res.view(), t) by {
                    assert(exprs_on(exprs_view(args@), t));
                }
                res
            },
            _ => {
                let mut args: Vec<Expr> = Vec::new();
                args.push(left);
                proof {
                    assert(args@ =~= seq![lx] + Seq::<Expr>::empty());
                    lemma_exprs_view_prepend(lx, Seq::<Expr>::empty());
                    assert forall|t: Seq<Token>| #[trigger] exprs_on(exprs_view(args@), t) == (expr_on(lv, t)
                        && exprs_on(exprs_view(Seq::<Expr>::empty()), t)) by {
                        lemma_exprs_on_prepend(lv, exprs_view(Seq::<Expr>::empty()), t);
                    }
                }
                let res = Expr::Call { callee: Box::new(right), args, span };
                assert forall|t: Seq<Token>| expr_on(lv, t) && expr_on(rv, t) && span_on(span, t) implies #[trigger] expr_on(res.view(), t) by {
                    assert(exprs_on(exprs_view(args@), t));
                    assert(exprs_on(Seq::<ExprV>::empty(), t));
                }
                res
            },
        }
    }

    /// Reads a function's parameter names, separated by commas (the keyword
    /// `fn` is accepted as a name); stops before `)`.
    fn parse_params(&mut self) -> (r: Result<Vec<String>, ParseError>)
        requires
            old(self).wf(),
        ensures
            params_at(old(self).tokens@, old(self).text_seq(), old(self).current as int) matches Some((ps, n))
                ==> (r matches Ok(v) && names_view(v@) == ps && final(self).current == n),
            r matches Err(e) ==> at_token(e.line, e.column, old(self).tokens@),
            final(self).moved_on(*old(self)),
            final(self).tmp_counter == old(self).tmp_counter,
    {
        let mut params: Vec<String> = Vec::new();
        assert(names_view(params@) =~= Seq::<Seq<char>>::empty());
        if !self.check(TokenKind::RParen) {
            loop
                invariant_except_break
                    params_at(old(self).tokens@, old(self).text_seq(), old(self).current as int) is Some ==> params_from(
                        old(self).tokens@, old(self).text_seq(),
                        self.current as int,
                        names_view(params@),
                    ) == params_at(old(self).tokens@, old(self).text_seq(), old(self).current as int),
                invariant
                    self.moved_on(*old(self)),
                    self.tmp_counter == old(self).tmp_counter,
                ensures
                    params_at(old(self).tokens@, old(self).text_seq(), old(self).current as int) is Some ==> params_at(old(self).tokens@, old(self).text_seq(), old(self).current as int) == Some(
                        (names_view(params@), self.current as int),
                    ),
                decreases self.tokens@.len() - self.current,
            {
                let ghost i = self.current as int;
                let ghost acc = names_view(params@);
                if self.check(TokenKind::Fn) {
                    self.advance();
                } else {
                    self.consume(TokenKind::Ident, "expected parameter name")?;
                }
                let name = self.text_of(self.current - 1);
                let ghost ps0 = params@;
                params.push(name);
                proof {
                    assert(names_view(params@) =~= acc.push(old(self).text_seq()[i]));
                }
                if !self.match_kind(TokenKind::Comma) {
                    break;
                }
            }
        }
        Ok(params)
    }

    /// A statement or declaration: an import, a named function, or a statement.
    #[verifier::rlimit(60)]
    fn declaration(&mut self) -> (r: Result<Stmt, ParseError>)
        requires
            old(self).wf(),
        ensures
            assign_at(old(self).tokens@, old(self).text_seq(), old(self).current as int, old(self).depth as int, old(self).tmp_counter as nat) matches Some((a, n, m))
                ==> (r matches Ok(st) && st.view() == a && final(self).current == n && final(self).tmp_counter == m),
            declaration_at(old(self).tokens@, old(self).text_seq(), old(self).current as int, old(self).depth as int, old(self).tmp_counter as nat) matches Some((e, n, m))
                ==> (r matches Ok(st) && st.view() == StmtV::Expr(e) && final(self).current == n && final(self).tmp_counter == m),
            statement_at(old(self).tokens@, old(self).text_seq(), old(self).current as int, old(self).depth as int, old(self).tmp_counter as nat) matches Some((e, n, m))
                ==> (r matches Ok(st) && st.view() == StmtV::Expr(e) && final(self).current == n && final(self).tmp_counter == m),
            old(self).frag(8) matches Some((e, n, m)) ==> (r matches Ok(st) && st.view() == StmtV::Expr(e) && final(self).current == n
                && final(self).tmp_counter == m),
            old(self).depth < MAX_PARSER_DEPTH && deep_parens(old(self).tokens@, old(self).current as int, 64 - old(self).depth) ==> (r matches Err(e) && e.message@ == expression_nesting_message()),
            declaration_import_at(old(self).tokens@, old(self).text_seq(), old(self).current as int) matches Some(o)
                ==> import_outcome(r, o, old(self).tokens@, final(self).current as int),
            r matches Ok(st) ==> stmt_on(st.view(), old(self).tokens@),
            r matches Err(e) ==> at_token(e.line, e.column, old(self).tokens@),
            final(self).moved_on(*old(self)),
            r is Ok ==> old(self).current < final(self).current,
        decreases old(self).tokens@.len() - old(self).current, 98nat,
    {
        assert(old(self).frag(8) is Some ==> leaf_kind(old(self).cur().kind) || old(self).cur().kind == TokenKind::Minus
            || old(self).cur().kind == TokenKind::Bang) by {
            reveal(frag_comparison);
        }
        proof {
            lemma_comparison_start(old(self).tokens@, old(self).text_seq(), old(self).current as int, old(self).depth as int + 1, old(self).tmp_counter as nat);
        }
        proof {
            let t = old(self).tokens@;
            let c = old(self).current as int;
            let m = 64 - old(self).depth;
            if deep_parens(t, c, m) {
                if m >= 1 {
                    assert(t[c].kind == TokenKind::LParen);
                    assert(deep_parens(t, c + 1, m - 1));
                }
                if m >= 2 {
                    assert(t[c + 1].kind == TokenKind::LParen);
                }
            }
        }
        if self.check(TokenKind::Import) {
            return self.parse_import(false);
        }
        if self.check(TokenKind::Lazy) {
            return self.parse_lazy_import();
        }
        if self.check_if(TokenKind::is_fn) {
            let next_is_lparen = self.tokens.len() - self.current > 1 && self.tokens[self.current + 1].kind == TokenKind::LParen;
            if next_is_lparen {
                return self.statement();
            }
            return self.fn_declaration();
        }
        self.statement()
    }

    /// `import path [as alias]`, the path a string or a name.
    fn parse_import(&mut self, lazy: bool) -> (r: Result<Stmt, ParseError>)
        requires
            old(self).wf(),
            old(self).sees(TokenKind::Import),
        ensures
            import_outcome(r, import_at(old(self).tokens@, old(self).text_seq(), old(self).current as int, lazy),
                old(self).tokens@, final(self).current as int),
            r matches Ok(st) ==> stmt_on(st.view(), old(self).tokens@),
            r matches Err(e) ==> at_token(e.line, e.column, old(self).tokens@),
            final(self).moved_on(*old(self)),
            final(self).tmp_counter == old(self).tmp_counter,
            r is Ok ==> old(self).current < final(self).current,
    {
        let import_token = self.peek();
        let span = self.span_at(&import_token);
        self.advance();
        let path = if self.is_at_end() {
            return Err(self.error_here("unexpected EOF after import"));
        } else if self.check(TokenKind::String) {
            self.advance();
            self.text_of(self.current - 1)
        } else if self.check(TokenKind::Ident) {
            self.advance();
            self.text_of(self.current - 1)
        } else {
            return Err(self.error_here("expected string literal or identifier after import"));
        };
        let alias = if self.match_kind(TokenKind::As) {
            if self.check(TokenKind::Ident) {
                self.advance();
                Some(self.text_of(self.current - 1))
            } else {
                return Err(self.error_here("expected identifier after as"));
            }
        } else {
            None
        };
        Ok(Stmt::Import { path, lazy, alias, span })
    }

    /// `lazy import ...`.
    fn parse_lazy_import(&mut self) -> (r: Result<Stmt, ParseError>)
        requires
            old(self).wf(),
            old(self).sees(TokenKind::Lazy),
        ensures
            import_outcome(r, lazy_import_at(old(self).tokens@, old(self).text_seq(), old(self).current as int),
                old(self).tokens@, final(self).current as int),
            r matches Ok(st) ==> stmt_on(st.view(), old(self).tokens@),
            r matches Err(e) ==> at_token(e.line, e.column, old(self).tokens@),
            final(self).moved_on(*old(self)),
            final(self).tmp_counter == old(self).tmp_counter,
            r is Ok ==> old(self).current < final(self).current,
    {
        self.advance();
        if !self.check(TokenKind::Import) {
            return Err(self.error_here("expected import after lazy"));
        }
        self.parse_import(true)
    }

    /// `fn name(params) { body }`.
    fn fn_declaration(&mut self) -> (r: Result<Stmt, ParseError>)
        requires
            old(self).wf(),
        ensures
            fn_at(old(self).tokens@, old(self).text_seq(), old(self).current as int, old(self).depth as int, old(self).tmp_counter as nat) matches Some((e, n, m))
                ==> (r matches Ok(st) && st.view() == StmtV::Expr(e) && final(self).current == n && final(self).tmp_counter == m),
            r matches Ok(st) ==> stmt_on(st.view(), old(self).tokens@),
            r matches Err(e) ==> at_token(e.line, e.column, old(self).tokens@),
            final(self).moved_on(*old(self)),
            r is Ok ==> old(self).current < final(self).current,
        decreases old(self).tokens@.len() - old(self).current, 97nat,
    {
        proof {
            assert(self.text_seq() == old(self).text_seq());
        }
        let fn_token = self.consume_if(TokenKind::is_fn, "expected 'fn' or '函数'")?;
        let span = self.span_at(&fn_token);
        let name = if self.check(TokenKind::Ident) {
            self.advance();
            Some(self.text_of(self.current - 1))
        } else {
            None
        };
        self.consume(TokenKind::LParen, "expected '(' after function name")?;
        let params = self.parse_params()?;
        self.consume(TokenKind::RParen, "expected ')' after parameters")?;
        self.consume(TokenKind::LBrace, "expected '{' before function body")?;
        let body = self.block()?;
        Ok(Stmt::Expr(Expr::Fn { name, params, body, span }))
    }

    /// A statement: a control-flow statement, a block, or an expression
    /// statement (possibly an assignment).
    #[verifier::rlimit(60)]
    fn statement(&mut self) -> (r: Result<Stmt, ParseError>)
        requires
            old(self).wf(),
        ensures
            assign_at(old(self).tokens@, old(self).text_seq(), old(self).current as int, old(self).depth as int, old(self).tmp_counter as nat) matches Some((a, n, m))
                ==> (r matches Ok(st) && st.view() == a && final(self).current == n && final(self).tmp_counter == m),
            statement_at(old(self).tokens@, old(self).text_seq(), old(self).current as int, old(self).depth as int, old(self).tmp_counter as nat) matches Some((e, n, m))
                ==> (r matches Ok(st) && st.view() == StmtV::Expr(e) && final(self).current == n && final(self).tmp_counter == m),
            old(self).frag(8) matches Some((e, n, m)) ==> (r matches Ok(st) && st.view() == StmtV::Expr(e) && final(self).current == n
                && final(self).tmp_counter == m),
            old(self).depth < MAX_PARSER_DEPTH && deep_parens(old(self).tokens@, old(self).current as int, 64 - old(self).depth) ==> (r matches Err(e) && e.message@ == expression_nesting_message()),
            r matches Ok(st) ==> stmt_on(st.view(), old(self).tokens@),
            r matches Err(e) ==> at_token(e.line, e.column, old(self).tokens@),
            final(self).moved_on(*old(self)),
            r is Ok ==> old(self).current < final(self).current,
        decreases old(self).tokens@.len() - old(self).current, 96nat,
    {
        assert(old(self).frag(8) is Some ==> leaf_kind(old(self).cur().kind) || old(self).cur().kind == TokenKind::Minus
            || old(self).cur().kind == TokenKind::Bang) by {
            reveal(frag_comparison);
        }
        proof {
            lemma_comparison_start(old(self).tokens@, old(self).text_seq(), old(self).current as int, old(self).depth as int + 1, old(self).tmp_counter as nat);
        }
        proof {
            let t = old(self).tokens@;
            let c = old(self).current as int;
            let m = 64 - old(self).depth;
            if deep_parens(t, c, m) {
                if m >= 1 {
                    assert(t[c].kind == TokenKind::LParen);
                    assert(deep_parens(t, c + 1, m - 1));
                }
                if m >= 2 {
                    assert(t[c + 1].kind == TokenKind::LParen);
                }
            }
        }
        if self.check_if(TokenKind::is_if) {
            return self.if_expr_stmt();
        }
        if self.check_if(TokenKind::is_while) {
            return self.while_expr_stmt();
        }
        if self.check_if(TokenKind::is_loop) {
            return self.loop_expr_stmt();
        }
        if self.check_if(TokenKind::is_for) {
            return self.for_expr_stmt();
        }
        if self.check_if(TokenKind::is_return) {
            return self.return_stmt();
        }
        if self.check_if(TokenKind::is_break) {
            return self.break_stmt();
        }
        if self.check_if(TokenKind::is_continue) {
            return self.continue_stmt();
        }
        if self.check(TokenKind::Try) {
            return self.try_expr_stmt();
        }
        if self.check(TokenKind::Match) {
            return self.match_expr_stmt();
        }
        if self.check(TokenKind::LBrace) && !self.is_dict_literal() {
            return self.block_stmt();
        }
        self.expr_statement()
    }

    /// An `if` as a statement.
    fn if_expr_stmt(&mut self) -> (r: Result<Stmt, ParseError>)
        requires
            old(self).wf(),
        ensures
            if_at(old(self).tokens@, old(self).text_seq(), old(self).current as int, old(self).depth as int, old(self).tmp_counter as nat) matches Some((e, n, m))
                ==> (r matches Ok(st) && st.view() == StmtV::Expr(e) && final(self).current == n && final(self).tmp_counter == m),
            r matches Ok(st) ==> stmt_on(st.view(), old(self).tokens@),
            r matches Err(e) ==> at_token(e.line, e.column, old(self).tokens@),
            final(self).moved_on(*old(self)),
            r is Ok ==> old(self).current < final(self).current,
        decreases old(self).tokens@.len() - old(self).current, 95nat,
    {
        match self.if_expr()? {
            Some(expr) => Ok(Stmt::Expr(expr)),
            None => Err(self.error_here("expected 'if' or '如果'")),
        }
    }

    /// A `match` as a statement.
    fn match_expr_stmt(&mut self) -> (r: Result<Stmt, ParseError>)
        requires
            old(self).wf(),
        ensures
            match_at(old(self).tokens@, old(self).text_seq(), old(self).current as int, old(self).depth as int, old(self).tmp_counter as nat) matches Some((e, n, m))
                ==> (r matches Ok(st) && st.view() == StmtV::Expr(e) && final(self).current == n && final(self).tmp_counter == m),
            r matches Ok(st) ==> stmt_on(st.view(), old(self).tokens@),
            r matches Err(e) ==> at_token(e.line, e.column, old(self).tokens@),
            final(self).moved_on(*old(self)),
            r is Ok ==> old(self).current < final(self).current,
        decreases old(self).tokens@.len() - old(self).current, 95nat,
    {
        let expr = self.match_expr()?;
        Ok(Stmt::Expr(expr))
    }

    /// `match (scrutinee) { pattern => value, ... }`; a comma after the last
    /// arm is optional.
    fn match_expr(&mut self) -> (r: Result<Expr, ParseError>)
        requires
            old(self).wf(),
        ensures
            match_at(old(self).tokens@, old(self).text_seq(), old(self).current as int, old(self).depth as int, old(self).tmp_counter as nat) matches Some((e, n, m))
                ==> (r matches Ok(q) && q.view() == e && final(self).current == n && final(self).tmp_counter == m),
            r matches Ok(e) ==> expr_on(e.view(), old(self).tokens@),
            r matches Err(e) ==> at_token(e.line, e.column, old(self).tokens@),
            r matches Ok(e) ==> at_token(e.span_of().line, e.span_of().column, old(self).tokens@),
            final(self).moved_on(*old(self)),
            r is Ok ==> old(self).current < final(self).current,
        decreases old(self).tokens@.len() - old(self).current, 50nat,
    {
        self.consume(TokenKind::Match, "expected 'match' or '匹配'")?;
        let span = self.span_here();
        self.consume(TokenKind::LParen, "expected '(' after match")?;
        let scrutinee = self.expression()?;
        self.consume(TokenKind::RParen, "expected ')' after match expression")?;
        self.consume(TokenKind::LBrace, "expected '{' to start match arms")?;
        let mut arms: Vec<MatchArm> = Vec::new();
        let ghost a0 = self.current as int;
        let ghost ma0 = self.tmp_counter as nat;
        assert(arms_view(arms@) =~= Seq::<MatchArmV>::empty());
        proof {
            assert(self.text_seq() == old(self).text_seq());
        }
        if !self.check(TokenKind::RBrace) {
            loop
                invariant_except_break
                    match_at(old(self).tokens@, old(self).text_seq(), old(self).current as int, old(self).depth as int, old(self).tmp_counter as nat) is Some ==> arms_from(
                        old(self).tokens@, old(self).text_seq(),
                        self.current as int,
                        old(self).depth as int,
                        self.tmp_counter as nat,
                        arms_view(arms@),
                    ) == match_arms_at(old(self).tokens@, old(self).text_seq(), a0, old(self).depth as int, ma0),
                invariant
                    match_at(old(self).tokens@, old(self).text_seq(), old(self).current as int, old(self).depth as int, old(self).tmp_counter as nat) is Some ==> match_arms_at(old(self).tokens@, old(self).text_seq(), a0, old(self).depth as int, ma0) is Some,
                    match_at(old(self).tokens@, old(self).text_seq(), old(self).current as int, old(self).depth as int, old(self).tmp_counter as nat) is Some ==> a0 < self.tokens@.len() && self.tokens@[a0].kind != TokenKind::RBrace,
                    arms_on(arms_view(arms@), self.tokens@),
                    self.moved_on(*old(self)),
                    old(self).current < self.current,
                ensures
                    match_at(old(self).tokens@, old(self).text_seq(), old(self).current as int, old(self).depth as int, old(self).tmp_counter as nat) is Some ==> self.tokens@[self.current as int].kind == TokenKind::RBrace && match_arms_at(
                        old(self).tokens@, old(self).text_seq(),
                        a0,
                        old(self).depth as int,
                        ma0,
                    ) == Some((arms_view(arms@), self.current as int + 1, self.tmp_counter as nat)),
                decreases self.tokens@.len() - self.current,
            {
                let ghost i = self.current as int;
                let ghost acc = arms_view(arms@);
                let ghost mi = self.tmp_counter as nat;
                proof {
                    assert(self.text_seq() == old(self).text_seq());
                }
                let pattern = self.parse_match_pattern()?;
                self.consume(TokenKind::Arrow, "expected '=>' in match arm")?;
                let body = self.expression()?;
                push_arm(&mut arms, MatchArm { pattern, body });
                if !self.match_kind(TokenKind::Comma) {
                    if !self.check(TokenKind::RBrace) {
                        return Err(self.error_here("expected ',' or '}' after match arm"));
                    }
                    break;
                }
                if self.check(TokenKind::RBrace) {
                    break;
                }
                proof {
                    if match_at(old(self).tokens@, old(self).text_seq(), old(self).current as int, old(self).depth as int, old(self).tmp_counter as nat) is Some {
                        assert(arms_from(old(self).tokens@, old(self).text_seq(), i, old(self).depth as int, mi, acc) == arms_from(
                            old(self).tokens@, old(self).text_seq(),
                            self.current as int,
                            old(self).depth as int,
                            self.tmp_counter as nat,
                            arms_view(arms@),
                        ));
                    }
                }
            }
        }
        self.consume(TokenKind::RBrace, "expected '}' after match arms")?;
        assert(expr_on(scrutinee.view(), old(self).tokens@));
        assert(arms_on(arms_view(arms@), old(self).tokens@));
        assert(span_on(span, old(self).tokens@));
        Ok(Expr::Match { scrutinee: Box::new(scrutinee), arms, span })
    }

    /// A match pattern: `_`, a variable, a literal (a number may be
    /// negative), or a range of two such operands.
    fn parse_match_pattern(&mut self) -> (r: Result<MatchPattern, ParseError>)
        requires
            old(self).wf(),
        ensures
            simple_pattern(old(self).tokens@, old(self).text_seq(), old(self).current as int) is Some ==> final(self).tmp_counter == old(self).tmp_counter,
            simple_pattern(old(self).tokens@, old(self).text_seq(), old(self).current as int) matches Some((p, n))
                ==> (r matches Ok(q) && q.view() == p && final(self).current == n),
            r matches Ok(p) ==> pattern_on(p.view(), old(self).tokens@),
            r matches Err(e) ==> at_token(e.line, e.column, old(self).tokens@),
            final(self).moved_on(*old(self)),
            r is Ok ==> old(self).current < final(self).current,
        decreases old(self).tokens@.len() - old(self).current, 82nat,
    {
        let ghost c = self.current as int;
        proof {
            assert(self.text_seq()[c] == self.texts@[c]@);
        }
        let underscore = ['_'];
        assert(underscore@ =~= seq!['_']);
        if self.check(TokenKind::Ident) && self.text_is(self.current, &underscore) {
            self.advance();
            return Ok(MatchPattern::Wildcard);
        }
        if self.check(TokenKind::Ident) && !self.check_if(TokenKind::is_true) && !self.check_if(TokenKind::is_false)
            && !self.check_if(TokenKind::is_nil) {
            let range_follows = self.tokens.len() - self.current > 1 && (self.tokens[self.current + 1].kind == TokenKind::DotDot
                || self.tokens[self.current + 1].kind == TokenKind::DotDotLt);
            if !range_follows {
                self.advance();
                let name = self.text_of(self.current - 1);
                return Ok(MatchPattern::Variable(name));
            }
        }
        proof {
            if simple_pattern(self.tokens@, self.text_seq(), c) is Some {
                assert(simple_pattern(self.tokens@, self.text_seq(), c) == operand_pattern(self.tokens@, self.text_seq(), c));
                assert(simple_operand(self.tokens@, self.text_seq(), c) is Some);
            }
        }
        let first = self.neg_number_or_call()?;
        let ghost j = self.current as int;
        if self.check(TokenKind::DotDot) || self.check(TokenKind::DotDotLt) {
            let inclusive = self.check(TokenKind::DotDot);
            self.advance();
            proof {
                if simple_pattern(old(self).tokens@, old(self).text_seq(), c) is Some {
                    assert(simple_operand(old(self).tokens@, old(self).text_seq(), j + 1) is Some);
                }
            }
            let end = self.neg_number_or_call()?;
            return Ok(MatchPattern::Range { start: Box::new(first), end: Box::new(end), inclusive });
        }
        let is_literal = match &first {
            Expr::Number { .. } | Expr::String { .. } | Expr::Bool { .. } | Expr::Nil { .. } => true,
            _ => false,
        };
        proof {
            let fv = first.view();
            assert(is_literal <==> (fv is Number || fv is String || fv is Bool || fv is Nil));
        }
        if is_literal {
            Ok(MatchPattern::Literal(first))
        } else {
            let span = *first.span();
            Err(ParseError {
                message: "match pattern must be a literal, variable, range, or '_'".to_owned(),
                line: span.line,
                column: span.column,
            })
        }
    }

    /// An operand of a match pattern: `-` followed by a number makes a
    /// negative number literal; anything else is a postfix expression.
    fn neg_number_or_call(&mut self) -> (r: Result<Expr, ParseError>)
        requires
            old(self).wf(),
        ensures
            simple_operand(old(self).tokens@, old(self).text_seq(), old(self).current as int) is Some ==> final(self).tmp_counter == old(self).tmp_counter,
            simple_operand(old(self).tokens@, old(self).text_seq(), old(self).current as int) matches Some((e, n)) ==> (r matches Ok(q) && q.view() == e && final(self).current == n),
            r matches Ok(e) ==> expr_on(e.view(), old(self).tokens@),
            r matches Err(e) ==> at_token(e.line, e.column, old(self).tokens@),
            r matches Ok(e) ==> at_token(e.span_of().line, e.span_of().column, old(self).tokens@),
            final(self).moved_on(*old(self)),
            r is Ok ==> old(self).current < final(self).current,
        decreases old(self).tokens@.len() - old(self).current, 81nat,
    {
        if self.check(TokenKind::Minus) && self.tokens.len() - self.current > 1 && self.tokens[self.current + 1].kind == TokenKind::Number {
            let span = self.span_here();
            self.advance();
            self.advance();
            let text = self.text_of(self.current - 1);
            let mut value = "-".to_owned();
            push_str(&mut value, text.as_str());
            Ok(Expr::Number { value, span })
        } else {
            self.call()
        }
    }

    /// `if condition { ... } [else if ... | else { ... }]`; `None` when the
    /// current token is not `if`.
    fn if_expr(&mut self) -> (r: Result<Option<Expr>, ParseError>)
        requires
            old(self).wf(),
        ensures
            if_at(old(self).tokens@, old(self).text_seq(), old(self).current as int, old(self).depth as int, old(self).tmp_counter as nat) matches Some((e, n, m))
                ==> (r matches Ok(Some(q)) && q.view() == e && final(self).current == n && final(self).tmp_counter == m),
            r matches Ok(Some(e)) ==> expr_on(e.view(), old(self).tokens@),
            r matches Err(e) ==> at_token(e.line, e.column, old(self).tokens@),
            r matches Ok(Some(e)) ==> at_token(e.span_of().line, e.span_of().column, old(self).tokens@),
            final(self).moved_on(*old(self)),
            r matches Ok(Some(_)) ==> old(self).current < final(self).current,
            r matches Ok(None) ==> final(self).read_only(*old(self), 0),
        decreases old(self).tokens@.len() - old(self).current, 50nat,
    {
        proof {
            assert(self.text_seq() == old(self).text_seq());
        }
        if self.check_if(TokenKind::is_if) {
            self.advance();
            let span = self.span_here();
            let condition = self.expression()?;
            self.consume(TokenKind::LBrace, "expected '{' after if condition")?;
            let then_branch = self.block()?;
            let else_branch = if self.match_if(TokenKind::is_else) {
                if self.check_if(TokenKind::is_if) {
                    match self.if_expr()? {
                        Some(inner) => {
                            assert(expr_on(inner.view(), old(self).tokens@));
                            Some(Box::new(inner))
                        },
                        None => {
                            return Err(self.error_here("if_expr returned None after is_if check (internal parser inconsistency)"));
                        },
                    }
                } else {
                    self.consume(TokenKind::LBrace, "expected '{' after else")?;
                    let else_block = self.block()?;
                    let block_expr = Expr::Block { statements: else_block, span };
                    assert(span_on(span, old(self).tokens@));
                    assert(expr_on(block_expr.view(), old(self).tokens@));
                    Some(Box::new(block_expr))
                }
            } else {
                None
            };
            assert(span_on(span, old(self).tokens@));
            assert(expr_on(condition.view(), old(self).tokens@));
            assert(stmts_on(stmts_view(then_branch@), old(self).tokens@));
            assert(match else_branch {
                Some(b) => expr_on((*b).view(), old(self).tokens@),
                None => true,
            });
            let ghost ev = opt_expr_view(else_branch);
            assert(match ev {
                Some(b) => expr_on(*b, old(self).tokens@),
                None => true,
            });
            let ghost cv = condition.view();
            let ghost tv = stmts_view(then_branch@);
            let res = Expr::If { condition: Box::new(condition), then_branch, else_branch, span };
            assert(res.view() == ExprV::If { condition: Box::new(cv), then_branch: tv, else_branch: ev, span });
            Ok(Some(res))
        } else {
            Ok(None)
        }
    }

    /// `loop { ... }`.
    fn loop_expr(&mut self) -> (r: Result<Expr, ParseError>)
        requires
            old(self).wf(),
        ensures
            loop_at(old(self).tokens@, old(self).text_seq(), old(self).current as int, old(self).depth as int, old(self).tmp_counter as nat) matches Some((e, n, m))
                ==> (r matches Ok(q) && q.view() == e && final(self).current == n && final(self).tmp_counter == m),
            r matches Ok(e) ==> expr_on(e.view(), old(self).tokens@),
            r matches Err(e) ==> at_token(e.line, e.column, old(self).tokens@),
            r matches Ok(e) ==> at_token(e.span_of().line, e.span_of().column, old(self).tokens@),
            final(self).moved_on(*old(self)),
            r is Ok ==> old(self).current < final(self).current,
        decreases old(self).tokens@.len() - old(self).current, 50nat,
    {
        proof {
            assert(self.text_seq() == old(self).text_seq());
        }
        self.consume_if(TokenKind::is_loop, "expected 'loop' or '循环'")?;
        let span = self.span_here();
        self.consume(TokenKind::LBrace, "expected '{' after loop")?;
        let body = self.block()?;
        Ok(Expr::Loop { body, span })
    }

    /// `while condition { ... }`; `None` when the current token is not `while`.
    fn while_expr(&mut self) -> (r: Result<Option<Expr>, ParseError>)
        requires
            old(self).wf(),
        ensures
            while_at(old(self).tokens@, old(self).text_seq(), old(self).current as int, old(self).depth as int, old(self).tmp_counter as nat) matches Some((e, n, m))
                ==> (r matches Ok(Some(q)) && q.view() == e && final(self).current == n && final(self).tmp_counter == m),
            r matches Ok(Some(e)) ==> expr_on(e.view(), old(self).tokens@),
            r matches Err(e) ==> at_token(e.line, e.column, old(self).tokens@),
            r matches Ok(Some(e)) ==> at_token(e.span_of().line, e.span_of().column, old(self).tokens@),
            final(self).moved_on(*old(self)),
            r matches Ok(Some(_)) ==> old(self).current < final(self).current,
            r matches Ok(None) ==> final(self).read_only(*old(self), 0),
        decreases old(self).tokens@.len() - old(self).current, 50nat,
    {
        proof {
            assert(self.text_seq() == old(self).text_seq());
        }
        if self.check_if(TokenKind::is_while) {
            self.advance();
            let span = self.span_here();
            let condition = self.expression()?;
            self.consume(TokenKind::LBrace, "expected '{' after while condition")?;
            let body = self.block()?;
            Ok(Some(Expr::While { condition: Box::new(condition), body, span }))
        } else {
            Ok(None)
        }
    }

    /// A `while` as a statement.
    fn while_expr_stmt(&mut self) -> (r: Result<Stmt, ParseError>)
        requires
            old(self).wf(),
        ensures
            while_at(old(self).tokens@, old(self).text_seq(), old(self).current as int, old(self).depth as int, old(self).tmp_counter as nat) matches Some((e, n, m))
                ==> (r matches Ok(st) && st.view() == StmtV::Expr(e) && final(self).current == n && final(self).tmp_counter == m),
            r matches Ok(st) ==> stmt_on(st.view(), old(self).tokens@),
            r matches Err(e) ==> at_token(e.line, e.column, old(self).tokens@),
            final(self).moved_on(*old(self)),
            r is Ok ==> old(self).current < final(self).current,
        decreases old(self).tokens@.len() - old(self).current, 95nat,
    {
        match self.while_expr()? {
            Some(expr) => Ok(Stmt::Expr(expr)),
            None => Err(self.error_here("expected 'while' or '当'")),
        }
    }

    /// A `loop` as a statement.
    fn loop_expr_stmt(&mut self) -> (r: Result<Stmt, ParseError>)
        requires
            old(self).wf(),
        ensures
            loop_at(old(self).tokens@, old(self).text_seq(), old(self).current as int, old(self).depth as int, old(self).tmp_counter as nat) matches Some((e, n, m))
                ==> (r matches Ok(st) && st.view() == StmtV::Expr(e) && final(self).current == n && final(self).tmp_counter == m),
            r matches Ok(st) ==> stmt_on(st.view(), old(self).tokens@),
            r matches Err(e) ==> at_token(e.line, e.column, old(self).tokens@),
            final(self).moved_on(*old(self)),
            r is Ok ==> old(self).current < final(self).current,
        decreases old(self).tokens@.len() - old(self).current, 95nat,
    {
        Ok(Stmt::Expr(self.loop_expr()?))
    }

    /// `for name in iterable { ... }`.
    fn for_expr_stmt(&mut self) -> (r: Result<Stmt, ParseError>)
        requires
            old(self).wf(),
        ensures
            for_at(old(self).tokens@, old(self).text_seq(), old(self).current as int, old(self).depth as int, old(self).tmp_counter as nat) matches Some((e, n, m))
                ==> (r matches Ok(st) && st.view() == StmtV::Expr(e) && final(self).current == n && final(self).tmp_counter == m),
            r matches Ok(st) ==> stmt_on(st.view(), old(self).tokens@),
            r matches Err(e) ==> at_token(e.line, e.column, old(self).tokens@),
            final(self).moved_on(*old(self)),
            r is Ok ==> old(self).current < final(self).current,
        decreases old(self).tokens@.len() - old(self).current, 95nat,
    {
        proof {
            assert(self.text_seq() == old(self).text_seq());
        }
        self.consume_if(TokenKind::is_for, "expected 'for' or '遍历'")?;
        let span = self.span_here();
        self.consume(TokenKind::Ident, "expected variable name in for")?;
        let var_name = self.text_of(self.current - 1);
        self.consume_if(TokenKind::is_in, "expected 'in' or '在' after for variable")?;
        let iterable = self.expression()?;
        self.consume(TokenKind::LBrace, "expected '{' after for-in iterable")?;
        let body = self.block()?;
        Ok(Stmt::Expr(Expr::ForIn { var_name, iterable: Box::new(iterable), body, span }))
    }

    /// `return [value]`: no value before `}`, `;` or the end of input.
    fn return_stmt(&mut self) -> (r: Result<Stmt, ParseError>)
        requires
            old(self).wf(),
        ensures
            return_at(old(self).tokens@, old(self).text_seq(), old(self).current as int, old(self).depth as int, old(self).tmp_counter as nat) matches Some((e, n, m))
                ==> (r matches Ok(st) && st.view() == StmtV::Expr(e) && final(self).current == n && final(self).tmp_counter == m),
            r matches Ok(st) ==> stmt_on(st.view(), old(self).tokens@),
            r matches Err(e) ==> at_token(e.line, e.column, old(self).tokens@),
            final(self).moved_on(*old(self)),
            r is Ok ==> old(self).current < final(self).current,
        decreases old(self).tokens@.len() - old(self).current, 95nat,
    {
        proof {
            assert(self.text_seq() == old(self).text_seq());
        }
        let tok = self.consume_if(TokenKind::is_return, "expected 'return' or '返回'")?;
        let span = self.span_at(&tok);
        let value = if self.check(TokenKind::RBrace) || self.check(TokenKind::Semicolon) || self.is_at_end() {
            None
        } else {
            Some(Box::new(self.expression()?))
        };
        Ok(Stmt::Expr(Expr::Return { value, span }))
    }

    /// `break [value]`: no value before `}`, `;` or the end of input.
    fn break_stmt(&mut self) -> (r: Result<Stmt, ParseError>)
        requires
            old(self).wf(),
        ensures
            break_at(old(self).tokens@, old(self).text_seq(), old(self).current as int, old(self).depth as int, old(self).tmp_counter as nat) matches Some((e, n, m))
                ==> (r matches Ok(st) && st.view() == StmtV::Expr(e) && final(self).current == n && final(self).tmp_counter == m),
            r matches Ok(st) ==> stmt_on(st.view(), old(self).tokens@),
            r matches Err(e) ==> at_token(e.line, e.column, old(self).tokens@),
            final(self).moved_on(*old(self)),
            r is Ok ==> old(self).current < final(self).current,
        decreases old(self).tokens@.len() - old(self).current, 95nat,
    {
        proof {
            assert(self.text_seq() == old(self).text_seq());
        }
        let tok = self.consume_if(TokenKind::is_break, "expected 'break' or '跳出'")?;
        let span = self.span_at(&tok);
        let value = if self.check(TokenKind::RBrace) || self.check(TokenKind::Semicolon) || self.is_at_end() {
            None
        } else {
            Some(Box::new(self.expression()?))
        };
        Ok(Stmt::Expr(Expr::Break { value, span }))
    }

    /// `continue`.
    fn continue_stmt(&mut self) -> (r: Result<Stmt, ParseError>)
        requires
            old(self).wf(),
        ensures
            continue_at(old(self).tokens@, old(self).current as int, old(self).tmp_counter as nat) matches Some((e, n, m))
                ==> (r matches Ok(st) && st.view() == StmtV::Expr(e) && final(self).current == n && final(self).tmp_counter == m),
            r matches Ok(st) ==> stmt_on(st.view(), old(self).tokens@),
            r matches Err(e) ==> at_token(e.line, e.column, old(self).tokens@),
            final(self).moved_on(*old(self)),
            r is Ok ==> old(self).current < final(self).current,
    {
        let tok = self.consume_if(TokenKind::is_continue, "expected 'continue' or '继续'")?;
        let span = self.span_at(&tok);
        Ok(Stmt::Expr(Expr::Continue { span }))
    }

    /// A `try` as a statement.
    fn try_expr_stmt(&mut self) -> (r: Result<Stmt, ParseError>)
        requires
            old(self).wf(),
        ensures
            try_at(old(self).tokens@, old(self).text_seq(), old(self).current as int, old(self).depth as int, old(self).tmp_counter as nat) matches Some((e, n, m))
                ==> (r matches Ok(st) && st.view() == StmtV::Expr(e) && final(self).current == n && final(self).tmp_counter == m),
            r matches Ok(st) ==> stmt_on(st.view(), old(self).tokens@),
            r matches Err(e) ==> at_token(e.line, e.column, old(self).tokens@),
            final(self).moved_on(*old(self)),
            r is Ok ==> old(self).current < final(self).current,
        decreases old(self).tokens@.len() - old(self).current, 95nat,
    {
        let expr = self.parse_try_expression()?;
        Ok(Stmt::Expr(expr))
    }

    /// `try { ... } [catch (name) { ... }] [keep { ... }]`.
    fn parse_try_expression(&mut self) -> (r: Result<Expr, ParseError>)
        requires
            old(self).wf(),
        ensures
            try_at(old(self).tokens@, old(self).text_seq(), old(self).current as int, old(self).depth as int, old(self).tmp_counter as nat) matches Some((e, n, m))
                ==> (r matches Ok(q) && q.view() == e && final(self).current == n && final(self).tmp_counter == m),
            r matches Ok(e) ==> expr_on(e.view(), old(self).tokens@),
            r matches Err(e) ==> at_token(e.line, e.column, old(self).tokens@),
            r matches Ok(e) ==> at_token(e.span_of().line, e.span_of().column, old(self).tokens@),
            final(self).moved_on(*old(self)),
            r is Ok ==> old(self).current < final(self).current,
        decreases old(self).tokens@.len() - old(self).current, 50nat,
    {
        proof {
            assert(self.text_seq() == old(self).text_seq());
        }
        self.consume(TokenKind::Try, "expected 'try'")?;
        let span = self.span_here();
        self.consume(TokenKind::LBrace, "expected '{' after try")?;
        let body = self.block()?;
        let catch_clause = if self.check(TokenKind::Catch) {
            self.advance();
            self.consume(TokenKind::LParen, "expected '(' after catch")?;
            self.consume(TokenKind::Ident, "expected exception variable name in catch")?;
            let binding = self.text_of(self.current - 1);
            self.consume(TokenKind::RParen, "expected ')' after catch variable")?;
            self.consume(TokenKind::LBrace, "expected '{' before catch body")?;
            let catch_body = self.block()?;
            let clause = CatchClause { binding, exception_type: None, body: catch_body };
            assert(catch_on(clause.view(), old(self).tokens@));
            Some(Box::new(clause))
        } else {
            None
        };
        let keep_block = if self.check(TokenKind::Keep) {
            self.advance();
            self.consume(TokenKind::LBrace, "expected '{' after keep")?;
            Some(self.block()?)
        } else {
            None
        };
        assert(span_on(span, old(self).tokens@));
        assert(stmts_on(stmts_view(body@), old(self).tokens@));
        assert(match catch_clause {
            Some(c) => catch_on((*c).view(), old(self).tokens@),
            None => true,
        });
        assert(match keep_block {
            Some(k) => stmts_on(stmts_view(k@), old(self).tokens@),
            None => true,
        });
        Ok(Expr::Try { body, catch_clause, keep_block, span })
    }

    /// `out value`.
    fn parse_out_expression(&mut self) -> (r: Result<Expr, ParseError>)
        requires
            old(self).wf(),
        ensures
            r matches Ok(e) ==> expr_on(e.view(), old(self).tokens@),
            r matches Err(e) ==> at_token(e.line, e.column, old(self).tokens@),
            r matches Ok(e) ==> at_token(e.span_of().line, e.span_of().column, old(self).tokens@),
            final(self).moved_on(*old(self)),
            r is Ok ==> old(self).current < final(self).current,
        decreases old(self).tokens@.len() - old(self).current, 50nat,
    {
        let span = self.span_here();
        self.consume(TokenKind::Out, "expected 'out'")?;
        let value = Box::new(self.expression()?);
        Ok(Expr::Out { value, span })
    }

    /// A block `{ ... }` in statement position; a `{` that looks like a
    /// dictionary missing its colon is an error.
    fn block_stmt(&mut self) -> (r: Result<Stmt, ParseError>)
        requires
            old(self).wf(),
        ensures
            r matches Ok(st) ==> stmt_on(st.view(), old(self).tokens@),
            r matches Err(e) ==> at_token(e.line, e.column, old(self).tokens@),
            final(self).moved_on(*old(self)),
            r is Ok ==> old(self).current < final(self).current,
        decreases old(self).tokens@.len() - old(self).current, 95nat,
    {
        if self.looks_like_dict_with_missing_colon() {
            let tok = self.peek();
            let n = self.tokens.len();
            assert(self.current + 1 < n);
            let key_text = self.text_of(self.current + 1);
            let mut message = "expected ':' after property name '".to_owned();
            push_str(&mut message, key_text.as_str());
            push_str(&mut message, "' — did you mean to write a dict literal? (missing colon)");
            return Err(ParseError { message, line: tok.line, column: tok.column });
        }
        let span = self.span_here();
        self.consume(TokenKind::LBrace, "expected '{'")?;
        let statements = self.block()?;
        Ok(Stmt::Expr(Expr::Block { statements, span }))
    }

    /// The statements of a block whose `{` has been read, up to and
    /// including its `}`; nesting beyond [`MAX_PARSER_DEPTH`] is an error.
    fn block(&mut self) -> (r: Result<Vec<Stmt>, ParseError>)
        requires
            old(self).wf(),
        ensures
            block_at(old(self).tokens@, old(self).text_seq(), old(self).current as int, old(self).depth as int, old(self).tmp_counter as nat) matches Some((sv, n, m))
                ==> (r matches Ok(v) && stmts_view(v@) == sv && final(self).current == n && final(self).tmp_counter == m),
            r matches Ok(v) ==> stmts_on(stmts_view(v@), old(self).tokens@),
            r matches Err(e) ==> at_token(e.line, e.column, old(self).tokens@),
            final(self).moved_on(*old(self)),
            r is Ok ==> old(self).current < final(self).current,
            old(self).depth == MAX_PARSER_DEPTH ==> (r matches Err(e) && e.message@
                == "block nesting exceeds limit (64) — possible stack overflow protection"@
                && e.line == old(self).cur().line && e.column == old(self).cur().column),
        decreases old(self).tokens@.len() - old(self).current, 100nat,
    {
        self.depth = self.depth + 1;
        if self.depth > MAX_PARSER_DEPTH {
            self.depth = self.depth - 1;
            let tok = self.peek();
            return Err(ParseError {
                message: "block nesting exceeds limit (64) — possible stack overflow protection".to_owned(),
                line: tok.line,
                column: tok.column,
            });
        }
        proof {
            assert(self.text_seq() == old(self).text_seq());
        }
        let result = self.block_inner();
        self.depth = self.depth - 1;
        result
    }

    /// Statements up to and including the closing `}`.
    fn block_inner(&mut self) -> (r: Result<Vec<Stmt>, ParseError>)
        requires
            old(self).wf(),
        ensures
            block_from(old(self).tokens@, old(self).text_seq(), old(self).current as int, old(self).depth as int, old(self).tmp_counter as nat, Seq::empty()) matches Some((sv, n, m))
                ==> (r matches Ok(v) && stmts_view(v@) == sv && final(self).current == n && final(self).tmp_counter == m),
            r matches Ok(v) ==> stmts_on(stmts_view(v@), old(self).tokens@),
            r matches Err(e) ==> at_token(e.line, e.column, old(self).tokens@),
            final(self).moved_on(*old(self)),
            r is Ok ==> old(self).current < final(self).current,
        decreases old(self).tokens@.len() - old(self).current, 99nat,
    {
        let mut statements: Vec<Stmt> = Vec::new();
        assert(stmts_view(statements@) =~= Seq::<StmtV>::empty());
        while !self.check(TokenKind::RBrace) && !self.is_at_end()
            invariant
                stmts_on(stmts_view(statements@), self.tokens@),
                self.moved_on(*old(self)),
                block_from(old(self).tokens@, old(self).text_seq(), old(self).current as int, old(self).depth as int, old(self).tmp_counter as nat, Seq::empty()) is Some
                    ==> block_from(old(self).tokens@, old(self).text_seq(), self.current as int, old(self).depth as int, self.tmp_counter as nat, stmts_view(statements@))
                    == block_from(old(self).tokens@, old(self).text_seq(), old(self).current as int, old(self).depth as int, old(self).tmp_counter as nat, Seq::empty()),
            decreases self.tokens@.len() - self.current,
        {
            let ghost i = self.current as int;
            let ghost acc = stmts_view(statements@);
            let ghost mi = self.tmp_counter as nat;
            proof {
                assert(self.text_seq() == old(self).text_seq());
            }
            let stmt = self.declaration()?;
            push_stmt(&mut statements, stmt);
            self.skip_semicolons();
            proof {
                if block_from(old(self).tokens@, old(self).text_seq(), old(self).current as int, old(self).depth as int, old(self).tmp_counter as nat, Seq::empty()) is Some {
                    assert(block_from(old(self).tokens@, old(self).text_seq(), i, old(self).depth as int, mi, acc) == block_from(
                        old(self).tokens@, old(self).text_seq(),
                        self.current as int,
                        old(self).depth as int,
                        self.tmp_counter as nat,
                        stmts_view(statements@),
                    ));
                }
            }
        }
        assert(block_from(old(self).tokens@, old(self).text_seq(), old(self).current as int, old(self).depth as int, old(self).tmp_counter as nat, Seq::empty()) is Some
            ==> self.tokens@[self.current as int].kind == TokenKind::RBrace) by {
            reveal(frag_comparison);
        }
        self.consume(TokenKind::RBrace, "expected '}' after block")?;
        Ok(statements)
    }

    /// An expression statement, an assignment `target = value`, or a
    /// compound assignment `target op= value` (read as
    /// `target = target op value`).
    #[verifier::rlimit(80)]
    fn expr_statement(&mut self) -> (r: Result<Stmt, ParseError>)
        requires
            old(self).wf(),
        ensures
            old(self).frag(16) matches Some((e, n, m)) ==> (r matches Ok(st) && st.view() == StmtV::Expr(e) && final(self).current == n
                && final(self).tmp_counter == m),
            assign_at(old(self).tokens@, old(self).text_seq(), old(self).current as int, old(self).depth as int, old(self).tmp_counter as nat) matches Some((a, n, m))
                ==> (r matches Ok(st) && st.view() == a && final(self).current == n && final(self).tmp_counter == m),
            old(self).frag(8) matches Some((e, n, m)) ==> (r matches Ok(st) && st.view() == StmtV::Expr(e) && final(self).current == n
                && final(self).tmp_counter == m),
            old(self).depth < MAX_PARSER_DEPTH && deep_parens(old(self).tokens@, old(self).current as int, 64 - old(self).depth) ==> (r matches Err(e) && e.message@ == expression_nesting_message()),
            r matches Ok(st) ==> stmt_on(st.view(), old(self).tokens@),
            r matches Err(e) ==> at_token(e.line, e.column, old(self).tokens@),
            final(self).moved_on(*old(self)),
            r is Ok ==> old(self).current < final(self).current,
        decreases old(self).tokens@.len() - old(self).current, 95nat,
    {
        assert(old(self).frag(8) is Some ==> leaf_kind(old(self).cur().kind) || old(self).cur().kind == TokenKind::Minus
            || old(self).cur().kind == TokenKind::Bang) by {
            reveal(frag_comparison);
        }
        proof {
            lemma_comparison_start(old(self).tokens@, old(self).text_seq(), old(self).current as int, old(self).depth as int + 1, old(self).tmp_counter as nat);
        }
        proof {
            let t = old(self).tokens@;
            let c = old(self).current as int;
            let m = 64 - old(self).depth;
            if deep_parens(t, c, m) {
                if m >= 1 {
                    assert(t[c].kind == TokenKind::LParen);
                    assert(deep_parens(t, c + 1, m - 1));
                }
                if m >= 2 {
                    assert(t[c + 1].kind == TokenKind::LParen);
                }
            }
        }
        let expr = self.expression()?;
        proof {
            assert(self.text_seq() == old(self).text_seq());
        }
        proof {
            if old(self).frag(16) is Some {
                assert(ends_expression(old(self).tokens@[self.current as int].kind));
                assert(!self.sees(TokenKind::Eq));
                assert(compound_op(self.cur().kind) is None);
            }
        }
        proof {
            if old(self).frag(8) is Some {
                assert(ends_expression(old(self).tokens@[self.current as int].kind));
                assert(!self.sees(TokenKind::Eq));
                assert(compound_op(self.cur().kind) is None);
            }
        }
        if self.match_kind(TokenKind::Eq) {
            let span = self.span_here();
            let value = self.expression()?;
            let target = self.expr_to_assign_target(expr)?;
            Ok(Stmt::Assign { target, value, span })
        } else {
            match self.match_compound_assign() {
                Some(op) => {
                    let span = self.span_here();
                    let rhs = self.expression()?;
                    let target_expr = self.assign_target_to_expr(&expr)?;
                    let value = Expr::Binary { left: Box::new(target_expr), op, right: Box::new(rhs), span };
                    let target = self.expr_to_assign_target(expr)?;
                    Ok(Stmt::Assign { target, value, span })
                },
                None => Ok(Stmt::Expr(expr)),
            }
        }
    }

    /// An expression; nesting beyond [`MAX_PARSER_DEPTH`] is an error.
    fn expression(&mut self) -> (r: Result<Expr, ParseError>)
        requires
            old(self).wf(),
        ensures
            old(self).yields(r, *final(self), old(self).frag(16)),
            old(self).yields(r, *final(self), old(self).frag(11)),
            old(self).yields(r, *final(self), old(self).frag(8)),
            deep_parens(old(self).tokens@, old(self).current as int, 64 - old(self).depth) ==> (r matches Err(e) && e.message@ == expression_nesting_message()),
            r matches Ok(e) ==> expr_on(e.view(), old(self).tokens@),
            r matches Err(e) ==> at_token(e.line, e.column, old(self).tokens@),
            r matches Ok(e) ==> at_token(e.span_of().line, e.span_of().column, old(self).tokens@),
            final(self).moved_on(*old(self)),
            r is Ok ==> old(self).current < final(self).current,
            old(self).depth == MAX_PARSER_DEPTH ==> (r matches Err(e) && e.message@
                == "expression nesting exceeds limit (64) — possible stack overflow protection"@
                && e.line == old(self).cur().line && e.column == old(self).cur().column),
        decreases old(self).tokens@.len() - old(self).current, 70nat,
    {
        proof {
            let t = old(self).tokens@;
            let c = old(self).current as int;
            let m = 64 - old(self).depth;
            if deep_parens(t, c, m) {
                if m >= 1 {
                    assert(t[c].kind == TokenKind::LParen);
                    assert(deep_parens(t, c + 1, m - 1));
                }
                if m >= 2 {
                    assert(t[c + 1].kind == TokenKind::LParen);
                }
            }
        }
        self.depth = self.depth + 1;
        if self.depth > MAX_PARSER_DEPTH {
            self.depth = self.depth - 1;
            let tok = self.peek();
            return Err(ParseError {
                message: "expression nesting exceeds limit (64) — possible stack overflow protection".to_owned(),
                line: tok.line,
                column: tok.column,
            });
        }
        proof {
            if old(self).frag(8) is Some {
                assert(self.text_seq() == old(self).text_seq());
                assert(self.frag(7) == frag_body(old(self).tokens@, old(self).text_seq(), old(self).current as int, old(self).depth + 1, old(self).tmp_counter as nat));
            }
            if old(self).frag(16) is Some {
                assert(self.text_seq() == old(self).text_seq());
                assert(self.frag(15) == frag_logic_body(old(self).tokens@, old(self).text_seq(), old(self).current as int, old(self).depth + 1, old(self).tmp_counter as nat));
            }
            if old(self).frag(11) is Some {
                assert(self.text_seq() == old(self).text_seq());
                assert(self.frag(10) == frag_target(old(self).tokens@, old(self).text_seq(), old(self).current as int, old(self).depth + 1, old(self).tmp_counter as nat));
            }
        }
        let result = self.pipe_expr();
        self.depth = self.depth - 1;
        result
    }

    /// `a |> f |> g ...`, left-associative, each step desugared to a call.
    fn pipe_expr(&mut self) -> (r: Result<Expr, ParseError>)
        requires
            old(self).wf(),
        ensures
            old(self).yields(r, *final(self), old(self).frag(15)),
            old(self).yields(r, *final(self), old(self).frag(10)),
            old(self).yields(r, *final(self), old(self).frag(7)),
            deep_parens(old(self).tokens@, old(self).current as int, 65 - old(self).depth) ==> (r matches Err(e) && e.message@ == expression_nesting_message()),
            r matches Ok(e) ==> expr_on(e.view(), old(self).tokens@),
            r matches Err(e) ==> at_token(e.line, e.column, old(self).tokens@),
            r matches Ok(e) ==> at_token(e.span_of().line, e.span_of().column, old(self).tokens@),
            final(self).moved_on(*old(self)),
            r is Ok ==> old(self).current < final(self).current,
        decreases old(self).tokens@.len() - old(self).current, 69nat,
    {
        proof {
            let t = old(self).tokens@;
            let c = old(self).current as int;
            let m = 65 - old(self).depth;
            if deep_parens(t, c, m) {
                if m >= 1 {
                    assert(t[c].kind == TokenKind::LParen);
                    assert(deep_parens(t, c + 1, m - 1));
                }
                if m >= 2 {
                    assert(t[c + 1].kind == TokenKind::LParen);
                }
            }
        }
        let mut left = self.arrow_expr()?;
        while self.match_kind(TokenKind::Pipe)
            invariant
                old(self).frag(7) is Some ==> old(self).frag(7) == Some((left.view(), self.current as int, self.tmp_counter as nat)),
                old(self).frag(10) is Some ==> old(self).frag(10) == Some((left.view(), self.current as int, self.tmp_counter as nat)),
                old(self).frag(15) is Some ==> old(self).frag(15) == Some((left.view(), self.current as int, self.tmp_counter as nat)),
                !deep_parens(old(self).tokens@, old(self).current as int, 65 - old(self).depth),
                at_token(left.span_of().line, left.span_of().column, self.tokens@),
                expr_on(left.view(), self.tokens@),
                self.moved_on(*old(self)),
                old(self).current < self.current,
            decreases self.tokens@.len() - self.current,
        {
            proof {
                assert(old(self).frag(7) is None);
                assert(old(self).frag(10) is None);
                assert(old(self).frag(15) is None);
            }
            let span = self.span_here();
            let right = self.arrow_expr()?;
            left = self.desugar_pipe(left, right, span);
        }
        Ok(left)
    }

    /// An arrow function `x => body` or `(a, b) => body`, else an `or`
    /// expression.
    fn arrow_expr(&mut self) -> (r: Result<Expr, ParseError>)
        requires
            old(self).wf(),
        ensures
            old(self).yields(r, *final(self), old(self).frag(15)),
            old(self).yields(r, *final(self), old(self).frag(10)),
            old(self).yields(r, *final(self), old(self).frag(7)),
            deep_parens(old(self).tokens@, old(self).current as int, 65 - old(self).depth) ==> (r matches Err(e) && e.message@ == expression_nesting_message()),
            r matches Ok(e) ==> expr_on(e.view(), old(self).tokens@),
            r matches Err(e) ==> at_token(e.line, e.column, old(self).tokens@),
            r matches Ok(e) ==> at_token(e.span_of().line, e.span_of().column, old(self).tokens@),
            final(self).moved_on(*old(self)),
            r is Ok ==> old(self).current < final(self).current,
        decreases old(self).tokens@.len() - old(self).current, 68nat,
    {
        proof {
            let t = old(self).tokens@;
            let c = old(self).current as int;
            let d = old(self).depth as int;
            let m = old(self).tmp_counter as nat;
            lemma_comparison_start(t, old(self).text_seq(), c, d, m);
            if t[c].kind == TokenKind::Ident && c + 1 < t.len() && t[c + 1].kind == TokenKind::Arrow {
                lemma_name_before_arrow(t, old(self).text_seq(), c, d, m);
            }
        }
        proof {
            let t = old(self).tokens@;
            let c = old(self).current as int;
            let m = 65 - old(self).depth;
            if deep_parens(t, c, m) {
                if m >= 1 {
                    assert(t[c].kind == TokenKind::LParen);
                    assert(deep_parens(t, c + 1, m - 1));
                }
                if m >= 2 {
                    assert(t[c + 1].kind == TokenKind::LParen);
                }
            }
        }
        if self.check(TokenKind::Ident) && self.tokens.len() - self.current > 1 && self.tokens[self.current + 1].kind == TokenKind::Arrow {
            proof {
                assert(old(self).frag(7) is None);
                assert(old(self).frag(10) is None);
                assert(old(self).frag(15) is None);
            }
            self.advance();
            let param = self.text_of(self.current - 1);
            self.advance();
            let span = self.span_here();
            let body = self.arrow_body()?;
            let mut params: Vec<String> = Vec::new();
            params.push(param);
            return Ok(Expr::Closure { params, body, span });
        }
        if self.check(TokenKind::LParen) {
            let saved = self.current;
            match self.try_arrow_params() {
                Some(params) => {
                    let span = self.span_here();
                    let body = self.arrow_body()?;
                    return Ok(Expr::Closure { params, body, span });
                },
                None => {},
            }
            self.current = saved;
        }
        self.or_expr()
    }

    /// The body of an arrow function: a block, or an expression whose value
    /// is returned.
    fn arrow_body(&mut self) -> (r: Result<Vec<Stmt>, ParseError>)
        requires
            old(self).wf(),
        ensures
            r matches Ok(v) ==> stmts_on(stmts_view(v@), old(self).tokens@),
            r matches Err(e) ==> at_token(e.line, e.column, old(self).tokens@),
            final(self).moved_on(*old(self)),
            r is Ok ==> old(self).current < final(self).current,
        decreases old(self).tokens@.len() - old(self).current, 80nat,
    {
        if self.check(TokenKind::LBrace) {
            self.consume(TokenKind::LBrace, "expected '{' after =>")?;
            self.block()
        } else {
            let expr = self.expression()?;
            let span = self.span_here();
            let mut body: Vec<Stmt> = Vec::new();
            push_stmt(&mut body, Stmt::Expr(Expr::Return { value: Some(Box::new(expr)), span }));
            Ok(body)
        }
    }

    /// `a or b ...` (also `||`), left-associative.
    fn or_expr(&mut self) -> (r: Result<Expr, ParseError>)
        requires
            old(self).wf(),
        ensures
            old(self).yields(r, *final(self), old(self).frag(14)),
            old(self).yields(r, *final(self), old(self).frag(10)),
            old(self).yields(r, *final(self), old(self).frag(7)),
            deep_parens(old(self).tokens@, old(self).current as int, 65 - old(self).depth) ==> (r matches Err(e) && e.message@ == expression_nesting_message()),
            r matches Ok(e) ==> expr_on(e.view(), old(self).tokens@),
            r matches Err(e) ==> at_token(e.line, e.column, old(self).tokens@),
            r matches Ok(e) ==> at_token(e.span_of().line, e.span_of().column, old(self).tokens@),
            final(self).moved_on(*old(self)),
            r is Ok ==> old(self).current < final(self).current,
        decreases old(self).tokens@.len() - old(self).current, 67nat,
    {
        proof {
            let t = old(self).tokens@;
            let c = old(self).current as int;
            let m = 65 - old(self).depth;
            if deep_parens(t, c, m) {
                if m >= 1 {
                    assert(t[c].kind == TokenKind::LParen);
                    assert(deep_parens(t, c + 1, m - 1));
                }
                if m >= 2 {
                    assert(t[c + 1].kind == TokenKind::LParen);
                }
            }
        }
        proof {
            if old(self).frag(14) is Some {
                assert(old(self).frag(13) is Some);
            }
        }
        let mut left = self.null_coalesce_expr()?;
        while self.match_if(TokenKind::is_or)
            invariant
                old(self).frag(7) is Some ==> old(self).frag(7) == Some((left.view(), self.current as int, self.tmp_counter as nat)),
                old(self).frag(10) is Some ==> old(self).frag(10) == Some((left.view(), self.current as int, self.tmp_counter as nat)),
                old(self).frag(14) is Some ==> or_from(
                    old(self).tokens@, old(self).text_seq(),
                    self.current as int,
                    old(self).depth as int,
                    self.tmp_counter as nat,
                    left.view(),
                ) == old(self).frag(14),
                !deep_parens(old(self).tokens@, old(self).current as int, 65 - old(self).depth),
                at_token(left.span_of().line, left.span_of().column, self.tokens@),
                expr_on(left.view(), self.tokens@),
                self.moved_on(*old(self)),
                old(self).current < self.current,
            decreases self.tokens@.len() - self.current,
        {
            proof {
                assert(old(self).frag(7) is None);
                assert(old(self).frag(10) is None);
            }
            let ghost i = self.current as int - 1;
            let ghost lv = left.view();
            let ghost mi = self.tmp_counter as nat;
            proof {
                assert(self.text_seq() == old(self).text_seq());
            }
            let span = self.span_here();
            let right = self.null_coalesce_expr()?;
            left = Expr::Or { left: Box::new(left), right: Box::new(right), span };
            proof {
                if old(self).frag(14) is Some {
                    assert(or_from(old(self).tokens@, old(self).text_seq(), i, old(self).depth as int, mi, lv) == or_from(
                        old(self).tokens@, old(self).text_seq(),
                        self.current as int,
                        old(self).depth as int,
                        self.tmp_counter as nat,
                        left.view(),
                    ));
                }
            }
        }
        Ok(left)
    }

    /// `a ?? b ...`, left-associative.
    fn null_coalesce_expr(&mut self) -> (r: Result<Expr, ParseError>)
        requires
            old(self).wf(),
        ensures
            old(self).yields(r, *final(self), old(self).frag(13)),
            old(self).yields(r, *final(self), old(self).frag(10)),
            old(self).yields(r, *final(self), old(self).frag(7)),
            deep_parens(old(self).tokens@, old(self).current as int, 65 - old(self).depth) ==> (r matches Err(e) && e.message@ == expression_nesting_message()),
            r matches Ok(e) ==> expr_on(e.view(), old(self).tokens@),
            r matches Err(e) ==> at_token(e.line, e.column, old(self).tokens@),
            r matches Ok(e) ==> at_token(e.span_of().line, e.span_of().column, old(self).tokens@),
            final(self).moved_on(*old(self)),
            r is Ok ==> old(self).current < final(self).current,
        decreases old(self).tokens@.len() - old(self).current, 66nat,
    {
        proof {
            let t = old(self).tokens@;
            let c = old(self).current as int;
            let m = 65 - old(self).depth;
            if deep_parens(t, c, m) {
                if m >= 1 {
                    assert(t[c].kind == TokenKind::LParen);
                    assert(deep_parens(t, c + 1, m - 1));
                }
                if m >= 2 {
                    assert(t[c + 1].kind == TokenKind::LParen);
                }
            }
        }
        proof {
            if old(self).frag(13) is Some {
                assert(old(self).frag(12) is Some);
            }
        }
        let mut left = self.and_expr()?;
        while self.match_kind(TokenKind::QuestionQuestion)
            invariant
                old(self).frag(7) is Some ==> old(self).frag(7) == Some((left.view(), self.current as int, self.tmp_counter as nat)),
                old(self).frag(10) is Some ==> old(self).frag(10) == Some((left.view(), self.current as int, self.tmp_counter as nat)),
                old(self).frag(13) is Some ==> coalesce_from(
                    old(self).tokens@, old(self).text_seq(),
                    self.current as int,
                    old(self).depth as int,
                    self.tmp_counter as nat,
                    left.view(),
                ) == old(self).frag(13),
                !deep_parens(old(self).tokens@, old(self).current as int, 65 - old(self).depth),
                at_token(left.span_of().line, left.span_of().column, self.tokens@),
                expr_on(left.view(), self.tokens@),
                self.moved_on(*old(self)),
                old(self).current < self.current,
            decreases self.tokens@.len() - self.current,
        {
            proof {
                assert(old(self).frag(7) is None);
                assert(old(self).frag(10) is None);
            }
            let ghost i = self.current as int - 1;
            let ghost lv = left.view();
            let ghost mi = self.tmp_counter as nat;
            proof {
                assert(self.text_seq() == old(self).text_seq());
            }
            let span = self.span_here();
            let right = self.and_expr()?;
            left = Expr::NullCoalesce { left: Box::new(left), right: Box::new(right), span };
            proof {
                if old(self).frag(13) is Some {
                    assert(coalesce_from(old(self).tokens@, old(self).text_seq(), i, old(self).depth as int, mi, lv) == coalesce_from(
                        old(self).tokens@, old(self).text_seq(),
                        self.current as int,
                        old(self).depth as int,
                        self.tmp_counter as nat,
                        left.view(),
                    ));
                }
            }
        }
        Ok(left)
    }

    /// `a and b ...` (also `&&`), left-associative.
    fn and_expr(&mut self) -> (r: Result<Expr, ParseError>)
        requires
            old(self).wf(),
        ensures
            old(self).yields(r, *final(self), old(self).frag(12)),
            old(self).yields(r, *final(self), old(self).frag(10)),
            old(self).yields(r, *final(self), old(self).frag(7)),
            deep_parens(old(self).tokens@, old(self).current as int, 65 - old(self).depth) ==> (r matches Err(e) && e.message@ == expression_nesting_message()),
            r matches Ok(e) ==> expr_on(e.view(), old(self).tokens@),
            r matches Err(e) ==> at_token(e.line, e.column, old(self).tokens@),
            r matches Ok(e) ==> at_token(e.span_of().line, e.span_of().column, old(self).tokens@),
            final(self).moved_on(*old(self)),
            r is Ok ==> old(self).current < final(self).current,
        decreases old(self).tokens@.len() - old(self).current, 65nat,
    {
        proof {
            let t = old(self).tokens@;
            let c = old(self).current as int;
            let m = 65 - old(self).depth;
            if deep_parens(t, c, m) {
                if m >= 1 {
                    assert(t[c].kind == TokenKind::LParen);
                    assert(deep_parens(t, c + 1, m - 1));
                }
                if m >= 2 {
                    assert(t[c + 1].kind == TokenKind::LParen);
                }
            }
        }
        proof {
            if old(self).frag(7) is Some {
                assert(old(self).frag(6) is Some);
            }
            if old(self).frag(10) is Some {
                assert(old(self).frag(6) is Some);
            }
        }
        proof {
            if old(self).frag(12) is Some {
                assert(old(self).frag(6) is Some);
            }
        }
        let mut left = self.comparison()?;
        while self.match_if(TokenKind::is_and)
            invariant
                old(self).frag(7) is Some ==> old(self).frag(7) == Some((left.view(), self.current as int, self.tmp_counter as nat)),
                old(self).frag(10) is Some ==> old(self).frag(10) == Some((left.view(), self.current as int, self.tmp_counter as nat)),
                old(self).frag(12) is Some ==> and_from(
                    old(self).tokens@, old(self).text_seq(),
                    self.current as int,
                    old(self).depth as int,
                    self.tmp_counter as nat,
                    left.view(),
                ) == old(self).frag(12),
                !deep_parens(old(self).tokens@, old(self).current as int, 65 - old(self).depth),
                at_token(left.span_of().line, left.span_of().column, self.tokens@),
                expr_on(left.view(), self.tokens@),
                self.moved_on(*old(self)),
                old(self).current < self.current,
            decreases self.tokens@.len() - self.current,
        {
            proof {
                assert(old(self).frag(7) is None);
                assert(old(self).frag(10) is None);
            }
            let ghost i = self.current as int - 1;
            let ghost lv = left.view();
            let ghost mi = self.tmp_counter as nat;
            proof {
                assert(self.text_seq() == old(self).text_seq());
            }
            let span = self.span_here();
            let right = self.comparison()?;
            left = Expr::And { left: Box::new(left), right: Box::new(right), span };
            proof {
                if old(self).frag(12) is Some {
                    assert(and_from(old(self).tokens@, old(self).text_seq(), i, old(self).depth as int, mi, lv) == and_from(
                        old(self).tokens@, old(self).text_seq(),
                        self.current as int,
                        old(self).depth as int,
                        self.tmp_counter as nat,
                        left.view(),
                    ));
                }
            }
        }
        Ok(left)
    }

    /// The comparison operator of a token.
    fn comparison_op(&self) -> (r: Option<BinaryOp>)
        requires
            self.wf(),
        ensures
            r == comparison_op_of(self.cur().kind),
    {
        match self.peek().kind {
            TokenKind::EqEq => Some(BinaryOp::Eq),
            TokenKind::BangEq => Some(BinaryOp::Neq),
            TokenKind::Lt => Some(BinaryOp::Lt),
            TokenKind::Gt => Some(BinaryOp::Gt),
            TokenKind::LtEq => Some(BinaryOp::LtEq),
            TokenKind::GtEq => Some(BinaryOp::GtEq),
            _ => None,
        }
    }

    /// A comparison or a chain of them. One comparison is a binary
    /// expression; a chain `a < b < c` becomes a block that stores each
    /// middle operand in a fresh temporary once and joins the comparisons
    /// with AND.
    fn comparison(&mut self) -> (r: Result<Expr, ParseError>)
        requires
            old(self).wf(),
        ensures
            old(self).yields(r, *final(self), old(self).frag(6)),
            deep_parens(old(self).tokens@, old(self).current as int, 65 - old(self).depth) ==> (r matches Err(e) && e.message@ == expression_nesting_message()),
            r matches Ok(e) ==> expr_on(e.view(), old(self).tokens@),
            r matches Err(e) ==> at_token(e.line, e.column, old(self).tokens@),
            r matches Ok(e) ==> at_token(e.span_of().line, e.span_of().column, old(self).tokens@),
            final(self).moved_on(*old(self)),
            r is Ok ==> old(self).current < final(self).current,
            r matches Ok(e) ==> exists|ov: Seq<ExprV>, ops: Seq<BinaryOp>, span: Span|
                #![trigger comparison_view(ov, ops, (final(self).tmp_counter - (ops.len() - 1)) as nat, span)]
                ov.len() == ops.len() + 1 && (ops.len() >= 2 ==> final(self).tmp_counter >= ops.len() - 1)
                && e.view() == comparison_view(ov, ops, (final(self).tmp_counter - (ops.len() - 1)) as nat, span),
        decreases old(self).tokens@.len() - old(self).current, 64nat,
    {
        proof {
            let t = old(self).tokens@;
            let c = old(self).current as int;
            let m = 65 - old(self).depth;
            if deep_parens(t, c, m) {
                if m >= 1 {
                    assert(t[c].kind == TokenKind::LParen);
                    assert(deep_parens(t, c + 1, m - 1));
                }
                if m >= 2 {
                    assert(t[c + 1].kind == TokenKind::LParen);
                }
            }
        }
        assert(old(self).frag(6) is Some ==> old(self).frag(5) is Some && old(self).chain_tail() is Some) by {
            reveal(frag_comparison);
        }
        let first = self.range()?;
        let mut ops: Vec<BinaryOp> = Vec::new();
        let mut operands: Vec<Expr> = Vec::new();
        operands.push(first);
        proof {
            if old(self).frag(6) is Some {
                assert(operands@.map_values(|e: Expr| e.view()) =~= seq![first.view()]);
                assert(ops@ =~= Seq::<BinaryOp>::empty());
            }
        }
        loop
            invariant
                !deep_parens(old(self).tokens@, old(self).current as int, 65 - old(self).depth),
                self.moved_on(*old(self)),
                old(self).current < self.current,
                operands@.len() == ops@.len() + 1,
                at_token(operands@[0].span_of().line, operands@[0].span_of().column, self.tokens@),
                forall|k: int| 0 <= k < operands@.len() ==> expr_on(#[trigger] operands@[k].view(), self.tokens@),
                self.tmp_counter - old(self).tmp_counter + ops@.len() <= self.current - old(self).current,
                old(self).frag(6) is Some ==> chain_from(
                    old(self).tokens@, old(self).text_seq(),
                    self.current as int,
                    old(self).depth as int,
                    self.tmp_counter as nat,
                    operands@.map_values(|e: Expr| e.view()),
                    ops@,
                ) == old(self).chain_tail(),
                old(self).frag(6) is Some ==> old(self).chain_tail() is Some,
            ensures
                old(self).frag(6) is Some ==> comparison_op_of(self.tokens@[self.current as int].kind) is None,
            decreases self.tokens@.len() - self.current,
        {
            match self.comparison_op() {
                Some(op) => {
                    let ghost i = self.current as int;
                    let ghost ov0 = operands@.map_values(|e: Expr| e.view());
                    let ghost ops0 = ops@;
                    let ghost mi = self.tmp_counter as nat;
                    self.advance();
                    proof {
                        if old(self).frag(6) is Some {
                            assert(comparison_op_of(self.tokens@[i].kind) == Some(op));
                            assert(self.text_seq() == old(self).text_seq());
                        }
                    }
                    let right = self.range()?;
                    ops.push(op);
                    operands.push(right);
                    proof {
                        if old(self).frag(6) is Some {
                            assert(operands@.map_values(|e: Expr| e.view()) =~= ov0.push(right.view()));
                            assert(ops@ =~= ops0.push(op));
                            assert(chain_from(old(self).tokens@, old(self).text_seq(), i, old(self).depth as int, mi, ov0, ops0) == chain_from(
                                old(self).tokens@, old(self).text_seq(),
                                self.current as int,
                                old(self).depth as int,
                                self.tmp_counter as nat,
                                operands@.map_values(|e: Expr| e.view()),
                                ops@,
                            ));
                        }
                    }
                },
                None => {
                    break;
                },
            }
        }
        let ghost ov = operands@.map_values(|e: Expr| e.view());
        proof {
            reveal(frag_comparison);
            if old(self).frag(6) is Some {
                let n = self.current as int;
                let m2 = self.tmp_counter as nat;
                assert(old(self).chain_tail() == Some((ov, ops@, n, m2)));
                assert(old(self).frag(6) == Some(
                    (
                        comparison_view(ov, ops@, m2, token_span(old(self).tokens@, n)),
                        n,
                        if ops@.len() >= 2 { (m2 + ops@.len() - 1) as nat } else { m2 },
                    ),
                ));
            }
        }
        if ops.len() == 0 {
            let e = operands.remove(0);
            proof {
                // Without an operator the span plays no part.
                let sp = Span { line: 0, column: 0 };
                assert(e.view() == comparison_view(ov, ops@, (self.tmp_counter - (ops@.len() - 1)) as nat, sp));
            }
            return Ok(e);
        }
        let span = self.span_here();
        if ops.len() == 1 {
            let l = operands.remove(0);
            let r = operands.remove(0);
            let e = Expr::Binary { left: Box::new(l), op: ops[0], right: Box::new(r), span };
            assert(e.view() == comparison_view(ov, ops@, (self.tmp_counter - (ops@.len() - 1)) as nat, span));
            return Ok(e);
        }
        proof {
            assert forall|j: int| 0 <= j < ov.len() implies expr_on(#[trigger] ov[j], self.tokens@) by {
                assert(ov[j] == operands@[j].view());
            }
            lemma_comparison_on(ov, ops@, self.tmp_counter as nat, span, self.tokens@);
        }
        let ghost opsv = ops@;
        let ghost before = self.tmp_counter;
        assert(operands@.map_values(|e: Expr| e.view()) == ov);
        let c = self.chain_block(operands, ops, span);
        assert(self.tmp_counter - (opsv.len() - 1) == before);
        assert(c.view() == comparison_view(ov, opsv, (self.tmp_counter - (opsv.len() - 1)) as nat, span));
        Ok(c)
    }

    /// Builds the block a chain of two or more comparisons becomes: each
    /// middle operand stored once in a fresh temporary, then the comparisons
    /// joined by AND.
    #[verifier::rlimit(60)]
    fn chain_block(&mut self, operands: Vec<Expr>, ops: Vec<BinaryOp>, span: Span) -> (r: Expr)
        requires
            old(self).wf(),
            ops@.len() >= 2,
            operands@.len() == ops@.len() + 1,
            old(self).tmp_counter + ops@.len() - 1 <= old(self).current,
        ensures
            final(self).tokens@ == old(self).tokens@,
            final(self).texts@ == old(self).texts@,
            final(self).current == old(self).current,
            final(self).depth == old(self).depth,
            final(self).tmp_counter == old(self).tmp_counter + ops@.len() - 1,
            final(self).wf(),
            r.view() == comparison_view(operands@.map_values(|e: Expr| e.view()), ops@, old(self).tmp_counter as nat, span),
    {
        let ghost ov = operands@.map_values(|e: Expr| e.view());
        let mut operands = operands;
        let n = ops.len();
        let ghost c0: nat = self.tmp_counter as nat;
        let mut statements: Vec<Stmt> = Vec::new();
        let mut tmp_names: Vec<String> = Vec::new();
        assert(operands@[0].view() == ov[0]);
        let first_operand = operands.remove(0);
        let ghost first_view = first_operand.view();
        assert(first_view == ov[0]);
        let mut i: usize = 1;
        while i < n
            invariant
                self.wf(),
                self.tokens@ == old(self).tokens@,
                self.texts@ == old(self).texts@,
                self.current == old(self).current,
                self.depth == old(self).depth,
                c0 == old(self).tmp_counter,
                c0 + n - 1 <= self.current,
                n == ops@.len(),
                n >= 2,
                1 <= i <= n,
                ov.len() == n + 1,
                operands@.len() == n + 1 - i,
                forall|k: int| 0 <= k < operands@.len() ==> #[trigger] operands@[k].view() == ov[k + i],
                tmp_names@.len() == i - 1,
                forall|k: int| 0 <= k < i - 1 ==> #[trigger] tmp_names@[k]@ == tmp_name((c0 + k) as nat),
                statements@.len() == i - 1,
                forall|k: int| 0 <= k < i - 1 ==> #[trigger] statements@[k].view() == chain_assignment(ov, c0, span, k),
                self.tmp_counter == c0 + i - 1,
            decreases n - i,
        {
            let name = self.gen_tmp_name();
            let value = operands.remove(0);
            let ghost old_statements = statements@;
            assert(value.view() == ov[i as int]);
            let st = Stmt::Assign { target: AssignTarget::Ident { name: name.clone() }, value, span };
            assert(st.view() == chain_assignment(ov, c0, span, i - 1));
            statements.push(st);
            tmp_names.push(name);
            assert forall|k: int| 0 <= k < i implies #[trigger] statements@[k].view() == chain_assignment(ov, c0, span, k) by {
                if k < i - 1 {
                    assert(statements@[k] == old_statements[k]);
                }
            }
            i = i + 1;
        }
        let last_operand = operands.remove(0);
        let first_tmp = Expr::Ident { name: tmp_names[0].clone(), span };
        assert(first_tmp.view() == tmp_ident(c0, span));
        let first_op = ops[0];
        let mut result = Expr::Binary { left: Box::new(first_operand), op: first_op, right: Box::new(first_tmp), span };
        assert(ops@.len() - 1 != 0);
        assert(result.view() == chain_comparison(ov, ops@, c0, span, 0));
        assert(result.view() == chain_conjunction(ov, ops@, c0, span, 0));
        let mut k: usize = 1;
        let mut last_holder: Option<Expr> = Some(last_operand);
        while k < n
            invariant
                n == ops@.len(),
                n >= 2,
                1 <= k <= n,
                ov.len() == n + 1,
                tmp_names@.len() == n - 1,
                forall|j: int| 0 <= j < n - 1 ==> #[trigger] tmp_names@[j]@ == tmp_name((c0 + j) as nat),
                k < n ==> (last_holder matches Some(e) && e.view() == ov[n as int]),
                result.view() == chain_conjunction(ov, ops@, c0, span, (k - 1) as nat),
            decreases n - k,
        {
            let left_expr = Expr::Ident { name: tmp_names[k - 1].clone(), span };
            let right_expr = if k == n - 1 {
                match last_holder.take() {
                    Some(e) => e,
                    None => Expr::Nil { span },
                }
            } else {
                Expr::Ident { name: tmp_names[k].clone(), span }
            };
            assert(left_expr.view() == tmp_ident((c0 + k - 1) as nat, span));
            assert(right_expr.view() == (if k == n - 1 { ov[n as int] } else { tmp_ident((c0 + k) as nat, span) }));
            let link = Expr::Binary { left: Box::new(left_expr), op: ops[k], right: Box::new(right_expr), span };
            assert(link.view() == chain_comparison(ov, ops@, c0, span, k as int));
            result = Expr::And { left: Box::new(result), right: Box::new(link), span };
            k = k + 1;
        }
        statements.push(Stmt::Expr(result));
        let ghost sv = statements@;
        let e = Expr::Block { statements, span };
        proof {
            lemma_stmts_view_index(sv);
            let expected = Seq::new((n - 1) as nat, |j: int| chain_assignment(ov, c0, span, j)).push(
                StmtV::Expr(chain_conjunction(ov, ops@, c0, span, (n - 1) as nat)),
            );
            assert(stmts_view(sv) =~= expected);
            assert(e.view() == comparison_view(ov, ops@, c0, span));
        }
        e
    }

    /// `a..b` (inclusive) and `a..<b`, left-associative.
    fn range(&mut self) -> (r: Result<Expr, ParseError>)
        requires
            old(self).wf(),
        ensures
            old(self).yields(r, *final(self), old(self).frag(5)),
            deep_parens(old(self).tokens@, old(self).current as int, 65 - old(self).depth) ==> (r matches Err(e) && e.message@ == expression_nesting_message()),
            r matches Ok(e) ==> expr_on(e.view(), old(self).tokens@),
            r matches Err(e) ==> at_token(e.line, e.column, old(self).tokens@),
            r matches Ok(e) ==> at_token(e.span_of().line, e.span_of().column, old(self).tokens@),
            final(self).moved_on(*old(self)),
            r is Ok ==> old(self).current < final(self).current,
        decreases old(self).tokens@.len() - old(self).current, 63nat,
    {
        proof {
            let t = old(self).tokens@;
            let c = old(self).current as int;
            let m = 65 - old(self).depth;
            if deep_parens(t, c, m) {
                if m >= 1 {
                    assert(t[c].kind == TokenKind::LParen);
                    assert(deep_parens(t, c + 1, m - 1));
                }
                if m >= 2 {
                    assert(t[c + 1].kind == TokenKind::LParen);
                }
            }
        }
        proof {
            if old(self).frag(5) is Some {
                assert(old(self).frag(4) is Some);
            }
        }
        let mut left = self.addition()?;
        loop
            invariant
                old(self).frag(5) is Some ==> range_from(
                    old(self).tokens@, old(self).text_seq(),
                    self.current as int,
                    old(self).depth as int,
                    self.tmp_counter as nat,
                    left.view(),
                ) == old(self).frag(5),
                !deep_parens(old(self).tokens@, old(self).current as int, 65 - old(self).depth),
                at_token(left.span_of().line, left.span_of().column, self.tokens@),
                expr_on(left.view(), self.tokens@),
                self.moved_on(*old(self)),
                old(self).current < self.current,
            ensures
                old(self).frag(5) is Some ==> self.tokens@[self.current as int].kind != TokenKind::DotDot
                    && self.tokens@[self.current as int].kind != TokenKind::DotDotLt,
            decreases self.tokens@.len() - self.current,
        {
            let ghost i = self.current as int;
            let ghost lv = left.view();
            let ghost mi = self.tmp_counter as nat;
            proof {
                assert(self.text_seq() == old(self).text_seq());
            }
            if self.match_kind(TokenKind::DotDotLt) {
                let span = self.span_here();
                let right = self.addition()?;
                left = Expr::Range { start: Box::new(left), end: Box::new(right), inclusive: false, span };
                proof {
                    if old(self).frag(5) is Some {
                        assert(range_from(old(self).tokens@, old(self).text_seq(), i, old(self).depth as int, mi, lv) == range_from(
                            old(self).tokens@, old(self).text_seq(),
                            self.current as int,
                            old(self).depth as int,
                            self.tmp_counter as nat,
                            left.view(),
                        ));
                    }
                }
            } else if self.match_kind(TokenKind::DotDot) {
                let span = self.span_here();
                let right = self.addition()?;
                left = Expr::Range { start: Box::new(left), end: Box::new(right), inclusive: true, span };
                proof {
                    if old(self).frag(5) is Some {
                        assert(range_from(old(self).tokens@, old(self).text_seq(), i, old(self).depth as int, mi, lv) == range_from(
                            old(self).tokens@, old(self).text_seq(),
                            self.current as int,
                            old(self).depth as int,
                            self.tmp_counter as nat,
                            left.view(),
                        ));
                    }
                }
            } else {
                break;
            }
        }
        Ok(left)
    }

    /// `a + b`, `a - b`, left-associative.
    fn addition(&mut self) -> (r: Result<Expr, ParseError>)
        requires
            old(self).wf(),
        ensures
            old(self).yields(r, *final(self), old(self).frag(4)),
            deep_parens(old(self).tokens@, old(self).current as int, 65 - old(self).depth) ==> (r matches Err(e) && e.message@ == expression_nesting_message()),
            r matches Ok(e) ==> expr_on(e.view(), old(self).tokens@),
            r matches Err(e) ==> at_token(e.line, e.column, old(self).tokens@),
            r matches Ok(e) ==> at_token(e.span_of().line, e.span_of().column, old(self).tokens@),
            final(self).moved_on(*old(self)),
            r is Ok ==> old(self).current < final(self).current,
        decreases old(self).tokens@.len() - old(self).current, 62nat,
    {
        proof {
            let t = old(self).tokens@;
            let c = old(self).current as int;
            let m = 65 - old(self).depth;
            if deep_parens(t, c, m) {
                if m >= 1 {
                    assert(t[c].kind == TokenKind::LParen);
                    assert(deep_parens(t, c + 1, m - 1));
                }
                if m >= 2 {
                    assert(t[c + 1].kind == TokenKind::LParen);
                }
            }
        }
        proof {
            if old(self).frag(4) is Some {
                assert(old(self).frag(3) is Some);
            }
        }
        let mut left = self.multiplication()?;
        loop
            invariant
                old(self).frag(4) is Some ==> sum_from(
                    old(self).tokens@, old(self).text_seq(),
                    self.current as int,
                    old(self).depth as int,
                    self.tmp_counter as nat,
                    left.view(),
                ) == old(self).frag(4),
                !deep_parens(old(self).tokens@, old(self).current as int, 65 - old(self).depth),
                at_token(left.span_of().line, left.span_of().column, self.tokens@),
                expr_on(left.view(), self.tokens@),
                self.moved_on(*old(self)),
                old(self).current < self.current,
            ensures
                old(self).frag(4) is Some ==> add_op_of(self.tokens@[self.current as int].kind) is None,
            decreases self.tokens@.len() - self.current,
        {
            let op = match self.peek().kind {
                TokenKind::Plus => Some(BinaryOp::Add),
                TokenKind::Minus => Some(BinaryOp::Sub),
                _ => None,
            };
            match op {
                Some(op) => {
                    let ghost i = self.current as int;
                    let ghost lv = left.view();
                    let ghost mi = self.tmp_counter as nat;
                    let span = self.span_here();
                    self.advance();
                    proof {
                        if old(self).frag(4) is Some {
                            assert(add_op_of(self.tokens@[i].kind) == Some(op));
                            assert(self.text_seq() == old(self).text_seq());
                        }
                    }
                    let right = self.multiplication()?;
                    left = Expr::Binary { left: Box::new(left), op, right: Box::new(right), span };
                    proof {
                        if old(self).frag(4) is Some {
                            assert(sum_from(old(self).tokens@, old(self).text_seq(), i, old(self).depth as int, mi, lv) == sum_from(
                                old(self).tokens@, old(self).text_seq(),
                                self.current as int,
                                old(self).depth as int,
                                self.tmp_counter as nat,
                                left.view(),
                            ));
                        }
                    }
                },
                None => {
                    break;
                },
            }
        }
        Ok(left)
    }

    /// `a * b`, `a / b`, `a % b` (also `a mod b`), left-associative.
    fn multiplication(&mut self) -> (r: Result<Expr, ParseError>)
        requires
            old(self).wf(),
        ensures
            old(self).yields(r, *final(self), old(self).frag(3)),
            deep_parens(old(self).tokens@, old(self).current as int, 65 - old(self).depth) ==> (r matches Err(e) && e.message@ == expression_nesting_message()),
            r matches Ok(e) ==> expr_on(e.view(), old(self).tokens@),
            r matches Err(e) ==> at_token(e.line, e.column, old(self).tokens@),
            r matches Ok(e) ==> at_token(e.span_of().line, e.span_of().column, old(self).tokens@),
            final(self).moved_on(*old(self)),
            r is Ok ==> old(self).current < final(self).current,
        decreases old(self).tokens@.len() - old(self).current, 61nat,
    {
        proof {
            let t = old(self).tokens@;
            let c = old(self).current as int;
            let m = 65 - old(self).depth;
            if deep_parens(t, c, m) {
                if m >= 1 {
                    assert(t[c].kind == TokenKind::LParen);
                    assert(deep_parens(t, c + 1, m - 1));
                }
                if m >= 2 {
                    assert(t[c + 1].kind == TokenKind::LParen);
                }
            }
        }
        proof {
            if old(self).frag(3) is Some {
                assert(old(self).frag(2) is Some);
            }
        }
        let mut left = self.power()?;
        loop
            invariant
                old(self).frag(3) is Some ==> product_from(
                    old(self).tokens@, old(self).text_seq(),
                    self.current as int,
                    old(self).depth as int,
                    self.tmp_counter as nat,
                    left.view(),
                ) == old(self).frag(3),
                !deep_parens(old(self).tokens@, old(self).current as int, 65 - old(self).depth),
                at_token(left.span_of().line, left.span_of().column, self.tokens@),
                expr_on(left.view(), self.tokens@),
                self.moved_on(*old(self)),
                old(self).current < self.current,
            ensures
                old(self).frag(3) is Some ==> mul_op_of(self.tokens@[self.current as int].kind) is None && self.tokens@[self.current as int].kind != TokenKind::Ident,
            decreases self.tokens@.len() - self.current,
        {
            let op = if self.check(TokenKind::Percent) || (self.check(TokenKind::Ident) && self.text_is(self.current, &['m', 'o', 'd'])) {
                Some(BinaryOp::Mod)
            } else {
                match self.peek().kind {
                    TokenKind::Star => Some(BinaryOp::Mul),
                    TokenKind::Slash => Some(BinaryOp::Div),
                    _ => None,
                }
            };
            match op {
                Some(op) => {
                    let ghost i = self.current as int;
                    let ghost lv = left.view();
                    let ghost mi = self.tmp_counter as nat;
                    let span = self.span_here();
                    self.advance();
                    proof {
                        if old(self).frag(3) is Some {
                            assert(mul_op_of(self.tokens@[i].kind) == Some(op));
                            assert(self.text_seq() == old(self).text_seq());
                        }
                    }
                    let right = self.power()?;
                    left = Expr::Binary { left: Box::new(left), op, right: Box::new(right), span };
                    proof {
                        if old(self).frag(3) is Some {
                            assert(product_from(old(self).tokens@, old(self).text_seq(), i, old(self).depth as int, mi, lv) == product_from(
                                old(self).tokens@, old(self).text_seq(),
                                self.current as int,
                                old(self).depth as int,
                                self.tmp_counter as nat,
                                left.view(),
                            ));
                        }
                    }
                },
                None => {
                    break;
                },
            }
        }
        Ok(left)
    }

    /// `a ** b`, right-associative.
    fn power(&mut self) -> (r: Result<Expr, ParseError>)
        requires
            old(self).wf(),
        ensures
            old(self).yields(r, *final(self), old(self).frag(2)),
            deep_parens(old(self).tokens@, old(self).current as int, 65 - old(self).depth) ==> (r matches Err(e) && e.message@ == expression_nesting_message()),
            r matches Ok(e) ==> expr_on(e.view(), old(self).tokens@),
            r matches Err(e) ==> at_token(e.line, e.column, old(self).tokens@),
            r matches Ok(e) ==> at_token(e.span_of().line, e.span_of().column, old(self).tokens@),
            final(self).moved_on(*old(self)),
            r is Ok ==> old(self).current < final(self).current,
        decreases old(self).tokens@.len() - old(self).current, 60nat,
    {
        proof {
            let t = old(self).tokens@;
            let c = old(self).current as int;
            let m = 65 - old(self).depth;
            if deep_parens(t, c, m) {
                if m >= 1 {
                    assert(t[c].kind == TokenKind::LParen);
                    assert(deep_parens(t, c + 1, m - 1));
                }
                if m >= 2 {
                    assert(t[c + 1].kind == TokenKind::LParen);
                }
            }
        }
        proof {
            if old(self).frag(2) is Some {
                assert(old(self).frag(9) is Some);
            }
        }
        let left = self.unary()?;
        let ghost j = self.current as int;
        let ghost m1 = self.tmp_counter as nat;
        if self.match_kind(TokenKind::StarStar) {
            let span = self.span_here();
            proof {
                if old(self).frag(2) is Some {
                    assert(self.text_seq() == old(self).text_seq());
                    assert(self.frag(2) == frag_factor(old(self).tokens@, old(self).text_seq(), j + 1, old(self).depth as int, m1));
                }
            }
            let right = self.power()?;
            Ok(Expr::Binary { left: Box::new(left), op: BinaryOp::Pow, right: Box::new(right), span })
        } else {
            Ok(left)
        }
    }

    /// `-a`, `!a` (also `not a`), or a postfix expression.
    fn unary(&mut self) -> (r: Result<Expr, ParseError>)
        requires
            old(self).wf(),
        ensures
            old(self).yields(r, *final(self), old(self).frag(9)),
            old(self).yields(r, *final(self), old(self).frag(1)),
            deep_parens(old(self).tokens@, old(self).current as int, 65 - old(self).depth) ==> (r matches Err(e) && e.message@ == expression_nesting_message()),
            r matches Ok(e) ==> expr_on(e.view(), old(self).tokens@),
            r matches Err(e) ==> at_token(e.line, e.column, old(self).tokens@),
            r matches Ok(e) ==> at_token(e.span_of().line, e.span_of().column, old(self).tokens@),
            final(self).moved_on(*old(self)),
            r is Ok ==> old(self).current < final(self).current,
        decreases old(self).tokens@.len() - old(self).current, 59nat,
    {
        proof {
            let t = old(self).tokens@;
            let c = old(self).current as int;
            let m = 65 - old(self).depth;
            if deep_parens(t, c, m) {
                if m >= 1 {
                    assert(t[c].kind == TokenKind::LParen);
                    assert(deep_parens(t, c + 1, m - 1));
                }
                if m >= 2 {
                    assert(t[c + 1].kind == TokenKind::LParen);
                }
            }
        }
        let span = self.span_here();
        proof {
            assert(self.text_seq() == old(self).text_seq());
        }
        if self.match_kind(TokenKind::Minus) {
            let operand = self.unary()?;
            Ok(Expr::Unary { op: UnaryOp::Negate, operand: Box::new(operand), span })
        } else if self.match_kind(TokenKind::Bang) {
            let operand = self.unary()?;
            Ok(Expr::Unary { op: UnaryOp::Not, operand: Box::new(operand), span })
        } else {
            self.call()
        }
    }

    /// A primary expression followed by calls `(...)`, indexing `[...]` and
    /// field accesses `.name`.
    fn call(&mut self) -> (r: Result<Expr, ParseError>)
        requires
            old(self).wf(),
        ensures
            old(self).yields(r, *final(self), old(self).frag(1)),
            old(self).leaf_then(0) ==> old(self).gives_leaf(r, *final(self)),
            deep_parens(old(self).tokens@, old(self).current as int, 65 - old(self).depth) ==> (r matches Err(e) && e.message@ == expression_nesting_message()),
            r matches Ok(e) ==> expr_on(e.view(), old(self).tokens@),
            r matches Err(e) ==> at_token(e.line, e.column, old(self).tokens@),
            r matches Ok(e) ==> at_token(e.span_of().line, e.span_of().column, old(self).tokens@),
            final(self).moved_on(*old(self)),
            r is Ok ==> old(self).current < final(self).current,
        decreases old(self).tokens@.len() - old(self).current, 58nat,
    {
        proof {
            if old(self).frag(1) is Some {
                assert(old(self).leaf_then(0));
            }
        }
        proof {
            let t = old(self).tokens@;
            let c = old(self).current as int;
            let m = 65 - old(self).depth;
            if deep_parens(t, c, m) {
                if m >= 1 {
                    assert(t[c].kind == TokenKind::LParen);
                    assert(deep_parens(t, c + 1, m - 1));
                }
                if m >= 2 {
                    assert(t[c + 1].kind == TokenKind::LParen);
                }
            }
        }
        let mut expr = self.primary()?;
        let ghost p0 = self.current;
        let ghost fv = expr.view();
        proof {
            if old(self).leaf_then(0) {
                let c = old(self).current as int;
                assert(old(self).text_seq()[c] == old(self).texts@[c]@);
                assert(fv == leaf_view(old(self).tokens@, old(self).text_seq(), c));
                assert(p0 == c + 1);
            }
        }
        loop
            invariant
                p0 <= self.current,
                self.current == p0 ==> expr.view() == fv,
                old(self).leaf_then(0) ==> self.current == p0,
                old(self).leaf_then(0) ==> self.tmp_counter == old(self).tmp_counter,
                old(self).leaf_then(0) ==> p0 == old(self).current + 1,
                old(self).leaf_then(0) ==> fv == leaf_view(old(self).tokens@, old(self).text_seq(), old(self).current as int),
                old(self).leaf_then(0) ==> !postfix_kind(old(self).tokens@[old(self).current as int + 1].kind),
                !deep_parens(old(self).tokens@, old(self).current as int, 65 - old(self).depth),
                at_token(expr.span_of().line, expr.span_of().column, self.tokens@),
                expr_on(expr.view(), self.tokens@),
                self.moved_on(*old(self)),
                old(self).current < self.current,
            decreases self.tokens@.len() - self.current,
        {
            if self.match_kind(TokenKind::LParen) {
                proof {
                    assert(!old(self).leaf_then(0));
                }
                let span = self.span_here();
                let args = self.parse_args()?;
                self.consume(TokenKind::RParen, "expected ')' after arguments")?;
                expr = Expr::Call { callee: Box::new(expr), args, span };
            } else if self.match_kind(TokenKind::LBracket) {
                proof {
                    assert(!old(self).leaf_then(0));
                }
                let span = self.span_here();
                let index = self.expression()?;
                self.consume(TokenKind::RBracket, "expected ']' after index")?;
                expr = Expr::Index { object: Box::new(expr), index: Box::new(index), span };
            } else if self.match_kind(TokenKind::Dot) {
                proof {
                    assert(!old(self).leaf_then(0));
                }
                let span = self.span_here();
                self.consume(TokenKind::Ident, "expected property name after '.'")?;
                let name = self.text_of(self.current - 1);
                expr = Expr::Field { object: Box::new(expr), name, span };
            } else {
                break;
            }
        }
        Ok(expr)
    }

    /// Call arguments separated by commas; stops before `)`.
    fn parse_args(&mut self) -> (r: Result<Vec<Expr>, ParseError>)
        requires
            old(self).wf(),
        ensures
            call_args(old(self).tokens@, old(self).text_seq(), old(self).current as int, old(self).depth as int, old(self).tmp_counter as nat) matches Some((v, n, m))
                ==> (r matches Ok(a) && exprs_view(a@) == v && final(self).current == n && final(self).tmp_counter == m),
            r matches Ok(v) ==> exprs_on(exprs_view(v@), old(self).tokens@),
            r matches Err(e) ==> at_token(e.line, e.column, old(self).tokens@),
            final(self).moved_on(*old(self)),
        decreases old(self).tokens@.len() - old(self).current, 80nat,
    {
        let mut args: Vec<Expr> = Vec::new();
        assert(exprs_view(args@) =~= Seq::<ExprV>::empty());
        if !self.check(TokenKind::RParen) {
            loop
                invariant_except_break
                    call_args(old(self).tokens@, old(self).text_seq(), old(self).current as int, old(self).depth as int, old(self).tmp_counter as nat) is Some
                        ==> args_from(old(self).tokens@, old(self).text_seq(), self.current as int, old(self).depth as int, self.tmp_counter as nat, exprs_view(args@))
                        == call_args(old(self).tokens@, old(self).text_seq(), old(self).current as int, old(self).depth as int, old(self).tmp_counter as nat),
                invariant
                    exprs_on(exprs_view(args@), self.tokens@),
                    self.moved_on(*old(self)),
                ensures
                    call_args(old(self).tokens@, old(self).text_seq(), old(self).current as int, old(self).depth as int, old(self).tmp_counter as nat) is Some
                        ==> call_args(old(self).tokens@, old(self).text_seq(), old(self).current as int, old(self).depth as int, old(self).tmp_counter as nat)
                        == Some((exprs_view(args@), self.current as int, self.tmp_counter as nat)),
                decreases self.tokens@.len() - self.current,
            {
                let ghost i = self.current as int;
                let ghost acc = exprs_view(args@);
                let ghost mi = self.tmp_counter as nat;
                proof {
                    assert(self.text_seq() == old(self).text_seq());
                }
                let arg = self.expression()?;
                push_expr(&mut args, arg);
                if !self.match_kind(TokenKind::Comma) {
                    break;
                }
                proof {
                    if call_args(old(self).tokens@, old(self).text_seq(), old(self).current as int, old(self).depth as int, old(self).tmp_counter as nat) is Some {
                        assert(args_from(old(self).tokens@, old(self).text_seq(), i, old(self).depth as int, mi, acc) == args_from(
                            old(self).tokens@, old(self).text_seq(),
                            self.current as int,
                            old(self).depth as int,
                            self.tmp_counter as nat,
                            exprs_view(args@),
                        ));
                    }
                }
            }
        }
        Ok(args)
    }

    /// A primary expression: a literal, a name, a parenthesised expression
    /// or tuple, an array, a dictionary, an anonymous function, or an
    /// `if` / `loop` / `try` / `out` / `match` expression.
    #[verifier::rlimit(40)]
    fn primary(&mut self) -> (r: Result<Expr, ParseError>)
        requires
            old(self).wf(),
        ensures
            old(self).yields(r, *final(self), old(self).frag(0)),
            deep_parens(old(self).tokens@, old(self).current as int, 65 - old(self).depth) ==> (r matches Err(e) && e.message@ == expression_nesting_message()),
            r matches Ok(e) ==> expr_on(e.view(), old(self).tokens@),
            r matches Err(e) ==> at_token(e.line, e.column, old(self).tokens@),
            r matches Ok(e) ==> at_token(e.span_of().line, e.span_of().column, old(self).tokens@),
            final(self).moved_on(*old(self)),
            r is Ok ==> old(self).current < final(self).current,
            old(self).at_end() ==> (r matches Err(e) && e.message@ == "unexpected token: "@ + kind_text(
                TokenKind::Eof,
            ) && e.line == old(self).cur().line && e.column == old(self).cur().column),
            !old(self).at_end() ==> ({
                let t = old(self).cur();
                let text = old(self).texts@[old(self).current as int]@;
                let sp = Span { line: t.line, column: t.column };
                &&& t.kind == TokenKind::Number ==> (r matches Ok(e) && e.view() == ExprV::Number { value: text, span: sp })
                &&& t.kind == TokenKind::String ==> (r matches Ok(e) && e.view() == ExprV::String { value: text, span: sp })
                &&& t.kind == TokenKind::Ident ==> (r matches Ok(e) && e.view() == ExprV::Ident { name: text, span: sp })
                &&& t.kind == TokenKind::True ==> (r matches Ok(e) && e.view() == ExprV::Bool { value: true, span: sp })
                &&& t.kind == TokenKind::False ==> (r matches Ok(e) && e.view() == ExprV::Bool { value: false, span: sp })
                &&& t.kind == TokenKind::Nil ==> (r matches Ok(e) && e.view() == ExprV::Nil { span: sp })
                &&& (t.kind == TokenKind::Number || t.kind == TokenKind::String || t.kind == TokenKind::Ident
                    || t.kind == TokenKind::True || t.kind == TokenKind::False || t.kind == TokenKind::Nil)
                    ==> final(self).current == old(self).current + 1 && final(self).tmp_counter == old(self).tmp_counter
            }),
        decreases old(self).tokens@.len() - old(self).current, 57nat,
    {
        proof {
            let c = old(self).current as int;
            assert(old(self).text_seq()[c] == old(self).texts@[c]@);
        }
        proof {
            let t = old(self).tokens@;
            let c = old(self).current as int;
            let m = 65 - old(self).depth;
            if deep_parens(t, c, m) {
                if m >= 1 {
                    assert(t[c].kind == TokenKind::LParen);
                    assert(deep_parens(t, c + 1, m - 1));
                }
                if m >= 2 {
                    assert(t[c + 1].kind == TokenKind::LParen);
                }
            }
        }
        let token = self.peek();
        let span = self.span_at(&token);
        if self.check_if(TokenKind::is_if) {
            return match self.if_expr()? {
                Some(e) => Ok(e),
                None => Err(self.error_here("expected if expression")),
            };
        }
        if self.check_if(TokenKind::is_loop) {
            return self.loop_expr();
        }
        if self.check(TokenKind::Try) {
            return self.parse_try_expression();
        }
        if self.check(TokenKind::Out) {
            return self.parse_out_expression();
        }
        if self.check(TokenKind::Match) {
            return self.match_expr();
        }
        if self.match_if(TokenKind::is_true) {
            return Ok(Expr::Bool { value: true, span });
        }
        if self.match_if(TokenKind::is_false) {
            return Ok(Expr::Bool { value: false, span });
        }
        if self.match_if(TokenKind::is_nil) {
            return Ok(Expr::Nil { span });
        }
        if self.match_kind(TokenKind::Number) {
            let value = self.text_of(self.current - 1);
            return Ok(Expr::Number { value, span });
        }
        if self.match_kind(TokenKind::String) {
            let value = self.text_of(self.current - 1);
            return Ok(Expr::String { value, span });
        }
        if self.match_kind(TokenKind::Ident) {
            let name = self.text_of(self.current - 1);
            return Ok(Expr::Ident { name, span });
        }
        if self.match_kind(TokenKind::LParen) {
            let first = self.expression()?;
            if self.match_kind(TokenKind::Comma) {
                let mut elements: Vec<Expr> = Vec::new();
                push_expr(&mut elements, first);
                loop
                    invariant
                        !deep_parens(old(self).tokens@, old(self).current as int, 65 - old(self).depth),
                        exprs_on(exprs_view(elements@), self.tokens@),
                        self.moved_on(*old(self)),
                        old(self).current < self.current,
                        !old(self).at_end(),
                        old(self).cur().kind != TokenKind::Number && old(self).cur().kind != TokenKind::String
                            && old(self).cur().kind != TokenKind::Ident && old(self).cur().kind != TokenKind::True
                            && old(self).cur().kind != TokenKind::False && old(self).cur().kind != TokenKind::Nil,
                    decreases self.tokens@.len() - self.current,
                {
                    let element = self.expression()?;
                    push_expr(&mut elements, element);
                    if !self.match_kind(TokenKind::Comma) {
                        break;
                    }
                }
                self.consume(TokenKind::RParen, "expected ')' after tuple")?;
                assert(span_on(span, old(self).tokens@));
                return Ok(Expr::Tuple { elements, span });
            }
            self.consume(TokenKind::RParen, "expected ')' after expression")?;
            return Ok(first);
        }
        if self.match_kind(TokenKind::LBracket) {
            let mut elements: Vec<Expr> = Vec::new();
            if !self.check(TokenKind::RBracket) {
                loop
                    invariant
                        !deep_parens(old(self).tokens@, old(self).current as int, 65 - old(self).depth),
                        exprs_on(exprs_view(elements@), self.tokens@),
                        self.moved_on(*old(self)),
                        old(self).current < self.current,
                        !old(self).at_end(),
                        old(self).cur().kind != TokenKind::Number && old(self).cur().kind != TokenKind::String
                            && old(self).cur().kind != TokenKind::Ident && old(self).cur().kind != TokenKind::True
                            && old(self).cur().kind != TokenKind::False && old(self).cur().kind != TokenKind::Nil,
                    decreases self.tokens@.len() - self.current,
                {
                    let element = self.expression()?;
                    push_expr(&mut elements, element);
                    if !self.match_kind(TokenKind::Comma) {
                        break;
                    }
                }
            }
            self.consume(TokenKind::RBracket, "expected ']' after array")?;
            assert(span_on(span, old(self).tokens@));
            assert(exprs_on(exprs_view(elements@), old(self).tokens@));
            return Ok(Expr::Array { elements, span });
        }
        if self.match_kind(TokenKind::LBrace) {
            let mut pairs: Vec<(String, Expr)> = Vec::new();
            if !self.check(TokenKind::RBrace) {
                loop
                    invariant
                        !deep_parens(old(self).tokens@, old(self).current as int, 65 - old(self).depth),
                        pairs_on(pairs_view(pairs@), self.tokens@),
                        self.moved_on(*old(self)),
                        old(self).current < self.current,
                        !old(self).at_end(),
                        old(self).cur().kind != TokenKind::Number && old(self).cur().kind != TokenKind::String
                            && old(self).cur().kind != TokenKind::Ident && old(self).cur().kind != TokenKind::True
                            && old(self).cur().kind != TokenKind::False && old(self).cur().kind != TokenKind::Nil,
                    decreases self.tokens@.len() - self.current,
                {
                    let key = if self.check(TokenKind::Ident) || self.check(TokenKind::String) {
                        self.advance();
                        self.text_of(self.current - 1)
                    } else {
                        return Err(self.error_here("expected property name in dict"));
                    };
                    self.consume(TokenKind::Colon, "expected ':' after property name")?;
                    let value = self.expression()?;
                    push_pair(&mut pairs, key, value);
                    if !self.match_kind(TokenKind::Comma) {
                        break;
                    }
                }
            }
            self.consume(TokenKind::RBrace, "expected '}' after dict")?;
            assert(span_on(span, old(self).tokens@));
            assert(pairs_on(pairs_view(pairs@), old(self).tokens@));
            return Ok(Expr::Dict { pairs, span });
        }
        if self.check_if(TokenKind::is_fn) {
            self.advance();
            let fn_span = self.span_here();
            let params = if self.check(TokenKind::LParen) {
                self.advance();
                let p = self.parse_params()?;
                self.consume(TokenKind::RParen, "expected ')' after parameters")?;
                p
            } else {
                Vec::new()
            };
            self.consume(TokenKind::LBrace, "expected '{' before function body")?;
            let body = self.block()?;
            return Ok(Expr::Fn { name: None, params, body, span: fn_span });
        }
        let mut message = "unexpected token: ".to_owned();
        push_str(&mut message, token.kind.display_text());
        Err(ParseError { message, line: token.line, column: token.column })
    }
}

/// A temporary of a comparison chain, read.
pub open spec fn tmp_ident(n: nat, span: Span) -> ExprV {
    ExprV::Ident { name: tmp_name(n), span }
}

/// The `k`-th comparison of a chain of the operands `ov` joined by `ops`,
/// whose middle operands are held in the temporaries numbered from `c0`:
/// it reads the first operand or the temporary before, and the last
/// operand or its own temporary.
pub open spec fn chain_comparison(ov: Seq<ExprV>, ops: Seq<BinaryOp>, c0: nat, span: Span, k: int) -> ExprV {
    ExprV::Binary {
        left: Box::new(if k == 0 { ov[0] } else { tmp_ident((c0 + k - 1) as nat, span) }),
        op: ops[k],
        right: Box::new(if k == ops.len() - 1 { ov[ops.len() as int] } else { tmp_ident((c0 + k) as nat, span) }),
        span,
    }
}

/// The comparisons `0..=k` of a chain, joined by AND from the left.
pub open spec fn chain_conjunction(ov: Seq<ExprV>, ops: Seq<BinaryOp>, c0: nat, span: Span, k: nat) -> ExprV
    decreases k,
{
    if k == 0 {
        chain_comparison(ov, ops, c0, span, 0)
    } else {
        ExprV::And {
            left: Box::new(chain_conjunction(ov, ops, c0, span, (k - 1) as nat)),
            right: Box::new(chain_comparison(ov, ops, c0, span, k as int)),
            span,
        }
    }
}

/// The assignment of the `k`-th middle operand to its temporary.
pub open spec fn chain_assignment(ov: Seq<ExprV>, c0: nat, span: Span, k: int) -> StmtV {
    StmtV::Assign { target: AssignTargetV::Ident { name: tmp_name((c0 + k) as nat) }, value: ov[k + 1], span }
}

/// What a comparison of the operands `ov` joined by `ops` becomes: the
/// operand itself with no operator; one binary comparison with one; with
/// more, a block that first stores each middle operand, once, in a fresh
/// temporary (numbered from `c0`), then joins the comparisons with AND.
pub open spec fn comparison_view(ov: Seq<ExprV>, ops: Seq<BinaryOp>, c0: nat, span: Span) -> ExprV {
    if ops.len() == 0 {
        ov[0]
    } else if ops.len() == 1 {
        ExprV::Binary { left: Box::new(ov[0]), op: ops[0], right: Box::new(ov[1]), span }
    } else {
        ExprV::Block {
            statements: Seq::new((ops.len() - 1) as nat, |k: int| chain_assignment(ov, c0, span, k)).push(
                StmtV::Expr(chain_conjunction(ov, ops, c0, span, (ops.len() - 1) as nat)),
            ),
            span,
        }
    }
}

proof fn lemma_chain_conjunction_on(ov: Seq<ExprV>, ops: Seq<BinaryOp>, c0: nat, span: Span, k: nat, t: Seq<Token>)
    requires
        ov.len() == ops.len() + 1,
        k < ops.len(),
        forall|j: int| 0 <= j < ov.len() ==> expr_on(#[trigger] ov[j], t),
        span_on(span, t),
    ensures
        expr_on(chain_conjunction(ov, ops, c0, span, k), t),
    decreases k,
{
    assert(expr_on(ov[0], t));
    assert(expr_on(ov[ops.len() as int], t));
    let c = chain_comparison(ov, ops, c0, span, k as int);
    assert(expr_on(tmp_ident((c0 + k - 1) as nat, span), t));
    assert(expr_on(tmp_ident((c0 + k) as nat, span), t));
    if k == 0 {
        assert(expr_on(c, t));
    } else {
        lemma_chain_conjunction_on(ov, ops, c0, span, (k - 1) as nat, t);
        assert(expr_on(c, t));
    }
}

proof fn lemma_chain_assignments_on(ov: Seq<ExprV>, c0: nat, span: Span, m: nat, t: Seq<Token>)
    requires
        m + 1 <= ov.len(),
        forall|j: int| 0 <= j < ov.len() ==> expr_on(#[trigger] ov[j], t),
        span_on(span, t),
    ensures
        stmts_on(Seq::new(m, |k: int| chain_assignment(ov, c0, span, k)), t),
    decreases m,
{
    if m > 0 {
        lemma_chain_assignments_on(ov, c0, span, (m - 1) as nat, t);
        let s = Seq::new(m, |k: int| chain_assignment(ov, c0, span, k));
        assert(s.drop_last() =~= Seq::new((m - 1) as nat, |k: int| chain_assignment(ov, c0, span, k)));
        assert(expr_on(ov[m as int], t));
        assert(s[m - 1] == chain_assignment(ov, c0, span, m - 1));
        assert(stmt_on(chain_assignment(ov, c0, span, m - 1), t));
    } else {
        assert(Seq::new(m, |k: int| chain_assignment(ov, c0, span, k)).len() == 0);
    }
}

/// Every span in what a comparison becomes points at a token when those of
/// its operands and its own span do.
proof fn lemma_comparison_on(ov: Seq<ExprV>, ops: Seq<BinaryOp>, c0: nat, span: Span, t: Seq<Token>)
    requires
        ov.len() == ops.len() + 1,
        forall|j: int| 0 <= j < ov.len() ==> expr_on(#[trigger] ov[j], t),
        span_on(span, t),
    ensures
        expr_on(comparison_view(ov, ops, c0, span), t),
{
    assert(expr_on(ov[0], t));
    if ops.len() >= 1 {
        assert(expr_on(ov[1], t));
    }
    if ops.len() >= 2 {
        let n = ops.len();
        lemma_chain_assignments_on(ov, c0, span, (n - 1) as nat, t);
        lemma_chain_conjunction_on(ov, ops, c0, span, (n - 1) as nat, t);
        let a = Seq::new((n - 1) as nat, |k: int| chain_assignment(ov, c0, span, k));
        lemma_stmts_on_push(a, StmtV::Expr(chain_conjunction(ov, ops, c0, span, (n - 1) as nat)), t);
    }
}

proof fn lemma_stmts_view_index(s: Seq<Stmt>)
    ensures
        stmts_view(s).len() == s.len(),
        forall|k: int| 0 <= k < s.len() ==> #[trigger] stmts_view(s)[k] == s[k].view(),
    decreases s.len(),
{
    if s.len() > 0 {
        lemma_stmts_view_index(s.drop_last());
        assert forall|k: int| 0 <= k < s.len() implies #[trigger] stmts_view(s)[k] == s[k].view() by {
            if k < s.len() - 1 {
                assert(s.drop_last()[k] == s[k]);
            }
        }
    }
}

/// The comparison operator a token stands for.
pub open spec fn comparison_op_of(k: TokenKind) -> Option<BinaryOp> {
    match k {
        TokenKind::EqEq => Some(BinaryOp::Eq),
        TokenKind::BangEq => Some(BinaryOp::Neq),
        TokenKind::Lt => Some(BinaryOp::Lt),
        TokenKind::Gt => Some(BinaryOp::Gt),
        TokenKind::LtEq => Some(BinaryOp::LtEq),
        TokenKind::GtEq => Some(BinaryOp::GtEq),
        _ => None,
    }
}

/// Whether a `{` at index `i` opens a dictionary literal (see
/// `Parser::is_dict_literal`).
pub open spec fn dict_ahead(t: Seq<Token>, i: int) -> bool {
    &&& 0 <= i < t.len()
    &&& t[i].kind == TokenKind::LBrace
    &&& ((i + 1 < t.len() && t[i + 1].kind == TokenKind::RBrace) || (i + 2 < t.len() && (t[i
        + 1].kind == TokenKind::Ident || t[i + 1].kind == TokenKind::String) && t[i + 2].kind
        == TokenKind::Colon))
}

/// Whether the tokens from index `i` look like a dictionary literal that
/// lacks its colon (see `Parser::looks_like_dict_with_missing_colon`).
pub open spec fn dict_missing_colon_ahead(t: Seq<Token>, i: int) -> bool {
    &&& 0 <= i && i + 3 < t.len()
    &&& t[i].kind == TokenKind::LBrace
    &&& (t[i + 1].kind == TokenKind::Ident || t[i + 1].kind == TokenKind::String)
    &&& (t[i + 2].kind == TokenKind::Number || t[i + 2].kind == TokenKind::String || t[i + 2].kind
        == TokenKind::Ident)
    &&& (t[i + 3].kind == TokenKind::RBrace || t[i + 3].kind == TokenKind::Comma)
}

/// The arithmetic operator of a compound assignment token.
pub open spec fn compound_op(k: TokenKind) -> Option<BinaryOp> {
    match k {
        TokenKind::PlusEqual => Some(BinaryOp::Add),
        TokenKind::MinusEqual => Some(BinaryOp::Sub),
        TokenKind::StarEqual => Some(BinaryOp::Mul),
        TokenKind::SlashEqual => Some(BinaryOp::Div),
        _ => None,
    }
}

impl Parser {
    /// Parses a whole source text into a program.
    ///
    /// A lexical error is returned as a parse error with the same message,
    /// line and column. A source with no tokens gives the empty program.
    pub fn parse(source: &str) -> (r: Result<Program, ParseError>)
        requires
            source@.len() < usize::MAX,
            byte_len(source@) <= usize::MAX,
        ensures
            tokenize(source@) matches Err(f) ==> r matches Err(e) && e.message@ == f.0
                && e.line == f.1 && e.column == f.2,
            tokenize(source@) matches Ok(w) ==> {
                &&& w.len() > 0
                &&& r matches Err(e) ==> at_source_token(e.line, e.column, w)
                &&& r matches Ok(p) ==> p.statements@.len() < w.len()
                &&& r matches Ok(p) ==> stmts_on(stmts_view(p.statements@), source_tokens(w))
                &&& deep_parens(source_tokens(w), 0, 64) ==> (r matches Err(e) && e.message@ == expression_nesting_message())
                &&& declaration_import_at(source_tokens(w), source_texts(w), 0) matches Some(o) ==> {
                    &&& o matches Err((m, k)) ==> (r matches Err(e) && e.message@ == m && e.line == w[k].0.line
                        && e.column == w[k].0.column)
                    &&& o matches Ok((st, n)) ==> (r matches Ok(p) ==> stmts_view(p.statements@)[0] == st)
                    &&& o matches Ok((st, n)) ==> (w[n].0.kind == TokenKind::Eof ==> (r matches Ok(p)
                        && stmts_view(p.statements@) == seq![st]))
                }
                &&& w[0].0.kind == TokenKind::Eof ==> (r matches Ok(p) && p.statements@.len() == 0)
                &&& single_expression(source_tokens(w), source_texts(w)) matches Some(e) ==> (r matches Ok(p)
                    && stmts_view(p.statements@) == seq![StmtV::Expr(e)])
                &&& single_statement(source_tokens(w), source_texts(w)) matches Some(e) ==> (r matches Ok(p)
                    && stmts_view(p.statements@) == seq![StmtV::Expr(e)])
                &&& single_assignment(source_tokens(w), source_texts(w)) matches Some(st) ==> (r matches Ok(p)
                    && stmts_view(p.statements@) == seq![st])
            },
    {
        let (program, _timings) = Self::parse_with_timing(source)?;
        Ok(program)
    }

    /// Parses a whole source text as [`Parser::parse`] does, and reports how
    /// long the two stages took.
    #[verifier::rlimit(80)]
    pub fn parse_with_timing(source: &str) -> (r: Result<(Program, ParseTimings), ParseError>)
        requires
            source@.len() < usize::MAX,
            byte_len(source@) <= usize::MAX,
        ensures
            tokenize(source@) matches Err(f) ==> r matches Err(e) && e.message@ == f.0
                && e.line == f.1 && e.column == f.2,
            tokenize(source@) matches Ok(w) ==> {
                &&& w.len() > 0
                &&& r matches Err(e) ==> at_source_token(e.line, e.column, w)
                &&& r matches Ok(p) ==> p.0.statements@.len() < w.len()
                &&& r matches Ok(p) ==> stmts_on(stmts_view(p.0.statements@), source_tokens(w))
                &&& deep_parens(source_tokens(w), 0, 64) ==> (r matches Err(e) && e.message@ == expression_nesting_message())
                &&& declaration_import_at(source_tokens(w), source_texts(w), 0) matches Some(o) ==> {
                    &&& o matches Err((m, k)) ==> (r matches Err(e) && e.message@ == m && e.line == w[k].0.line
                        && e.column == w[k].0.column)
                    &&& o matches Ok((st, n)) ==> (r matches Ok(p) ==> stmts_view(p.0.statements@)[0] == st)
                    &&& o matches Ok((st, n)) ==> (w[n].0.kind == TokenKind::Eof ==> (r matches Ok(p)
                        && stmts_view(p.0.statements@) == seq![st]))
                }
                &&& w[0].0.kind == TokenKind::Eof ==> (r matches Ok(p) && p.0.statements@.len() == 0)
                &&& single_expression(source_tokens(w), source_texts(w)) matches Some(e) ==> (r matches Ok(p)
                    && stmts_view(p.0.statements@) == seq![StmtV::Expr(e)])
                &&& single_statement(source_tokens(w), source_texts(w)) matches Some(e) ==> (r matches Ok(p)
                    && stmts_view(p.0.statements@) == seq![StmtV::Expr(e)])
                &&& single_assignment(source_tokens(w), source_texts(w)) matches Some(st) ==> (r matches Ok(p)
                    && stmts_view(p.0.statements@) == seq![st])
            },
    {
        proof {
            lemma_tokenize_shape(source@);
        }
        let lex_start = clock_now();
        let lexer = Lexer::new(source);
        let scanned = lexer.scan_all();
        let result = match scanned {
            Ok(v) => v,
            Err(e) => {
                return Err(ParseError { message: e.message, line: e.line, column: e.column });
            },
        };
        let lex_duration = elapsed_since(&lex_start);
        let ghost w = tokenize(source@);
        let mut tokens: Vec<Token> = Vec::new();
        let mut texts: Vec<String> = Vec::new();
        let mut i: usize = 0;
        while i < result.len()
            invariant
                w matches Ok(ws) && tokens_view(result@) == ws,
                i <= result@.len(),
                tokens@.len() == i,
                texts@.len() == i,
                forall|j: int| 0 <= j < i ==> tokens@[j] == result@[j].0 && texts@[j]@ == result@[j].1@,
            decreases result@.len() - i,
        {
            let (t, text) = &result[i];
            tokens.push(*t);
            texts.push(text.clone());
            i = i + 1;
        }
        let parse_start = clock_now();
        let mut parser = Parser { tokens, texts, current: 0, depth: 0, tmp_counter: 0 };
        proof {
            let ws = w->Ok_0;
            assert(tokens_view(result@).len() == result@.len());
            assert forall|j: int| 0 <= j < ws.len() implies ws[j].0 == parser.tokens@[j] by {
                assert(tokens_view(result@)[j] == (result@[j].0, result@[j].1@));
            }
            assert(parser.tokens@.last() == ws.last().0);
        }
        let mut statements: Vec<Stmt> = Vec::new();
        proof {
            let ws = w->Ok_0;
            assert(parser.tokens@ =~= source_tokens(ws));
            assert forall|j: int| 0 <= j < ws.len() implies parser.text_seq()[j] == source_texts(ws)[j] by {
                assert(tokens_view(result@)[j] == (result@[j].0, result@[j].1@));
                assert(parser.tokens@[j] == result@[j].0);
                assert(parser.texts@[j]@ == result@[j].1@);
                assert(parser.text_seq()[j] == parser.texts@[j]@);
                assert(source_texts(ws)[j] == ws[j].1);
            }
            assert(parser.text_seq() =~= source_texts(ws));
        }
        let ghost d = declaration_import_at(parser.tokens@, parser.text_seq(), 0);
        while !parser.is_at_end()
            invariant
                parser.wf(),
                w matches Ok(ws) && ws.len() == parser.tokens@.len()
                    && forall|j: int| 0 <= j < ws.len() ==> ws[j].0 == #[trigger] parser.tokens@[j],
                statements@.len() <= parser.current,
                w matches Ok(ws) && parser.tokens@ == source_tokens(ws),
                stmts_on(stmts_view(statements@), parser.tokens@),
                w == tokenize(source@),
                parser.tokens@[0].kind == TokenKind::Eof ==> parser.current == 0,
                w matches Ok(ws) && parser.text_seq() == source_texts(ws),
                d == declaration_import_at(parser.tokens@, parser.text_seq(), 0),
                statements@.len() == 0 ==> parser.current == 0,
                d matches Some(Err(_)) ==> statements@.len() == 0,
                parser.depth == 0,
                deep_parens(parser.tokens@, 0, 64) ==> statements@.len() == 0,
                d matches Some(Ok((st, n))) ==> (statements@.len() > 0 ==> stmts_view(statements@)[0] == st),
                d matches Some(Ok((st, n))) ==> (statements@.len() > 0 && parser.tokens@[n].kind == TokenKind::Eof
                    ==> statements@.len() == 1 && parser.current == n),
                single_expression(parser.tokens@, parser.text_seq()) matches Some(e) ==> (statements@.len() > 0
                    ==> stmts_view(statements@) == seq![StmtV::Expr(e)] && parser.at_end()),
                single_statement(parser.tokens@, parser.text_seq()) matches Some(e) ==> (statements@.len() > 0
                    ==> stmts_view(statements@) == seq![StmtV::Expr(e)] && parser.at_end()),
                single_assignment(parser.tokens@, parser.text_seq()) matches Some(a) ==> (statements@.len() > 0
                    ==> stmts_view(statements@) == seq![a] && parser.at_end()),
            decreases parser.tokens@.len() - parser.current,
        {
            proof {
                if single_expression(parser.tokens@, parser.text_seq()) is Some {
                    assert(statements@.len() == 0);
                    assert(parser.frag(8) == frag_expr(parser.tokens@, parser.text_seq(), 0, 0, 0));
                }
                if single_statement(parser.tokens@, parser.text_seq()) is Some {
                    assert(statements@.len() == 0);
                    assert(parser.frag(8) == frag_expr(parser.tokens@, parser.text_seq(), 0, 0, 0));
                }
                if single_assignment(parser.tokens@, parser.text_seq()) is Some {
                    assert(statements@.len() == 0);
                }
            }
            match parser.declaration() {
                Ok(st) => {
                    let ghost before = statements@;
                    push_stmt(&mut statements, st);
                    proof {
                        lemma_stmts_view_index(before);
                        lemma_stmts_view_index(statements@);
                        if before.len() > 0 {
                            assert(statements@[0] == before[0]);
                        }
                        if single_expression(parser.tokens@, parser.text_seq()) is Some {
                            assert(stmts_view(statements@) =~= seq![st.view()]);
                        }
                        if single_statement(parser.tokens@, parser.text_seq()) is Some {
                            assert(stmts_view(statements@) =~= seq![st.view()]);
                        }
                        if single_assignment(parser.tokens@, parser.text_seq()) is Some {
                            assert(stmts_view(statements@) =~= seq![st.view()]);
                        }
                    }
                },
                Err(e) => {
                    proof {
                        let ws = w->Ok_0;
                        let k = choose|k: int| 0 <= k < parser.tokens@.len() && (#[trigger] parser.tokens@[k]).line == e.line
                            && parser.tokens@[k].column == e.column;
                        assert(ws[k].0 == parser.tokens@[k]);
                    }
                    return Err(e);
                },
            }
            parser.skip_semicolons();
        }
        let parse_duration = elapsed_since(&parse_start);
        proof {
            let ws = w->Ok_0;
            lemma_stmts_view_index(statements@);
            match d {
                Some(Ok((st, n))) => {
                    assert(parser.tokens@[0].kind != TokenKind::Eof);
                    if statements@.len() > 0 {
                        assert(stmts_view(statements@)[0] == st);
                    }
                    if ws[n].0.kind == TokenKind::Eof {
                        assert(source_tokens(ws)[n] == ws[n].0);
                        assert(statements@.len() == 1);
                        assert(stmts_view(statements@) =~= seq![st]);
                    }
                },
                Some(Err(_)) => {
                    assert(parser.tokens@[0].kind != TokenKind::Eof);
                },
                None => {},
            }
            if deep_parens(parser.tokens@, 0, 64) {
                assert(parser.tokens@[0].kind == TokenKind::LParen);
            }
            if single_expression(parser.tokens@, parser.text_seq()) is Some {
                assert(parser.tokens@[0].kind != TokenKind::Eof);
                assert(statements@.len() > 0);
            }
            if single_statement(parser.tokens@, parser.text_seq()) is Some {
                assert(parser.tokens@[0].kind != TokenKind::Eof);
                assert(statements@.len() > 0);
            }
            if single_assignment(parser.tokens@, parser.text_seq()) is Some {
                assert(parser.tokens@[0].kind != TokenKind::Eof);
                assert(statements@.len() > 0);
            }
        }
        Ok((Program { statements }, ParseTimings { lex_duration, parse_duration }))
    }
}


// ---------------------------------------------------------------------------
// Laws of the parser's grammar
// ---------------------------------------------------------------------------

/// A one-token operand followed by a token that ends an expression is, as
/// a whole expression, that operand itself.
pub proof fn lemma_leaf_expression(t: Seq<Token>, x: Seq<Seq<char>>, i: int, d: int, m: nat)
    requires
        0 <= i,
        i + 1 < t.len(),
        leaf_kind(t[i].kind),
        ends_expression(t[i + 1].kind),
        d < 64,
    ensures
        frag_expr(t, x, i, d, m) == Some((leaf_view(t, x, i), i + 1, m)),
{
    assert(frag_factor(t, x, i, d + 1, m) == Some((leaf_view(t, x, i), i + 1, m)));
    lemma_power_expression(t, x, i, d, m, leaf_view(t, x, i), i + 1, m);
}

/// A power followed by a token that ends an expression is, as a whole
/// expression, that power itself.
pub proof fn lemma_power_expression(t: Seq<Token>, x: Seq<Seq<char>>, i: int, d: int, m: nat, e: ExprV, j: int, m1: nat)
    requires
        0 <= i < j < t.len(),
        frag_factor(t, x, i, d + 1, m) == Some((e, j, m1)),
        ends_expression(t[j].kind),
        d < 64,
    ensures
        frag_expr(t, x, i, d, m) == Some((e, j, m1)),
{
    assert(frag_product(t, x, i, d + 1, m) == Some((e, j, m1)));
    assert(frag_sum(t, x, i, d + 1, m) == Some((e, j, m1)));
    assert(frag_range(t, x, i, d + 1, m) == Some((e, j, m1)));
    lemma_range_expression(t, x, i, d, m, e, j, m1);
}

/// A range (or a sum) followed by a token that ends an expression is, as a
/// whole expression, that range itself.
pub proof fn lemma_range_expression(t: Seq<Token>, x: Seq<Seq<char>>, i: int, d: int, m: nat, e: ExprV, j: int, m1: nat)
    requires
        0 <= i < j < t.len(),
        frag_range(t, x, i, d + 1, m) == Some((e, j, m1)),
        ends_expression(t[j].kind),
        d < 64,
    ensures
        frag_expr(t, x, i, d, m) == Some((e, j, m1)),
{
    reveal(frag_comparison);
    let ov = seq![e];
    assert(chain_from(t, x, j, d + 1, m1, ov, Seq::empty()) == Some((ov, Seq::<BinaryOp>::empty(), j, m1)));
    assert(comparison_view(ov, Seq::empty(), m1, token_span(t, j)) == e);
}

/// A block holding one one-token operand as its only statement reads as
/// that one expression statement, up to and including its `}`.
pub proof fn lemma_leaf_block(t: Seq<Token>, x: Seq<Seq<char>>, i: int, d: int, m: nat)
    requires
        0 <= i,
        i + 1 < t.len(),
        leaf_kind(t[i].kind),
        t[i + 1].kind == TokenKind::RBrace,
        d < 63,
    ensures
        block_at(t, x, i, d, m) == Some((seq![StmtV::Expr(leaf_view(t, x, i))], i + 2, m)),
{
    lemma_leaf_expression(t, x, i, d + 1, m);
    assert(semis_end(t, i + 1) == i + 1);
    let acc = Seq::<StmtV>::empty().push(StmtV::Expr(leaf_view(t, x, i)));
    assert(acc =~= seq![StmtV::Expr(leaf_view(t, x, i))]);
    assert(block_from(t, x, i + 1, d + 1, m, acc) == Some((acc, i + 2, m)));
    assert(block_from(t, x, i, d + 1, m, Seq::empty()) == block_from(t, x, i + 1, d + 1, m, acc));
}

/// `a ** b ** c`, with one-token operands and followed by a token that
/// neither continues `c` nor is `**`, groups to the right: `a ** (b ** c)`,
/// each power keeping its base on the left and its exponent on the right.
pub proof fn lemma_power_groups_right(t: Seq<Token>, x: Seq<Seq<char>>, i: int, d: int, m: nat)
    requires
        0 <= i,
        i + 5 < t.len(),
        leaf_kind(t[i].kind),
        t[i + 1].kind == TokenKind::StarStar,
        leaf_kind(t[i + 2].kind),
        t[i + 3].kind == TokenKind::StarStar,
        leaf_kind(t[i + 4].kind),
        !postfix_kind(t[i + 5].kind),
        t[i + 5].kind != TokenKind::StarStar,
    ensures
        frag_factor(t, x, i, d, m) == Some(
            (
                ExprV::Binary {
                    left: Box::new(leaf_view(t, x, i)),
                    op: BinaryOp::Pow,
                    right: Box::new(
                        ExprV::Binary {
                            left: Box::new(leaf_view(t, x, i + 2)),
                            op: BinaryOp::Pow,
                            right: Box::new(leaf_view(t, x, i + 4)),
                            span: token_span(t, i + 4),
                        },
                    ),
                    span: token_span(t, i + 2),
                },
                i + 5,
                m,
            ),
        ),
{
    assert(frag_factor(t, x, i + 4, d, m) == Some((leaf_view(t, x, i + 4), i + 5, m)));
    assert(frag_factor(t, x, i + 2, d, m) == Some(
        (
            ExprV::Binary {
                left: Box::new(leaf_view(t, x, i + 2)),
                op: BinaryOp::Pow,
                right: Box::new(leaf_view(t, x, i + 4)),
                span: token_span(t, i + 4),
            },
            i + 5,
            m,
        ),
    ));
}

/// The arguments of a call `f(a0, a1, ..., a(n-1))` whose arguments are
/// one-token operands are those operands, in the order they are written:
/// the `k`-th argument is the operand at index `i + 2k`.
pub proof fn lemma_call_arguments_in_order(t: Seq<Token>, x: Seq<Seq<char>>, i: int, d: int, m: nat, n: nat)
    requires
        n >= 1,
        0 <= i,
        i + 2 * n <= t.len(),
        d < 64,
        forall|k: int| 0 <= k < n ==> #[trigger] leaf_kind(t[i + 2 * k].kind),
        forall|k: int| 0 <= k < n - 1 ==> #[trigger] t[i + 2 * k + 1].kind == TokenKind::Comma,
        t[i + 2 * n - 1].kind == TokenKind::RParen,
    ensures
        call_args(t, x, i, d, m) == Some((Seq::new(n, |k: int| leaf_view(t, x, i + 2 * k)), i + 2 * n - 1, m)),
{
    assert(leaf_kind(t[i + 2 * 0].kind));
    lemma_arguments_from(t, x, i, d, m, n, 0);
    assert(Seq::<ExprV>::empty() =~= Seq::new(0, |k: int| leaf_view(t, x, i + 2 * k)));
}

/// Reading the arguments of [`lemma_call_arguments_in_order`] from the
/// `j`-th one on, with the first `j` already read.
proof fn lemma_arguments_from(t: Seq<Token>, x: Seq<Seq<char>>, i: int, d: int, m: nat, n: nat, j: nat)
    requires
        j < n,
        0 <= i,
        i + 2 * n <= t.len(),
        d < 64,
        forall|k: int| 0 <= k < n ==> #[trigger] leaf_kind(t[i + 2 * k].kind),
        forall|k: int| 0 <= k < n - 1 ==> #[trigger] t[i + 2 * k + 1].kind == TokenKind::Comma,
        t[i + 2 * n - 1].kind == TokenKind::RParen,
    ensures
        args_from(t, x, i + 2 * j, d, m, Seq::new(j, |k: int| leaf_view(t, x, i + 2 * k))) == Some(
            (Seq::new(n, |k: int| leaf_view(t, x, i + 2 * k)), i + 2 * n - 1, m),
        ),
    decreases n - j,
{
    let p = i + 2 * j;
    assert(leaf_kind(t[i + 2 * j].kind));
    if j + 1 < n {
        assert(t[i + 2 * j + 1].kind == TokenKind::Comma);
    }
    lemma_leaf_expression(t, x, p, d, m);
    let acc = Seq::new(j, |k: int| leaf_view(t, x, i + 2 * k));
    assert(acc.push(leaf_view(t, x, p)) =~= Seq::new(j + 1, |k: int| leaf_view(t, x, i + 2 * k)));
    if j + 1 < n {
        lemma_arguments_from(t, x, i, d, m, n, j + 1);
        assert(p + 2 == i + 2 * (j + 1));
    }
}

/// `if c { a } else { b }`, with one-token `c`, `a` and `b`: the branch
/// taken when the condition holds is the block right after the condition,
/// `[a]`, and the other branch is the block after `else`, `[b]`.
pub proof fn lemma_if_else_branches(t: Seq<Token>, x: Seq<Seq<char>>, i: int, d: int, m: nat)
    requires
        0 <= i,
        i + 9 < t.len(),
        d < 63,
        t[i].kind == TokenKind::If,
        leaf_kind(t[i + 1].kind),
        t[i + 2].kind == TokenKind::LBrace,
        leaf_kind(t[i + 3].kind),
        t[i + 4].kind == TokenKind::RBrace,
        t[i + 5].kind == TokenKind::Else,
        t[i + 6].kind == TokenKind::LBrace,
        leaf_kind(t[i + 7].kind),
        t[i + 8].kind == TokenKind::RBrace,
    ensures
        if_at(t, x, i, d, m) == Some(
            (
                ExprV::If {
                    condition: Box::new(leaf_view(t, x, i + 1)),
                    then_branch: seq![StmtV::Expr(leaf_view(t, x, i + 3))],
                    else_branch: Some(
                        Box::new(ExprV::Block { statements: seq![StmtV::Expr(leaf_view(t, x, i + 7))], span: token_span(t, i + 1) }),
                    ),
                    span: token_span(t, i + 1),
                },
                i + 9,
                m,
            ),
        ),
{
    lemma_leaf_expression(t, x, i + 1, d, m);
    lemma_leaf_block(t, x, i + 3, d, m);
    lemma_leaf_block(t, x, i + 7, d, m);
}

/// `try { a } catch (e) { b } keep { c }`, with one-token `a`, `b` and
/// `c`: the body is the block after `try`, `[a]`; the catch clause binds
/// `e` and runs the block after `catch (e)`, `[b]`; the block run in every
/// case is the one after `keep`, `[c]`.
pub proof fn lemma_try_catch_keep_blocks(t: Seq<Token>, x: Seq<Seq<char>>, i: int, d: int, m: nat)
    requires
        0 <= i,
        i + 14 < t.len(),
        d < 63,
        t[i].kind == TokenKind::Try,
        t[i + 1].kind == TokenKind::LBrace,
        leaf_kind(t[i + 2].kind),
        t[i + 3].kind == TokenKind::RBrace,
        t[i + 4].kind == TokenKind::Catch,
        t[i + 5].kind == TokenKind::LParen,
        t[i + 6].kind == TokenKind::Ident,
        t[i + 7].kind == TokenKind::RParen,
        t[i + 8].kind == TokenKind::LBrace,
        leaf_kind(t[i + 9].kind),
        t[i + 10].kind == TokenKind::RBrace,
        t[i + 11].kind == TokenKind::Keep,
        t[i + 12].kind == TokenKind::LBrace,
        leaf_kind(t[i + 13].kind),
        t[i + 14].kind == TokenKind::RBrace,
    ensures
        try_at(t, x, i, d, m) == Some(
            (
                ExprV::Try {
                    body: seq![StmtV::Expr(leaf_view(t, x, i + 2))],
                    catch_clause: Some(
                        Box::new(
                            CatchClauseV { binding: x[i + 6], exception_type: None, body: seq![StmtV::Expr(leaf_view(t, x, i + 9))] },
                        ),
                    ),
                    keep_block: Some(seq![StmtV::Expr(leaf_view(t, x, i + 13))]),
                    span: token_span(t, i + 1),
                },
                i + 15,
                m,
            ),
        ),
{
    lemma_leaf_block(t, x, i + 2, d, m);
    lemma_leaf_block(t, x, i + 9, d, m);
    lemma_leaf_block(t, x, i + 13, d, m);
}

/// The program `a ** b ** c`, with one-token operands, parses as the single
/// statement `a ** (b ** c)` (see `Parser::parse` and
/// [`lemma_power_groups_right`]).
pub proof fn lemma_program_power(t: Seq<Token>, x: Seq<Seq<char>>)
    requires
        t.len() == 6,
        leaf_kind(t[0].kind),
        t[1].kind == TokenKind::StarStar,
        leaf_kind(t[2].kind),
        t[3].kind == TokenKind::StarStar,
        leaf_kind(t[4].kind),
        t[5].kind == TokenKind::Eof,
    ensures
        single_expression(t, x) == Some(
            ExprV::Binary {
                left: Box::new(leaf_view(t, x, 0)),
                op: BinaryOp::Pow,
                right: Box::new(
                    ExprV::Binary {
                        left: Box::new(leaf_view(t, x, 2)),
                        op: BinaryOp::Pow,
                        right: Box::new(leaf_view(t, x, 4)),
                        span: token_span(t, 4),
                    },
                ),
                span: token_span(t, 2),
            },
        ),
{
    lemma_power_groups_right(t, x, 0, 1, 0);
    let e = frag_factor(t, x, 0, 1, 0)->Some_0.0;
    lemma_power_expression(t, x, 0, 0, 0, e, 5, 0);
}

/// The program `if c { a } else { b }`, with one-token `c`, `a` and `b`,
/// parses as the single statement whose `if` runs `[a]` when `c` holds and
/// `[b]` otherwise (see `Parser::parse` and [`lemma_if_else_branches`]).
pub proof fn lemma_program_if_else(t: Seq<Token>, x: Seq<Seq<char>>)
    requires
        t.len() == 10,
        t[0].kind == TokenKind::If,
        leaf_kind(t[1].kind),
        t[2].kind == TokenKind::LBrace,
        leaf_kind(t[3].kind),
        t[4].kind == TokenKind::RBrace,
        t[5].kind == TokenKind::Else,
        t[6].kind == TokenKind::LBrace,
        leaf_kind(t[7].kind),
        t[8].kind == TokenKind::RBrace,
        t[9].kind == TokenKind::Eof,
    ensures
        single_statement(t, x) == Some(
            ExprV::If {
                condition: Box::new(leaf_view(t, x, 1)),
                then_branch: seq![StmtV::Expr(leaf_view(t, x, 3))],
                else_branch: Some(Box::new(ExprV::Block { statements: seq![StmtV::Expr(leaf_view(t, x, 7))], span: token_span(t, 1) })),
                span: token_span(t, 1),
            },
        ),
{
    lemma_if_else_branches(t, x, 0, 0, 0);
}

/// The program `try { a } catch (e) { b } keep { c }`, with one-token `a`,
/// `b` and `c`, parses as the single statement whose body is `[a]`, whose
/// catch clause binds `e` and runs `[b]`, and whose `keep` block is `[c]`
/// (see `Parser::parse` and [`lemma_try_catch_keep_blocks`]).
pub proof fn lemma_program_try(t: Seq<Token>, x: Seq<Seq<char>>)
    requires
        t.len() == 16,
        t[0].kind == TokenKind::Try,
        t[1].kind == TokenKind::LBrace,
        leaf_kind(t[2].kind),
        t[3].kind == TokenKind::RBrace,
        t[4].kind == TokenKind::Catch,
        t[5].kind == TokenKind::LParen,
        t[6].kind == TokenKind::Ident,
        t[7].kind == TokenKind::RParen,
        t[8].kind == TokenKind::LBrace,
        leaf_kind(t[9].kind),
        t[10].kind == TokenKind::RBrace,
        t[11].kind == TokenKind::Keep,
        t[12].kind == TokenKind::LBrace,
        leaf_kind(t[13].kind),
        t[14].kind == TokenKind::RBrace,
        t[15].kind == TokenKind::Eof,
    ensures
        single_statement(t, x) == Some(
            ExprV::Try {
                body: seq![StmtV::Expr(leaf_view(t, x, 2))],
                catch_clause: Some(
                    Box::new(CatchClauseV { binding: x[6], exception_type: None, body: seq![StmtV::Expr(leaf_view(t, x, 9))] }),
                ),
                keep_block: Some(seq![StmtV::Expr(leaf_view(t, x, 13))]),
                span: token_span(t, 1),
            },
        ),
{
    lemma_try_catch_keep_blocks(t, x, 0, 0, 0);
}

/// The program `a .. b` is an inclusive range and `a ..< b` an exclusive
/// one, from the one-token operand `a` to the one-token operand `b`, the
/// node spanning `b`.
pub proof fn lemma_program_range(t: Seq<Token>, x: Seq<Seq<char>>)
    requires
        t.len() == 4,
        leaf_kind(t[0].kind),
        t[1].kind == TokenKind::DotDot || t[1].kind == TokenKind::DotDotLt,
        leaf_kind(t[2].kind),
        t[3].kind == TokenKind::Eof,
    ensures
        single_expression(t, x) == Some(
            ExprV::Range {
                start: Box::new(leaf_view(t, x, 0)),
                end: Box::new(leaf_view(t, x, 2)),
                inclusive: t[1].kind == TokenKind::DotDot,
                span: token_span(t, 2),
            },
        ),
{
    let a = leaf_view(t, x, 0);
    let b = leaf_view(t, x, 2);
    assert(frag_factor(t, x, 0, 1, 0) == Some((a, 1int, 0nat)));
    assert(frag_product(t, x, 0, 1, 0) == Some((a, 1int, 0nat)));
    assert(frag_sum(t, x, 0, 1, 0) == Some((a, 1int, 0nat)));
    assert(frag_factor(t, x, 2, 1, 0) == Some((b, 3int, 0nat)));
    assert(frag_product(t, x, 2, 1, 0) == Some((b, 3int, 0nat)));
    assert(frag_sum(t, x, 2, 1, 0) == Some((b, 3int, 0nat)));
    let r = ExprV::Range { start: Box::new(a), end: Box::new(b), inclusive: t[1].kind == TokenKind::DotDot, span: token_span(t, 2) };
    assert(range_from(t, x, 3, 1, 0, r) == Some((r, 3int, 0nat)));
    assert(frag_range(t, x, 0, 1, 0) == Some((r, 3int, 0nat)));
    lemma_range_expression(t, x, 0, 0, 0, r, 3, 0);
}

/// The program `- a` negates and `! a` (also `not a`) inverts the one-token
/// operand `a`, the node spanning the operator.
pub proof fn lemma_program_unary(t: Seq<Token>, x: Seq<Seq<char>>)
    requires
        t.len() == 3,
        t[0].kind == TokenKind::Minus || t[0].kind == TokenKind::Bang,
        leaf_kind(t[1].kind),
        t[2].kind == TokenKind::Eof,
    ensures
        single_expression(t, x) == Some(
            ExprV::Unary {
                op: if t[0].kind == TokenKind::Minus { UnaryOp::Negate } else { UnaryOp::Not },
                operand: Box::new(leaf_view(t, x, 1)),
                span: token_span(t, 0),
            },
        ),
{
    let u = ExprV::Unary {
        op: if t[0].kind == TokenKind::Minus { UnaryOp::Negate } else { UnaryOp::Not },
        operand: Box::new(leaf_view(t, x, 1)),
        span: token_span(t, 0),
    };
    assert(frag_unary(t, x, 1, 1, 0) == Some((leaf_view(t, x, 1), 2int, 0nat)));
    assert(frag_unary(t, x, 0, 1, 0) == Some((u, 2int, 0nat)));
    assert(frag_factor(t, x, 0, 1, 0) == Some((u, 2int, 0nat)));
    lemma_power_expression(t, x, 0, 0, 0, u, 2, 0);
}

/// The program `while c { a }`, with one-token `c` and `a`, parses as the
/// single statement that repeats `[a]` while `c` holds.
pub proof fn lemma_program_while(t: Seq<Token>, x: Seq<Seq<char>>)
    requires
        t.len() == 6,
        t[0].kind == TokenKind::While,
        leaf_kind(t[1].kind),
        t[2].kind == TokenKind::LBrace,
        leaf_kind(t[3].kind),
        t[4].kind == TokenKind::RBrace,
        t[5].kind == TokenKind::Eof,
    ensures
        single_statement(t, x) == Some(
            ExprV::While {
                condition: Box::new(leaf_view(t, x, 1)),
                body: seq![StmtV::Expr(leaf_view(t, x, 3))],
                span: token_span(t, 1),
            },
        ),
{
    lemma_leaf_expression(t, x, 1, 0, 0);
    lemma_leaf_block(t, x, 3, 0, 0);
}

/// The program `for v in e { a }`, with one-token `e` and `a`, parses as
/// the single statement that binds the name `v` to each item of `e` and runs
/// `[a]`.
pub proof fn lemma_program_for(t: Seq<Token>, x: Seq<Seq<char>>)
    requires
        t.len() == 8,
        t[0].kind == TokenKind::For,
        t[1].kind == TokenKind::Ident,
        t[2].kind == TokenKind::In,
        leaf_kind(t[3].kind),
        t[4].kind == TokenKind::LBrace,
        leaf_kind(t[5].kind),
        t[6].kind == TokenKind::RBrace,
        t[7].kind == TokenKind::Eof,
    ensures
        single_statement(t, x) == Some(
            ExprV::ForIn {
                var_name: x[1],
                iterable: Box::new(leaf_view(t, x, 3)),
                body: seq![StmtV::Expr(leaf_view(t, x, 5))],
                span: token_span(t, 1),
            },
        ),
{
    lemma_leaf_expression(t, x, 3, 0, 0);
    lemma_leaf_block(t, x, 5, 0, 0);
}

/// The program `return a`, with one-token `a`, returns `a`; the program
/// `return` alone returns no value.
pub proof fn lemma_program_return(t: Seq<Token>, x: Seq<Seq<char>>)
    requires
        t.len() == 2 || t.len() == 3,
        t[0].kind == TokenKind::Return,
        t[t.len() - 1].kind == TokenKind::Eof,
        t.len() == 3 ==> leaf_kind(t[1].kind),
    ensures
        single_statement(t, x) == Some(
            ExprV::Return {
                value: if t.len() == 3 { Some(Box::new(leaf_view(t, x, 1))) } else { None },
                span: token_span(t, 0),
            },
        ),
{
    if t.len() == 3 {
        lemma_leaf_expression(t, x, 1, 0, 0);
    }
}

/// The parameters of a function `(p0, p1, ..., p(n-1))`, names each, are
/// those names in the order they are written: the `k`-th parameter is the
/// name at index `i + 2k`.
pub proof fn lemma_parameters_in_order(t: Seq<Token>, x: Seq<Seq<char>>, i: int, n: nat)
    requires
        n >= 1,
        0 <= i,
        i + 2 * n <= t.len(),
        forall|k: int| 0 <= k < n ==> #[trigger] t[i + 2 * k].kind == TokenKind::Ident,
        forall|k: int| 0 <= k < n - 1 ==> #[trigger] t[i + 2 * k + 1].kind == TokenKind::Comma,
        t[i + 2 * n - 1].kind == TokenKind::RParen,
    ensures
        params_at(t, x, i) == Some((Seq::new(n, |k: int| x[i + 2 * k]), i + 2 * n - 1)),
{
    assert(t[i + 2 * 0].kind == TokenKind::Ident);
    lemma_parameters_from(t, x, i, n, 0);
    assert(Seq::<Seq<char>>::empty() =~= Seq::new(0, |k: int| x[i + 2 * k]));
}

/// Reading the parameters of [`lemma_parameters_in_order`] from the `j`-th
/// one on, with the first `j` already read.
proof fn lemma_parameters_from(t: Seq<Token>, x: Seq<Seq<char>>, i: int, n: nat, j: nat)
    requires
        j < n,
        0 <= i,
        i + 2 * n <= t.len(),
        forall|k: int| 0 <= k < n ==> #[trigger] t[i + 2 * k].kind == TokenKind::Ident,
        forall|k: int| 0 <= k < n - 1 ==> #[trigger] t[i + 2 * k + 1].kind == TokenKind::Comma,
        t[i + 2 * n - 1].kind == TokenKind::RParen,
    ensures
        params_from(t, x, i + 2 * j, Seq::new(j, |k: int| x[i + 2 * k])) == Some(
            (Seq::new(n, |k: int| x[i + 2 * k]), i + 2 * n - 1),
        ),
    decreases n - j,
{
    let p = i + 2 * j;
    assert(t[i + 2 * j].kind == TokenKind::Ident);
    if j + 1 < n {
        assert(t[i + 2 * j + 1].kind == TokenKind::Comma);
    }
    let acc = Seq::new(j, |k: int| x[i + 2 * k]);
    assert(acc.push(x[p]) =~= Seq::new(j + 1, |k: int| x[i + 2 * k]));
    if j + 1 < n {
        lemma_parameters_from(t, x, i, n, j + 1);
        assert(p + 2 == i + 2 * (j + 1));
    }
}

/// The program `fn f(p, q) { a }`, with one-token `a`, parses as the
/// single statement declaring the function named `f` with the parameters
/// `p` and `q`, in that order, and the body `[a]`.
pub proof fn lemma_program_function(t: Seq<Token>, x: Seq<Seq<char>>)
    requires
        t.len() == 11,
        t[0].kind == TokenKind::Fn,
        t[1].kind == TokenKind::Ident,
        t[2].kind == TokenKind::LParen,
        t[3].kind == TokenKind::Ident,
        t[4].kind == TokenKind::Comma,
        t[5].kind == TokenKind::Ident,
        t[6].kind == TokenKind::RParen,
        t[7].kind == TokenKind::LBrace,
        leaf_kind(t[8].kind),
        t[9].kind == TokenKind::RBrace,
        t[10].kind == TokenKind::Eof,
    ensures
        single_statement(t, x) == Some(
            ExprV::Fn { name: Some(x[1]), params: seq![x[3], x[5]], body: seq![StmtV::Expr(leaf_view(t, x, 8))], span: token_span(t, 0) },
        ),
{
    lemma_parameters_in_order(t, x, 3, 2);
    assert(Seq::new(2, |k: int| x[3 + 2 * k]) =~= seq![x[3], x[5]]);
    lemma_leaf_block(t, x, 8, 0, 0);
}

/// The program `v = a`, with a name `v` and a one-token `a`, assigns `a` to
/// `v`; the program `v op= a`, for a compound operator, assigns to `v` the
/// value of `v` combined with `a` by `op` (`+=` adds, `-=` subtracts, `*=`
/// multiplies, `/=` divides), the name on the left of the operation.
pub proof fn lemma_program_assignment(t: Seq<Token>, x: Seq<Seq<char>>)
    requires
        t.len() == 4,
        t[0].kind == TokenKind::Ident,
        t[1].kind == TokenKind::Eq || compound_op(t[1].kind) is Some,
        leaf_kind(t[2].kind),
        t[3].kind == TokenKind::Eof,
    ensures
        single_assignment(t, x) == Some(
            StmtV::Assign {
                target: AssignTargetV::Ident { name: x[0] },
                value: if t[1].kind == TokenKind::Eq {
                    leaf_view(t, x, 2)
                } else {
                    ExprV::Binary {
                        left: Box::new(ExprV::Ident { name: x[0], span: token_span(t, 0) }),
                        op: compound_op(t[1].kind)->0,
                        right: Box::new(leaf_view(t, x, 2)),
                        span: token_span(t, 2),
                    }
                },
                span: token_span(t, 2),
            },
        ),
{
    reveal(frag_comparison);
    let a = leaf_view(t, x, 0);
    assert(frag_factor(t, x, 0, 1, 0) == Some((a, 1int, 0nat)));
    assert(frag_product(t, x, 0, 1, 0) == Some((a, 1int, 0nat)));
    assert(frag_sum(t, x, 0, 1, 0) == Some((a, 1int, 0nat)));
    assert(frag_range(t, x, 0, 1, 0) == Some((a, 1int, 0nat)));
    let ov = seq![a];
    assert(chain_from(t, x, 1, 1, 0, ov, Seq::empty()) == Some((ov, Seq::<BinaryOp>::empty(), 1int, 0nat)));
    assert(comparison_view(ov, Seq::empty(), 0, token_span(t, 1)) == a);
    assert(frag_target_expr(t, x, 0, 0, 0) == Some((a, 1int, 0nat)));
    lemma_leaf_expression(t, x, 2, 0, 0);
}

/// The program `loop { a }`, with one-token `a`, repeats `[a]`; the program
/// `break a` leaves a loop with the value `a`, `break` alone with none; the
/// program `continue` goes on with the next round.
pub proof fn lemma_program_loop_control(t: Seq<Token>, x: Seq<Seq<char>>)
    requires
        t.len() >= 2,
        t[t.len() - 1].kind == TokenKind::Eof,
        t[0].kind == TokenKind::Loop ==> t.len() == 5 && t[1].kind == TokenKind::LBrace && leaf_kind(t[2].kind) && t[3].kind
            == TokenKind::RBrace,
        t[0].kind == TokenKind::Break ==> (t.len() == 2 || (t.len() == 3 && leaf_kind(t[1].kind))),
        t[0].kind == TokenKind::Continue ==> t.len() == 2,
    ensures
        t[0].kind == TokenKind::Loop ==> single_statement(t, x) == Some(
            ExprV::Loop { body: seq![StmtV::Expr(leaf_view(t, x, 2))], span: token_span(t, 1) },
        ),
        t[0].kind == TokenKind::Break ==> single_statement(t, x) == Some(
            ExprV::Break { value: if t.len() == 3 { Some(Box::new(leaf_view(t, x, 1))) } else { None }, span: token_span(t, 0) },
        ),
        t[0].kind == TokenKind::Continue ==> single_statement(t, x) == Some(ExprV::Continue { span: token_span(t, 0) }),
{
    if t[0].kind == TokenKind::Loop {
        lemma_leaf_block(t, x, 2, 0, 0);
    }
    if t[0].kind == TokenKind::Break && t.len() == 3 {
        lemma_leaf_expression(t, x, 1, 0, 0);
    }
}

/// A one-token operand that the next token ends for every level up to the
/// comparisons (see [`ends_operand`]) is, as a comparison, that operand.
pub proof fn lemma_leaf_comparison(t: Seq<Token>, x: Seq<Seq<char>>, i: int, d: int, m: nat)
    requires
        0 <= i,
        i + 1 < t.len(),
        leaf_kind(t[i].kind),
        ends_operand(t[i + 1].kind, 5),
    ensures
        frag_comparison(t, x, i, d, m) == Some((leaf_view(t, x, i), i + 1, m)),
{
    reveal(frag_comparison);
    let a = leaf_view(t, x, i);
    assert(frag_factor(t, x, i, d, m) == Some((a, i + 1, m)));
    assert(frag_product(t, x, i, d, m) == Some((a, i + 1, m)));
    assert(frag_sum(t, x, i, d, m) == Some((a, i + 1, m)));
    assert(frag_range(t, x, i, d, m) == Some((a, i + 1, m)));
    let ov = seq![a];
    assert(chain_from(t, x, i + 1, d, m, ov, Seq::empty()) == Some((ov, Seq::<BinaryOp>::empty(), i + 1, m)));
    assert(comparison_view(ov, Seq::empty(), m, token_span(t, i + 1)) == a);
}

/// The program `a and b or c`, with one-token operands, is `(a and b) or
/// c`: AND binds tighter than OR, and each keeps its operands in the order
/// written.
pub proof fn lemma_program_and_or(t: Seq<Token>, x: Seq<Seq<char>>)
    requires
        t.len() == 6,
        leaf_kind(t[0].kind),
        and_kind(t[1].kind),
        leaf_kind(t[2].kind),
        or_kind(t[3].kind),
        leaf_kind(t[4].kind),
        t[5].kind == TokenKind::Eof,
    ensures
        single_statement(t, x) == Some(
            ExprV::Or {
                left: Box::new(
                    ExprV::And { left: Box::new(leaf_view(t, x, 0)), right: Box::new(leaf_view(t, x, 2)), span: token_span(t, 2) },
                ),
                right: Box::new(leaf_view(t, x, 4)),
                span: token_span(t, 4),
            },
        ),
{
    lemma_leaf_comparison(t, x, 0, 1, 0);
    lemma_leaf_comparison(t, x, 2, 1, 0);
    lemma_leaf_comparison(t, x, 4, 1, 0);
    let a = leaf_view(t, x, 0);
    let b = leaf_view(t, x, 2);
    let c = leaf_view(t, x, 4);
    let ab = ExprV::And { left: Box::new(a), right: Box::new(b), span: token_span(t, 2) };
    assert(and_from(t, x, 3, 1, 0, ab) == Some((ab, 3int, 0nat)));
    assert(frag_and(t, x, 0, 1, 0) == Some((ab, 3int, 0nat)));
    assert(coalesce_from(t, x, 3, 1, 0, ab) == Some((ab, 3int, 0nat)));
    assert(frag_coalesce(t, x, 0, 1, 0) == Some((ab, 3int, 0nat)));
    assert(and_from(t, x, 5, 1, 0, c) == Some((c, 5int, 0nat)));
    assert(frag_and(t, x, 4, 1, 0) == Some((c, 5int, 0nat)));
    assert(coalesce_from(t, x, 5, 1, 0, c) == Some((c, 5int, 0nat)));
    assert(frag_coalesce(t, x, 4, 1, 0) == Some((c, 5int, 0nat)));
    let r = ExprV::Or { left: Box::new(ab), right: Box::new(c), span: token_span(t, 4) };
    assert(or_from(t, x, 5, 1, 0, r) == Some((r, 5int, 0nat)));
    assert(frag_or(t, x, 0, 1, 0) == Some((r, 5int, 0nat)));
}

/// The program `a ?? b`, with one-token operands, gives `a`, or `b` where
/// `a` is nil: the node keeps `a` on the left and `b` on the right.
pub proof fn lemma_program_coalesce(t: Seq<Token>, x: Seq<Seq<char>>)
    requires
        t.len() == 4,
        leaf_kind(t[0].kind),
        t[1].kind == TokenKind::QuestionQuestion,
        leaf_kind(t[2].kind),
        t[3].kind == TokenKind::Eof,
    ensures
        single_statement(t, x) == Some(
            ExprV::NullCoalesce { left: Box::new(leaf_view(t, x, 0)), right: Box::new(leaf_view(t, x, 2)), span: token_span(t, 2) },
        ),
{
    lemma_leaf_comparison(t, x, 0, 1, 0);
    lemma_leaf_comparison(t, x, 2, 1, 0);
    let a = leaf_view(t, x, 0);
    let b = leaf_view(t, x, 2);
    assert(frag_and(t, x, 0, 1, 0) == Some((a, 1int, 0nat)));
    assert(frag_and(t, x, 2, 1, 0) == Some((b, 3int, 0nat)));
    let r = ExprV::NullCoalesce { left: Box::new(a), right: Box::new(b), span: token_span(t, 2) };
    assert(coalesce_from(t, x, 3, 1, 0, r) == Some((r, 3int, 0nat)));
    assert(frag_coalesce(t, x, 0, 1, 0) == Some((r, 3int, 0nat)));
    assert(or_from(t, x, 3, 1, 0, r) == Some((r, 3int, 0nat)));
    assert(frag_or(t, x, 0, 1, 0) == Some((r, 3int, 0nat)));
}

/// A one-token operand followed by a token that ends an expression is, as
/// a whole logical expression, that operand itself.
pub proof fn lemma_leaf_logic(t: Seq<Token>, x: Seq<Seq<char>>, i: int, d: int, m: nat)
    requires
        0 <= i,
        i + 1 < t.len(),
        leaf_kind(t[i].kind),
        ends_expression(t[i + 1].kind),
        d < 64,
    ensures
        frag_logic(t, x, i, d, m) == Some((leaf_view(t, x, i), i + 1, m)),
{
    lemma_leaf_comparison(t, x, i, d + 1, m);
    let a = leaf_view(t, x, i);
    assert(and_from(t, x, i + 1, d + 1, m, a) == Some((a, i + 1, m)));
    assert(frag_and(t, x, i, d + 1, m) == Some((a, i + 1, m)));
    assert(coalesce_from(t, x, i + 1, d + 1, m, a) == Some((a, i + 1, m)));
    assert(frag_coalesce(t, x, i, d + 1, m) == Some((a, i + 1, m)));
    assert(or_from(t, x, i + 1, d + 1, m, a) == Some((a, i + 1, m)));
}

/// The program `match (s) { n => a, _ => b }`, with a one-token scrutinee
/// `s`, a number `n` and one-token bodies `a` and `b`, has two arms in the
/// order written: the literal `n` leading to `a`, then the wildcard leading
/// to `b`.
pub proof fn lemma_program_match(t: Seq<Token>, x: Seq<Seq<char>>)
    requires
        t.len() == 14,
        t[0].kind == TokenKind::Match,
        t[1].kind == TokenKind::LParen,
        leaf_kind(t[2].kind),
        t[3].kind == TokenKind::RParen,
        t[4].kind == TokenKind::LBrace,
        t[5].kind == TokenKind::Number,
        t[6].kind == TokenKind::Arrow,
        leaf_kind(t[7].kind),
        t[8].kind == TokenKind::Comma,
        t[9].kind == TokenKind::Ident,
        x[9] == seq!['_'],
        t[10].kind == TokenKind::Arrow,
        leaf_kind(t[11].kind),
        t[12].kind == TokenKind::RBrace,
        t[13].kind == TokenKind::Eof,
    ensures
        single_statement(t, x) == Some(
            ExprV::Match {
                scrutinee: Box::new(leaf_view(t, x, 2)),
                arms: seq![
                    MatchArmV { pattern: MatchPatternV::Literal(Box::new(leaf_view(t, x, 5))), body: leaf_view(t, x, 7) },
                    MatchArmV { pattern: MatchPatternV::Wildcard, body: leaf_view(t, x, 11) },
                ],
                span: token_span(t, 1),
            },
        ),
{
    lemma_leaf_logic(t, x, 2, 0, 0);
    lemma_leaf_logic(t, x, 7, 0, 0);
    lemma_leaf_logic(t, x, 11, 0, 0);
    let a1 = MatchArmV { pattern: MatchPatternV::Literal(Box::new(leaf_view(t, x, 5))), body: leaf_view(t, x, 7) };
    let a2 = MatchArmV { pattern: MatchPatternV::Wildcard, body: leaf_view(t, x, 11) };
    assert(simple_operand(t, x, 5) == Some((leaf_view(t, x, 5), 6int)));
    assert(simple_pattern(t, x, 5) == Some((MatchPatternV::Literal(Box::new(leaf_view(t, x, 5))), 6int)));
    assert(simple_pattern(t, x, 9) == Some((MatchPatternV::Wildcard, 10int)));
    let acc1 = Seq::<MatchArmV>::empty().push(a1);
    assert(arms_from(t, x, 9, 0, 0, acc1) == Some((acc1.push(a2), 13int, 0nat)));
    assert(arms_from(t, x, 5, 0, 0, Seq::empty()) == Some((acc1.push(a2), 13int, 0nat)));
    assert(acc1.push(a2) =~= seq![a1, a2]);
}
} // verus!
