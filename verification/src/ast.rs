//! The abstract syntax tree built by the parser.
//!
//! A number literal keeps the digits it was written with (with a leading `-`
//! for a negative literal in a match pattern); turning it into a machine
//! number is left to the consumer of the tree.

use vstd::prelude::*;

verus! {

/// A source position: 1-based line and column.
#[derive(Debug, Clone, Copy, PartialEq, Eq, Structural)]
pub struct Span {
    /// Line (1-based).
    pub line: usize,
    /// Column (1-based).
    pub column: usize,
}

impl Span {
    /// Builds a span.
    pub fn new(line: usize, column: usize) -> (r: Span)
        ensures
            r == (Span { line, column }),
    {
        Span { line, column }
    }
}

/// A whole program: its top-level statements in order.
#[derive(Debug)]
pub struct Program {
    /// The statements.
    pub statements: Vec<Stmt>,
}

/// A statement.
#[derive(Debug)]
pub enum Stmt {
    /// An expression evaluated for its effect or value.
    Expr(Expr),
    /// An assignment `target = value`, also the desugaring of `target op= value`.
    Assign { target: AssignTarget, value: Expr, span: Span },
    /// `import path [as alias]`, or `lazy import ...`.
    Import { path: String, lazy: bool, alias: Option<String>, span: Span },
}

/// What an assignment writes to.
#[derive(Debug)]
pub enum AssignTarget {
    /// A variable.
    Ident { name: String },
    /// An element `object[index]`.
    Index { object: Box<Expr>, index: Box<Expr> },
    /// A field `object.name`.
    Field { object: Box<Expr>, name: String },
}

/// The `catch (binding) { body }` part of a `try`.
#[derive(Debug)]
pub struct CatchClause {
    /// The name bound to the caught value.
    pub binding: String,
    /// The type filter (never set by the parser).
    pub exception_type: Option<Expr>,
    /// The handler's statements.
    pub body: Vec<Stmt>,
}

/// An expression.
#[derive(Debug)]
pub enum Expr {
    /// A number literal, as written (digits, optionally `.` and digits; a
    /// leading `-` only in a match pattern).
    Number { value: String, span: Span },
    /// A string literal's contents, as written.
    String { value: String, span: Span },
    /// `true` or `false`.
    Bool { value: bool, span: Span },
    /// `nil`.
    Nil { span: Span },
    /// A variable.
    Ident { name: String, span: Span },
    /// A binary arithmetic or comparison operation.
    Binary { left: Box<Expr>, op: BinaryOp, right: Box<Expr>, span: Span },
    /// A unary operation.
    Unary { op: UnaryOp, operand: Box<Expr>, span: Span },
    /// A call `callee(args)`.
    Call { callee: Box<Expr>, args: Vec<Expr>, span: Span },
    /// An element access `object[index]`.
    Index { object: Box<Expr>, index: Box<Expr>, span: Span },
    /// A field access `object.name`.
    Field { object: Box<Expr>, name: String, span: Span },
    /// `if condition { then } [else ...]`.
    If { condition: Box<Expr>, then_branch: Vec<Stmt>, else_branch: Option<Box<Expr>>, span: Span },
    /// `while condition { body }`.
    While { condition: Box<Expr>, body: Vec<Stmt>, span: Span },
    /// `loop { body }`.
    Loop { body: Vec<Stmt>, span: Span },
    /// `for var in iterable { body }`.
    ForIn { var_name: String, iterable: Box<Expr>, body: Vec<Stmt>, span: Span },
    /// `break [value]`.
    Break { value: Option<Box<Expr>>, span: Span },
    /// `continue`.
    Continue { span: Span },
    /// `return [value]`.
    Return { value: Option<Box<Expr>>, span: Span },
    /// `try { body } [catch (e) { ... }] [keep { ... }]`.
    Try { body: Vec<Stmt>, catch_clause: Option<Box<CatchClause>>, keep_block: Option<Vec<Stmt>>, span: Span },
    /// `out value`: raises a value.
    Out { value: Box<Expr>, span: Span },
    /// A function, named (a declaration) or anonymous.
    Fn { name: Option<String>, params: Vec<String>, body: Vec<Stmt>, span: Span },
    /// An arrow function `x => ...` or `(a, b) => ...`.
    Closure { params: Vec<String>, body: Vec<Stmt>, span: Span },
    /// A block `{ ... }`.
    Block { statements: Vec<Stmt>, span: Span },
    /// An array literal.
    Array { elements: Vec<Expr>, span: Span },
    /// A dictionary literal.
    Dict { pairs: Vec<(String, Expr)>, span: Span },
    /// A tuple `(a, b, ...)` of at least two elements.
    Tuple { elements: Vec<Expr>, span: Span },
    /// A range `start..end` (inclusive) or `start..<end`.
    Range { start: Box<Expr>, end: Box<Expr>, inclusive: bool, span: Span },
    /// Short-circuit AND.
    And { left: Box<Expr>, right: Box<Expr>, span: Span },
    /// Short-circuit OR.
    Or { left: Box<Expr>, right: Box<Expr>, span: Span },
    /// `left ?? right`.
    NullCoalesce { left: Box<Expr>, right: Box<Expr>, span: Span },
    /// `match (scrutinee) { arms }`.
    Match { scrutinee: Box<Expr>, arms: Vec<MatchArm>, span: Span },
}

/// A pattern of a match arm.
#[derive(Debug)]
pub enum MatchPattern {
    /// A literal (number, string, boolean or nil).
    Literal(Expr),
    /// A range of values.
    Range { start: Box<Expr>, end: Box<Expr>, inclusive: bool },
    /// Binds the value to a name.
    Variable(String),
    /// `_`: matches anything.
    Wildcard,
}

/// One arm `pattern => body` of a match.
#[derive(Debug)]
pub struct MatchArm {
    /// The pattern.
    pub pattern: MatchPattern,
    /// The arm's value.
    pub body: Expr,
}

impl Expr {
    /// The span recorded in an expression.
    pub open spec fn span_of(self) -> Span {
        match self {
            Expr::Number { span, .. } => span,
            Expr::String { span, .. } => span,
            Expr::Bool { span, .. } => span,
            Expr::Nil { span } => span,
            Expr::Ident { span, .. } => span,
            Expr::Binary { span, .. } => span,
            Expr::Unary { span, .. } => span,
            Expr::Call { span, .. } => span,
            Expr::Index { span, .. } => span,
            Expr::Field { span, .. } => span,
            Expr::If { span, .. } => span,
            Expr::While { span, .. } => span,
            Expr::Loop { span, .. } => span,
            Expr::ForIn { span, .. } => span,
            Expr::Break { span, .. } => span,
            Expr::Continue { span } => span,
            Expr::Return { span, .. } => span,
            Expr::Try { span, .. } => span,
            Expr::Out { span, .. } => span,
            Expr::Fn { span, .. } => span,
            Expr::Closure { span, .. } => span,
            Expr::Block { span, .. } => span,
            Expr::Array { span, .. } => span,
            Expr::Dict { span, .. } => span,
            Expr::Tuple { span, .. } => span,
            Expr::Range { span, .. } => span,
            Expr::And { span, .. } => span,
            Expr::Or { span, .. } => span,
            Expr::NullCoalesce { span, .. } => span,
            Expr::Match { span, .. } => span,
        }
    }

    /// The expression's span.
    pub fn span(&self) -> (r: &Span)
        ensures
            *r == self.span_of(),
    {
        match self {
            Expr::Number { span, .. } => span,
            Expr::String { span, .. } => span,
            Expr::Bool { span, .. } => span,
            Expr::Nil { span } => span,
            Expr::Ident { span, .. } => span,
            Expr::Binary { span, .. } => span,
            Expr::Unary { span, .. } => span,
            Expr::Call { span, .. } => span,
            Expr::Index { span, .. } => span,
            Expr::Field { span, .. } => span,
            Expr::If { span, .. } => span,
            Expr::While { span, .. } => span,
            Expr::Loop { span, .. } => span,
            Expr::ForIn { span, .. } => span,
            Expr::Break { span, .. } => span,
            Expr::Continue { span } => span,
            Expr::Return { span, .. } => span,
            Expr::Try { span, .. } => span,
            Expr::Out { span, .. } => span,
            Expr::Fn { span, .. } => span,
            Expr::Closure { span, .. } => span,
            Expr::Block { span, .. } => span,
            Expr::Array { span, .. } => span,
            Expr::Dict { span, .. } => span,
            Expr::Tuple { span, .. } => span,
            Expr::Range { span, .. } => span,
            Expr::And { span, .. } => span,
            Expr::Or { span, .. } => span,
            Expr::NullCoalesce { span, .. } => span,
            Expr::Match { span, .. } => span,
        }
    }
}

/// A binary operator.
#[derive(Debug, Clone, Copy, PartialEq, Eq, Structural)]
pub enum BinaryOp {
    /// `+`
    Add,
    /// `-`
    Sub,
    /// `*`
    Mul,
    /// `/`
    Div,
    /// `%` or `mod`
    Mod,
    /// `**`
    Pow,
    /// `==`
    Eq,
    /// `!=`
    Neq,
    /// `<`
    Lt,
    /// `>`
    Gt,
    /// `<=`
    LtEq,
    /// `>=`
    GtEq,
}

/// The symbol of a binary operator.
pub open spec fn binary_op_symbol(op: BinaryOp) -> Seq<char> {
    match op {
        BinaryOp::Add => "+"@,
        BinaryOp::Sub => "-"@,
        BinaryOp::Mul => "*"@,
        BinaryOp::Div => "/"@,
        BinaryOp::Mod => "%"@,
        BinaryOp::Pow => "**"@,
        BinaryOp::Eq => "=="@,
        BinaryOp::Neq => "!="@,
        BinaryOp::Lt => "<"@,
        BinaryOp::Gt => ">"@,
        BinaryOp::LtEq => "<="@,
        BinaryOp::GtEq => ">="@,
    }
}

impl BinaryOp {
    /// The operator's symbol, as written in source.
    pub fn symbol(self) -> (r: &'static str)
        ensures
            r@ == binary_op_symbol(self),
    {
        match self {
            BinaryOp::Add => "+",
            BinaryOp::Sub => "-",
            BinaryOp::Mul => "*",
            BinaryOp::Div => "/",
            BinaryOp::Mod => "%",
            BinaryOp::Pow => "**",
            BinaryOp::Eq => "==",
            BinaryOp::Neq => "!=",
            BinaryOp::Lt => "<",
            BinaryOp::Gt => ">",
            BinaryOp::LtEq => "<=",
            BinaryOp::GtEq => ">=",
        }
    }
}

/// A unary operator.
#[derive(Debug, Clone, Copy, PartialEq, Eq, Structural)]
pub enum UnaryOp {
    /// Arithmetic negation `-`.
    Negate,
    /// Logical negation `!` / `not` / `非`.
    Not,
}


// ---------------------------------------------------------------------------
// The syntax tree as a mathematical value
// ---------------------------------------------------------------------------

/// An expression as a value: texts are character sequences and lists are
/// sequences (see [`Expr::view`]).
pub enum ExprV {
    Number { value: Seq<char>, span: Span },
    String { value: Seq<char>, span: Span },
    Bool { value: bool, span: Span },
    Nil { span: Span },
    Ident { name: Seq<char>, span: Span },
    Binary { left: Box<ExprV>, op: BinaryOp, right: Box<ExprV>, span: Span },
    Unary { op: UnaryOp, operand: Box<ExprV>, span: Span },
    Call { callee: Box<ExprV>, args: Seq<ExprV>, span: Span },
    Index { object: Box<ExprV>, index: Box<ExprV>, span: Span },
    Field { object: Box<ExprV>, name: Seq<char>, span: Span },
    If { condition: Box<ExprV>, then_branch: Seq<StmtV>, else_branch: Option<Box<ExprV>>, span: Span },
    While { condition: Box<ExprV>, body: Seq<StmtV>, span: Span },
    Loop { body: Seq<StmtV>, span: Span },
    ForIn { var_name: Seq<char>, iterable: Box<ExprV>, body: Seq<StmtV>, span: Span },
    Break { value: Option<Box<ExprV>>, span: Span },
    Continue { span: Span },
    Return { value: Option<Box<ExprV>>, span: Span },
    Try { body: Seq<StmtV>, catch_clause: Option<Box<CatchClauseV>>, keep_block: Option<Seq<StmtV>>, span: Span },
    Out { value: Box<ExprV>, span: Span },
    Fn { name: Option<Seq<char>>, params: Seq<Seq<char>>, body: Seq<StmtV>, span: Span },
    Closure { params: Seq<Seq<char>>, body: Seq<StmtV>, span: Span },
    Block { statements: Seq<StmtV>, span: Span },
    Array { elements: Seq<ExprV>, span: Span },
    Dict { pairs: Seq<(Seq<char>, ExprV)>, span: Span },
    Tuple { elements: Seq<ExprV>, span: Span },
    Range { start: Box<ExprV>, end: Box<ExprV>, inclusive: bool, span: Span },
    And { left: Box<ExprV>, right: Box<ExprV>, span: Span },
    Or { left: Box<ExprV>, right: Box<ExprV>, span: Span },
    NullCoalesce { left: Box<ExprV>, right: Box<ExprV>, span: Span },
    Match { scrutinee: Box<ExprV>, arms: Seq<MatchArmV>, span: Span },
}

/// A statement as a value.
pub enum StmtV {
    Expr(ExprV),
    Assign { target: AssignTargetV, value: ExprV, span: Span },
    Import { path: Seq<char>, lazy: bool, alias: Option<Seq<char>>, span: Span },
}

/// An assignment target as a value.
pub enum AssignTargetV {
    Ident { name: Seq<char> },
    Index { object: Box<ExprV>, index: Box<ExprV> },
    Field { object: Box<ExprV>, name: Seq<char> },
}

/// A catch clause as a value.
pub struct CatchClauseV {
    pub binding: Seq<char>,
    pub exception_type: Option<Box<ExprV>>,
    pub body: Seq<StmtV>,
}

/// A match pattern as a value.
pub enum MatchPatternV {
    Literal(Box<ExprV>),
    Range { start: Box<ExprV>, end: Box<ExprV>, inclusive: bool },
    Variable(Seq<char>),
    Wildcard,
}

/// A match arm as a value.
pub struct MatchArmV {
    pub pattern: MatchPatternV,
    pub body: ExprV,
}

/// The texts of a list of names.
pub open spec fn names_view(s: Seq<String>) -> Seq<Seq<char>> {
    s.map_values(|n: String| n@)
}

/// The values of a list of expressions.
pub open spec fn exprs_view(s: Seq<Expr>) -> Seq<ExprV>
    decreases s,
{
    if s.len() == 0 {
        seq![]
    } else {
        exprs_view(s.drop_last()).push(s[s.len() - 1].view())
    }
}

/// The values of a list of statements.
pub open spec fn stmts_view(s: Seq<Stmt>) -> Seq<StmtV>
    decreases s,
{
    if s.len() == 0 {
        seq![]
    } else {
        stmts_view(s.drop_last()).push(s[s.len() - 1].view())
    }
}

/// The values of a list of match arms.
pub open spec fn arms_view(s: Seq<MatchArm>) -> Seq<MatchArmV>
    decreases s,
{
    if s.len() == 0 {
        seq![]
    } else {
        arms_view(s.drop_last()).push(s[s.len() - 1].view())
    }
}

/// The values of a list of dictionary entries.
pub open spec fn pairs_view(s: Seq<(String, Expr)>) -> Seq<(Seq<char>, ExprV)>
    decreases s,
{
    if s.len() == 0 {
        seq![]
    } else {
        pairs_view(s.drop_last()).push((s[s.len() - 1].0@, s[s.len() - 1].1.view()))
    }
}

/// The value of an optional boxed expression.
pub open spec fn opt_expr_view(e: Option<Box<Expr>>) -> Option<Box<ExprV>>
    decreases e,
{
    match e {
        Some(b) => Some(Box::new((*b).view())),
        None => None,
    }
}

impl Expr {
    /// The expression as a value.
    pub open spec fn view(self) -> ExprV
        decreases self,
    {
        match self {
            Expr::Number { value, span } => ExprV::Number { value: value@, span },
            Expr::String { value, span } => ExprV::String { value: value@, span },
            Expr::Bool { value, span } => ExprV::Bool { value, span },
            Expr::Nil { span } => ExprV::Nil { span },
            Expr::Ident { name, span } => ExprV::Ident { name: name@, span },
            Expr::Binary { left, op, right, span } => ExprV::Binary { left: Box::new((*left).view()), op, right: Box::new((*right).view()), span },
            Expr::Unary { op, operand, span } => ExprV::Unary { op, operand: Box::new((*operand).view()), span },
            Expr::Call { callee, args, span } => ExprV::Call { callee: Box::new((*callee).view()), args: exprs_view(args@), span },
            Expr::Index { object, index, span } => ExprV::Index { object: Box::new((*object).view()), index: Box::new((*index).view()), span },
            Expr::Field { object, name, span } => ExprV::Field { object: Box::new((*object).view()), name: name@, span },
            Expr::If { condition, then_branch, else_branch, span } => ExprV::If { condition: Box::new((*condition).view()), then_branch: stmts_view(then_branch@), else_branch: opt_expr_view(else_branch), span },
            Expr::While { condition, body, span } => ExprV::While { condition: Box::new((*condition).view()), body: stmts_view(body@), span },
            Expr::Loop { body, span } => ExprV::Loop { body: stmts_view(body@), span },
            Expr::ForIn { var_name, iterable, body, span } => ExprV::ForIn { var_name: var_name@, iterable: Box::new((*iterable).view()), body: stmts_view(body@), span },
            Expr::Break { value, span } => ExprV::Break { value: opt_expr_view(value), span },
            Expr::Continue { span } => ExprV::Continue { span },
            Expr::Return { value, span } => ExprV::Return { value: opt_expr_view(value), span },
            Expr::Try { body, catch_clause, keep_block, span } => ExprV::Try {
                body: stmts_view(body@),
                catch_clause: match catch_clause {
                    Some(cc) => Some(Box::new((*cc).view())),
                    None => None,
                },
                keep_block: match keep_block {
                    Some(kb) => Some(stmts_view(kb@)),
                    None => None,
                },
                span,
            },
            Expr::Out { value, span } => ExprV::Out { value: Box::new((*value).view()), span },
            Expr::Fn { name, params, body, span } => ExprV::Fn {
                name: match name {
                    Some(n) => Some(n@),
                    None => None,
                },
                params: names_view(params@),
                body: stmts_view(body@),
                span,
            },
            Expr::Closure { params, body, span } => ExprV::Closure { params: names_view(params@), body: stmts_view(body@), span },
            Expr::Block { statements, span } => ExprV::Block { statements: stmts_view(statements@), span },
            Expr::Array { elements, span } => ExprV::Array { elements: exprs_view(elements@), span },
            Expr::Dict { pairs, span } => ExprV::Dict { pairs: pairs_view(pairs@), span },
            Expr::Tuple { elements, span } => ExprV::Tuple { elements: exprs_view(elements@), span },
            Expr::Range { start, end, inclusive, span } => ExprV::Range { start: Box::new((*start).view()), end: Box::new((*end).view()), inclusive, span },
            Expr::And { left, right, span } => ExprV::And { left: Box::new((*left).view()), right: Box::new((*right).view()), span },
            Expr::Or { left, right, span } => ExprV::Or { left: Box::new((*left).view()), right: Box::new((*right).view()), span },
            Expr::NullCoalesce { left, right, span } => ExprV::NullCoalesce { left: Box::new((*left).view()), right: Box::new((*right).view()), span },
            Expr::Match { scrutinee, arms, span } => ExprV::Match { scrutinee: Box::new((*scrutinee).view()), arms: arms_view(arms@), span },
        }
    }
}

impl Stmt {
    /// The statement as a value.
    pub open spec fn view(self) -> StmtV
        decreases self,
    {
        match self {
            Stmt::Expr(e) => StmtV::Expr(e.view()),
            Stmt::Assign { target, value, span } => StmtV::Assign { target: target.view(), value: value.view(), span },
            Stmt::Import { path, lazy, alias, span } => StmtV::Import {
                path: path@,
                lazy,
                alias: match alias {
                    Some(a) => Some(a@),
                    None => None,
                },
                span,
            },
        }
    }
}

impl AssignTarget {
    /// The target as a value.
    pub open spec fn view(self) -> AssignTargetV
        decreases self,
    {
        match self {
            AssignTarget::Ident { name } => AssignTargetV::Ident { name: name@ },
            AssignTarget::Index { object, index } => AssignTargetV::Index { object: Box::new((*object).view()), index: Box::new((*index).view()) },
            AssignTarget::Field { object, name } => AssignTargetV::Field { object: Box::new((*object).view()), name: name@ },
        }
    }
}

impl CatchClause {
    /// The clause as a value.
    pub open spec fn view(self) -> CatchClauseV
        decreases self,
    {
        CatchClauseV {
            binding: self.binding@,
            exception_type: match self.exception_type {
                Some(t) => Some(Box::new(t.view())),
                None => None,
            },
            body: stmts_view(self.body@),
        }
    }
}

impl MatchPattern {
    /// The pattern as a value.
    pub open spec fn view(self) -> MatchPatternV
        decreases self,
    {
        match self {
            MatchPattern::Literal(e) => MatchPatternV::Literal(Box::new(e.view())),
            MatchPattern::Range { start, end, inclusive } => MatchPatternV::Range { start: Box::new((*start).view()), end: Box::new((*end).view()), inclusive },
            MatchPattern::Variable(n) => MatchPatternV::Variable(n@),
            MatchPattern::Wildcard => MatchPatternV::Wildcard,
        }
    }
}

impl MatchArm {
    /// The arm as a value.
    pub open spec fn view(self) -> MatchArmV
        decreases self,
    {
        MatchArmV { pattern: self.pattern.view(), body: self.body.view() }
    }
}

/// A copy of a list of expressions.
pub fn copy_exprs(v: &Vec<Expr>) -> (r: Vec<Expr>)
    ensures
        exprs_view(r@) == exprs_view(v@),
    decreases v,
{
    let mut out: Vec<Expr> = Vec::new();
    let mut i: usize = 0;
    while i < v.len()
        invariant
            i <= v@.len(),
            exprs_view(out@) == exprs_view(v@.take(i as int)),
        decreases v@.len() - i,
    {
        assert(decreases_to!(v => v@[i as int]));
        let ghost old_out = out@;
        out.push(v[i].deep_copy());
        proof {
            assert(out@.drop_last() =~= old_out);
            assert(v@.take(i + 1).drop_last() =~= v@.take(i as int));
        }
        i += 1;
    }
    proof {
        assert(v@.take(i as int) =~= v@);
    }
    out
}

/// A copy of a list of statements.
pub fn copy_stmts(v: &Vec<Stmt>) -> (r: Vec<Stmt>)
    ensures
        stmts_view(r@) == stmts_view(v@),
    decreases v,
{
    let mut out: Vec<Stmt> = Vec::new();
    let mut i: usize = 0;
    while i < v.len()
        invariant
            i <= v@.len(),
            stmts_view(out@) == stmts_view(v@.take(i as int)),
        decreases v@.len() - i,
    {
        assert(decreases_to!(v => v@[i as int]));
        let ghost old_out = out@;
        out.push(v[i].deep_copy());
        proof {
            assert(out@.drop_last() =~= old_out);
            assert(v@.take(i + 1).drop_last() =~= v@.take(i as int));
        }
        i += 1;
    }
    proof {
        assert(v@.take(i as int) =~= v@);
    }
    out
}

/// A copy of a list of match arms.
pub fn copy_arms(v: &Vec<MatchArm>) -> (r: Vec<MatchArm>)
    ensures
        arms_view(r@) == arms_view(v@),
    decreases v,
{
    let mut out: Vec<MatchArm> = Vec::new();
    let mut i: usize = 0;
    while i < v.len()
        invariant
            i <= v@.len(),
            arms_view(out@) == arms_view(v@.take(i as int)),
        decreases v@.len() - i,
    {
        assert(decreases_to!(v => v@[i as int]));
        let ghost old_out = out@;
        out.push(v[i].deep_copy());
        proof {
            assert(out@.drop_last() =~= old_out);
            assert(v@.take(i + 1).drop_last() =~= v@.take(i as int));
        }
        i += 1;
    }
    proof {
        assert(v@.take(i as int) =~= v@);
    }
    out
}

/// A copy of a list of names.
pub fn copy_names(v: &Vec<String>) -> (r: Vec<String>)
    ensures
        names_view(r@) == names_view(v@),
{
    let mut out: Vec<String> = Vec::new();
    let mut i: usize = 0;
    while i < v.len()
        invariant
            i <= v@.len(),
            out@.len() == i,
            forall|k: int| 0 <= k < i ==> out@[k]@ == v@[k]@,
        decreases v@.len() - i,
    {
        out.push(v[i].clone());
        i += 1;
    }
    assert(names_view(out@) =~= names_view(v@));
    out
}

/// A copy of a list of dictionary entries.
pub fn copy_pairs(v: &Vec<(String, Expr)>) -> (r: Vec<(String, Expr)>)
    ensures
        pairs_view(r@) == pairs_view(v@),
    decreases v,
{
    let mut out: Vec<(String, Expr)> = Vec::new();
    let mut i: usize = 0;
    while i < v.len()
        invariant
            i <= v@.len(),
            pairs_view(out@) == pairs_view(v@.take(i as int)),
        decreases v@.len() - i,
    {
        assert(decreases_to!(v => v@[i as int]));
        let ghost old_out = out@;
        let (k, e) = &v[i];
        out.push((k.clone(), e.deep_copy()));
        proof {
            assert(out@.drop_last() =~= old_out);
            assert(v@.take(i + 1).drop_last() =~= v@.take(i as int));
        }
        i += 1;
    }
    proof {
        assert(v@.take(i as int) =~= v@);
    }
    out
}

/// A copy of an optional boxed expression.
pub fn copy_opt_expr(e: &Option<Box<Expr>>) -> (r: Option<Box<Expr>>)
    ensures
        opt_expr_view(r) == opt_expr_view(*e),
    decreases e,
{
    match e {
        Some(b) => Some(Box::new(b.deep_copy())),
        None => None,
    }
}

impl Expr {
    /// A copy of the expression.
    pub fn deep_copy(&self) -> (r: Expr)
        ensures
            r.view() == self.view(),
        decreases self,
    {
        match self {
            Expr::Number { value, span } => Expr::Number { value: value.clone(), span: *span },
            Expr::String { value, span } => Expr::String { value: value.clone(), span: *span },
            Expr::Bool { value, span } => Expr::Bool { value: *value, span: *span },
            Expr::Nil { span } => Expr::Nil { span: *span },
            Expr::Ident { name, span } => Expr::Ident { name: name.clone(), span: *span },
            Expr::Binary { left, op, right, span } => Expr::Binary { left: Box::new(left.deep_copy()), op: *op, right: Box::new(right.deep_copy()), span: *span },
            Expr::Unary { op, operand, span } => Expr::Unary { op: *op, operand: Box::new(operand.deep_copy()), span: *span },
            Expr::Call { callee, args, span } => Expr::Call { callee: Box::new(callee.deep_copy()), args: copy_exprs(args), span: *span },
            Expr::Index { object, index, span } => Expr::Index { object: Box::new(object.deep_copy()), index: Box::new(index.deep_copy()), span: *span },
            Expr::Field { object, name, span } => Expr::Field { object: Box::new(object.deep_copy()), name: name.clone(), span: *span },
            Expr::If { condition, then_branch, else_branch, span } => Expr::If { condition: Box::new(condition.deep_copy()), then_branch: copy_stmts(then_branch), else_branch: copy_opt_expr(else_branch), span: *span },
            Expr::While { condition, body, span } => Expr::While { condition: Box::new(condition.deep_copy()), body: copy_stmts(body), span: *span },
            Expr::Loop { body, span } => Expr::Loop { body: copy_stmts(body), span: *span },
            Expr::ForIn { var_name, iterable, body, span } => Expr::ForIn { var_name: var_name.clone(), iterable: Box::new(iterable.deep_copy()), body: copy_stmts(body), span: *span },
            Expr::Break { value, span } => Expr::Break { value: copy_opt_expr(value), span: *span },
            Expr::Continue { span } => Expr::Continue { span: *span },
            Expr::Return { value, span } => Expr::Return { value: copy_opt_expr(value), span: *span },
            Expr::Try { body, catch_clause, keep_block, span } => {
                let catch_copy = match catch_clause {
                    Some(cc) => Some(Box::new(cc.deep_copy())),
                    None => None,
                };
                let keep_copy = match keep_block {
                    Some(kb) => Some(copy_stmts(kb)),
                    None => None,
                };
                Expr::Try { body: copy_stmts(body), catch_clause: catch_copy, keep_block: keep_copy, span: *span }
            },
            Expr::Out { value, span } => Expr::Out { value: Box::new(value.deep_copy()), span: *span },
            Expr::Fn { name, params, body, span } => {
                let name_copy = match name {
                    Some(n) => Some(n.clone()),
                    None => None,
                };
                Expr::Fn { name: name_copy, params: copy_names(params), body: copy_stmts(body), span: *span }
            },
            Expr::Closure { params, body, span } => Expr::Closure { params: copy_names(params), body: copy_stmts(body), span: *span },
            Expr::Block { statements, span } => Expr::Block { statements: copy_stmts(statements), span: *span },
            Expr::Array { elements, span } => Expr::Array { elements: copy_exprs(elements), span: *span },
            Expr::Dict { pairs, span } => Expr::Dict { pairs: copy_pairs(pairs), span: *span },
            Expr::Tuple { elements, span } => Expr::Tuple { elements: copy_exprs(elements), span: *span },
            Expr::Range { start, end, inclusive, span } => Expr::Range { start: Box::new(start.deep_copy()), end: Box::new(end.deep_copy()), inclusive: *inclusive, span: *span },
            Expr::And { left, right, span } => Expr::And { left: Box::new(left.deep_copy()), right: Box::new(right.deep_copy()), span: *span },
            Expr::Or { left, right, span } => Expr::Or { left: Box::new(left.deep_copy()), right: Box::new(right.deep_copy()), span: *span },
            Expr::NullCoalesce { left, right, span } => Expr::NullCoalesce { left: Box::new(left.deep_copy()), right: Box::new(right.deep_copy()), span: *span },
            Expr::Match { scrutinee, arms, span } => Expr::Match { scrutinee: Box::new(scrutinee.deep_copy()), arms: copy_arms(arms), span: *span },
        }
    }
}

impl Stmt {
    /// A copy of the statement.
    pub fn deep_copy(&self) -> (r: Stmt)
        ensures
            r.view() == self.view(),
        decreases self,
    {
        match self {
            Stmt::Expr(e) => Stmt::Expr(e.deep_copy()),
            Stmt::Assign { target, value, span } => Stmt::Assign { target: target.deep_copy(), value: value.deep_copy(), span: *span },
            Stmt::Import { path, lazy, alias, span } => {
                let alias_copy = match alias {
                    Some(a) => Some(a.clone()),
                    None => None,
                };
                Stmt::Import { path: path.clone(), lazy: *lazy, alias: alias_copy, span: *span }
            },
        }
    }
}

impl AssignTarget {
    /// A copy of the target.
    pub fn deep_copy(&self) -> (r: AssignTarget)
        ensures
            r.view() == self.view(),
        decreases self,
    {
        match self {
            AssignTarget::Ident { name } => AssignTarget::Ident { name: name.clone() },
            AssignTarget::Index { object, index } => AssignTarget::Index { object: Box::new(object.deep_copy()), index: Box::new(index.deep_copy()) },
            AssignTarget::Field { object, name } => AssignTarget::Field { object: Box::new(object.deep_copy()), name: name.clone() },
        }
    }
}

impl CatchClause {
    /// A copy of the clause.
    pub fn deep_copy(&self) -> (r: CatchClause)
        ensures
            r.view() == self.view(),
        decreases self,
    {
        let exception_type = match &self.exception_type {
            Some(t) => Some(t.deep_copy()),
            None => None,
        };
        CatchClause { binding: self.binding.clone(), exception_type, body: copy_stmts(&self.body) }
    }
}

impl MatchPattern {
    /// A copy of the pattern.
    pub fn deep_copy(&self) -> (r: MatchPattern)
        ensures
            r.view() == self.view(),
        decreases self,
    {
        match self {
            MatchPattern::Literal(e) => MatchPattern::Literal(e.deep_copy()),
            MatchPattern::Range { start, end, inclusive } => MatchPattern::Range { start: Box::new(start.deep_copy()), end: Box::new(end.deep_copy()), inclusive: *inclusive },
            MatchPattern::Variable(n) => MatchPattern::Variable(n.clone()),
            MatchPattern::Wildcard => MatchPattern::Wildcard,
        }
    }
}

impl MatchArm {
    /// A copy of the arm.
    pub fn deep_copy(&self) -> (r: MatchArm)
        ensures
            r.view() == self.view(),
        decreases self,
    {
        MatchArm { pattern: self.pattern.deep_copy(), body: self.body.deep_copy() }
    }
}

} // verus!
