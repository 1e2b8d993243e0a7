//! The abstract syntax tree of a compiled template, together with its
//! mathematical model.
//!
//! Each executable node type has a ghost mirror (`GExpr`, `GStmt`, ...) built
//! from `Seq` and `int`; the `view_*` functions map an executable tree to its
//! model.  Contracts of the parser, the postprocessors and the renderer are
//! stated over these models.

use vstd::prelude::*;

use crate::Pos;

verus! {

/// A comparison operator of a chained comparison.
#[derive(Debug, PartialEq, Eq, Clone, Copy, Structural)]
pub enum CmpOperator {
    /// `==`
    Eq,
    /// `!=`
    Neq,
    /// `<=`
    LessEq,
    /// `<`
    Less,
    /// `>=`
    GreaterEq,
    /// `>`
    Greater,
}

/// Whitespace-control mode at one side of an output statement.
#[derive(Debug, PartialEq, Eq, Clone, Copy, Structural)]
pub enum OutputMode {
    /// Strip the whitespace run entirely.
    Strip,
    /// Collapse the whitespace run to a single space.
    Space,
    /// Keep the whitespace as written.
    Preserve,
}

/// The code of an expression node.
#[derive(Debug, PartialEq)]
pub enum ExprCode {
    /// A string literal.
    Str(Vec<char>),
    /// An integer literal.
    Int(i64),
    /// A variable reference.
    Var(Vec<char>),
    /// Attribute access `a.b`.
    Attr(Box<Expr>, Vec<char>),
    /// Index access `a[b]`.
    Item(Box<Expr>, Box<Expr>),
    /// Boolean `and`, short-circuiting.
    And(Box<Expr>, Box<Expr>),
    /// Boolean `or`, short-circuiting.
    Or(Box<Expr>, Box<Expr>),
    /// Boolean negation `not a`.
    Not(Box<Expr>),
    /// A chained comparison `a < b < c`, short-circuiting left to right.
    Comparison(Box<Expr>, Vec<(CmpOperator, Expr)>),
    /// A list constructor `[a, b]`.
    List(Vec<Expr>),
    /// A dict constructor `{'a': 1}`.
    Dict(Vec<(Expr, Expr)>),
    /// Addition.
    Add(Box<Expr>, Box<Expr>),
    /// Subtraction.
    Sub(Box<Expr>, Box<Expr>),
    /// Multiplication.
    Mul(Box<Expr>, Box<Expr>),
    /// Division.
    Div(Box<Expr>, Box<Expr>),
    /// Remainder.
    Mod(Box<Expr>, Box<Expr>),
}

/// An expression node with its source span.
#[derive(Debug, PartialEq)]
pub struct Expr {
    /// The `(start, end)` span of the node in the source.
    pub position: (Pos, Pos),
    /// The node itself.
    pub code: ExprCode,
}

/// A sequence of statements.
#[derive(Debug, PartialEq)]
pub struct Body {
    /// The statements, in source order.
    pub statements: Vec<Statement>,
}

/// The target of a loop binding or an alias.
#[derive(Debug, PartialEq)]
pub enum AssignTarget {
    /// A single variable.
    Var(Vec<char>),
    /// A key/value pair of variables.
    Pair(Vec<char>, Vec<char>),
}

/// The code of a statement node.
#[derive(Debug, PartialEq)]
pub enum StatementCode {
    /// Raw text copied to the output.
    OutputRaw(Vec<char>),
    /// An expression output `{{ expr }}`.
    Output {
        /// Whitespace control on the left boundary.
        left_ws: OutputMode,
        /// The expression to evaluate and write.
        expr: Expr,
        /// An optional named validator or filter.
        validator: Option<Vec<char>>,
        /// Whitespace control on the right boundary.
        right_ws: OutputMode,
    },
    /// A conditional with ordered branches and an otherwise-body.
    Cond {
        /// Source indentation column of the opening directive.
        indent: usize,
        /// `if`/`elif` branches, in order.
        conditional: Vec<(Expr, Body)>,
        /// The `else` body; empty when absent.
        otherwise: Body,
    },
    /// A loop over an iterable expression.
    Loop {
        /// Source indentation column of the opening directive.
        indent: usize,
        /// The loop binding.
        target: AssignTarget,
        /// The iterable expression, evaluated once.
        iterator: Expr,
        /// An optional `skip if` filter.
        filter: Option<Expr>,
        /// The loop body.
        body: Body,
    },
    /// A `let` alias, binding into the current scope.
    Alias {
        /// The bound name.
        target: AssignTarget,
        /// The aliased expression.
        value: Expr,
    },
    /// A line joiner `##`, merging two lines with a single space.
    Joiner,
}

/// A statement node with its source span.
#[derive(Debug, PartialEq)]
pub struct Statement {
    /// The `(start, end)` span of the node in the source.
    pub position: (Pos, Pos),
    /// The node itself.
    pub code: StatementCode,
}

/// A compiled template body together with its options.
#[derive(Debug)]
pub struct Template {
    /// The compiled configuration.
    pub options: crate::options::Options,
    /// The postprocessed statement tree.
    pub body: Body,
}

// ---------------------------------------------------------------------------
// Ghost mirrors
// ---------------------------------------------------------------------------

/// The model of an expression node.
pub ghost struct GExpr {
    /// Start position of the node.
    pub pos: Pos,
    /// The node itself.
    pub code: GExprCode,
}

/// The model of an expression.
pub ghost enum GExprCode {
    /// A string literal.
    Str(Seq<char>),
    /// An integer literal.
    Int(int),
    /// A variable reference.
    Var(Seq<char>),
    /// Attribute access.
    Attr(Box<GExpr>, Seq<char>),
    /// Index access.
    Item(Box<GExpr>, Box<GExpr>),
    /// Boolean `and`.
    And(Box<GExpr>, Box<GExpr>),
    /// Boolean `or`.
    Or(Box<GExpr>, Box<GExpr>),
    /// Boolean negation.
    Not(Box<GExpr>),
    /// A chained comparison.
    Comparison(Box<GExpr>, Seq<(CmpOperator, GExpr)>),
    /// A list constructor.
    List(Seq<GExpr>),
    /// A dict constructor.
    Dict(Seq<(GExpr, GExpr)>),
    /// Addition.
    Add(Box<GExpr>, Box<GExpr>),
    /// Subtraction.
    Sub(Box<GExpr>, Box<GExpr>),
    /// Multiplication.
    Mul(Box<GExpr>, Box<GExpr>),
    /// Division.
    Div(Box<GExpr>, Box<GExpr>),
    /// Remainder.
    Mod(Box<GExpr>, Box<GExpr>),
}

/// The model of an assignment target.
pub ghost enum GTarget {
    /// A single variable.
    Var(Seq<char>),
    /// A key/value pair of variables.
    Pair(Seq<char>, Seq<char>),
}

/// The model of a statement node.
pub ghost struct GStmt {
    /// Start position of the node.
    pub pos: Pos,
    /// The node itself.
    pub code: GStmtCode,
}

/// The model of a statement.
pub ghost enum GStmtCode {
    /// Raw text.
    Raw(Seq<char>),
    /// An expression output.
    Out {
        /// Whitespace control on the left boundary.
        left_ws: OutputMode,
        /// The expression.
        expr: GExpr,
        /// An optional named validator or filter.
        validator: Option<Seq<char>>,
        /// Whitespace control on the right boundary.
        right_ws: OutputMode,
    },
    /// A conditional.
    Cond {
        /// Source indentation column of the opening directive.
        indent: int,
        /// The branches, in order.
        conditional: Seq<(GExpr, Seq<GStmt>)>,
        /// The `else` body.
        otherwise: Seq<GStmt>,
    },
    /// A loop.
    Loop {
        /// Source indentation column of the opening directive.
        indent: int,
        /// The loop binding.
        target: GTarget,
        /// The iterable expression.
        iterator: GExpr,
        /// An optional `skip if` filter.
        filter: Option<GExpr>,
        /// The loop body.
        body: Seq<GStmt>,
    },
    /// A `let` alias.
    Alias {
        /// The bound name.
        target: GTarget,
        /// The aliased expression.
        value: GExpr,
    },
    /// A line joiner.
    Joiner,
}

/// The model of an expression node.
pub open spec fn view_expr(e: Expr) -> GExpr
    decreases e,
{
    GExpr { pos: e.position.0, code: view_expr_code(e.code) }
}

/// The model of an expression.
pub open spec fn view_expr_code(c: ExprCode) -> GExprCode
    decreases c,
{
    match c {
        ExprCode::Str(s) => GExprCode::Str(s@),
        ExprCode::Int(i) => GExprCode::Int(i as int),
        ExprCode::Var(s) => GExprCode::Var(s@),
        ExprCode::Attr(e, a) => GExprCode::Attr(Box::new(view_expr(*e)), a@),
        ExprCode::Item(e, i) => GExprCode::Item(
            Box::new(view_expr(*e)),
            Box::new(view_expr(*i)),
        ),
        ExprCode::And(a, b) => GExprCode::And(Box::new(view_expr(*a)), Box::new(view_expr(*b))),
        ExprCode::Or(a, b) => GExprCode::Or(Box::new(view_expr(*a)), Box::new(view_expr(*b))),
        ExprCode::Not(a) => GExprCode::Not(Box::new(view_expr(*a))),
        ExprCode::Comparison(a, rest) => GExprCode::Comparison(
            Box::new(view_expr(*a)),
            view_cmp_list(rest@),
        ),
        ExprCode::List(items) => GExprCode::List(view_expr_list(items@)),
        ExprCode::Dict(pairs) => GExprCode::Dict(view_pair_list(pairs@)),
        ExprCode::Add(a, b) => GExprCode::Add(Box::new(view_expr(*a)), Box::new(view_expr(*b))),
        ExprCode::Sub(a, b) => GExprCode::Sub(Box::new(view_expr(*a)), Box::new(view_expr(*b))),
        ExprCode::Mul(a, b) => GExprCode::Mul(Box::new(view_expr(*a)), Box::new(view_expr(*b))),
        ExprCode::Div(a, b) => GExprCode::Div(Box::new(view_expr(*a)), Box::new(view_expr(*b))),
        ExprCode::Mod(a, b) => GExprCode::Mod(Box::new(view_expr(*a)), Box::new(view_expr(*b))),
    }
}

/// The models of the links of a chained comparison.
pub open spec fn view_cmp_list(s: Seq<(CmpOperator, Expr)>) -> Seq<(CmpOperator, GExpr)>
    decreases s,
{
    if s.len() == 0 {
        Seq::empty()
    } else {
        seq![(s[0].0, view_expr(s[0].1))] + view_cmp_list(s.subrange(1, s.len() as int))
    }
}

/// The models of a sequence of expressions.
pub open spec fn view_expr_list(s: Seq<Expr>) -> Seq<GExpr>
    decreases s,
{
    if s.len() == 0 {
        Seq::empty()
    } else {
        seq![view_expr(s[0])] + view_expr_list(s.subrange(1, s.len() as int))
    }
}

/// The models of a sequence of expression pairs.
pub open spec fn view_pair_list(s: Seq<(Expr, Expr)>) -> Seq<(GExpr, GExpr)>
    decreases s,
{
    if s.len() == 0 {
        Seq::empty()
    } else {
        seq![(view_expr(s[0].0), view_expr(s[0].1))] + view_pair_list(
            s.subrange(1, s.len() as int),
        )
    }
}

/// The model of an assignment target.
pub open spec fn view_target(t: AssignTarget) -> GTarget {
    match t {
        AssignTarget::Var(s) => GTarget::Var(s@),
        AssignTarget::Pair(a, b) => GTarget::Pair(a@, b@),
    }
}

/// The model of a statement node.
pub open spec fn view_stmt(s: Statement) -> GStmt
    decreases s,
{
    GStmt { pos: s.position.0, code: view_stmt_code(s.code) }
}

/// The model of a statement.
pub open spec fn view_stmt_code(c: StatementCode) -> GStmtCode
    decreases c,
{
    match c {
        StatementCode::OutputRaw(t) => GStmtCode::Raw(t@),
        StatementCode::Output { left_ws, expr, validator, right_ws } => GStmtCode::Out {
            left_ws,
            expr: view_expr(expr),
            validator: match validator {
                Some(v) => Some(v@),
                None => None,
            },
            right_ws,
        },
        StatementCode::Cond { indent, conditional, otherwise } => GStmtCode::Cond {
            indent: indent as int,
            conditional: view_branch_list(conditional@),
            otherwise: view_stmt_list(otherwise.statements@),
        },
        StatementCode::Loop { indent, target, iterator, filter, body } => GStmtCode::Loop {
            indent: indent as int,
            target: view_target(target),
            iterator: view_expr(iterator),
            filter: match filter {
                Some(f) => Some(view_expr(f)),
                None => None,
            },
            body: view_stmt_list(body.statements@),
        },
        StatementCode::Alias { target, value } => GStmtCode::Alias {
            target: view_target(target),
            value: view_expr(value),
        },
        StatementCode::Joiner => GStmtCode::Joiner,
    }
}

/// The models of the branches of a conditional.
pub open spec fn view_branch_list(s: Seq<(Expr, Body)>) -> Seq<(GExpr, Seq<GStmt>)>
    decreases s,
{
    if s.len() == 0 {
        Seq::empty()
    } else {
        seq![(view_expr(s[0].0), view_stmt_list(s[0].1.statements@))] + view_branch_list(
            s.subrange(1, s.len() as int),
        )
    }
}

/// The models of a sequence of statements.
pub open spec fn view_stmt_list(s: Seq<Statement>) -> Seq<GStmt>
    decreases s,
{
    if s.len() == 0 {
        Seq::empty()
    } else {
        seq![view_stmt(s[0])] + view_stmt_list(s.subrange(1, s.len() as int))
    }
}

/// The model of a body.
pub open spec fn view_body(b: Body) -> Seq<GStmt> {
    view_stmt_list(b.statements@)
}

} // verus!
// === The recursive-descent parser ===============================================

use crate::chars;
use crate::parse_error::ParseError;
use crate::tokenizer::{plain_kind, tokens_text, Kind, Token, TokenStream};

verus! {

broadcast use vstd::std_specs::vec::group_vec_axioms;

/// Statement lists have element-wise models.
pub proof fn lemma_view_stmt_list_index(s: Seq<Statement>, i: int)
    requires
        0 <= i < s.len(),
    ensures
        view_stmt_list(s).len() == s.len(),
        view_stmt_list(s)[i] == view_stmt(s[i]),
    decreases s.len(),
{
    lemma_view_stmt_list_len(s);
    if i > 0 {
        lemma_view_stmt_list_index(s.subrange(1, s.len() as int), i - 1);
    }
}

/// The model of a statement list has the same length.
pub proof fn lemma_view_stmt_list_len(s: Seq<Statement>)
    ensures
        view_stmt_list(s).len() == s.len(),
    decreases s.len(),
{
    if s.len() > 0 {
        lemma_view_stmt_list_len(s.subrange(1, s.len() as int));
    }
}

/// The model of a statement list grows statement-wise at the end.
pub proof fn lemma_view_stmt_snoc(s: Seq<Statement>, v: Statement)
    ensures
        view_stmt_list(s.push(v)) == view_stmt_list(s).push(view_stmt(v)),
{
    lemma_view_stmt_list_len(s.push(v));
    lemma_view_stmt_list_len(s);
    assert forall|i: int| 0 <= i < s.len() + 1 implies view_stmt_list(s.push(v))[i]
        == view_stmt_list(s).push(view_stmt(v))[i] by {
        lemma_view_stmt_list_index(s.push(v), i);
        if i < s.len() {
            lemma_view_stmt_list_index(s, i);
        }
    }
    assert(view_stmt_list(s.push(v)) =~= view_stmt_list(s).push(view_stmt(v)));
}

/// A body of raw text alone.
pub open spec fn all_raw(b: Seq<GStmt>) -> bool {
    forall|k: int| 0 <= k < b.len() ==> (#[trigger] b[k].code) is Raw
}

/// The concatenation of the raw texts of a body.
pub open spec fn raw_concat(b: Seq<GStmt>) -> Seq<char>
    decreases b.len(),
{
    if b.len() == 0 {
        Seq::empty()
    } else {
        raw_concat(b.drop_last()) + (match b.last().code {
            GStmtCode::Raw(t) => t,
            _ => Seq::empty(),
        })
    }
}

/// The position of token `i`, or the end of the stream.
fn pos_at(toks: &Vec<Token>, end: Pos, i: usize) -> (r: Pos)
{
    if i < toks.len() {
        toks[i].start
    } else {
        end
    }
}

/// Skip whitespace and comment tokens.
fn skip_ws(toks: &Vec<Token>, i: usize) -> (r: usize)
    requires
        i <= toks@.len(),
    ensures
        i <= r <= toks@.len(),
        toks@.len() <= usize::MAX,
{
    proof {
        vstd::std_specs::vec::axiom_spec_len(toks);
    }
    let mut j = i;
    while j < toks.len() && (toks[j].kind == Kind::Whitespace || toks[j].kind == Kind::Comment)
        invariant
            i <= j <= toks@.len(),
        decreases toks@.len() - j,
    {
        j = j + 1;
    }
    j
}

/// Skip comment tokens.
fn skip_comments(toks: &Vec<Token>, i: usize) -> (r: usize)
    requires
        i <= toks@.len(),
    ensures
        i <= r <= toks@.len(),
        forall|k: int| i <= k < r ==> !plain_kind(#[trigger] toks@[k].kind),
{
    let mut j = i;
    while j < toks.len() && toks[j].kind == Kind::Comment
        invariant
            i <= j <= toks@.len(),
            forall|k: int| i <= k < j ==> !plain_kind(#[trigger] toks@[k].kind),
        decreases toks@.len() - j,
    {
        j = j + 1;
    }
    j
}

/// The escaped form of one character after a backslash in a string literal.
pub open spec fn unescape_char(c: char) -> char {
    if c == 'b' {
        '\u{8}'
    } else if c == 'f' {
        '\u{c}'
    } else if c == 'n' {
        '\n'
    } else if c == 'r' {
        '\r'
    } else if c == 't' {
        '\t'
    } else {
        c
    }
}

/// The unescaped form of the inside of a string literal: a backslash
/// escapes the character after it; a trailing lone backslash disappears.
pub open spec fn unescaped(s: Seq<char>) -> Seq<char>
    decreases s.len(),
{
    if s.len() == 0 {
        Seq::empty()
    } else if s[0] == '\\' {
        if s.len() == 1 {
            Seq::empty()
        } else {
            seq![unescape_char(s[1])] + unescaped(s.subrange(2, s.len() as int))
        }
    } else {
        seq![s[0]] + unescaped(s.subrange(1, s.len() as int))
    }
}

/// Decode a string literal: drop the quotes and apply the backslash
/// escapes.
pub fn parse_str(val: &Vec<char>) -> (r: Vec<char>)
    requires
        val@.len() >= 2,
    ensures
        r@ == unescaped(val@.subrange(1, val@.len() - 1)),
{
    let inner_len = val.len() - 2;
    let mut res: Vec<char> = Vec::new();
    let mut i: usize = 1;
    let ghost inner = val@.subrange(1, val@.len() - 1);
    proof {
        assert(inner.subrange(0, inner.len() as int) =~= inner);
        assert(res@ + unescaped(inner) =~= unescaped(inner));
    }
    while i < val.len() - 1
        invariant
            1 <= i <= val@.len() - 1,
            val@.len() >= 2,
            inner == val@.subrange(1, val@.len() - 1),
            res@ + unescaped(inner.subrange(i - 1, inner.len() as int)) == unescaped(inner),
        decreases val@.len() - i,
    {
        let ghost rest = inner.subrange(i - 1, inner.len() as int);
        let c = val[i];
        proof {
            assert(rest[0] == val@[i as int]);
        }
        if c == '\\' {
            if i + 1 < val.len() - 1 {
                let e = val[i + 1];
                proof {
                    assert(rest[1] == val@[i + 1]);
                    assert(rest.subrange(2, rest.len() as int) =~= inner.subrange(
                        i + 1,
                        inner.len() as int,
                    ));
                }
                if e == 'b' {
                    res.push('\u{8}');
                } else if e == 'f' {
                    res.push('\u{c}');
                } else if e == 'n' {
                    res.push('\n');
                } else if e == 'r' {
                    res.push('\r');
                } else if e == 't' {
                    res.push('\t');
                } else {
                    res.push(e);
                }
                i = i + 2;
            } else {
                proof {
                    assert(rest.len() == 1);
                }
                i = i + 1;
            }
        } else {
            proof {
                assert(rest.subrange(1, rest.len() as int) =~= inner.subrange(
                    i as int,
                    inner.len() as int,
                ));
            }
            res.push(c);
            i = i + 1;
        }
    }
    proof {
        assert(inner.subrange(inner.len() as int, inner.len() as int) =~= Seq::<char>::empty());
        assert(res@ + Seq::<char>::empty() =~= res@);
    }
    res
}

/// The numeric value of a string of decimal digits.
pub open spec fn digits_val(s: Seq<char>) -> int
    decreases s.len(),
{
    if s.len() == 0 {
        0
    } else {
        digits_val(s.drop_last()) * 10 + (s.last() as int - '0' as int)
    }
}

/// Whether every character is a decimal digit.
pub open spec fn all_digits(s: Seq<char>) -> bool {
    forall|i: int| 0 <= i < s.len() ==> chars::is_digit_char(s[i])
}

/// Decode a decimal integer literal.  Only plain decimal literals that fit
/// a signed 64-bit integer are supported.
pub fn parse_int(val: &Vec<char>) -> (r: Option<i64>)
    ensures
        match r {
            Some(n) => val@.len() > 0 && all_digits(val@) && n as int == digits_val(val@),
            None => !(val@.len() > 0 && all_digits(val@) && digits_val(val@)
                <= i64::MAX as int),
        },
{
    if val.len() == 0 {
        return None;
    }
    let mut acc: u64 = 0;
    let mut i: usize = 0;
    while i < val.len()
        invariant
            i <= val@.len(),
            acc as int == digits_val(val@.subrange(0, i as int)),
            acc <= i64::MAX as u64,
            forall|k: int| 0 <= k < i ==> chars::is_digit_char(val@[k]),
        decreases val@.len() - i,
    {
        let c = val[i];
        if !chars::is_digit(c) {
            return None;
        }
        let d: u64 = (c as u32 as u64) - ('0' as u32 as u64);
        proof {
            assert(d == c as int - '0' as int);
            assert(d < 10);
        }
        proof {
            assert(val@.subrange(0, i + 1).drop_last() =~= val@.subrange(0, i as int));
            assert(val@.subrange(0, i + 1).last() == val@[i as int]);
        }
        match acc.checked_mul(10) {
            Some(m) => match m.checked_add(d) {
                Some(v) => {
                    if v > i64::MAX as u64 {
                        proof {
                            if all_digits(val@) {
                                lemma_digits_val_grows(val@, i as int, v as int);
                            }
                        }
                        return None;
                    }
                    acc = v;
                },
                None => {
                    proof {
                        if all_digits(val@) {
                            lemma_digits_val_grows(val@, i as int, m as int + d);
                        }
                    }
                    return None;
                },
            },
            None => {
                proof {
                    assert(acc as int * 10 + d >= acc as int * 10) by (nonlinear_arith)
                        requires
                            d >= 0,
                    ;
                    if all_digits(val@) {
                        lemma_digits_val_grows(val@, i as int, acc as int * 10 + d);
                    }
                }
                return None;
            },
        }
        i = i + 1;
        proof {
            assert(val@.subrange(0, i as int).drop_last() =~= val@.subrange(0, i - 1));
            assert(val@.subrange(0, i as int).last() == val@[i - 1]);
        }
    }
    proof {
        assert(val@.subrange(0, val@.len() as int) =~= val@);
    }
    Some(acc as i64)
}

/// A longer digit prefix never shrinks the value: once a prefix pushes the
/// value past the 64-bit range, the whole literal is out of range.
proof fn lemma_digits_val_grows(s: Seq<char>, i: int, low: int)
    requires
        0 <= i < s.len(),
        digits_val(s.subrange(0, i + 1)) >= low,
        low >= 0,
        all_digits(s),
    ensures
        digits_val(s) >= low,
    decreases s.len() - i,
{
    if i + 1 == s.len() {
        assert(s.subrange(0, s.len() as int) =~= s);
    } else {
        assert(s.subrange(0, i + 2).drop_last() =~= s.subrange(0, i + 1));
        assert(s.subrange(0, i + 2).last() == s[i + 1]);
        assert(digits_val(s.subrange(0, i + 2)) == digits_val(s.subrange(0, i + 1)) * 10 + (s[i + 1]
            as int - '0' as int));
        assert(s[i + 1] as int - '0' as int >= 0);
        assert(digits_val(s.subrange(0, i + 1)) * 10 >= low * 10) by (nonlinear_arith)
            requires
                digits_val(s.subrange(0, i + 1)) >= low,
        ;
        assert(low * 10 >= low) by (nonlinear_arith)
            requires
                low >= 0,
        ;
        lemma_digits_val_grows(s, i + 1, low);
    }
}

} // verus!
verus! {

/// The whitespace-control mode of an opening `{{` token.
pub open spec fn mode_of_start(v: Seq<char>) -> OutputMode {
    if v.len() > 0 && v.last() == '+' {
        OutputMode::Space
    } else if v.len() > 0 && v.last() == '-' {
        OutputMode::Strip
    } else {
        OutputMode::Preserve
    }
}

/// The whitespace-control mode of a closing `}}` token.
pub open spec fn mode_of_end(v: Seq<char>) -> OutputMode {
    if v.len() > 0 && v[0] == '+' {
        OutputMode::Space
    } else if v.len() > 0 && v[0] == '-' {
        OutputMode::Strip
    } else {
        OutputMode::Preserve
    }
}

impl OutputMode {
    /// The mode of the left boundary, from the opening token.
    pub fn start(tok: &Token) -> (r: OutputMode)
        ensures
            r == mode_of_start(tok.value@),
    {
        if tok.value.len() > 0 && tok.value[tok.value.len() - 1] == '+' {
            OutputMode::Space
        } else if tok.value.len() > 0 && tok.value[tok.value.len() - 1] == '-' {
            OutputMode::Strip
        } else {
            OutputMode::Preserve
        }
    }

    /// The mode of the right boundary, from the closing token.
    pub fn end(tok: &Token) -> (r: OutputMode)
        ensures
            r == mode_of_end(tok.value@),
    {
        if tok.value.len() > 0 && tok.value[0] == '+' {
            OutputMode::Space
        } else if tok.value.len() > 0 && tok.value[0] == '-' {
            OutputMode::Strip
        } else {
            OutputMode::Preserve
        }
    }
}

/// The indentation of a statement-start token: its leading blanks.
fn st_indent(value: &Vec<char>) -> (r: usize)
    ensures
        r <= value@.len(),
{
    let mut p: usize = 0;
    while p < value.len() && (value[p] == ' ' || value[p] == '\t')
        invariant
            p <= value@.len(),
        decreases value@.len() - p,
    {
        p = p + 1;
    }
    p
}

/// The keyword of a statement-start token: the word after its `##`.
fn st_keyword(value: &Vec<char>) -> (r: Vec<char>)
{
    let mut p = st_indent(value);
    // Skip the `##` marker.
    while p < value.len() && value[p] == '#'
        invariant
            p <= value@.len(),
        decreases value@.len() - p,
    {
        p = p + 1;
    }
    while p < value.len() && chars::is_space(value[p])
        invariant
            p <= value@.len(),
        decreases value@.len() - p,
    {
        p = p + 1;
    }
    let mut w: Vec<char> = Vec::new();
    while p < value.len() && chars::is_word(value[p])
        invariant
            p <= value@.len(),
        decreases value@.len() - p,
    {
        w.push(value[p]);
        p = p + 1;
    }
    w
}

/// Whether the token at `i` is a statement start with the given keyword.
fn at_st(toks: &Vec<Token>, i: usize, kw: &str) -> (r: bool)
    requires
        i <= toks@.len(),
    ensures
        r ==> i < toks@.len() && toks@[i as int].kind == Kind::StStart,
        toks@.len() <= usize::MAX,
{
    proof {
        vstd::std_specs::vec::axiom_spec_len(toks);
    }
    if i < toks.len() && toks[i].kind == Kind::StStart {
        let w = st_keyword(&toks[i].value);
        chars::eq_str(&w, kw)
    } else {
        false
    }
}

/// Whether the token at `i` is an operator spelled `name`.
fn at_op(toks: &Vec<Token>, i: usize, name: &str) -> (r: bool)
    requires
        i <= toks@.len(),
    ensures
        r ==> i < toks@.len(),
        toks@.len() <= usize::MAX,
{
    proof {
        vstd::std_specs::vec::axiom_spec_len(toks);
    }
    i < toks.len() && toks[i].kind == Kind::Operator && chars::eq_str(&toks[i].value, name)
}

/// Whether the token at `i` is the parenthesis `name`.
fn at_paren(toks: &Vec<Token>, i: usize, name: &str) -> (r: bool)
    requires
        i <= toks@.len(),
    ensures
        r ==> i < toks@.len(),
        toks@.len() <= usize::MAX,
{
    proof {
        vstd::std_specs::vec::axiom_spec_len(toks);
    }
    i < toks.len() && toks[i].kind == Kind::Paren && chars::eq_str(&toks[i].value, name)
}

/// Whether the token at `i` is the keyword `name`.
fn at_kw(toks: &Vec<Token>, i: usize, name: &str) -> (r: bool)
    requires
        i <= toks@.len(),
    ensures
        r ==> i < toks@.len(),
        toks@.len() <= usize::MAX,
{
    proof {
        vstd::std_specs::vec::axiom_spec_len(toks);
    }
    i < toks.len() && toks[i].kind == Kind::Keyword && chars::eq_str(&toks[i].value, name)
}

fn err_at(toks: &Vec<Token>, end: Pos, i: usize, msg: &str) -> (r: ParseError)
{
    let p = pos_at(toks, end, i);
    ParseError::InvalidSyntax(p, msg.to_owned())
}

/// Parse an atom: a literal, a variable, a parenthesized expression, or a
/// list or dict constructor.
fn parse_atom(toks: &Vec<Token>, end: Pos, i: usize) -> (r: Result<(Expr, usize), ParseError>)
    requires
        i <= toks@.len(),
    ensures
        r matches Ok(p) ==> i < p.1 <= toks@.len(),
    decreases toks@.len() - i, 0int,
{
    if i >= toks.len() {
        return Err(err_at(toks, end, i, "expected an expression"));
    }
    let start = toks[i].start;
    if toks[i].kind == Kind::Ident {
        let e = Expr {
            position: (start, pos_at(toks, end, i + 1)),
            code: ExprCode::Var(toks[i].value.clone()),
        };
        Ok((e, skip_ws(toks, i + 1)))
    } else if toks[i].kind == Kind::Str {
        if toks[i].value.len() < 2 {
            return Err(err_at(toks, end, i, "malformed string literal"));
        }
        let s = parse_str(&toks[i].value);
        let e = Expr { position: (start, pos_at(toks, end, i + 1)), code: ExprCode::Str(s) };
        Ok((e, skip_ws(toks, i + 1)))
    } else if toks[i].kind == Kind::Num {
        match parse_int(&toks[i].value) {
            Some(n) => {
                let e = Expr { position: (start, pos_at(toks, end, i + 1)), code: ExprCode::Int(n) };
                Ok((e, skip_ws(toks, i + 1)))
            },
            None => Err(err_at(toks, end, i, "unsupported numeric literal")),
        }
    } else if at_paren(toks, i, "(") {
        let j = skip_ws(toks, i + 1);
        let (e, j2) = parse_top_expr(toks, end, j)?;
        if !at_paren(toks, j2, ")") {
            return Err(err_at(toks, end, j2, "expected `)`"));
        }
        Ok((e, skip_ws(toks, j2 + 1)))
    } else if at_paren(toks, i, "[") {
        let mut items: Vec<Expr> = Vec::new();
        let mut j = skip_ws(toks, i + 1);
        while !at_paren(toks, j, "]")
            invariant
                i < j <= toks@.len(),
            decreases toks@.len() - j,
        {
            let (item, j2) = parse_top_expr(toks, end, j)?;
            items.push(item);
            j = j2;
            if at_op(toks, j, ",") {
                j = skip_ws(toks, j + 1);
            } else if !at_paren(toks, j, "]") {
                return Err(err_at(toks, end, j, "expected `,` or `]`"));
            }
        }
        let e = Expr { position: (start, pos_at(toks, end, j + 1)), code: ExprCode::List(items) };
        Ok((e, skip_ws(toks, j + 1)))
    } else if at_paren(toks, i, "{") {
        let mut pairs: Vec<(Expr, Expr)> = Vec::new();
        let mut j = skip_ws(toks, i + 1);
        while !at_paren(toks, j, "}")
            invariant
                i < j <= toks@.len(),
            decreases toks@.len() - j,
        {
            let (key, j2) = parse_top_expr(toks, end, j)?;
            if !at_op(toks, j2, ":") {
                return Err(err_at(toks, end, j2, "expected `:`"));
            }
            let j3 = skip_ws(toks, j2 + 1);
            let (value, j4) = parse_top_expr(toks, end, j3)?;
            pairs.push((key, value));
            j = j4;
            if at_op(toks, j, ",") {
                j = skip_ws(toks, j + 1);
            } else if !at_paren(toks, j, "}") {
                return Err(err_at(toks, end, j, "expected `,` or `}`"));
            }
        }
        let e = Expr { position: (start, pos_at(toks, end, j + 1)), code: ExprCode::Dict(pairs) };
        Ok((e, skip_ws(toks, j + 1)))
    } else {
        Err(err_at(toks, end, i, "expected an expression"))
    }
}

/// Parse an atom with its postfix attribute and index accesses.
fn parse_attr(toks: &Vec<Token>, end: Pos, i: usize) -> (r: Result<(Expr, usize), ParseError>)
    requires
        i <= toks@.len(),
    ensures
        r matches Ok(p) ==> i < p.1 <= toks@.len(),
    decreases toks@.len() - i, 1int,
{
    let (first, j0) = parse_atom(toks, end, i)?;
    let mut e = first;
    let mut j = j0;
    loop
        invariant
            i < j <= toks@.len(),
        decreases toks@.len() - j,
    {
        if at_op(toks, j, ".") {
            let j2 = skip_ws(toks, j + 1);
            if !(j2 < toks.len() && toks[j2].kind == Kind::Ident) {
                return Err(err_at(toks, end, j2, "expected an attribute name"));
            }
            let name = toks[j2].value.clone();
            let j3 = skip_ws(toks, j2 + 1);
            e = Expr {
                position: (e.position.0, pos_at(toks, end, j3)),
                code: ExprCode::Attr(Box::new(e), name),
            };
            j = j3;
        } else if at_paren(toks, j, "[") {
            let j2 = skip_ws(toks, j + 1);
            let (idx, j3) = parse_top_expr(toks, end, j2)?;
            if !at_paren(toks, j3, "]") {
                return Err(err_at(toks, end, j3, "expected `]`"));
            }
            let j4 = skip_ws(toks, j3 + 1);
            e = Expr {
                position: (e.position.0, pos_at(toks, end, j4)),
                code: ExprCode::Item(Box::new(e), Box::new(idx)),
            };
            j = j4;
        } else {
            return Ok((e, j));
        }
    }
}

/// Parse a unary expression: an optional `not`.
fn parse_unary(toks: &Vec<Token>, end: Pos, i: usize) -> (r: Result<(Expr, usize), ParseError>)
    requires
        i <= toks@.len(),
    ensures
        r matches Ok(p) ==> i < p.1 <= toks@.len(),
    decreases toks@.len() - i, 2int,
{
    if at_op(toks, i, "not") {
        let start = toks[i].start;
        let j = skip_ws(toks, i + 1);
        let (inner, j2) = parse_attr(toks, end, j)?;
        Ok((
            Expr {
                position: (start, pos_at(toks, end, j2)),
                code: ExprCode::Not(Box::new(inner)),
            },
            j2,
        ))
    } else {
        parse_attr(toks, end, i)
    }
}

/// Parse a multiplicative chain.
fn parse_factors(toks: &Vec<Token>, end: Pos, i: usize) -> (r: Result<(Expr, usize), ParseError>)
    requires
        i <= toks@.len(),
    ensures
        r matches Ok(p) ==> i < p.1 <= toks@.len(),
    decreases toks@.len() - i, 3int,
{
    let (first, j0) = parse_unary(toks, end, i)?;
    let mut e = first;
    let mut j = j0;
    loop
        invariant
            i < j <= toks@.len(),
        decreases toks@.len() - j,
    {
        let op: u8 = if at_op(toks, j, "*") {
            1
        } else if at_op(toks, j, "/") {
            2
        } else if at_op(toks, j, "%") {
            3
        } else {
            0
        };
        if op == 0 {
            return Ok((e, j));
        }
        let j2 = skip_ws(toks, j + 1);
        let (b, j3) = parse_unary(toks, end, j2)?;
        let code = if op == 1 {
            ExprCode::Mul(Box::new(e), Box::new(b))
        } else if op == 2 {
            ExprCode::Div(Box::new(e), Box::new(b))
        } else {
            ExprCode::Mod(Box::new(e), Box::new(b))
        };
        let start = match &code {
            ExprCode::Mul(a, _) => a.position.0,
            ExprCode::Div(a, _) => a.position.0,
            ExprCode::Mod(a, _) => a.position.0,
            _ => fallback_pos(toks, end, j),
        };
        e = Expr { position: (start, pos_at(toks, end, j3)), code };
        j = j3;
    }
}

fn fallback_pos(toks: &Vec<Token>, end: Pos, i: usize) -> Pos
    requires
        i <= toks@.len(),
{
    pos_at(toks, end, i)
}

/// Parse an additive chain.
fn parse_addition(toks: &Vec<Token>, end: Pos, i: usize) -> (r: Result<(Expr, usize), ParseError>)
    requires
        i <= toks@.len(),
    ensures
        r matches Ok(p) ==> i < p.1 <= toks@.len(),
    decreases toks@.len() - i, 4int,
{
    let (first, j0) = parse_factors(toks, end, i)?;
    let mut e = first;
    let mut j = j0;
    loop
        invariant
            i < j <= toks@.len(),
        decreases toks@.len() - j,
    {
        let plus = at_op(toks, j, "+");
        if !plus && !at_op(toks, j, "-") {
            return Ok((e, j));
        }
        let j2 = skip_ws(toks, j + 1);
        let (b, j3) = parse_factors(toks, end, j2)?;
        let ghost start_pos = e.position.0;
        let start = e.position.0;
        let code = if plus {
            ExprCode::Add(Box::new(e), Box::new(b))
        } else {
            ExprCode::Sub(Box::new(e), Box::new(b))
        };
        e = Expr { position: (start, pos_at(toks, end, j3)), code };
        j = j3;
    }
}

/// Parse a chained comparison.
fn parse_comparison(toks: &Vec<Token>, end: Pos, i: usize) -> (r: Result<
    (Expr, usize),
    ParseError,
>)
    requires
        i <= toks@.len(),
    ensures
        r matches Ok(p) ==> i < p.1 <= toks@.len(),
    decreases toks@.len() - i, 5int,
{
    let (first, j0) = parse_addition(toks, end, i)?;
    let mut links: Vec<(CmpOperator, Expr)> = Vec::new();
    let mut j = j0;
    loop
        invariant
            i < j <= toks@.len(),
        decreases toks@.len() - j,
    {
        let op: Option<CmpOperator> = if at_op(toks, j, "==") {
            Some(CmpOperator::Eq)
        } else if at_op(toks, j, "!=") {
            Some(CmpOperator::Neq)
        } else if at_op(toks, j, ">=") {
            Some(CmpOperator::GreaterEq)
        } else if at_op(toks, j, ">") {
            Some(CmpOperator::Greater)
        } else if at_op(toks, j, "<=") {
            Some(CmpOperator::LessEq)
        } else if at_op(toks, j, "<") {
            Some(CmpOperator::Less)
        } else {
            None
        };
        let oper = match op {
            Some(o) => o,
            None => {
                break ;
            },
        };
        let j2 = skip_ws(toks, j + 1);
        let (b, j3) = parse_addition(toks, end, j2)?;
        links.push((oper, b));
        j = j3;
    }
    if links.len() == 0 {
        Ok((first, j))
    } else {
        let start = first.position.0;
        Ok((
            Expr {
                position: (start, pos_at(toks, end, j)),
                code: ExprCode::Comparison(Box::new(first), links),
            },
            j,
        ))
    }
}

/// Parse an `and` chain.
fn parse_and(toks: &Vec<Token>, end: Pos, i: usize) -> (r: Result<(Expr, usize), ParseError>)
    requires
        i <= toks@.len(),
    ensures
        r matches Ok(p) ==> i < p.1 <= toks@.len(),
    decreases toks@.len() - i, 6int,
{
    let (first, j0) = parse_comparison(toks, end, i)?;
    let mut e = first;
    let mut j = j0;
    loop
        invariant
            i < j <= toks@.len(),
        decreases toks@.len() - j,
    {
        if !at_op(toks, j, "and") {
            return Ok((e, j));
        }
        let j2 = skip_ws(toks, j + 1);
        let (b, j3) = parse_comparison(toks, end, j2)?;
        let start = e.position.0;
        e = Expr {
            position: (start, pos_at(toks, end, j3)),
            code: ExprCode::And(Box::new(e), Box::new(b)),
        };
        j = j3;
    }
}

/// Parse an `or` chain: the whole expression grammar.
fn parse_top_expr(toks: &Vec<Token>, end: Pos, i: usize) -> (r: Result<(Expr, usize), ParseError>)
    requires
        i <= toks@.len(),
    ensures
        r matches Ok(p) ==> i < p.1 <= toks@.len(),
    decreases toks@.len() - i, 7int,
{
    let (first, j0) = parse_and(toks, end, i)?;
    let mut e = first;
    let mut j = j0;
    loop
        invariant
            i < j <= toks@.len(),
        decreases toks@.len() - j,
    {
        if !at_op(toks, j, "or") {
            return Ok((e, j));
        }
        let j2 = skip_ws(toks, j + 1);
        let (b, j3) = parse_and(toks, end, j2)?;
        let start = e.position.0;
        e = Expr {
            position: (start, pos_at(toks, end, j3)),
            code: ExprCode::Or(Box::new(e), Box::new(b)),
        };
        j = j3;
    }
}

} // verus!
verus! {

/// Expect a newline token at `i` and step over it.
fn expect_newline(toks: &Vec<Token>, end: Pos, i: usize) -> (r: Result<usize, ParseError>)
    requires
        i <= toks@.len(),
    ensures
        r matches Ok(j) ==> i < j <= toks@.len(),
{
    proof {
        vstd::std_specs::vec::axiom_spec_len(toks);
    }
    if i < toks.len() && toks[i].kind == Kind::Newline {
        Ok(i + 1)
    } else {
        Err(err_at(toks, end, i, "expected the end of the line"))
    }
}

/// Parse an output statement `{{ expr }}`, with the token at `i` its
/// opening `{{`.
fn parse_expr_stmt(toks: &Vec<Token>, end: Pos, i: usize) -> (r: Result<
    (Statement, usize),
    ParseError,
>)
    requires
        i < toks@.len(),
    ensures
        r matches Ok(p) ==> i < p.1 <= toks@.len(),
    decreases toks@.len() - i, 9int,
{
    proof {
        vstd::std_specs::vec::axiom_spec_len(toks);
    }
    let start = toks[i].start;
    let left_ws = OutputMode::start(&toks[i]);
    let j = skip_ws(toks, i + 1);
    let (e, j2) = parse_top_expr(toks, end, j)?;
    let mut j3 = j2;
    let mut validator: Option<Vec<char>> = None;
    if at_op(toks, j3, "|") {
        let j4 = skip_ws(toks, j3 + 1);
        if !(j4 < toks.len() && toks[j4].kind == Kind::Ident) {
            return Err(err_at(toks, end, j4, "expected a validator name"));
        }
        validator = Some(toks[j4].value.clone());
        j3 = skip_ws(toks, j4 + 1);
    }
    if !(j3 < toks.len() && toks[j3].kind == Kind::ExprEnd) {
        return Err(err_at(toks, end, j3, "expected `}}`"));
    }
    let right_ws = OutputMode::end(&toks[j3]);
    let st = Statement {
        position: (start, pos_at(toks, end, j3 + 1)),
        code: StatementCode::Output { left_ws, expr: e, validator, right_ws },
    };
    Ok((st, j3 + 1))
}

/// Parse an `## if` conditional, with the token at `i` its opening
/// statement start.
fn parse_if(toks: &Vec<Token>, end: Pos, i: usize) -> (r: Result<(Statement, usize), ParseError>)
    requires
        i < toks@.len(),
    ensures
        r matches Ok(p) ==> i < p.1 <= toks@.len(),
    decreases toks@.len() - i, 10int,
{
    proof {
        vstd::std_specs::vec::axiom_spec_len(toks);
    }
    let start = toks[i].start;
    let indent = st_indent(&toks[i].value);
    let j = skip_ws(toks, i + 1);
    let (cond, j2) = parse_top_expr(toks, end, j)?;
    let j3 = expect_newline(toks, end, j2)?;
    let (body1, j4) = parse_body(toks, end, j3)?;
    let mut conditional: Vec<(Expr, Body)> = Vec::new();
    conditional.push((cond, body1));
    let mut j5 = j4;
    while at_st(toks, j5, "elif")
        invariant
            i < j5 <= toks@.len(),
        decreases toks@.len() - j5,
    {
        let j6 = skip_ws(toks, j5 + 1);
        let (c, j7) = parse_top_expr(toks, end, j6)?;
        let j8 = expect_newline(toks, end, j7)?;
        let (b, j9) = parse_body(toks, end, j8)?;
        conditional.push((c, b));
        if !(j9 > j5) {
            return Err(err_at(toks, end, j9, "expected `endif`"));
        }
        j5 = j9;
    }
    let otherwise: Body;
    if at_st(toks, j5, "else") {
        let j6 = skip_ws(toks, j5 + 1);
        let j7 = expect_newline(toks, end, j6)?;
        let (b, j8) = parse_body(toks, end, j7)?;
        otherwise = b;
        j5 = j8;
    } else {
        otherwise = Body { statements: Vec::new() };
    }
    if !at_st(toks, j5, "endif") {
        return Err(err_at(toks, end, j5, "expected `endif`"));
    }
    let j6 = skip_ws(toks, j5 + 1);
    let j7 = expect_newline(toks, end, j6)?;
    let st = Statement {
        position: (start, pos_at(toks, end, j7)),
        code: StatementCode::Cond { indent, conditional, otherwise },
    };
    Ok((st, j7))
}

/// Parse a `## for` loop, with the token at `i` its opening statement
/// start.
fn parse_for(toks: &Vec<Token>, end: Pos, i: usize) -> (r: Result<(Statement, usize), ParseError>)
    requires
        i < toks@.len(),
    ensures
        r matches Ok(p) ==> i < p.1 <= toks@.len(),
    decreases toks@.len() - i, 10int,
{
    proof {
        vstd::std_specs::vec::axiom_spec_len(toks);
    }
    let start = toks[i].start;
    let indent = st_indent(&toks[i].value);
    let mut j = skip_ws(toks, i + 1);
    if !(j < toks.len() && toks[j].kind == Kind::Ident) {
        return Err(err_at(toks, end, j, "expected a loop variable"));
    }
    let first_name = toks[j].value.clone();
    j = skip_ws(toks, j + 1);
    let target: AssignTarget;
    if at_op(toks, j, ",") {
        let j2 = skip_ws(toks, j + 1);
        if !(j2 < toks.len() && toks[j2].kind == Kind::Ident) {
            return Err(err_at(toks, end, j2, "expected a loop variable"));
        }
        let second_name = toks[j2].value.clone();
        target = AssignTarget::Pair(first_name, second_name);
        j = skip_ws(toks, j2 + 1);
    } else {
        target = AssignTarget::Var(first_name);
    }
    if !at_kw(toks, j, "in") {
        return Err(err_at(toks, end, j, "expected `in`"));
    }
    j = skip_ws(toks, j + 1);
    let (iterator, j2) = parse_top_expr(toks, end, j)?;
    let mut j3 = expect_newline(toks, end, j2)?;
    let mut filter: Option<Expr> = None;
    if at_st(toks, j3, "skip") {
        let j4 = skip_ws(toks, j3 + 1);
        if !at_kw(toks, j4, "if") {
            return Err(err_at(toks, end, j4, "expected `if` after `skip`"));
        }
        let j5 = skip_ws(toks, j4 + 1);
        let (f, j6) = parse_top_expr(toks, end, j5)?;
        j3 = expect_newline(toks, end, j6)?;
        filter = Some(f);
    }
    let (body, j7) = parse_body(toks, end, j3)?;
    if !at_st(toks, j7, "endfor") {
        return Err(err_at(toks, end, j7, "expected `endfor`"));
    }
    let j8 = skip_ws(toks, j7 + 1);
    let j9 = expect_newline(toks, end, j8)?;
    let st = Statement {
        position: (start, pos_at(toks, end, j9)),
        code: StatementCode::Loop { indent, target, iterator, filter, body },
    };
    Ok((st, j9))
}

/// Parse a `## let` alias, with the token at `i` its opening statement
/// start.
fn parse_let(toks: &Vec<Token>, end: Pos, i: usize) -> (r: Result<(Statement, usize), ParseError>)
    requires
        i < toks@.len(),
    ensures
        r matches Ok(p) ==> i < p.1 <= toks@.len(),
    decreases toks@.len() - i, 10int,
{
    proof {
        vstd::std_specs::vec::axiom_spec_len(toks);
    }
    let start = toks[i].start;
    let j = skip_ws(toks, i + 1);
    if !(j < toks.len() && toks[j].kind == Kind::Ident) {
        return Err(err_at(toks, end, j, "expected a variable name"));
    }
    let name = toks[j].value.clone();
    let j2 = skip_ws(toks, j + 1);
    if !at_op(toks, j2, "=") {
        return Err(err_at(toks, end, j2, "expected `=`"));
    }
    let j3 = skip_ws(toks, j2 + 1);
    let (value, j4) = parse_top_expr(toks, end, j3)?;
    let j5 = expect_newline(toks, end, j4)?;
    let st = Statement {
        position: (start, pos_at(toks, end, j5)),
        code: StatementCode::Alias { target: AssignTarget::Var(name), value },
    };
    Ok((st, j5))
}

/// Parse one statement at `i`, or recognize that none starts there.
fn parse_statement(toks: &Vec<Token>, end: Pos, i: usize) -> (r: Result<
    Option<(Statement, usize)>,
    ParseError,
>)
    requires
        i <= toks@.len(),
    ensures
        r matches Ok(Some(p)) ==> i < p.1 <= toks@.len(),
        i >= toks@.len() ==> r == Ok::<Option<(Statement, usize)>, ParseError>(None),
        (i < toks@.len() && plain_kind(toks@[i as int].kind)) ==> (match r {
            Ok(Some(p)) => p.1 == i + 1 && view_stmt(p.0).code == GStmtCode::Raw(
                toks@[i as int].value@,
            ),
            _ => false,
        }),
    decreases toks@.len() - i, 12int,
{
    proof {
        vstd::std_specs::vec::axiom_spec_len(toks);
    }
    if i >= toks.len() {
        return Ok(None);
    }
    let kind = toks[i].kind;
    if kind == Kind::Raw || kind == Kind::Whitespace || kind == Kind::Newline {
        let st = Statement {
            position: (toks[i].start, pos_at(toks, end, i + 1)),
            code: StatementCode::OutputRaw(toks[i].value.clone()),
        };
        Ok(Some((st, i + 1)))
    } else if kind == Kind::ExprStart {
        let (st, j) = parse_expr_stmt(toks, end, i)?;
        Ok(Some((st, j)))
    } else if kind == Kind::LineJoiner {
        let st = Statement {
            position: (toks[i].start, pos_at(toks, end, i + 1)),
            code: StatementCode::Joiner,
        };
        Ok(Some((st, i + 1)))
    } else if kind == Kind::StStart {
        let kw = st_keyword(&toks[i].value);
        if chars::eq_str(&kw, "if") {
            let (st, j) = parse_if(toks, end, i)?;
            Ok(Some((st, j)))
        } else if chars::eq_str(&kw, "for") {
            let (st, j) = parse_for(toks, end, i)?;
            Ok(Some((st, j)))
        } else if chars::eq_str(&kw, "let") {
            let (st, j) = parse_let(toks, end, i)?;
            Ok(Some((st, j)))
        } else if chars::eq_str(&kw, "elif") || chars::eq_str(&kw, "else") || chars::eq_str(
            &kw,
            "endif",
        ) || chars::eq_str(&kw, "endfor") || chars::eq_str(&kw, "skip") || chars::eq_str(
            &kw,
            "syntax",
        ) || chars::eq_str(&kw, "validate") {
            Ok(None)
        } else {
            Err(err_at(toks, end, i, "unknown statement"))
        }
    } else {
        Ok(None)
    }
}

/// Parse a body: statements until none starts, skipping comments.
///
/// A run of tokens that only raw text, whitespace and newlines make up
/// parses into raw-text statements whose texts are exactly the tokens'
/// texts: rendering them in plain mode reproduces the source.
fn parse_body(toks: &Vec<Token>, end: Pos, i: usize) -> (r: Result<(Body, usize), ParseError>)
    requires
        i <= toks@.len(),
    ensures
        r matches Ok(p) ==> i <= p.1 <= toks@.len(),
        (forall|k: int| i <= k < toks@.len() ==> plain_kind(#[trigger] toks@[k].kind)) ==> (
        match r {
            Ok(p) => {
                &&& p.1 == toks@.len()
                &&& all_raw(view_body(p.0))
                &&& raw_concat(view_body(p.0)) == tokens_text(
                    toks@.subrange(i as int, toks@.len() as int),
                )
            },
            Err(_) => false,
        }),
    decreases toks@.len() - i, 13int,
{
    proof {
        vstd::std_specs::vec::axiom_spec_len(toks);
    }
    let ghost all_plain = forall|k: int|
        i <= k < toks@.len() ==> plain_kind(#[trigger] toks@[k].kind);
    let mut statements: Vec<Statement> = Vec::new();
    let mut j = skip_comments(toks, i);
    proof {
        if all_plain && j != i {
            assert(!plain_kind(toks@[i as int].kind));
            assert(false);
        }
        if all_plain {
            assert(tokens_text(toks@.subrange(i as int, i as int)) =~= Seq::<char>::empty());
        }
        lemma_view_stmt_list_len(statements@);
    }
    loop
        invariant
            i <= j <= toks@.len(),
            all_plain == (forall|k: int|
                i <= k < toks@.len() ==> plain_kind(#[trigger] toks@[k].kind)),
            all_plain ==> {
                &&& all_raw(view_stmt_list(statements@))
                &&& raw_concat(view_stmt_list(statements@)) == tokens_text(
                    toks@.subrange(i as int, j as int),
                )
            },
        decreases toks@.len() - j,
    {
        let ghost stmts_old = statements@;
        let ghost j_old = j;
        let step = parse_statement(toks, end, j);
        proof {
            if all_plain && step is Err {
                if j < toks@.len() {
                    assert(plain_kind(toks@[j as int].kind));
                }
                assert(false);
            }
        }
        match step? {
            Some((st, j2)) => {
                let ghost gst = view_stmt(st);
                statements.push(st);
                proof {
                    lemma_view_stmt_snoc(stmts_old, statements@.last());
                    if all_plain {
                        assert(plain_kind(toks@[j as int].kind));
                        assert(j2 == j + 1);
                        assert(gst.code == GStmtCode::Raw(toks@[j as int].value@));
                        let sub2 = toks@.subrange(i as int, j + 1);
                        assert(sub2.drop_last() =~= toks@.subrange(i as int, j as int));
                        assert(sub2.last() == toks@[j as int]);
                        let nb = view_stmt_list(statements@);
                        assert(nb == view_stmt_list(stmts_old).push(gst));
                        assert(nb.drop_last() =~= view_stmt_list(stmts_old));
                        assert(raw_concat(nb) == raw_concat(view_stmt_list(stmts_old))
                            + toks@[j as int].value@);
                        assert forall|k: int| 0 <= k < nb.len() implies (#[trigger] nb[k].code)
                            is Raw by {
                            if k < nb.len() - 1 {
                                assert(nb[k] == view_stmt_list(stmts_old)[k]);
                            }
                        }
                    }
                }
                j = j2;
                let j3 = skip_comments(toks, j);
                proof {
                    if all_plain && j3 != j && j < toks@.len() {
                        assert(!plain_kind(toks@[j as int].kind));
                        assert(false);
                    }
                }
                j = j3;
            },
            None => {
                proof {
                    if all_plain && j < toks@.len() {
                        assert(plain_kind(toks@[j as int].kind));
                        assert(false);
                    }
                }
                return Ok((Body { statements }, j));
            },
        }
    }
}

} // verus!
verus! {

/// Branch lists have branch-wise models.
pub proof fn lemma_view_branch_index(s: Seq<(Expr, Body)>, i: int)
    requires
        0 <= i < s.len(),
    ensures
        view_branch_list(s).len() == s.len(),
        view_branch_list(s)[i] == (view_expr(s[i].0), view_stmt_list(s[i].1.statements@)),
    decreases s.len(),
{
    lemma_view_branch_len(s);
    if i > 0 {
        lemma_view_branch_index(s.subrange(1, s.len() as int), i - 1);
    }
}

/// The model of a branch list has the same length.
pub proof fn lemma_view_branch_len(s: Seq<(Expr, Body)>)
    ensures
        view_branch_list(s).len() == s.len(),
    decreases s.len(),
{
    if s.len() > 0 {
        lemma_view_branch_len(s.subrange(1, s.len() as int));
    }
}

/// The model of a branch list grows branch-wise at the end.
pub proof fn lemma_view_branch_snoc(s: Seq<(Expr, Body)>, p: (Expr, Body))
    ensures
        view_branch_list(s.push(p)) == view_branch_list(s).push(
            (view_expr(p.0), view_stmt_list(p.1.statements@)),
        ),
{
    lemma_view_branch_len(s.push(p));
    lemma_view_branch_len(s);
    assert forall|i: int| 0 <= i < s.len() + 1 implies view_branch_list(s.push(p))[i]
        == view_branch_list(s).push((view_expr(p.0), view_stmt_list(p.1.statements@)))[i] by {
        lemma_view_branch_index(s.push(p), i);
        if i < s.len() {
            lemma_view_branch_index(s, i);
        }
    }
    assert(view_branch_list(s.push(p)) =~= view_branch_list(s).push(
        (view_expr(p.0), view_stmt_list(p.1.statements@)),
    ));
}

/// The model of a statement list loses its last statement with the list.
pub proof fn lemma_view_stmt_drop_last(s: Seq<Statement>)
    requires
        s.len() > 0,
    ensures
        view_stmt_list(s.drop_last()) == view_stmt_list(s).drop_last(),
{
    lemma_view_stmt_list_len(s);
    lemma_view_stmt_list_len(s.drop_last());
    assert forall|i: int| 0 <= i < s.len() - 1 implies view_stmt_list(s.drop_last())[i]
        == view_stmt_list(s).drop_last()[i] by {
        lemma_view_stmt_list_index(s.drop_last(), i);
        lemma_view_stmt_list_index(s, i);
    }
    assert(view_stmt_list(s.drop_last()) =~= view_stmt_list(s).drop_last());
}

} // verus!
verus! {

/// The model of a comparison-link list has the same length.
pub proof fn lemma_view_cmp_len(s: Seq<(CmpOperator, Expr)>)
    ensures
        view_cmp_list(s).len() == s.len(),
    decreases s.len(),
{
    if s.len() > 0 {
        lemma_view_cmp_len(s.subrange(1, s.len() as int));
    }
}

/// Comparison-link lists have link-wise models.
pub proof fn lemma_view_cmp_index(s: Seq<(CmpOperator, Expr)>, i: int)
    requires
        0 <= i < s.len(),
    ensures
        view_cmp_list(s).len() == s.len(),
        view_cmp_list(s)[i] == (s[i].0, view_expr(s[i].1)),
    decreases s.len(),
{
    lemma_view_cmp_len(s);
    if i > 0 {
        lemma_view_cmp_index(s.subrange(1, s.len() as int), i - 1);
    }
}

/// The model of a comparison-link list grows link-wise at the end.
pub proof fn lemma_view_cmp_snoc(s: Seq<(CmpOperator, Expr)>, p: (CmpOperator, Expr))
    ensures
        view_cmp_list(s.push(p)) == view_cmp_list(s).push((p.0, view_expr(p.1))),
{
    lemma_view_cmp_len(s.push(p));
    lemma_view_cmp_len(s);
    assert forall|i: int| 0 <= i < s.len() + 1 implies view_cmp_list(s.push(p))[i] == view_cmp_list(
        s,
    ).push((p.0, view_expr(p.1)))[i] by {
        lemma_view_cmp_index(s.push(p), i);
        if i < s.len() {
            lemma_view_cmp_index(s, i);
        }
    }
    assert(view_cmp_list(s.push(p)) =~= view_cmp_list(s).push((p.0, view_expr(p.1))));
}

/// The model of an expression list has the same length.
pub proof fn lemma_view_expr_list_len(s: Seq<Expr>)
    ensures
        view_expr_list(s).len() == s.len(),
    decreases s.len(),
{
    if s.len() > 0 {
        lemma_view_expr_list_len(s.subrange(1, s.len() as int));
    }
}

/// Expression lists have element-wise models.
pub proof fn lemma_view_expr_list_index(s: Seq<Expr>, i: int)
    requires
        0 <= i < s.len(),
    ensures
        view_expr_list(s).len() == s.len(),
        view_expr_list(s)[i] == view_expr(s[i]),
    decreases s.len(),
{
    lemma_view_expr_list_len(s);
    if i > 0 {
        lemma_view_expr_list_index(s.subrange(1, s.len() as int), i - 1);
    }
}

/// The model of an expression list grows element-wise at the end.
pub proof fn lemma_view_expr_list_snoc(s: Seq<Expr>, e: Expr)
    ensures
        view_expr_list(s.push(e)) == view_expr_list(s).push(view_expr(e)),
{
    lemma_view_expr_list_len(s.push(e));
    lemma_view_expr_list_len(s);
    assert forall|i: int| 0 <= i < s.len() + 1 implies view_expr_list(s.push(e))[i]
        == view_expr_list(s).push(view_expr(e))[i] by {
        lemma_view_expr_list_index(s.push(e), i);
        if i < s.len() {
            lemma_view_expr_list_index(s, i);
        }
    }
    assert(view_expr_list(s.push(e)) =~= view_expr_list(s).push(view_expr(e)));
}

/// The model of an expression-pair list has the same length.
pub proof fn lemma_view_pair_list_len(s: Seq<(Expr, Expr)>)
    ensures
        view_pair_list(s).len() == s.len(),
    decreases s.len(),
{
    if s.len() > 0 {
        lemma_view_pair_list_len(s.subrange(1, s.len() as int));
    }
}

/// Expression-pair lists have pair-wise models.
pub proof fn lemma_view_pair_list_index(s: Seq<(Expr, Expr)>, i: int)
    requires
        0 <= i < s.len(),
    ensures
        view_pair_list(s).len() == s.len(),
        view_pair_list(s)[i] == (view_expr(s[i].0), view_expr(s[i].1)),
    decreases s.len(),
{
    lemma_view_pair_list_len(s);
    if i > 0 {
        lemma_view_pair_list_index(s.subrange(1, s.len() as int), i - 1);
    }
}

/// The model of an expression-pair list grows pair-wise at the end.
pub proof fn lemma_view_pair_list_snoc(s: Seq<(Expr, Expr)>, p: (Expr, Expr))
    ensures
        view_pair_list(s.push(p)) == view_pair_list(s).push((view_expr(p.0), view_expr(p.1))),
{
    lemma_view_pair_list_len(s.push(p));
    lemma_view_pair_list_len(s);
    assert forall|i: int| 0 <= i < s.len() + 1 implies view_pair_list(s.push(p))[i]
        == view_pair_list(s).push((view_expr(p.0), view_expr(p.1)))[i] by {
        lemma_view_pair_list_index(s.push(p), i);
        if i < s.len() {
            lemma_view_pair_list_index(s, i);
        }
    }
    assert(view_pair_list(s.push(p)) =~= view_pair_list(s).push((view_expr(p.0), view_expr(p.1))));
}

} // verus!
use crate::options::Options;
use crate::tokenizer::plain_text;
use crate::tokenizer::Tokenizer;

verus! {

/// A reusable parser: compiles template source into renderable templates.
pub struct Parser {
    pre: crate::preparser::Preparser,
    tok: Tokenizer,
    optimizer: crate::optimize::Optimizer,
    indent_post: crate::indent::Postprocess,
    oneline_post: crate::oneline::Postprocess,
}

/// Skip the tokens of one trailing directive line: a `## syntax` or
/// `## validate` statement start through its newline.
#[verifier::loop_isolation(false)]
fn skip_directive_lines(toks: &Vec<Token>, i: usize) -> (r: usize)
    requires
        i <= toks@.len(),
    ensures
        i <= r <= toks@.len(),
        (i < toks@.len() && plain_kind(toks@[i as int].kind)) ==> r == i,
{
    let mut j = i;
    while j < toks.len() && (at_st(toks, j, "syntax") || at_st(toks, j, "validate"))
        invariant
            i <= j <= toks@.len(),
            (i < toks@.len() && plain_kind(toks@[i as int].kind)) ==> j == i,
        decreases toks@.len() - j,
    {
        proof {
            if i < toks@.len() && plain_kind(toks@[i as int].kind) {
                assert(toks@[j as int].kind == Kind::StStart);
                assert(false);
            }
        }
        let ghost j_entry = j;
        while j < toks.len() && toks[j].kind != Kind::Newline
            invariant
                i <= j <= toks@.len(),
                j_entry <= j,
            decreases toks@.len() - j,
        {
            j = j + 1;
        }
        proof {
            if j == j_entry {
                assert(toks@[j as int].kind == Kind::StStart);
                assert(j >= toks@.len() || toks@[j as int].kind == Kind::Newline);
                assert(false);
            }
        }
        if j < toks.len() {
            j = j + 1;
        }
    }
    j
}

impl Parser {
    /// Create a new parser.
    pub fn new() -> Parser {
        Parser {
            pre: crate::preparser::Preparser::new(),
            tok: Tokenizer::new(),
            optimizer: crate::optimize::Optimizer::new(),
            indent_post: crate::indent::Postprocess::new(),
            oneline_post: crate::oneline::Postprocess::new(),
        }
    }

    /// Parse and compile a template with default options.
    ///
    /// A source without `{` and `#` — raw text alone — always compiles,
    /// into a template whose whole body is that text; rendering it
    /// reproduces the source exactly.  The compiled options are exactly what
    /// the ghost directive scan reads from the source's leading directives,
    /// starting from all defaults.
    pub fn parse(&self, data: &str) -> (r: Result<crate::render::Template, ParseError>)
        requires
            data@.len() + 16 < usize::MAX,
        ensures
            (plain_text(data@) && data@.len() > 0 && !crate::chars::all_space(data@)) ==> (match r {
                Ok(tpl) => {
                    &&& tpl.body_model().len() == 1
                    &&& tpl.body_model()[0].code == GStmtCode::Raw(data@)
                    &&& !tpl.opts_model().oneline
                },
                Err(_) => false,
            }),
            (match r {
                Ok(tpl) => crate::preparser::spec_prescan(
                    data@,
                    0,
                    false,
                    crate::preparser::GScan {
                        syntax: crate::preparser::Syntax::Plain,
                        default_filter: crate::validators::GFilter::NoFilter,
                        filters: Seq::empty(),
                    },
                    0,
                ) matches Ok(p) && {
                    &&& tpl.opts_model().oneline == (p.0.syntax == crate::preparser::Syntax::Oneline)
                    &&& tpl.opts_model().default_filter == p.0.default_filter
                    &&& tpl.opts_model().filters == p.0.filters
                },
                Err(_) => true,
            }),
    {
        let defaults = crate::options::Options::new();
        proof {
            assert(crate::preparser::view_scan(defaults) == crate::preparser::GScan {
                syntax: crate::preparser::Syntax::Plain,
                default_filter: crate::validators::GFilter::NoFilter,
                filters: Seq::empty(),
            });
        }
        self.parse_with_options(&defaults, data)
    }

    /// Parse and compile a template with some predefined options.
    ///
    /// The compiled options are exactly what the ghost directive scan reads
    /// from the source's leading directives, starting from the given ones.
    pub fn parse_with_options(&self, options: &Options, data: &str) -> (r: Result<
        crate::render::Template,
        ParseError,
    >)
        requires
            data@.len() + 16 < usize::MAX,
        ensures
            (plain_text(data@) && data@.len() > 0 && !crate::chars::all_space(data@)
                && options.syntax == crate::preparser::Syntax::Plain) ==> (match r {
                Ok(tpl) => {
                    &&& tpl.body_model().len() == 1
                    &&& tpl.body_model()[0].code == GStmtCode::Raw(data@)
                    &&& !tpl.opts_model().oneline
                },
                Err(_) => false,
            }),
            (match r {
                Ok(tpl) => crate::preparser::spec_prescan(
                    data@,
                    0,
                    false,
                    crate::preparser::view_scan(*options),
                    0,
                ) matches Ok(p) && {
                    &&& tpl.opts_model().oneline == (p.0.syntax == crate::preparser::Syntax::Oneline)
                    &&& tpl.opts_model().default_filter == p.0.default_filter
                    &&& tpl.opts_model().filters == p.0.filters
                },
                Err(_) => true,
            }),
    {
        let ghost plain = plain_text(data@) && data@.len() > 0 && !crate::chars::all_space(data@)
            && options.syntax == crate::preparser::Syntax::Plain;
        let text = crate::chars::str_to_chars(data);
        let (opts, consumed) = match crate::preparser::scan_inner(&text, options) {
            Ok(p) => p,
            Err(e) => {
                return Err(e);
            },
        };
        let rest = crate::chars::subvec(&text, consumed, text.len());
        proof {
            if plain {
                assert(rest@ =~= data@);
            }
        }
        let stream = match crate::tokenizer::tokenize(&rest) {
            Ok(s) => s,
            Err(e) => {
                return Err(e);
            },
        };
        let toks = stream.tokens;
        let end = stream.end;
        let i0 = skip_directive_lines(&toks, 0);
        proof {
            if plain {
                assert(crate::tokenizer::tokens_text(toks@) == data@);
                if toks@.len() > 0 {
                    assert(plain_kind(toks@[0].kind));
                    assert(i0 == 0);
                }
            }
        }
        let (body, j) = match parse_body(&toks, end, i0) {
            Ok(p) => p,
            Err(e) => {
                proof {
                    if plain {
                        assert(toks@.len() > 0) by {
                            assert(crate::tokenizer::tokens_text(toks@) == data@);
                            if toks@.len() == 0 {
                                assert(crate::tokenizer::tokens_text(toks@) =~= Seq::<
                                    char,
                                >::empty());
                            }
                        }
                        assert(false);
                    }
                }
                return Err(e);
            },
        };
        let j2 = skip_directive_lines(&toks, j);
        if j2 != toks.len() {
            proof {
                if plain {
                    assert(false);
                }
            }
            return Err(err_at(&toks, end, j2, "expected the end of the template"));
        }
        let processed: Body = match opts.syntax {
            crate::preparser::Syntax::Oneline => {
                let b = self.optimizer.optimize(&opts, body);
                self.oneline_post.process(&opts, b)
            },
            crate::preparser::Syntax::Indent => {
                let b = match self.indent_post.process(&opts, body) {
                    Ok(b) => b,
                    Err(e) => {
                        proof {
                            if plain {
                                assert(false);
                            }
                        }
                        return Err(e);
                    },
                };
                self.optimizer.optimize(&opts, b)
            },
            crate::preparser::Syntax::Plain => {
                proof {
                    if plain {
                        assert(toks@.len() > 0) by {
                            if toks@.len() == 0 {
                                assert(crate::tokenizer::tokens_text(toks@) =~= Seq::<
                                    char,
                                >::empty());
                            }
                        }
                        assert(toks@.subrange(0, toks@.len() as int) =~= toks@);
                        crate::optimize::lemma_optimize_all_raw(view_body(body));
                    }
                }
                self.optimizer.optimize(&opts, body)
            },
        };
        let tpl = Template { options: opts, body: processed };
        Ok(crate::render::template(tpl))
    }
}

} // verus!
