//! The renderer: a tree-walking interpreter over the compiled statement
//! tree, with the whitespace-control state machine, scoped variable
//! binding, and partial-failure semantics.
//!
//! The whole renderer is specified by a recursive interpreter over the
//! ghost models (`spec_eval`, `spec_block`): the executable code is proved
//! to produce exactly the output, the errors and the scope effects of that
//! interpreter.

use vstd::prelude::*;

use crate::chars::{self, leading_spaces, ltrim, rtrim, trailing_spaces};
use crate::grammar::{
    view_body, view_expr, view_stmt, view_stmt_list, AssignTarget, Body, CmpOperator, Expr,
    ExprCode, GExpr, GExprCode, GStmt, GStmtCode, GTarget, OutputMode, Statement, StatementCode,
    Template as Tpl,
};
use crate::options::Options;
use crate::preparser::Syntax;
use crate::render_error::{DataError, GErr, RenderError, TypeName};
use crate::validators::{regex_match, regex_valid, view_filter, BuiltinEscape, Filter, GFilter};
use crate::varmap::{lookup_scopes, Context, Frames};
use crate::render_error::view_errs;
use crate::vars::{
    attr_of, bool_of, index_of, output_of, str_key_of, typename_of, view_val, view_val_list,
    view_val_pairs, GVal, Value,
};
use crate::Pos;

verus! {

broadcast use vstd::std_specs::vec::group_vec_axioms;

// ---------------------------------------------------------------------------
// The ghost interpreter
// ---------------------------------------------------------------------------

/// The outcome of evaluating an expression: the value, and the data errors
/// recorded along the way, in order.
pub ghost struct EvalOut {
    /// The value of the expression; the undefined placeholder after an
    /// absorbed failure.
    pub val: GVal,
    /// The recorded errors, in order.
    pub errs: Seq<(Pos, GErr)>,
}

/// The renderer state between statements.
pub ghost struct RState {
    /// The output written so far.
    pub buf: Seq<char>,
    /// The prefix of the output that later whitespace control cannot trim.
    pub frozen: int,
    /// The whitespace mode carried from the statement before.
    pub tail: OutputMode,
    /// The errors collected so far, in order.
    pub errs: Seq<(Pos, GErr)>,
}

/// The outcome of rendering a block: the new state and the scope stack.
pub ghost struct BlockOut {
    /// The renderer state after the block.
    pub st: RState,
    /// The scope stack after the block: aliases changed its top frame.
    pub frames: Seq<Map<Seq<char>, GVal>>,
}

/// The model of the compiled options a render uses: the default filter and
/// the named filters.
pub ghost struct GOpts {
    /// Whether the one-line whitespace rules apply.
    pub oneline: bool,
    /// The filter applied when an output names none.
    pub default_filter: GFilter,
    /// The named filters; a later pair overrides an earlier one.
    pub filters: Seq<(Seq<char>, GFilter)>,
}

/// The filter registered under `name`, taking the last entry when the name
/// repeats.
pub open spec fn filters_get(fs: Seq<(Seq<char>, GFilter)>, name: Seq<char>) -> Option<GFilter>
    decreases fs.len(),
{
    if fs.len() == 0 {
        None
    } else if fs.last().0 == name {
        Some(fs.last().1)
    } else {
        filters_get(fs.drop_last(), name)
    }
}

/// The model of the filter table of the options.
pub open spec fn view_filter_pairs(s: Seq<(Vec<char>, Filter)>) -> Seq<(Seq<char>, GFilter)>
    decreases s.len(),
{
    if s.len() == 0 {
        Seq::empty()
    } else {
        view_filter_pairs(s.drop_last()).push((s.last().0@, view_filter(s.last().1)))
    }
}

/// The model of the options, as the renderer reads them.
pub open spec fn view_opts(o: Options) -> GOpts {
    GOpts {
        oneline: o.syntax == Syntax::Oneline,
        default_filter: view_filter(o.default_filter),
        filters: view_filter_pairs(o.filters@),
    }
}

/// The number a value stands for in arithmetic, where it stands for one.
pub open spec fn as_number_g(g: GVal) -> Result<int, GErr> {
    match g {
        GVal::Num(v) => Ok(v),
        _ => Err(GErr::NumberUnsupported(typename_of(g))),
    }
}

/// The mathematical result of one arithmetic operator on two numbers.
pub open spec fn arith_op(op: GExprCode, a: int, b: int) -> Option<int> {
    match op {
        GExprCode::Add(_, _) => crate::number::arith_int(a + b),
        GExprCode::Sub(_, _) => crate::number::arith_int(a - b),
        GExprCode::Mul(_, _) => crate::number::arith_int(a * b),
        GExprCode::Div(_, _) => if b != 0 {
            match crate::number::exact_quot(a, b) {
                Some(q) => crate::number::arith_int(q),
                None => None,
            }
        } else {
            None
        },
        GExprCode::Mod(_, _) => if b != 0 {
            crate::number::arith_int(crate::number::trunc_rem(a, b))
        } else {
            None
        },
        _ => None,
    }
}

/// Evaluate a binary arithmetic node: a failing operand keeps the other
/// operand's value, a failing operation yields the undefined placeholder.
pub open spec fn eval_arith(e: GExpr, fr: Seq<Map<Seq<char>, GVal>>, rt: Map<Seq<char>, GVal>)
    -> EvalOut
    decreases e, 1int, 0int,
{
    match e.code {
        GExprCode::Add(a, b) => arith_outcome(e, spec_eval(*a, fr, rt), spec_eval(*b, fr, rt), *a, *b),
        GExprCode::Sub(a, b) => arith_outcome(e, spec_eval(*a, fr, rt), spec_eval(*b, fr, rt), *a, *b),
        GExprCode::Mul(a, b) => arith_outcome(e, spec_eval(*a, fr, rt), spec_eval(*b, fr, rt), *a, *b),
        GExprCode::Div(a, b) => arith_outcome(e, spec_eval(*a, fr, rt), spec_eval(*b, fr, rt), *a, *b),
        GExprCode::Mod(a, b) => arith_outcome(e, spec_eval(*a, fr, rt), spec_eval(*b, fr, rt), *a, *b),
        _ => EvalOut { val: GVal::Undef, errs: Seq::empty() },
    }
}

/// The arithmetic rule on the two evaluated operands of `e`.
pub open spec fn arith_outcome(e: GExpr, l: EvalOut, r: EvalOut, a: GExpr, b: GExpr) -> EvalOut {
    let errs = l.errs + r.errs;
    match (as_number_g(l.val), as_number_g(r.val)) {
        (Ok(x), Ok(y)) => match arith_op(e.code, x, y) {
            Some(s) => EvalOut { val: GVal::Num(s), errs },
            None => EvalOut { val: GVal::Undef, errs: errs.push((e.pos, GErr::Overflow)) },
        },
        (Ok(_), Err(eb)) => EvalOut { val: l.val, errs: errs.push((b.pos, eb)) },
        (Err(ea), Ok(_)) => EvalOut { val: r.val, errs: errs.push((a.pos, ea)) },
        (Err(ea), Err(eb)) => EvalOut {
            val: GVal::Undef,
            errs: errs.push((a.pos, ea)).push((b.pos, eb)),
        },
    }
}

/// Evaluate an expression against a scope stack and a root map.
pub open spec fn spec_eval(e: GExpr, fr: Seq<Map<Seq<char>, GVal>>, rt: Map<Seq<char>, GVal>)
    -> EvalOut
    decreases e, 2int, 0int,
{
    match e.code {
        GExprCode::Str(s) => EvalOut { val: GVal::Str(s), errs: Seq::empty() },
        GExprCode::Int(i) => EvalOut { val: GVal::Num(i), errs: Seq::empty() },
        GExprCode::Var(name) => match lookup_scopes(fr, rt, name) {
            Some(v) => EvalOut { val: v, errs: Seq::empty() },
            None => EvalOut {
                val: GVal::Undef,
                errs: seq![(e.pos, GErr::VariableNotFound(name))],
            },
        },
        GExprCode::Attr(inner, name) => {
            let v = spec_eval(*inner, fr, rt);
            match attr_of(v.val, name) {
                Ok(x) => EvalOut { val: x, errs: v.errs },
                Err(err) => if err == GErr::AttrNotFound {
                    EvalOut { val: GVal::Undef, errs: v.errs }
                } else {
                    EvalOut { val: GVal::Undef, errs: v.errs.push((e.pos, err)) }
                },
            }
        },
        GExprCode::Item(inner, key) => {
            let v = spec_eval(*inner, fr, rt);
            let k = spec_eval(*key, fr, rt);
            let errs = v.errs + k.errs;
            match index_of(v.val, k.val) {
                Ok(x) => EvalOut { val: x, errs },
                Err(err) => if err == GErr::IndexNotFound || err == GErr::AttrNotFound {
                    EvalOut { val: GVal::Undef, errs }
                } else {
                    EvalOut { val: GVal::Undef, errs: errs.push((e.pos, err)) }
                },
            }
        },
        GExprCode::And(a, b) => {
            let l = spec_eval(*a, fr, rt);
            if bool_of(l.val) {
                let r = spec_eval(*b, fr, rt);
                EvalOut { val: r.val, errs: l.errs + r.errs }
            } else {
                l
            }
        },
        GExprCode::Or(a, b) => {
            let l = spec_eval(*a, fr, rt);
            if bool_of(l.val) {
                l
            } else {
                let r = spec_eval(*b, fr, rt);
                EvalOut { val: r.val, errs: l.errs + r.errs }
            }
        },
        GExprCode::Not(a) => {
            let l = spec_eval(*a, fr, rt);
            EvalOut { val: GVal::Bool(!bool_of(l.val)), errs: l.errs }
        },
        GExprCode::Comparison(first, links) => {
            let l = spec_eval(*first, fr, rt);
            eval_links(e, 0, l.val, l.errs, fr, rt)
        },
        GExprCode::List(items) => {
            let o = eval_list(e, 0, fr, rt);
            EvalOut { val: GVal::List(o.0), errs: o.1 }
        },
        GExprCode::Dict(pairs) => {
            let o = eval_dict(e, 0, fr, rt);
            EvalOut { val: GVal::Dict(o.0), errs: o.1 }
        },
        GExprCode::Add(_, _) => eval_arith(e, fr, rt),
        GExprCode::Sub(_, _) => eval_arith(e, fr, rt),
        GExprCode::Mul(_, _) => eval_arith(e, fr, rt),
        GExprCode::Div(_, _) => eval_arith(e, fr, rt),
        GExprCode::Mod(_, _) => eval_arith(e, fr, rt),
    }
}

/// The links of a chained comparison, where `e` is one.
pub open spec fn links_of(e: GExpr) -> Seq<(CmpOperator, GExpr)> {
    match e.code {
        GExprCode::Comparison(_, links) => links,
        _ => Seq::empty(),
    }
}

/// Evaluate the links of a chained comparison left to right, stopping at
/// the first link that does not hold.
pub open spec fn eval_links(
    e: GExpr,
    k: int,
    cur: GVal,
    errs: Seq<(Pos, GErr)>,
    fr: Seq<Map<Seq<char>, GVal>>,
    rt: Map<Seq<char>, GVal>,
) -> EvalOut
    decreases e, 1int, links_of(e).len() - k,
{
    let links = links_of(e);
    if k < 0 || k >= links.len() {
        EvalOut { val: GVal::Bool(true), errs }
    } else {
        match crate::compare::comparable_of(cur) {
            None => EvalOut {
                val: GVal::Undef,
                errs: errs.push((e.pos, GErr::ComparisonUnsupported(typename_of(cur)))),
            },
            Some(lc) => {
                let r = spec_eval(links[k].1, fr, rt);
                let errs2 = errs + r.errs;
                match crate::compare::comparable_of(r.val) {
                    None => EvalOut {
                        val: GVal::Undef,
                        errs: errs2.push((e.pos, GErr::ComparisonUnsupported(typename_of(r.val)))),
                    },
                    Some(rc) => match crate::compare::spec_compare(lc, rc, links[k].0) {
                        None => EvalOut {
                            val: GVal::Undef,
                            errs: errs2.push(
                                (e.pos, GErr::Incomparable(typename_of(cur), typename_of(r.val))),
                            ),
                        },
                        Some(false) => EvalOut { val: GVal::Bool(false), errs: errs2 },
                        Some(true) => eval_links(e, k + 1, r.val, errs2, fr, rt),
                    },
                }
            },
        }
    }
}

/// The items of a list constructor, where `e` is one.
pub open spec fn items_of(e: GExpr) -> Seq<GExpr> {
    match e.code {
        GExprCode::List(items) => items,
        _ => Seq::empty(),
    }
}

/// Evaluate the items of a list constructor, in order.
pub open spec fn eval_list(
    e: GExpr,
    k: int,
    fr: Seq<Map<Seq<char>, GVal>>,
    rt: Map<Seq<char>, GVal>,
) -> (Seq<GVal>, Seq<(Pos, GErr)>)
    decreases e, 1int, items_of(e).len() - k,
{
    let items = items_of(e);
    if k < 0 || k >= items.len() {
        (Seq::empty(), Seq::empty())
    } else {
        let v = spec_eval(items[k], fr, rt);
        let rest = eval_list(e, k + 1, fr, rt);
        (seq![v.val] + rest.0, v.errs + rest.1)
    }
}

/// The pairs of a dict constructor, where `e` is one.
pub open spec fn dict_pairs_of(e: GExpr) -> Seq<(GExpr, GExpr)> {
    match e.code {
        GExprCode::Dict(pairs) => pairs,
        _ => Seq::empty(),
    }
}

/// Evaluate the pairs of a dict constructor, in order; a pair whose key is
/// no string is recorded and dropped.
pub open spec fn eval_dict(
    e: GExpr,
    k: int,
    fr: Seq<Map<Seq<char>, GVal>>,
    rt: Map<Seq<char>, GVal>,
) -> (Seq<(Seq<char>, GVal)>, Seq<(Pos, GErr)>)
    decreases e, 1int, dict_pairs_of(e).len() - k,
{
    let pairs = dict_pairs_of(e);
    if k < 0 || k >= pairs.len() {
        (Seq::empty(), Seq::empty())
    } else {
        let kv = spec_eval(pairs[k].0, fr, rt);
        let vv = spec_eval(pairs[k].1, fr, rt);
        let rest = eval_dict(e, k + 1, fr, rt);
        match str_key_of(kv.val) {
            Ok(s) => (seq![(s, vv.val)] + rest.0, kv.errs + vv.errs + rest.1),
            Err(err) => (rest.0, kv.errs + vv.errs.push((pairs[k].0.pos, err)) + rest.1),
        }
    }
}

} // verus!
verus! {

/// The rank of a whitespace mode: stripping is strongest.
pub open spec fn mode_rank(m: OutputMode) -> int {
    match m {
        OutputMode::Strip => 0,
        OutputMode::Space => 1,
        OutputMode::Preserve => 2,
    }
}

/// The stronger of two whitespace modes.
pub open spec fn mode_min(a: OutputMode, b: OutputMode) -> OutputMode {
    if mode_rank(a) <= mode_rank(b) {
        a
    } else {
        b
    }
}

/// A well-formed renderer state: the frozen prefix lies within the output.
pub open spec fn rstate_wf(st: RState) -> bool {
    0 <= st.frozen <= st.buf.len()
}

/// One raw text appended to the output under the carried whitespace mode.
///
/// Preserving appends the text as written and, when the text has any
/// substance, leaves its trailing whitespace open to later trimming.
/// Stripping truncates back to the frozen prefix and appends the text
/// without its leading whitespace.  Spacing does the same but puts one
/// space between the old output and the text.  A whitespace-only text
/// leaves a pending strip or space in place.
pub open spec fn raw_step(st: RState, t: Seq<char>, base: OutputMode) -> RState {
    match st.tail {
        OutputMode::Preserve => {
            let buf = st.buf + t;
            let frozen = if rtrim(t).len() > 0 {
                buf.len() - trailing_spaces(t)
            } else {
                st.frozen
            };
            RState { buf, frozen, tail: base, errs: st.errs }
        },
        OutputMode::Strip => {
            let buf0 = st.buf.subrange(0, st.frozen);
            let s = ltrim(t);
            if s.len() > 0 {
                let buf = buf0 + s;
                RState { buf, frozen: buf.len() - trailing_spaces(s), tail: base, errs: st.errs }
            } else {
                RState { buf: buf0, frozen: st.frozen, tail: OutputMode::Strip, errs: st.errs }
            }
        },
        OutputMode::Space => {
            let s = ltrim(t);
            if s.len() > 0 {
                let buf0 = st.buf.subrange(0, st.frozen);
                let buf1 = if buf0.len() > 0 {
                    buf0 + seq![' ']
                } else {
                    buf0
                };
                let buf = buf1 + s;
                RState { buf, frozen: buf.len() - trailing_spaces(s), tail: base, errs: st.errs }
            } else {
                RState { buf: st.buf, frozen: st.frozen, tail: OutputMode::Space, errs: st.errs }
            }
        },
    }
}

/// The output buffer after the whitespace control at the left boundary of
/// an expression output.
pub open spec fn out_boundary(st: RState, left: OutputMode) -> Seq<char> {
    match mode_min(left, st.tail) {
        OutputMode::Preserve => st.buf,
        OutputMode::Strip => st.buf.subrange(0, st.frozen),
        OutputMode::Space => {
            let buf0 = st.buf.subrange(0, st.frozen);
            if buf0.len() > 0 {
                buf0 + seq![' ']
            } else {
                buf0
            }
        },
    }
}

/// The branches of a conditional statement.
pub open spec fn branches_of(s: GStmt) -> Seq<(GExpr, Seq<GStmt>)> {
    match s.code {
        GStmtCode::Cond { conditional, .. } => conditional,
        _ => Seq::empty(),
    }
}

/// The otherwise-body of a conditional statement.
pub open spec fn otherwise_of(s: GStmt) -> Seq<GStmt> {
    match s.code {
        GStmtCode::Cond { otherwise, .. } => otherwise,
        _ => Seq::empty(),
    }
}

/// The body of a loop statement.
pub open spec fn loop_body_of(s: GStmt) -> Seq<GStmt> {
    match s.code {
        GStmtCode::Loop { body, .. } => body,
        _ => Seq::empty(),
    }
}

/// Render the statements of a block from position `k` on.
pub open spec fn spec_block(
    stmts: Seq<GStmt>,
    k: int,
    fr: Seq<Map<Seq<char>, GVal>>,
    rt: Map<Seq<char>, GVal>,
    st: RState,
    opts: GOpts,
) -> BlockOut
    decreases stmts, 1int, stmts.len() - k,
{
    if k < 0 || k >= stmts.len() {
        BlockOut { st, frames: fr }
    } else {
        let o = spec_stmt(stmts[k], fr, rt, st, opts);
        spec_block(stmts, k + 1, o.frames, rt, o.st, opts)
    }
}

/// Render one statement.
pub open spec fn spec_stmt(
    s: GStmt,
    fr: Seq<Map<Seq<char>, GVal>>,
    rt: Map<Seq<char>, GVal>,
    st: RState,
    opts: GOpts,
) -> BlockOut
    decreases s, 2int, 0int,
{
    match s.code {
        GStmtCode::Joiner => BlockOut {
            st: RState { buf: st.buf, frozen: st.frozen, tail: OutputMode::Space, errs: st.errs },
            frames: fr,
        },
        GStmtCode::Raw(t) => BlockOut {
            st: raw_step(
                st,
                t,
                if opts.oneline {
                    OutputMode::Space
                } else {
                    OutputMode::Preserve
                },
            ),
            frames: fr,
        },
        GStmtCode::Out { left_ws, expr, validator, right_ws } => {
            let buf1 = out_boundary(st, left_ws);
            let ev = spec_eval(expr, fr, rt);
            let errs1 = st.errs + ev.errs;
            match output_of(ev.val) {
                Err(err) => BlockOut {
                    st: RState {
                        buf: buf1,
                        frozen: buf1.len() as int,
                        tail: right_ws,
                        errs: errs1.push((s.pos, err)),
                    },
                    frames: fr,
                },
                Ok(text) => {
                    let picked: (GFilter, Seq<(Pos, GErr)>) = match validator {
                        Some(name) => match filters_get(opts.filters, name) {
                            Some(f) => (f, errs1),
                            None => (
                                opts.default_filter,
                                errs1.push((s.pos, GErr::UnknownValidator(name))),
                            ),
                        },
                        None => (opts.default_filter, errs1),
                    };
                    let written: (Seq<char>, Seq<(Pos, GErr)>) = match picked.0 {
                        GFilter::NoFilter => (buf1 + text, picked.1),
                        GFilter::Validate(p) => (
                            buf1 + text,
                            if regex_valid(p) && regex_match(p, text) {
                                picked.1
                            } else {
                                picked.1.push((s.pos, GErr::ValidatorFailed(p)))
                            },
                        ),
                        GFilter::Escape(b) => (buf1 + b.escaped(text), picked.1),
                    };
                    BlockOut {
                        st: RState {
                            buf: written.0,
                            frozen: written.0.len() as int,
                            tail: right_ws,
                            errs: written.1,
                        },
                        frames: fr,
                    }
                },
            }
        },
        GStmtCode::Alias { target, value } => {
            let ev = spec_eval(value, fr, rt);
            let errs = st.errs + ev.errs;
            let fr2 = match target {
                GTarget::Var(name) => if fr.len() > 0 {
                    fr.update(fr.len() - 1, fr.last().insert(name, ev.val))
                } else {
                    fr
                },
                GTarget::Pair(_, _) => fr,
            };
            BlockOut {
                st: RState { buf: st.buf, frozen: st.frozen, tail: st.tail, errs },
                frames: fr2,
            }
        },
        GStmtCode::Cond { .. } => cond_step(s, 0, fr, rt, st, opts),
        GStmtCode::Loop { target, iterator, filter, .. } => {
            let ev = spec_eval(iterator, fr, rt);
            let errs = st.errs + ev.errs;
            let st1 = RState { buf: st.buf, frozen: st.frozen, tail: st.tail, errs };
            match target {
                GTarget::Var(name) => match ev.val {
                    GVal::List(items) => loop_items(s, name, items, 0, fr, rt, st1, opts),
                    GVal::Undef => BlockOut { st: st1, frames: fr },
                    other => BlockOut {
                        st: RState {
                            buf: st1.buf,
                            frozen: st1.frozen,
                            tail: st1.tail,
                            errs: st1.errs.push(
                                (iterator.pos, GErr::IterationUnsupported(typename_of(other))),
                            ),
                        },
                        frames: fr,
                    },
                },
                GTarget::Pair(kname, vname) => match ev.val {
                    GVal::Dict(pairs) => loop_pairs(s, kname, vname, pairs, 0, fr, rt, st1, opts),
                    GVal::Undef => BlockOut { st: st1, frames: fr },
                    other => BlockOut {
                        st: RState {
                            buf: st1.buf,
                            frozen: st1.frozen,
                            tail: st1.tail,
                            errs: st1.errs.push(
                                (iterator.pos, GErr::PairIterationUnsupported(typename_of(other))),
                            ),
                        },
                        frames: fr,
                    },
                },
            }
        },
    }
}

/// Try the branches of a conditional from `k` on: the first truthy branch
/// renders in a fresh child scope, and the otherwise-body renders when none
/// is truthy.
pub open spec fn cond_step(
    s: GStmt,
    k: int,
    fr: Seq<Map<Seq<char>, GVal>>,
    rt: Map<Seq<char>, GVal>,
    st: RState,
    opts: GOpts,
) -> BlockOut
    decreases s, 1int, branches_of(s).len() - k,
{
    if !(s.code is Cond) {
        BlockOut { st, frames: fr }
    } else {
        let branches = branches_of(s);
        if k < 0 || k >= branches.len() {
            let bo = spec_block(otherwise_of(s), 0, fr.push(Map::empty()), rt, st, opts);
            BlockOut { st: bo.st, frames: fr }
        } else {
            let ce = spec_eval(branches[k].0, fr, rt);
            let st2 = RState {
                buf: st.buf,
                frozen: st.frozen,
                tail: st.tail,
                errs: st.errs + ce.errs,
            };
            if bool_of(ce.val) {
                let bo = spec_block(branches[k].1, 0, fr.push(Map::empty()), rt, st2, opts);
                BlockOut { st: bo.st, frames: fr }
            } else {
                cond_step(s, k + 1, fr, rt, st2, opts)
            }
        }
    }
}

/// Render the body of a single-binding loop for the items from `k` on:
/// each iteration binds the item in a fresh child scope, skips the body
/// when the skip filter is truthy, and drops the scope afterwards.
pub open spec fn loop_items(
    s: GStmt,
    name: Seq<char>,
    items: Seq<GVal>,
    k: int,
    fr: Seq<Map<Seq<char>, GVal>>,
    rt: Map<Seq<char>, GVal>,
    st: RState,
    opts: GOpts,
) -> BlockOut
    decreases s, 1int, items.len() - k,
{
    if !(s.code is Loop) || k < 0 || k >= items.len() {
        BlockOut { st, frames: fr }
    } else {
        let fr2 = fr.push(Map::empty().insert(name, items[k]));
        let filtered: (bool, Seq<(Pos, GErr)>) = match loop_filter_of(s) {
            Some(f) => {
                let fe = spec_eval(f, fr2, rt);
                (bool_of(fe.val), st.errs + fe.errs)
            },
            None => (false, st.errs),
        };
        let st2 = RState { buf: st.buf, frozen: st.frozen, tail: st.tail, errs: filtered.1 };
        if filtered.0 {
            loop_items(s, name, items, k + 1, fr, rt, st2, opts)
        } else {
            let bo = spec_block(loop_body_of(s), 0, fr2, rt, st2, opts);
            loop_items(
                s,
                name,
                items,
                k + 1,
                fr,
                rt,
                bo.st,
                opts,
            )
        }
    }
}

/// Render the body of a pair-binding loop for the pairs from `k` on.
pub open spec fn loop_pairs(
    s: GStmt,
    kname: Seq<char>,
    vname: Seq<char>,
    pairs: Seq<(Seq<char>, GVal)>,
    k: int,
    fr: Seq<Map<Seq<char>, GVal>>,
    rt: Map<Seq<char>, GVal>,
    st: RState,
    opts: GOpts,
) -> BlockOut
    decreases s, 1int, pairs.len() - k,
{
    if !(s.code is Loop) || k < 0 || k >= pairs.len() {
        BlockOut { st, frames: fr }
    } else {
        let fr2 = fr.push(
            Map::empty().insert(kname, GVal::Str(pairs[k].0)).insert(vname, pairs[k].1),
        );
        let filtered: (bool, Seq<(Pos, GErr)>) = match loop_filter_of(s) {
            Some(f) => {
                let fe = spec_eval(f, fr2, rt);
                (bool_of(fe.val), st.errs + fe.errs)
            },
            None => (false, st.errs),
        };
        let st2 = RState { buf: st.buf, frozen: st.frozen, tail: st.tail, errs: filtered.1 };
        if filtered.0 {
            loop_pairs(s, kname, vname, pairs, k + 1, fr, rt, st2, opts)
        } else {
            let bo = spec_block(loop_body_of(s), 0, fr2, rt, st2, opts);
            loop_pairs(s, kname, vname, pairs, k + 1, fr, rt, bo.st, opts)
        }
    }
}

/// The skip filter of a loop statement.
pub open spec fn loop_filter_of(s: GStmt) -> Option<GExpr> {
    match s.code {
        GStmtCode::Loop { filter, .. } => filter,
        _ => None,
    }
}

} // verus!
verus! {

/// Record one data error.
fn push_err(errors: &mut Vec<(Pos, DataError)>, pos: Pos, e: DataError)
    ensures
        view_errs(final(errors)@) == view_errs(old(errors)@).push(
            (pos, crate::render_error::view_err(e)),
        ),
{
    let ghost gp = (pos, e);
    proof {
        crate::render_error::lemma_view_errs_snoc(errors@, (pos, e));
    }
    errors.push((pos, e));
}

/// Evaluate an expression, recording its data errors: the exact value and
/// errors of the ghost interpreter.
#[verifier::loop_isolation(false)]
#[verifier::rlimit(100)]
fn eval_expr(
    e: &Expr,
    frames: &Frames,
    root: &Context,
    errors: &mut Vec<(Pos, DataError)>,
) -> (r: Value)
    ensures
        ({
            let o = spec_eval(view_expr(*e), frames@, root@);
            &&& view_val(r) == o.val
            &&& view_errs(final(errors)@) == view_errs(old(errors)@) + o.errs
        }),
    decreases e,
{
    let ghost ge = view_expr(*e);
    let ghost errs0 = view_errs(errors@);
    match &e.code {
        ExprCode::Str(s) => {
            proof {
                assert(errs0 + spec_eval(ge, frames@, root@).errs =~= errs0);
            }
            Value::Str(s.clone())
        },
        ExprCode::Int(n) => {
            proof {
                assert(errs0 + spec_eval(ge, frames@, root@).errs =~= errs0);
            }
            Value::Num(crate::number::Number::I64(*n))
        },
        ExprCode::Var(name) => {
            match frames.get(root, name) {
                Some(v) => {
                    proof {
                        assert(errs0 + spec_eval(ge, frames@, root@).errs =~= errs0);
                    }
                    v
                },
                None => {
                    push_err(errors, e.position.0, DataError::VariableNotFound(name.clone()));
                    proof {
                        assert(errs0.push((e.position.0, GErr::VariableNotFound(name@))) =~= errs0
                            + spec_eval(ge, frames@, root@).errs);
                    }
                    Value::Undefined
                },
            }
        },
        ExprCode::Attr(inner, name) => {
            let v = eval_expr(inner, frames, root, errors);
            let ghost o1 = spec_eval(view_expr(**inner), frames@, root@);
            match v.attr(name) {
                Ok(x) => {
                    proof {
                        assert(errs0 + o1.errs =~= errs0 + spec_eval(ge, frames@, root@).errs);
                    }
                    x
                },
                Err(err) => match err {
                    DataError::AttrNotFound => {
                        proof {
                            assert(errs0 + o1.errs =~= errs0 + spec_eval(ge, frames@, root@).errs);
                        }
                        Value::Undefined
                    },
                    other => {
                        let ghost gother = crate::render_error::view_err(other);
                        push_err(errors, e.position.0, other);
                        proof {
                            assert((errs0 + o1.errs).push((e.position.0, gother)) =~= errs0
                                + spec_eval(ge, frames@, root@).errs);
                        }
                        Value::Undefined
                    },
                },
            }
        },
        ExprCode::Item(inner, key) => {
            let v = eval_expr(inner, frames, root, errors);
            let k = eval_expr(key, frames, root, errors);
            let ghost o1 = spec_eval(view_expr(**inner), frames@, root@);
            let ghost o2 = spec_eval(view_expr(**key), frames@, root@);
            proof {
                assert(errs0 + o1.errs + o2.errs =~= errs0 + (o1.errs + o2.errs));
            }
            match v.index(&k) {
                Ok(x) => x,
                Err(err) => {
                    let is_silent = match &err {
                        DataError::IndexNotFound => true,
                        DataError::AttrNotFound => true,
                        _ => false,
                    };
                    if is_silent {
                        Value::Undefined
                    } else {
                        let ghost gother = crate::render_error::view_err(err);
                        push_err(errors, e.position.0, err);
                        proof {
                            assert((errs0 + (o1.errs + o2.errs)).push((e.position.0, gother))
                                =~= errs0 + spec_eval(ge, frames@, root@).errs);
                        }
                        Value::Undefined
                    }
                },
            }
        },
        ExprCode::And(a, b) => {
            let l = eval_expr(a, frames, root, errors);
            let truthy = match l.as_bool() {
                Ok(t) => t,
                Err(_) => false,
            };
            if truthy {
                let r = eval_expr(b, frames, root, errors);
                proof {
                    let o1 = spec_eval(view_expr(**a), frames@, root@);
                    let o2 = spec_eval(view_expr(**b), frames@, root@);
                    assert(errs0 + o1.errs + o2.errs =~= errs0 + (o1.errs + o2.errs));
                }
                r
            } else {
                l
            }
        },
        ExprCode::Or(a, b) => {
            let l = eval_expr(a, frames, root, errors);
            let truthy = match l.as_bool() {
                Ok(t) => t,
                Err(_) => false,
            };
            if truthy {
                l
            } else {
                let r = eval_expr(b, frames, root, errors);
                proof {
                    let o1 = spec_eval(view_expr(**a), frames@, root@);
                    let o2 = spec_eval(view_expr(**b), frames@, root@);
                    assert(errs0 + o1.errs + o2.errs =~= errs0 + (o1.errs + o2.errs));
                }
                r
            }
        },
        ExprCode::Not(a) => {
            let l = eval_expr(a, frames, root, errors);
            let truthy = match l.as_bool() {
                Ok(t) => t,
                Err(_) => false,
            };
            Value::Bool(!truthy)
        },
        ExprCode::Comparison(first, links) => {
            let l = eval_expr(first, frames, root, errors);
            eval_comparison(e, links, l, frames, root, errors, Ghost(errs0))
        },
        ExprCode::List(items) => {
            let mut out: Vec<Value> = Vec::new();
            let mut j: usize = 0;
            proof {
                crate::grammar::lemma_view_expr_list_len(items@);
            }
            while j < items.len()
                invariant
                    j <= items@.len(),
                    ge == view_expr(*e),
                    ge.code == GExprCode::List(crate::grammar::view_expr_list(items@)),
                    items_of(ge) == crate::grammar::view_expr_list(items@),
                    items_of(ge).len() == items@.len(),
                    view_val_list(out@) + eval_list(ge, j as int, frames@, root@).0 == eval_list(
                        ge,
                        0,
                        frames@,
                        root@,
                    ).0,
                    view_errs(errors@) + eval_list(ge, j as int, frames@, root@).1 == errs0
                        + eval_list(ge, 0, frames@, root@).1,
                decreases items@.len() - j,
            {
                proof {
                    crate::grammar::lemma_view_expr_list_index(items@, j as int);
                }
                let ghost mid0 = view_errs(errors@);
                let v = eval_expr(&items[j], frames, root, errors);
                let ghost prev_out = out@;
                out.push(v);
                proof {
                    crate::vars::lemma_view_snoc_list(prev_out, v);
                    let oj = spec_eval(items_of(ge)[j as int], frames@, root@);
                    let rest0 = eval_list(ge, j + 1, frames@, root@).0;
                    let rest1 = eval_list(ge, j + 1, frames@, root@).1;
                    assert(view_val_list(out@) + rest0 =~= view_val_list(prev_out) + (seq![oj.val]
                        + rest0));
                    assert((mid0 + oj.errs) + rest1 =~= mid0 + (oj.errs + rest1));
                }
                j = j + 1;
            }
            proof {
                assert(view_val_list(out@) + Seq::<GVal>::empty() =~= view_val_list(out@));
                assert(view_errs(errors@) + Seq::<(Pos, GErr)>::empty() =~= view_errs(errors@));
            }
            Value::List(out)
        },
        ExprCode::Dict(pairs) => {
            let mut out: Vec<(Vec<char>, Value)> = Vec::new();
            let mut j: usize = 0;
            proof {
                crate::grammar::lemma_view_pair_list_len(pairs@);
            }
            while j < pairs.len()
                invariant
                    j <= pairs@.len(),
                    ge == view_expr(*e),
                    ge.code == GExprCode::Dict(crate::grammar::view_pair_list(pairs@)),
                    dict_pairs_of(ge) == crate::grammar::view_pair_list(pairs@),
                    dict_pairs_of(ge).len() == pairs@.len(),
                    view_val_pairs(out@) + eval_dict(ge, j as int, frames@, root@).0 == eval_dict(
                        ge,
                        0,
                        frames@,
                        root@,
                    ).0,
                    view_errs(errors@) + eval_dict(ge, j as int, frames@, root@).1 == errs0
                        + eval_dict(ge, 0, frames@, root@).1,
                decreases pairs@.len() - j,
            {
                proof {
                    crate::grammar::lemma_view_pair_list_index(pairs@, j as int);
                }
                let ghost mid0 = view_errs(errors@);
                let kv = eval_expr(&pairs[j].0, frames, root, errors);
                let vv = eval_expr(&pairs[j].1, frames, root, errors);
                let ghost okv = spec_eval(dict_pairs_of(ge)[j as int].0, frames@, root@);
                let ghost ovv = spec_eval(dict_pairs_of(ge)[j as int].1, frames@, root@);
                match kv.as_str_key() {
                    Ok(ks) => {
                        let ghost prev_out = out@;
                        out.push((ks, vv));
                        proof {
                            crate::vars::lemma_view_snoc_pairs(prev_out, out@.last());
                            let rest0 = eval_dict(ge, j + 1, frames@, root@).0;
                            let rest1 = eval_dict(ge, j + 1, frames@, root@).1;
                            assert(view_val_pairs(out@) + rest0 =~= view_val_pairs(prev_out) + (
                            seq![(out@.last().0@, view_val(out@.last().1))] + rest0));
                            assert(((mid0 + okv.errs) + ovv.errs) + rest1 =~= mid0 + (okv.errs
                                + ovv.errs + rest1));
                        }
                    },
                    Err(kerr) => {
                        let ghost gkerr = crate::render_error::view_err(kerr);
                        push_err(errors, pairs[j].0.position.0, kerr);
                        proof {
                            assert(dict_pairs_of(ge)[j as int].0.pos == pairs@[j as int].0.position.0);
                            let rest1 = eval_dict(ge, j + 1, frames@, root@).1;
                            assert((((mid0 + okv.errs) + ovv.errs).push(
                                (pairs@[j as int].0.position.0, gkerr),
                            )) + rest1 =~= mid0 + (okv.errs + ovv.errs.push(
                                (pairs@[j as int].0.position.0, gkerr),
                            ) + rest1));
                        }
                    },
                }
                j = j + 1;
            }
            proof {
                assert(view_val_pairs(out@) + Seq::<(Seq<char>, GVal)>::empty() =~= view_val_pairs(
                    out@,
                ));
                assert(view_errs(errors@) + Seq::<(Pos, GErr)>::empty() =~= view_errs(errors@));
            }
            Value::Dict(out)
        },
        ExprCode::Add(a, b) => eval_arith_exec(e, a, b, frames, root, errors),
        ExprCode::Sub(a, b) => eval_arith_exec(e, a, b, frames, root, errors),
        ExprCode::Mul(a, b) => eval_arith_exec(e, a, b, frames, root, errors),
        ExprCode::Div(a, b) => eval_arith_exec(e, a, b, frames, root, errors),
        ExprCode::Mod(a, b) => eval_arith_exec(e, a, b, frames, root, errors),
    }
}

/// Whether an expression is one of the arithmetic operators.
pub open spec fn is_arith(c: ExprCode) -> bool {
    c is Add || c is Sub || c is Mul || c is Div || c is Mod
}

/// Evaluate a binary arithmetic node.
#[verifier::loop_isolation(false)]
#[verifier::rlimit(100)]
fn eval_arith_exec(
    e: &Expr,
    a: &Box<Expr>,
    b: &Box<Expr>,
    frames: &Frames,
    root: &Context,
    errors: &mut Vec<(Pos, DataError)>,
) -> (r: Value)
    requires
        is_arith(e.code),
        e.code matches ExprCode::Add(x, y) ==> x == a && y == b,
        e.code matches ExprCode::Sub(x, y) ==> x == a && y == b,
        e.code matches ExprCode::Mul(x, y) ==> x == a && y == b,
        e.code matches ExprCode::Div(x, y) ==> x == a && y == b,
        e.code matches ExprCode::Mod(x, y) ==> x == a && y == b,
    ensures
        ({
            let o = spec_eval(view_expr(*e), frames@, root@);
            &&& view_val(r) == o.val
            &&& view_errs(final(errors)@) == view_errs(old(errors)@) + o.errs
        }),
    decreases e, 0nat,
{
    let ghost ge = view_expr(*e);
    let ghost errs0 = view_errs(errors@);
    let l = eval_expr(a, frames, root, errors);
    let r = eval_expr(b, frames, root, errors);
    let ghost o1 = spec_eval(view_expr(**a), frames@, root@);
    let ghost o2 = spec_eval(view_expr(**b), frames@, root@);
    proof {
        assert(errs0 + o1.errs + o2.errs =~= errs0 + (o1.errs + o2.errs));
        assert(spec_eval(ge, frames@, root@) == eval_arith(ge, frames@, root@));
    }
    match (l.as_number(), r.as_number()) {
        (Ok(x), Ok(y)) => {
            let outcome = match &e.code {
                ExprCode::Add(_, _) => crate::number::add(x, y),
                ExprCode::Sub(_, _) => crate::number::sub(x, y),
                ExprCode::Mul(_, _) => crate::number::mul(x, y),
                ExprCode::Div(_, _) => crate::number::div(x, y),
                _ => crate::number::modulo(x, y),
            };
            match outcome {
                Some(n) => Value::Num(n),
                None => {
                    push_err(errors, e.position.0, DataError::Overflow);
                    proof {
                        assert((errs0 + (o1.errs + o2.errs)).push((ge.pos, GErr::Overflow)) =~= errs0
                            + spec_eval(ge, frames@, root@).errs);
                    }
                    Value::Undefined
                },
            }
        },
        (Ok(_), Err(eb)) => {
            let ghost geb = crate::render_error::view_err(eb);
            push_err(errors, b.position.0, eb);
            proof {
                assert((errs0 + (o1.errs + o2.errs)).push((view_expr(**b).pos, geb)) =~= errs0
                    + spec_eval(ge, frames@, root@).errs);
            }
            l
        },
        (Err(ea), Ok(_)) => {
            let ghost gea = crate::render_error::view_err(ea);
            push_err(errors, a.position.0, ea);
            proof {
                assert((errs0 + (o1.errs + o2.errs)).push((view_expr(**a).pos, gea)) =~= errs0
                    + spec_eval(ge, frames@, root@).errs);
            }
            r
        },
        (Err(ea), Err(eb)) => {
            let ghost gea = crate::render_error::view_err(ea);
            let ghost geb = crate::render_error::view_err(eb);
            push_err(errors, a.position.0, ea);
            push_err(errors, b.position.0, eb);
            proof {
                assert((errs0 + (o1.errs + o2.errs)).push((view_expr(**a).pos, gea)).push(
                    (view_expr(**b).pos, geb),
                ) =~= errs0 + spec_eval(ge, frames@, root@).errs);
            }
            Value::Undefined
        },
    }
}

/// Evaluate the links of a chained comparison.
#[verifier::loop_isolation(false)]
#[verifier::rlimit(100)]
fn eval_comparison(
    e: &Expr,
    links: &Vec<(CmpOperator, Expr)>,
    first: Value,
    frames: &Frames,
    root: &Context,
    errors: &mut Vec<(Pos, DataError)>,
    base: Ghost<Seq<(Pos, GErr)>>,
) -> (r: Value)
    requires
        e.code matches ExprCode::Comparison(_, ls) ==> ls == links,
        e.code is Comparison,
        ({
            let o = spec_eval(
                match view_expr(*e).code {
                    GExprCode::Comparison(f, _) => *f,
                    _ => view_expr(*e),
                },
                frames@,
                root@,
            );
            view_val(first) == o.val && view_errs(old(errors)@) == base@ + o.errs
        }),
    ensures
        ({
            let o = spec_eval(view_expr(*e), frames@, root@);
            &&& view_val(r) == o.val
            &&& view_errs(final(errors)@) == base@ + o.errs
        }),
    decreases e, 1nat,
{
    let ghost ge = view_expr(*e);
    proof {
        crate::grammar::lemma_view_cmp_len(links@);
    }
    let ghost gfirst = match ge.code {
        GExprCode::Comparison(f, _) => *f,
        _ => ge,
    };
    let ghost o0 = spec_eval(gfirst, frames@, root@);
    let ghost mut acc: Seq<(Pos, GErr)> = o0.errs;
    proof {
        assert(base@ + acc =~= view_errs(errors@));
    }
    let mut cur = first;
    let mut k: usize = 0;
    loop
        invariant
            k <= links@.len(),
            ge == view_expr(*e),
            links_of(ge) == crate::grammar::view_cmp_list(links@),
            links_of(ge).len() == links@.len(),
            view_errs(errors@) == base@ + acc,
            spec_eval(ge, frames@, root@) == eval_links(
                ge,
                k as int,
                view_val(cur),
                acc,
                frames@,
                root@,
            ),
        decreases links@.len() - k,
    {
        if k >= links.len() {
            return Value::Bool(true);
        }
        proof {
            crate::grammar::lemma_view_cmp_index(links@, k as int);
        }
        let lc = match cur.as_comparable() {
            Ok(c) => c,
            Err(err) => {
                let ghost gerr = crate::render_error::view_err(err);
                push_err(errors, e.position.0, err);
                proof {
                    assert((base@ + acc).push((ge.pos, gerr)) =~= base@ + acc.push((ge.pos, gerr)));
                }
                return Value::Undefined;
            },
        };
        let rv = eval_expr(&links[k].1, frames, root, errors);
        let ghost oj = spec_eval(links_of(ge)[k as int].1, frames@, root@);
        proof {
            let ghost acc_old = acc;
            acc = acc + oj.errs;
            assert((base@ + acc_old) + oj.errs =~= base@ + acc);
        }
        let rc = match rv.as_comparable() {
            Ok(c) => c,
            Err(err) => {
                let ghost gerr = crate::render_error::view_err(err);
                push_err(errors, e.position.0, err);
                proof {
                    assert((base@ + acc).push((ge.pos, gerr)) =~= base@ + acc.push((ge.pos, gerr)));
                }
                return Value::Undefined;
            },
        };
        match crate::compare::compare(&lc, &rc, links[k].0) {
            Ok(true) => {
                cur = rv;
                k = k + 1;
            },
            Ok(false) => {
                return Value::Bool(false);
            },
            Err(()) => {
                let tn_l = cur.typename();
                let tn_r = rv.typename();
                let ghost gerr = GErr::Incomparable(tn_l, tn_r);
                push_err(errors, e.position.0, DataError::Incomparable(tn_l, tn_r));
                proof {
                    assert((base@ + acc).push((ge.pos, gerr)) =~= base@ + acc.push((ge.pos, gerr)));
                }
                return Value::Undefined;
            },
        }
    }
}

} // verus!
verus! {

/// Rendering a block leaves the scope stack's length and all frames below
/// the top one unchanged: bindings only ever go into the innermost scope.
pub proof fn lemma_block_frames(
    stmts: Seq<GStmt>,
    k: int,
    fr: Seq<Map<Seq<char>, GVal>>,
    rt: Map<Seq<char>, GVal>,
    st: RState,
    opts: GOpts,
)
    ensures
        ({
            let o = spec_block(stmts, k, fr, rt, st, opts);
            &&& o.frames.len() == fr.len()
            &&& forall|i: int| 0 <= i < fr.len() - 1 ==> o.frames[i] == fr[i]
        }),
    decreases stmts, 1int, stmts.len() - k,
{
    if 0 <= k < stmts.len() {
        lemma_stmt_frames(stmts[k], fr, rt, st, opts);
        let o = spec_stmt(stmts[k], fr, rt, st, opts);
        lemma_block_frames(stmts, k + 1, o.frames, rt, o.st, opts);
    }
}

/// Rendering one statement leaves the scope stack's length and all frames
/// below the top one unchanged.
pub proof fn lemma_stmt_frames(
    s: GStmt,
    fr: Seq<Map<Seq<char>, GVal>>,
    rt: Map<Seq<char>, GVal>,
    st: RState,
    opts: GOpts,
)
    ensures
        ({
            let o = spec_stmt(s, fr, rt, st, opts);
            &&& o.frames.len() == fr.len()
            &&& forall|i: int| 0 <= i < fr.len() - 1 ==> o.frames[i] == fr[i]
        }),
    decreases s, 2int, 0int,
{
    match s.code {
        GStmtCode::Cond { .. } => {
            lemma_cond_frames(s, 0, fr, rt, st, opts);
        },
        GStmtCode::Loop { target, iterator, .. } => {
            let ev = spec_eval(iterator, fr, rt);
            let st1 = RState {
                buf: st.buf,
                frozen: st.frozen,
                tail: st.tail,
                errs: st.errs + ev.errs,
            };
            match target {
                GTarget::Var(name) => {
                    match ev.val {
                        GVal::List(items) => {
                            lemma_loop_items_frames(s, name, items, 0, fr, rt, st1, opts);
                        },
                        _ => {},
                    }
                },
                GTarget::Pair(kname, vname) => {
                    match ev.val {
                        GVal::Dict(pairs) => {
                            lemma_loop_pairs_frames(s, kname, vname, pairs, 0, fr, rt, st1, opts);
                        },
                        _ => {},
                    }
                },
            }
        },
        _ => {},
    }
}

/// Trying conditional branches leaves the scope stack unchanged.
pub proof fn lemma_cond_frames(
    s: GStmt,
    k: int,
    fr: Seq<Map<Seq<char>, GVal>>,
    rt: Map<Seq<char>, GVal>,
    st: RState,
    opts: GOpts,
)
    ensures
        cond_step(s, k, fr, rt, st, opts).frames == fr,
    decreases s, 1int, branches_of(s).len() - k,
{
    if s.code is Cond {
        let branches = branches_of(s);
        if 0 <= k < branches.len() {
            let ce = spec_eval(branches[k].0, fr, rt);
            let st2 = RState {
                buf: st.buf,
                frozen: st.frozen,
                tail: st.tail,
                errs: st.errs + ce.errs,
            };
            if !bool_of(ce.val) {
                lemma_cond_frames(s, k + 1, fr, rt, st2, opts);
            }
        }
    }
}

/// Iterating a single-binding loop leaves the scope stack unchanged.
pub proof fn lemma_loop_items_frames(
    s: GStmt,
    name: Seq<char>,
    items: Seq<GVal>,
    k: int,
    fr: Seq<Map<Seq<char>, GVal>>,
    rt: Map<Seq<char>, GVal>,
    st: RState,
    opts: GOpts,
)
    ensures
        loop_items(s, name, items, k, fr, rt, st, opts).frames == fr,
    decreases s, 1int, items.len() - k,
{
    if s.code is Loop && 0 <= k < items.len() {
        let fr2 = fr.push(Map::empty().insert(name, items[k]));
        let filtered: (bool, Seq<(Pos, GErr)>) = match loop_filter_of(s) {
            Some(f) => {
                let fe = spec_eval(f, fr2, rt);
                (bool_of(fe.val), st.errs + fe.errs)
            },
            None => (false, st.errs),
        };
        let st2 = RState { buf: st.buf, frozen: st.frozen, tail: st.tail, errs: filtered.1 };
        if filtered.0 {
            lemma_loop_items_frames(s, name, items, k + 1, fr, rt, st2, opts);
        } else {
            let bo = spec_block(loop_body_of(s), 0, fr2, rt, st2, opts);
            lemma_loop_items_frames(s, name, items, k + 1, fr, rt, bo.st, opts);
        }
    }
}

/// Iterating a pair-binding loop leaves the scope stack unchanged.
pub proof fn lemma_loop_pairs_frames(
    s: GStmt,
    kname: Seq<char>,
    vname: Seq<char>,
    pairs: Seq<(Seq<char>, GVal)>,
    k: int,
    fr: Seq<Map<Seq<char>, GVal>>,
    rt: Map<Seq<char>, GVal>,
    st: RState,
    opts: GOpts,
)
    ensures
        loop_pairs(s, kname, vname, pairs, k, fr, rt, st, opts).frames == fr,
    decreases s, 1int, pairs.len() - k,
{
    if s.code is Loop && 0 <= k < pairs.len() {
        let fr2 = fr.push(
            Map::empty().insert(kname, GVal::Str(pairs[k].0)).insert(vname, pairs[k].1),
        );
        let filtered: (bool, Seq<(Pos, GErr)>) = match loop_filter_of(s) {
            Some(f) => {
                let fe = spec_eval(f, fr2, rt);
                (bool_of(fe.val), st.errs + fe.errs)
            },
            None => (false, st.errs),
        };
        let st2 = RState { buf: st.buf, frozen: st.frozen, tail: st.tail, errs: filtered.1 };
        if filtered.0 {
            lemma_loop_pairs_frames(s, kname, vname, pairs, k + 1, fr, rt, st2, opts);
        } else {
            let bo = spec_block(loop_body_of(s), 0, fr2, rt, st2, opts);
            lemma_loop_pairs_frames(s, kname, vname, pairs, k + 1, fr, rt, bo.st, opts);
        }
    }
}

} // verus!
verus! {

/// The renderer state: the output buffer, the frozen prefix length, the
/// carried whitespace mode, and the collected errors.
pub struct RendState {
    /// The output written so far.
    pub buf: Vec<char>,
    /// The length of the prefix that later whitespace control keeps.
    pub frozen: usize,
    /// The whitespace mode carried from the statement before.
    pub tail: OutputMode,
    /// The collected errors, in order.
    pub errors: Vec<(Pos, DataError)>,
}

impl RendState {
    /// The model of the renderer state.
    pub open spec fn view(self) -> RState {
        RState {
            buf: self.buf@,
            frozen: self.frozen as int,
            tail: self.tail,
            errs: view_errs(self.errors@),
        }
    }
}

/// The stronger of two whitespace modes.
fn min_mode(a: OutputMode, b: OutputMode) -> (r: OutputMode)
    ensures
        r == mode_min(a, b),
{
    let ra: u8 = match a {
        OutputMode::Strip => 0,
        OutputMode::Space => 1,
        OutputMode::Preserve => 2,
    };
    let rb: u8 = match b {
        OutputMode::Strip => 0,
        OutputMode::Space => 1,
        OutputMode::Preserve => 2,
    };
    if ra <= rb {
        a
    } else {
        b
    }
}

/// The filter registered under `name`, the last when the name repeats.
#[verifier::loop_isolation(false)]
fn find_filter<'a>(opts: &'a Options, name: &Vec<char>) -> (r: Option<&'a Filter>)
    ensures
        match r {
            Some(f) => filters_get(view_filter_pairs(opts.filters@), name@) == Some(
                view_filter(*f),
            ),
            None => filters_get(view_filter_pairs(opts.filters@), name@) is None,
        },
{
    let fs = &opts.filters;
    let mut i: usize = fs.len();
    proof {
        assert(fs@.subrange(0, fs@.len() as int) =~= fs@);
    }
    while i > 0
        invariant
            i <= fs@.len(),
            filters_get(view_filter_pairs(fs@), name@) == filters_get(
                view_filter_pairs(fs@.subrange(0, i as int)),
                name@,
            ),
        decreases i,
    {
        i = i - 1;
        proof {
            assert(fs@.subrange(0, i + 1).drop_last() =~= fs@.subrange(0, i as int));
            assert(fs@.subrange(0, i + 1).last() == fs@[i as int]);
            assert(view_filter_pairs(fs@.subrange(0, i + 1)).drop_last() =~= view_filter_pairs(
                fs@.subrange(0, i as int),
            ));
            assert(view_filter_pairs(fs@.subrange(0, i + 1)).last() == (
                fs@[i as int].0@,
                view_filter(fs@[i as int].1),
            ));
        }
        if crate::chars::eq_chars(&fs[i].0, name) {
            return Some(&fs[i].1);
        }
    }
    proof {
        assert(fs@.subrange(0, 0) =~= Seq::<(Vec<char>, Filter)>::empty());
    }
    None
}

/// Append one raw text to the output under the carried whitespace mode.
#[verifier::loop_isolation(false)]
fn write_raw(st: &mut RendState, t: &Vec<char>, oneline: bool)
    requires
        rstate_wf(old(st)@),
    ensures
        final(st)@ == raw_step(
            old(st)@,
            t@,
            if oneline {
                OutputMode::Space
            } else {
                OutputMode::Preserve
            },
        ),
        rstate_wf(final(st)@),
{
    let base = if oneline {
        OutputMode::Space
    } else {
        OutputMode::Preserve
    };
    match st.tail {
        OutputMode::Preserve => {
            proof {
                assert(t@.subrange(0, t@.len() as int) =~= t@);
            }
            chars::append_range(&mut st.buf, t, 0, t.len());
            let trailing = chars::count_trailing(t);
            proof {
                chars::lemma_trailing_spaces(t@);
            }
            if trailing < t.len() {
                st.frozen = st.buf.len() - trailing;
            }
            st.tail = base;
            proof {
                let g = raw_step(old(st)@, t@, base);
                assert(st@.buf =~= g.buf);
                assert(st@.errs =~= g.errs);
                assert(st@ == g);
            }
        },
        OutputMode::Strip => {
            st.buf.truncate(st.frozen);
            let lead = chars::count_leading(t);
            proof {
                chars::lemma_leading_spaces(t@);
            }
            if lead < t.len() {
                let s_vec = chars::subvec(t, lead, t.len());
                proof {
                    assert(s_vec@ =~= ltrim(t@));
                }
                proof {
                    assert(s_vec@.subrange(0, s_vec@.len() as int) =~= s_vec@);
                }
                chars::append_range(&mut st.buf, &s_vec, 0, s_vec.len());
                let trailing = chars::count_trailing(&s_vec);
                proof {
                    chars::lemma_trailing_spaces(s_vec@);
                }
                st.frozen = st.buf.len() - trailing;
                st.tail = base;
                proof {
                    let g = raw_step(old(st)@, t@, base);
                    assert(st@.buf =~= g.buf);
                    assert(st@.errs =~= g.errs);
                    assert(st@ == g);
                }
            } else {
                proof {
                    assert(ltrim(t@).len() == 0);
                    let g = raw_step(old(st)@, t@, base);
                    assert(st@.buf =~= g.buf);
                    assert(st@.errs =~= g.errs);
                    assert(st@ == g);
                }
            }
        },
        OutputMode::Space => {
            let lead = chars::count_leading(t);
            proof {
                chars::lemma_leading_spaces(t@);
            }
            if lead < t.len() {
                st.buf.truncate(st.frozen);
                if st.buf.len() > 0 {
                    st.buf.push(' ');
                }
                let s_vec = chars::subvec(t, lead, t.len());
                proof {
                    assert(s_vec@ =~= ltrim(t@));
                    assert(s_vec@.subrange(0, s_vec@.len() as int) =~= s_vec@);
                }
                chars::append_range(&mut st.buf, &s_vec, 0, s_vec.len());
                let trailing = chars::count_trailing(&s_vec);
                proof {
                    chars::lemma_trailing_spaces(s_vec@);
                }
                st.frozen = st.buf.len() - trailing;
                st.tail = base;
                proof {
                    let g = raw_step(old(st)@, t@, base);
                    assert(st@.buf =~= g.buf);
                    assert(st@.errs =~= g.errs);
                    assert(st@ == g);
                }
            } else {
                proof {
                    assert(ltrim(t@).len() == 0);
                    let g = raw_step(old(st)@, t@, base);
                    assert(st@.buf =~= g.buf);
                    assert(st@.errs =~= g.errs);
                    assert(st@ == g);
                }
            }
        },
    }
}

} // verus!
verus! {

/// Render one statement: the exact state and scope effects of the ghost
/// interpreter.
#[verifier::loop_isolation(false)]
#[verifier::rlimit(100)]
fn write_stmt(
    s: &Statement,
    opts: &Options,
    root: &Context,
    frames: &mut Frames,
    st: &mut RendState,
)
    requires
        rstate_wf(old(st)@),
    ensures
        ({
            let o = spec_stmt(view_stmt(*s), old(frames)@, root@, old(st)@, view_opts(*opts));
            &&& final(st)@ == o.st
            &&& final(frames)@ == o.frames
            &&& rstate_wf(final(st)@)
        }),
    decreases s,
{
    let ghost gs = view_stmt(*s);
    let ghost fr0 = frames@;
    let ghost st0 = st@;
    let ghost gopts = view_opts(*opts);
    let oneline = match opts.syntax {
        Syntax::Oneline => true,
        _ => false,
    };
    match &s.code {
        StatementCode::Joiner => {
            st.tail = OutputMode::Space;
            proof {
                assert(st@ == spec_stmt(gs, fr0, root@, st0, gopts).st);
                assert(frames@ == spec_stmt(gs, fr0, root@, st0, gopts).frames);
            }
        },
        StatementCode::OutputRaw(t) => {
            write_raw(st, t, oneline);
            proof {
                assert(st@ == spec_stmt(gs, fr0, root@, st0, gopts).st);
                assert(frames@ == spec_stmt(gs, fr0, root@, st0, gopts).frames);
            }
        },
        StatementCode::Output { left_ws, expr, validator, right_ws } => {
            match min_mode(*left_ws, st.tail) {
                OutputMode::Preserve => {},
                OutputMode::Strip => {
                    st.buf.truncate(st.frozen);
                },
                OutputMode::Space => {
                    st.buf.truncate(st.frozen);
                    if st.buf.len() > 0 {
                        st.buf.push(' ');
                    }
                },
            }
            proof {
                assert(st@.buf =~= out_boundary(st0, *left_ws));
            }
            let v = eval_expr(expr, frames, root, &mut st.errors);
            match v.output() {
                Err(err) => {
                    push_err(&mut st.errors, s.position.0, err);
                },
                Ok(text) => {
                    let mut use_default = true;
                    match validator {
                        Some(name) => match find_filter(opts, name) {
                            Some(f) => {
                                use_default = false;
                                apply_filter(st, f, &text, s.position.0);
                            },
                            None => {
                                push_err(
                                    &mut st.errors,
                                    s.position.0,
                                    DataError::UnknownValidator(name.clone()),
                                );
                            },
                        },
                        None => {},
                    }
                    if use_default {
                        let f = &opts.default_filter;
                        apply_filter(st, f, &text, s.position.0);
                    }
                },
            }
            st.frozen = st.buf.len();
            st.tail = *right_ws;
            proof {
                assert(st@ == spec_stmt(gs, fr0, root@, st0, gopts).st);
                assert(frames@ == spec_stmt(gs, fr0, root@, st0, gopts).frames);
            }
        },
        StatementCode::Alias { target, value } => {
            let v = eval_expr(value, frames, root, &mut st.errors);
            match target {
                AssignTarget::Var(name) => {
                    if frames.depth() > 0 {
                        frames.bind(name.clone(), v);
                    }
                },
                AssignTarget::Pair(_, _) => {},
            }
            proof {
                assert(st@ == spec_stmt(gs, fr0, root@, st0, gopts).st);
                assert(frames@ == spec_stmt(gs, fr0, root@, st0, gopts).frames);
            }
        },
        StatementCode::Cond { indent: _, conditional, otherwise } => {
            let mut cidx: usize = 0;
            let mut done = false;
            proof {
                crate::grammar::lemma_view_branch_len(conditional@);
            }
            while !done && cidx < conditional.len()
                invariant
                    cidx <= conditional@.len(),
                    gs == view_stmt(*s),
                    branches_of(gs) == crate::grammar::view_branch_list(conditional@),
                    branches_of(gs).len() == conditional@.len(),
                    gs.code is Cond,
                    rstate_wf(st@),
                    !done ==> frames@ == fr0 && spec_stmt(gs, fr0, root@, st0, gopts) == cond_step(
                        gs,
                        cidx as int,
                        fr0,
                        root@,
                        st@,
                        gopts,
                    ),
                    done ==> st@ == spec_stmt(gs, fr0, root@, st0, gopts).st && frames@ == fr0,
                decreases conditional@.len() - cidx, (if done {
                    0int
                } else {
                    1int
                }),
            {
                proof {
                    crate::grammar::lemma_view_branch_index(conditional@, cidx as int);
                }
                let cv = eval_expr(&conditional[cidx].0, frames, root, &mut st.errors);
                let truthy = match cv.as_bool() {
                    Ok(t) => t,
                    Err(_) => false,
                };
                if truthy {
                    frames.push_scope();
                    let ghost st_b = st@;
                    let ghost fr_in = frames@;
                    write_block(&conditional[cidx].1.statements, opts, root, frames, st);
                    proof {
                        lemma_block_frames(
                            branches_of(gs)[cidx as int].1,
                            0,
                            fr_in,
                            root@,
                            st_b,
                            gopts,
                        );
                        assert(frames@.len() == fr0.len() + 1);
                    }
                    let ghost fr_out = frames@;
                    frames.pop_scope();
                    proof {
                        assert forall|i: int| 0 <= i < fr0.len() implies frames@[i] == fr0[i] by {
                            assert(fr_out[i] == fr_in[i]);
                            assert(fr_in[i] == fr0[i]);
                        }
                        assert(frames@ =~= fr0);
                    }
                    done = true;
                } else {
                    cidx = cidx + 1;
                }
            }
            proof {
                lemma_cond_frames(gs, 0, fr0, root@, st0, gopts);
            }
            if !done {
                frames.push_scope();
                let ghost st_b = st@;
                let ghost fr_in = frames@;
                write_block(&otherwise.statements, opts, root, frames, st);
                proof {
                    assert(otherwise_of(gs) == view_stmt_list(otherwise.statements@));
                    lemma_block_frames(otherwise_of(gs), 0, fr_in, root@, st_b, gopts);
                    assert(frames@.len() == fr0.len() + 1);
                }
                let ghost fr_out = frames@;
                frames.pop_scope();
                proof {
                    assert forall|i: int| 0 <= i < fr0.len() implies frames@[i] == fr0[i] by {
                        assert(fr_out[i] == fr_in[i]);
                        assert(fr_in[i] == fr0[i]);
                    }
                    assert(frames@ =~= fr0);
                }
            }
        },
        StatementCode::Loop { indent: _, target, iterator, filter, body } => {
            let v = eval_expr(iterator, frames, root, &mut st.errors);
            match target {
                AssignTarget::Var(name) => {
                    match v.iterate() {
                        Ok(items) => {
                            let ghost gitems = match view_val(v) {
                                GVal::List(g) => g,
                                _ => Seq::empty(),
                            };
                            proof {
                                crate::vars::lemma_view_val_list_len(items@);
                            }
                            let mut j: usize = 0;
                            while j < items.len()
                                invariant
                                    j <= items@.len(),
                                    gs == view_stmt(*s),
                                    gs.code is Loop,
                                    view_val_list(items@) == gitems,
                                    gitems.len() == items@.len(),
                                    rstate_wf(st@),
                                    frames@ == fr0,
                                    spec_stmt(gs, fr0, root@, st0, gopts) == loop_items(
                                        gs,
                                        name@,
                                        gitems,
                                        j as int,
                                        fr0,
                                        root@,
                                        st@,
                                        gopts,
                                    ),
                                decreases items@.len() - j,
                            {
                                proof {
                                    crate::vars::lemma_view_val_list_index(items@, j as int);
                                }
                                frames.push_scope();
                                frames.bind(name.clone(), items[j].duplicate());
                                proof {
                                    assert(frames@ =~= fr0.push(
                                        Map::empty().insert(name@, gitems[j as int]),
                                    ));
                                }
                                let skip_body = match filter {
                                    Some(f) => {
                                        let fv = eval_expr(f, frames, root, &mut st.errors);
                                        match fv.as_bool() {
                                            Ok(t) => t,
                                            Err(_) => false,
                                        }
                                    },
                                    None => false,
                                };
                                if skip_body {
                                    frames.pop_scope();
                                    proof {
                                        assert(frames@ =~= fr0);
                                    }
                                } else {
                                    let ghost st_b = st@;
                                    let ghost fr_in = frames@;
                                    write_block(&body.statements, opts, root, frames, st);
                                    proof {
                                        assert(loop_body_of(gs) == view_stmt_list(
                                            body.statements@,
                                        ));
                                        lemma_block_frames(
                                            loop_body_of(gs),
                                            0,
                                            fr_in,
                                            root@,
                                            st_b,
                                            gopts,
                                        );
                                        assert(frames@.len() == fr0.len() + 1);
                                    }
                                    let ghost fr_out = frames@;
                                    frames.pop_scope();
                                    proof {
                                        assert forall|i: int|
                                            0 <= i < fr0.len() implies frames@[i] == fr0[i] by {
                                            assert(fr_out[i] == fr_in[i]);
                                            assert(fr_in[i] == fr0[i]);
                                        }
                                        assert(frames@ =~= fr0);
                                    }
                                }
                                j = j + 1;
                            }
                        },
                        Err(err) => {
                            push_err(&mut st.errors, iterator.position.0, err);
                        },
                    }
                },
                AssignTarget::Pair(kname, vname) => {
                    match v.iterate_pairs() {
                        Ok(pairs) => {
                            let ghost gpairs = match view_val(v) {
                                GVal::Dict(g) => g,
                                _ => Seq::empty(),
                            };
                            proof {
                                crate::vars::lemma_view_val_pairs_len(pairs@);
                            }
                            let mut j: usize = 0;
                            while j < pairs.len()
                                invariant
                                    j <= pairs@.len(),
                                    gs == view_stmt(*s),
                                    gs.code is Loop,
                                    view_val_pairs(pairs@) == gpairs,
                                    gpairs.len() == pairs@.len(),
                                    rstate_wf(st@),
                                    frames@ == fr0,
                                    spec_stmt(gs, fr0, root@, st0, gopts) == loop_pairs(
                                        gs,
                                        kname@,
                                        vname@,
                                        gpairs,
                                        j as int,
                                        fr0,
                                        root@,
                                        st@,
                                        gopts,
                                    ),
                                decreases pairs@.len() - j,
                            {
                                proof {
                                    crate::vars::lemma_view_val_pairs_index(pairs@, j as int);
                                }
                                frames.push_scope();
                                frames.bind(kname.clone(), Value::Str(pairs[j].0.clone()));
                                frames.bind(vname.clone(), pairs[j].1.duplicate());
                                proof {
                                    assert(frames@ =~= fr0.push(
                                        Map::empty().insert(
                                            kname@,
                                            GVal::Str(gpairs[j as int].0),
                                        ).insert(vname@, gpairs[j as int].1),
                                    ));
                                }
                                let skip_body = match filter {
                                    Some(f) => {
                                        let fv = eval_expr(f, frames, root, &mut st.errors);
                                        match fv.as_bool() {
                                            Ok(t) => t,
                                            Err(_) => false,
                                        }
                                    },
                                    None => false,
                                };
                                if skip_body {
                                    frames.pop_scope();
                                    proof {
                                        assert(frames@ =~= fr0);
                                    }
                                } else {
                                    let ghost st_b = st@;
                                    let ghost fr_in = frames@;
                                    write_block(&body.statements, opts, root, frames, st);
                                    proof {
                                        assert(loop_body_of(gs) == view_stmt_list(
                                            body.statements@,
                                        ));
                                        lemma_block_frames(
                                            loop_body_of(gs),
                                            0,
                                            fr_in,
                                            root@,
                                            st_b,
                                            gopts,
                                        );
                                        assert(frames@.len() == fr0.len() + 1);
                                    }
                                    let ghost fr_out = frames@;
                                    frames.pop_scope();
                                    proof {
                                        assert forall|i: int|
                                            0 <= i < fr0.len() implies frames@[i] == fr0[i] by {
                                            assert(fr_out[i] == fr_in[i]);
                                            assert(fr_in[i] == fr0[i]);
                                        }
                                        assert(frames@ =~= fr0);
                                    }
                                }
                                j = j + 1;
                            }
                        },
                        Err(err) => {
                            push_err(&mut st.errors, iterator.position.0, err);
                        },
                    }
                },
            }
        },
    }
}

/// Apply one filter to the freshly evaluated output text.
fn apply_filter(st: &mut RendState, f: &Filter, text: &Vec<char>, pos: Pos)
    ensures
        ({
            let written: (Seq<char>, Seq<(Pos, GErr)>) = match view_filter(*f) {
                GFilter::NoFilter => (old(st)@.buf + text@, old(st)@.errs),
                GFilter::Validate(p) => (
                    old(st)@.buf + text@,
                    if regex_valid(p) && regex_match(p, text@) {
                        old(st)@.errs
                    } else {
                        old(st)@.errs.push((pos, GErr::ValidatorFailed(p)))
                    },
                ),
                GFilter::Escape(b) => (old(st)@.buf + b.escaped(text@), old(st)@.errs),
            };
            &&& final(st)@.buf == written.0
            &&& final(st)@.errs == written.1
            &&& final(st)@.frozen == old(st)@.frozen
            &&& final(st)@.tail == old(st)@.tail
        }),
{
    match f {
        Filter::NoFilter => {
            proof {
                assert(text@.subrange(0, text@.len() as int) =~= text@);
            }
            chars::append_range(&mut st.buf, text, 0, text.len());
        },
        Filter::Validate(p) => {
            proof {
                assert(text@.subrange(0, text@.len() as int) =~= text@);
            }
            chars::append_range(&mut st.buf, text, 0, text.len());
            let ps = chars::chars_to_string(p);
            let ts = chars::chars_to_string(text);
            let ok = match crate::validators::regex_try_match(ps.as_str(), ts.as_str()) {
                Some(true) => true,
                _ => false,
            };
            if !ok {
                push_err(&mut st.errors, pos, DataError::ValidatorFailed(p.clone()));
            }
        },
        Filter::Escape(b) => {
            b.escape_chars(&mut st.buf, text);
        },
    }
}

/// Render the statements of a block in order.
#[verifier::loop_isolation(false)]
fn write_block(
    stmts: &Vec<Statement>,
    opts: &Options,
    root: &Context,
    frames: &mut Frames,
    st: &mut RendState,
)
    requires
        rstate_wf(old(st)@),
    ensures
        ({
            let o = spec_block(
                view_stmt_list(stmts@),
                0,
                old(frames)@,
                root@,
                old(st)@,
                view_opts(*opts),
            );
            &&& final(st)@ == o.st
            &&& final(frames)@ == o.frames
            &&& rstate_wf(final(st)@)
        }),
    decreases stmts,
{
    let ghost gstmts = view_stmt_list(stmts@);
    let ghost fr0 = frames@;
    let ghost st0 = st@;
    let ghost gopts = view_opts(*opts);
    proof {
        crate::grammar::lemma_view_stmt_list_len(stmts@);
    }
    let mut k: usize = 0;
    while k < stmts.len()
        invariant
            k <= stmts@.len(),
            gstmts == view_stmt_list(stmts@),
            gstmts.len() == stmts@.len(),
            rstate_wf(st@),
            spec_block(gstmts, 0, fr0, root@, st0, gopts) == spec_block(
                gstmts,
                k as int,
                frames@,
                root@,
                st@,
                gopts,
            ),
        decreases stmts@.len() - k,
    {
        proof {
            crate::grammar::lemma_view_stmt_list_index(stmts@, k as int);
        }
        write_stmt(&stmts[k], opts, root, frames, st);
        k = k + 1;
    }
}

} // verus!
verus! {

/// A parsed template that can be rendered: immutable, and safe to reuse
/// across renders.
#[derive(Debug)]
pub struct Template {
    tpl: Tpl,
}

impl Template {
    /// The model of the compiled statement tree.
    pub closed spec fn body_model(self) -> Seq<GStmt> {
        view_body(self.tpl.body)
    }

    /// The model of the compiled options.
    pub closed spec fn opts_model(self) -> GOpts {
        view_opts(self.tpl.options)
    }

    /// The outcome of the ghost interpreter on this template against a root
    /// map: the initial state is an empty output in preserve mode, with one
    /// empty scope frame.
    pub open spec fn render_model(self, rt: Map<Seq<char>, GVal>) -> RState {
        spec_block(
            self.body_model(),
            0,
            seq![Map::<Seq<char>, GVal>::empty()],
            rt,
            RState {
                buf: Seq::empty(),
                frozen: 0,
                tail: OutputMode::Preserve,
                errs: Seq::empty(),
            },
            self.opts_model(),
        ).st
    }

    /// Render the template against a context: exactly the output of the
    /// ghost interpreter.  The call succeeds if and only if no data error
    /// was recorded; on failure the full collected list comes back.
    pub fn render(&self, root: &Context) -> (r: Result<String, RenderError>)
        ensures
            ({
                let o = self.render_model(root@);
                match r {
                    Ok(out) => o.errs.len() == 0 && out@ == o.buf,
                    Err(e) => match e {
                        RenderError::Data(errs) => o.errs.len() > 0 && view_errs(errs@) == o.errs,
                    },
                }
            }),
    {
        let mut frames = Frames::root_frame();
        let mut st = RendState {
            buf: Vec::new(),
            frozen: 0,
            tail: OutputMode::Preserve,
            errors: Vec::new(),
        };
        proof {
            assert(view_errs(st.errors@) =~= Seq::<(Pos, GErr)>::empty());
            assert(st@ == RState {
                buf: Seq::<char>::empty(),
                frozen: 0,
                tail: OutputMode::Preserve,
                errs: Seq::<(Pos, GErr)>::empty(),
            });
        }
        write_block(&self.tpl.body.statements, &self.tpl.options, root, &mut frames, &mut st);
        if st.errors.len() == 0 {
            proof {
                assert(view_errs(st.errors@).len() == 0);
            }
            Ok(chars::chars_to_string(&st.buf))
        } else {
            proof {
                assert(view_errs(st.errors@).len() == st.errors@.len());
            }
            Err(RenderError::Data(st.errors))
        }
    }
}

/// Wrap a compiled statement tree as a renderable template.
pub fn template(imp: Tpl) -> (r: Template)
    ensures
        r.body_model() == view_body(imp.body),
        r.opts_model() == view_opts(imp.options),
{
    Template { tpl: imp }
}

/// Take the compiled statement tree back out of a template.
pub fn extract(tpl: Template) -> (r: Tpl)
    ensures
        view_body(r.body) == tpl.body_model(),
        view_opts(r.options) == tpl.opts_model(),
{
    tpl.tpl
}

} // verus!
