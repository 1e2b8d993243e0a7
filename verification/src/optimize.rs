//! The optimizer: merges adjacent raw-text statements and removes
//! whitespace-only raw text that sits between two line statements (or at the
//! edge of a body next to one), recursing into nested bodies.

use vstd::prelude::*;

use crate::chars::all_space;
use crate::grammar::{
    lemma_view_branch_len, lemma_view_branch_snoc, lemma_view_stmt_drop_last,
    lemma_view_stmt_list_index, lemma_view_stmt_list_len, lemma_view_stmt_snoc, view_body,
    view_branch_list, view_expr, view_stmt, view_stmt_list, Body, Expr, GExpr, GStmt, GStmtCode,
    Statement, StatementCode,
};
use crate::options::Options;
use crate::Pos;

verus! {

broadcast use vstd::std_specs::vec::group_vec_axioms;

/// An optimizer pass.
#[derive(Debug)]
pub struct Optimizer {
    _priv: (),
}

/// Whether a statement is whitespace-only raw text.
pub open spec fn is_ws_stmt(s: GStmt) -> bool {
    match s.code {
        GStmtCode::Raw(t) => all_space(t),
        _ => false,
    }
}

/// A line statement: one that renders nothing by itself.
pub open spec fn is_line_stmt(s: GStmt) -> bool {
    match s.code {
        GStmtCode::Cond { .. } => true,
        GStmtCode::Loop { .. } => true,
        GStmtCode::Alias { .. } => true,
        _ => false,
    }
}

/// A line statement, or the edge of the body.
pub open spec fn is_line_or_none(s: Option<GStmt>) -> bool {
    match s {
        Some(st) => is_line_stmt(st),
        None => true,
    }
}

/// The raw text of a raw statement.
pub open spec fn raw_of(s: GStmt) -> Seq<char> {
    match s.code {
        GStmtCode::Raw(t) => t,
        _ => Seq::empty(),
    }
}

/// Merge adjacent raw statements, keeping the position of the first.
pub open spec fn merge_raws(b: Seq<GStmt>) -> Seq<GStmt>
    decreases b.len(),
{
    if b.len() == 0 {
        Seq::empty()
    } else {
        let rest = merge_raws(b.drop_last());
        let s = b.last();
        if rest.len() > 0 && rest.last().code is Raw && s.code is Raw {
            rest.drop_last().push(
                GStmt {
                    pos: rest.last().pos,
                    code: GStmtCode::Raw(raw_of(rest.last()) + raw_of(s)),
                },
            )
        } else {
            rest.push(s)
        }
    }
}

/// Drop whitespace-only raw statements whose neighbours render nothing:
/// `prev` is the last kept statement before position `k`.
pub open spec fn drop_ws_from(b: Seq<GStmt>, k: int, prev: Option<GStmt>) -> Seq<GStmt>
    decreases b.len() - k,
{
    if k < 0 || k >= b.len() {
        Seq::empty()
    } else {
        let cur = b[k];
        if is_ws_stmt(cur) && is_line_or_none(prev) && (k + 1 >= b.len() || is_line_stmt(
            b[k + 1],
        )) {
            drop_ws_from(b, k + 1, prev)
        } else {
            seq![cur] + drop_ws_from(b, k + 1, Some(cur))
        }
    }
}

/// Drop whitespace-only raw statements between line statements.
pub open spec fn drop_ws(b: Seq<GStmt>) -> Seq<GStmt> {
    drop_ws_from(b, 0, None)
}

/// The optimizer on one statement: recurse into nested bodies.
pub open spec fn opt_stmt(s: GStmt) -> GStmt
    decreases s, 0int,
{
    GStmt {
        pos: s.pos,
        code: match s.code {
            GStmtCode::Cond { indent, conditional, otherwise } => GStmtCode::Cond {
                indent,
                conditional: opt_branches(conditional),
                otherwise: spec_optimize(otherwise),
            },
            GStmtCode::Loop { indent, target, iterator, filter, body } => GStmtCode::Loop {
                indent,
                target,
                iterator,
                filter,
                body: spec_optimize(body),
            },
            other => other,
        },
    }
}

/// The optimizer on the branches of a conditional.
pub open spec fn opt_branches(bs: Seq<(GExpr, Seq<GStmt>)>) -> Seq<(GExpr, Seq<GStmt>)>
    decreases bs, 0int,
{
    if bs.len() == 0 {
        Seq::empty()
    } else {
        seq![(bs[0].0, spec_optimize(bs[0].1))] + opt_branches(bs.subrange(1, bs.len() as int))
    }
}

/// The optimizer on each statement of a body.
pub open spec fn opt_list(b: Seq<GStmt>) -> Seq<GStmt>
    decreases b, 0int,
{
    if b.len() == 0 {
        Seq::empty()
    } else {
        seq![opt_stmt(b[0])] + opt_list(b.subrange(1, b.len() as int))
    }
}

/// The whole optimizer on a body: optimize the children, merge adjacent
/// raws, then drop structural whitespace.
pub open spec fn spec_optimize(b: Seq<GStmt>) -> Seq<GStmt>
    decreases b, 1int,
{
    drop_ws(merge_raws(opt_list(b)))
}

/// Optimized lists have element-wise models.
pub proof fn lemma_opt_list_index(b: Seq<GStmt>, i: int)
    requires
        0 <= i < b.len(),
    ensures
        opt_list(b).len() == b.len(),
        opt_list(b)[i] == opt_stmt(b[i]),
    decreases b.len(),
{
    lemma_opt_list_len(b);
    if i > 0 {
        lemma_opt_list_index(b.subrange(1, b.len() as int), i - 1);
    }
}

/// The optimized list has the same length.
pub proof fn lemma_opt_list_len(b: Seq<GStmt>)
    ensures
        opt_list(b).len() == b.len(),
    decreases b.len(),
{
    if b.len() > 0 {
        lemma_opt_list_len(b.subrange(1, b.len() as int));
    }
}

/// The optimized list grows element-wise at the end.
pub proof fn lemma_opt_list_snoc(b: Seq<GStmt>, s: GStmt)
    ensures
        opt_list(b.push(s)) == opt_list(b).push(opt_stmt(s)),
{
    lemma_opt_list_len(b.push(s));
    lemma_opt_list_len(b);
    assert forall|i: int| 0 <= i < b.len() + 1 implies opt_list(b.push(s))[i] == opt_list(b).push(
        opt_stmt(s),
    )[i] by {
        lemma_opt_list_index(b.push(s), i);
        if i < b.len() {
            lemma_opt_list_index(b, i);
        }
    }
    assert(opt_list(b.push(s)) =~= opt_list(b).push(opt_stmt(s)));
}

/// The optimized branch list has the same length.
pub proof fn lemma_opt_branches_len(bs: Seq<(GExpr, Seq<GStmt>)>)
    ensures
        opt_branches(bs).len() == bs.len(),
    decreases bs.len(),
{
    if bs.len() > 0 {
        lemma_opt_branches_len(bs.subrange(1, bs.len() as int));
    }
}

/// Optimized branch lists have branch-wise models.
pub proof fn lemma_opt_branches_index(bs: Seq<(GExpr, Seq<GStmt>)>, i: int)
    requires
        0 <= i < bs.len(),
    ensures
        opt_branches(bs).len() == bs.len(),
        opt_branches(bs)[i] == (bs[i].0, spec_optimize(bs[i].1)),
    decreases bs.len(),
{
    lemma_opt_branches_len(bs);
    if i > 0 {
        lemma_opt_branches_index(bs.subrange(1, bs.len() as int), i - 1);
    }
}

/// The optimized branch list grows branch-wise at the end.
pub proof fn lemma_opt_branches_snoc(bs: Seq<(GExpr, Seq<GStmt>)>, p: (GExpr, Seq<GStmt>))
    ensures
        opt_branches(bs.push(p)) == opt_branches(bs).push((p.0, spec_optimize(p.1))),
{
    lemma_opt_branches_len(bs.push(p));
    lemma_opt_branches_len(bs);
    assert forall|i: int| 0 <= i < bs.len() + 1 implies opt_branches(bs.push(p))[i]
        == opt_branches(bs).push((p.0, spec_optimize(p.1)))[i] by {
        lemma_opt_branches_index(bs.push(p), i);
        if i < bs.len() {
            lemma_opt_branches_index(bs, i);
        }
    }
    assert(opt_branches(bs.push(p)) =~= opt_branches(bs).push((p.0, spec_optimize(p.1))));
}

impl Optimizer {
    /// Create a new optimizer.
    pub fn new() -> Optimizer {
        Optimizer { _priv: () }
    }

    /// Optimize a body.
    pub fn optimize(&self, _opt: &Options, body: Body) -> (r: Body)
        ensures
            view_body(r) == spec_optimize(view_body(body)),
    {
        visit_body(body)
    }
}

fn is_whitespace_stmt(st: &Statement) -> (r: bool)
    ensures
        r == is_ws_stmt(view_stmt(*st)),
{
    match &st.code {
        StatementCode::OutputRaw(t) => {
            let n = crate::chars::count_leading(t);
            proof {
                crate::chars::lemma_leading_spaces(t@);
            }
            if n == t.len() {
                true
            } else {
                proof {
                    assert(!crate::chars::is_space_char(t@[n as int]));
                }
                false
            }
        },
        _ => false,
    }
}

fn is_line_statement(st: &Statement) -> (r: bool)
    ensures
        r == is_line_stmt(view_stmt(*st)),
{
    match &st.code {
        StatementCode::Cond { .. } => true,
        StatementCode::Loop { .. } => true,
        StatementCode::Alias { .. } => true,
        _ => false,
    }
}

/// Optimize every nested body of one statement.
#[verifier::loop_isolation(false)]
fn visit_stmt(st: Statement) -> (r: Statement)
    ensures
        view_stmt(r) == opt_stmt(view_stmt(st)),
    decreases st,
{
    let ghost gst = st;
    let Statement { position, code } = st;
    match code {
        StatementCode::Cond { indent, conditional, otherwise } => {
            let ghost gcond = conditional;
            let ghost goth = otherwise;
            let mut mapped: Vec<(Expr, Body)> = Vec::new();
            let mut rest = conditional;
            let ghost orig = rest@;
            proof {
                lemma_view_branch_len(orig);
                assert(orig.subrange(0, 0) =~= Seq::<(Expr, Body)>::empty());
                assert(orig.subrange(0, orig.len() as int) =~= orig);
            }
            while rest.len() > 0
                invariant
                    rest@.len() <= orig.len(),
                    rest@ == orig.subrange(orig.len() - rest@.len(), orig.len() as int),
                    view_branch_list(mapped@) == opt_branches(
                        view_branch_list(orig.subrange(0, orig.len() - rest@.len())),
                    ),
                decreases rest@.len(),
            {
                let ghost k = orig.len() - rest@.len();
                proof {
                    assert(orig.subrange(k, orig.len() as int)[0] == orig[k]);
                }
                let (e, b) = rest.remove(0);
                proof {
                    assert((e, b) == orig[k]);
                    assert(decreases_to!(gst => gst.code));
                    assert(gst.code == StatementCode::Cond {
                        indent: indent,
                        conditional: gcond,
                        otherwise: goth,
                    });
                    assert(decreases_to!(gst.code => gcond));
                    assert(decreases_to!(gcond => gcond@));
                    assert(gcond@ == orig);
                    assert(decreases_to!(gcond@ => gcond@[k]));
                    assert(decreases_to!(gcond@[k] => b));
                }
                let ob = visit_body(b);
                let ghost prev_mapped = mapped@;
                mapped.push((e, ob));
                proof {
                    assert(rest@ =~= orig.subrange(k + 1, orig.len() as int));
                    lemma_view_branch_snoc(orig.subrange(0, k), orig[k]);
                    assert(orig.subrange(0, k + 1) =~= orig.subrange(0, k).push(orig[k]));
                    lemma_view_branch_snoc(prev_mapped, (e, ob));
                    lemma_opt_branches_snoc(
                        view_branch_list(orig.subrange(0, k)),
                        (view_expr(e), view_stmt_list(b.statements@)),
                    );
                }
            }
            proof {
                assert(decreases_to!(gst => gst.code));
                assert(gst.code == StatementCode::Cond {
                    indent: indent,
                    conditional: gcond,
                    otherwise: goth,
                });
                assert(decreases_to!(gst.code => goth));
            }
            let oth = visit_body(otherwise);
            Statement {
                position,
                code: StatementCode::Cond { indent, conditional: mapped, otherwise: oth },
            }
        },
        StatementCode::Loop { indent, target, iterator, filter, body } => {
            let ghost gbody = body;
            let ghost gtarget = target;
            let ghost giter = iterator;
            let ghost gfilter = filter;
            proof {
                assert(decreases_to!(gst => gst.code));
                assert(gst.code == StatementCode::Loop {
                    indent: indent,
                    target: gtarget,
                    iterator: giter,
                    filter: gfilter,
                    body: gbody,
                });
                assert(decreases_to!(gst.code => gbody));
            }
            let ob = visit_body(body);
            Statement {
                position,
                code: StatementCode::Loop { indent, target, iterator, filter, body: ob },
            }
        },
        other => Statement { position, code: other },
    }
}

/// Optimize a body: children first, then merge adjacent raws, then drop
/// structural whitespace.
#[verifier::loop_isolation(false)]
fn visit_body(body: Body) -> (r: Body)
    ensures
        view_body(r) == spec_optimize(view_body(body)),
    decreases body,
{
    let ghost gbody = body;
    let Body { statements } = body;
    let ghost gstmts = statements;
    let ghost orig = statements@;

    // Optimize the children of every statement.
    let mut mapped: Vec<Statement> = Vec::new();
    let mut rest = statements;
    proof {
        lemma_view_stmt_list_len(orig);
        assert(orig.subrange(0, 0) =~= Seq::<Statement>::empty());
        assert(orig.subrange(0, orig.len() as int) =~= orig);
    }
    while rest.len() > 0
        invariant
            rest@.len() <= orig.len(),
            rest@ == orig.subrange(orig.len() - rest@.len(), orig.len() as int),
            view_stmt_list(mapped@) == opt_list(
                view_stmt_list(orig.subrange(0, orig.len() - rest@.len())),
            ),
        decreases rest@.len(),
    {
        let ghost k = orig.len() - rest@.len();
        proof {
            assert(orig.subrange(k, orig.len() as int)[0] == orig[k]);
        }
        let st = rest.remove(0);
        proof {
            assert(st == orig[k]);
            assert(decreases_to!(gbody => gbody.statements));
            assert(gbody.statements == gstmts);
            assert(decreases_to!(gstmts => gstmts@));
            assert(gstmts@ == orig);
            assert(decreases_to!(orig => orig[k]));
        }
        let ost = visit_stmt(st);
        let ghost prev_mapped = mapped@;
        mapped.push(ost);
        proof {
            assert(rest@ =~= orig.subrange(k + 1, orig.len() as int));
            lemma_view_stmt_snoc(orig.subrange(0, k), st);
            assert(orig.subrange(0, k + 1) =~= orig.subrange(0, k).push(st));
            lemma_view_stmt_snoc(prev_mapped, ost);
            lemma_opt_list_snoc(view_stmt_list(orig.subrange(0, k)), view_stmt(st));
        }
    }
    let merged = merge_adjacent(mapped);
    let out = drop_structural_ws(merged);
    Body { statements: out }
}

/// Merge adjacent raw-text statements.
#[verifier::loop_isolation(false)]
fn merge_adjacent(input: Vec<Statement>) -> (r: Vec<Statement>)
    ensures
        view_stmt_list(r@) == merge_raws(view_stmt_list(input@)),
{
    let ghost iview = view_stmt_list(input@);
    let ghost iorig = input@;
    let mut merged: Vec<Statement> = Vec::new();
    let mut rest = input;
    proof {
        lemma_view_stmt_list_len(iorig);
        assert(iorig.subrange(0, 0) =~= Seq::<Statement>::empty());
        assert(iorig.subrange(0, iorig.len() as int) =~= iorig);
    }
    while rest.len() > 0
        invariant
            rest@.len() <= iorig.len(),
            rest@ == iorig.subrange(iorig.len() - rest@.len(), iorig.len() as int),
            view_stmt_list(merged@) == merge_raws(
                view_stmt_list(iorig.subrange(0, iorig.len() - rest@.len())),
            ),
        decreases rest@.len(),
    {
        let ghost k = iorig.len() - rest@.len();
        proof {
            assert(iorig.subrange(k, iorig.len() as int)[0] == iorig[k]);
        }
        let st = rest.remove(0);
        let ghost pre = view_stmt_list(iorig.subrange(0, k));
        let ghost mview = view_stmt_list(merged@);
        proof {
            assert(rest@ =~= iorig.subrange(k + 1, iorig.len() as int));
            lemma_view_stmt_snoc(iorig.subrange(0, k), st);
            assert(iorig.subrange(0, k + 1) =~= iorig.subrange(0, k).push(st));
            // merge_raws of the longer prefix unfolds on its last element.
            assert(pre.push(view_stmt(st)).drop_last() =~= pre);
            assert(view_stmt_list(iorig.subrange(0, k + 1)) == pre.push(view_stmt(st)));
            lemma_view_stmt_list_len(merged@);
        }
        let mut did_merge = false;
        if merged.len() > 0 {
            proof {
                lemma_view_stmt_list_index(merged@, merged@.len() - 1);
            }
            let last_is_raw = match &merged[merged.len() - 1].code {
                StatementCode::OutputRaw(_) => true,
                _ => false,
            };
            let cur_is_raw = match &st.code {
                StatementCode::OutputRaw(_) => true,
                _ => false,
            };
            did_merge = last_is_raw && cur_is_raw;
        }
        if did_merge {
            let ghost before_pop = merged@;
            let prev = match merged.pop() {
                Some(p) => p,
                None => Statement {
                    position: (Pos { line: 1, column: 1 }, Pos { line: 1, column: 1 }),
                    code: StatementCode::OutputRaw(Vec::new()),
                },
            };
            proof {
                lemma_view_stmt_drop_last(before_pop);
                assert(merged@ =~= before_pop.drop_last());
                lemma_view_stmt_list_index(before_pop, before_pop.len() - 1);
            }
            let prev_pos = prev.position;
            let mut ptext = match prev.code {
                StatementCode::OutputRaw(t) => t,
                _ => Vec::new(),
            };
            let mut stext = match st.code {
                StatementCode::OutputRaw(t) => t,
                _ => Vec::new(),
            };
            ptext.append(&mut stext);
            let m = Statement {
                position: (prev_pos.0, st.position.1),
                code: StatementCode::OutputRaw(ptext),
            };
            let ghost prev_merged = merged@;
            merged.push(m);
            proof {
                lemma_view_stmt_snoc(prev_merged, m);
                assert(mview.drop_last() =~= view_stmt_list(prev_merged));
                assert(view_stmt_list(merged@) =~= merge_raws(
                    view_stmt_list(iorig.subrange(0, k + 1)),
                ));
            }
        } else {
            let ghost prev_merged = merged@;
            merged.push(st);
            proof {
                lemma_view_stmt_snoc(prev_merged, st);
                assert(view_stmt_list(merged@) =~= merge_raws(
                    view_stmt_list(iorig.subrange(0, k + 1)),
                ));
            }
        }
    }
    merged
}

/// Drop whitespace-only raw statements between line statements.
#[verifier::loop_isolation(false)]
fn drop_structural_ws(input: Vec<Statement>) -> (r: Vec<Statement>)
    ensures
        view_stmt_list(r@) == drop_ws(view_stmt_list(input@)),
{
    let ghost iorig = input@;
    let ghost iview = view_stmt_list(input@);
    proof {
        lemma_view_stmt_list_len(iorig);
        assert(iorig.subrange(0, iorig.len() as int) =~= iorig);
    }
    let mut dst: Vec<Statement> = Vec::new();
    let mut rest = input;
    while rest.len() > 0
        invariant
            rest@.len() <= iorig.len(),
            rest@ == iorig.subrange(iorig.len() - rest@.len(), iorig.len() as int),
            iview == view_stmt_list(iorig),
            iview.len() == iorig.len(),
            drop_ws(iview) == view_stmt_list(dst@) + drop_ws_from(
                iview,
                iorig.len() - rest@.len(),
                if dst@.len() == 0 {
                    None
                } else {
                    Some(view_stmt_list(dst@).last())
                },
            ),
        decreases rest@.len(),
    {
        let ghost k = iorig.len() - rest@.len();
        proof {
            lemma_view_stmt_list_len(dst@);
            lemma_view_stmt_list_index(iorig, k);
            assert(iorig.subrange(k, iorig.len() as int)[0] == iorig[k]);
            if k + 1 < iorig.len() {
                lemma_view_stmt_list_index(iorig, k + 1);
                assert(iorig.subrange(k, iorig.len() as int)[1] == iorig[k + 1]);
            }
        }
        let cur_ws = is_whitespace_stmt(&rest[0]);
        let prev_line = if dst.len() == 0 {
            true
        } else {
            proof {
                lemma_view_stmt_list_index(dst@, dst@.len() - 1);
            }
            is_line_statement(&dst[dst.len() - 1])
        };
        let next_line = if rest.len() < 2 {
            true
        } else {
            is_line_statement(&rest[1])
        };
        let st = rest.remove(0);
        proof {
            assert(rest@ =~= iorig.subrange(k + 1, iorig.len() as int));
        }
        if cur_ws && prev_line && next_line {
            // Skip this statement: its neighbours render nothing.
        } else {
            let ghost prev_dst = dst@;
            dst.push(st);
            proof {
                lemma_view_stmt_snoc(prev_dst, st);
                assert((view_stmt_list(prev_dst) + seq![view_stmt(st)]) + drop_ws_from(
                    iview,
                    k + 1,
                    Some(view_stmt(st)),
                ) =~= view_stmt_list(prev_dst) + (seq![view_stmt(st)] + drop_ws_from(
                    iview,
                    k + 1,
                    Some(view_stmt(st)),
                )));
            }
        }
    }
    proof {
        assert(view_stmt_list(dst@) + Seq::<GStmt>::empty() =~= view_stmt_list(dst@));
    }
    dst
}

} // verus!
verus! {

/// The optimizer on a body of raw text alone, holding some substance,
/// merges everything into one raw statement that carries the whole text.
pub proof fn lemma_optimize_all_raw(b: Seq<GStmt>)
    requires
        crate::grammar::all_raw(b),
        b.len() > 0,
        !all_space(crate::grammar::raw_concat(b)),
    ensures
        spec_optimize(b) == seq![
            GStmt { pos: b[0].pos, code: GStmtCode::Raw(crate::grammar::raw_concat(b)) },
        ],
{
    lemma_opt_list_raw(b);
    lemma_merge_all_raw(b);
    let merged = seq![
        GStmt { pos: b[0].pos, code: GStmtCode::Raw(crate::grammar::raw_concat(b)) },
    ];
    assert(drop_ws_from(merged, 1, Some(merged[0])) =~= Seq::<GStmt>::empty());
    assert(drop_ws(merged) =~= merged);
}

/// Statements without nested bodies are left alone by the child pass.
pub proof fn lemma_opt_list_raw(b: Seq<GStmt>)
    requires
        crate::grammar::all_raw(b),
    ensures
        opt_list(b) == b,
    decreases b.len(),
{
    if b.len() > 0 {
        assert(b[0].code is Raw);
        assert(opt_stmt(b[0]) == b[0]);
        assert forall|k: int| 0 <= k < b.len() - 1 implies (#[trigger] b.subrange(
            1,
            b.len() as int,
        )[k]).code is Raw by {
            assert(b.subrange(1, b.len() as int)[k] == b[k + 1]);
        }
        lemma_opt_list_raw(b.subrange(1, b.len() as int));
        assert(opt_list(b) =~= b);
    }
}

/// Merging a body of raw text alone gives one raw statement carrying the
/// concatenation, positioned at the first statement.
pub proof fn lemma_merge_all_raw(b: Seq<GStmt>)
    requires
        crate::grammar::all_raw(b),
        b.len() > 0,
    ensures
        merge_raws(b) == seq![
            GStmt { pos: b[0].pos, code: GStmtCode::Raw(crate::grammar::raw_concat(b)) },
        ],
    decreases b.len(),
{
    if b.len() == 1 {
        assert(b.drop_last() =~= Seq::<GStmt>::empty());
        assert(b[0].code is Raw);
        assert(crate::grammar::raw_concat(b) == crate::grammar::raw_concat(b.drop_last()) + raw_of(
            b.last(),
        ));
        assert(crate::grammar::raw_concat(b.drop_last()) + raw_of(b[0]) =~= raw_of(b[0]));
        assert(crate::grammar::raw_concat(b) == raw_of(b[0]));
        assert(b[0] == GStmt { pos: b[0].pos, code: GStmtCode::Raw(raw_of(b[0])) });
        assert(b.drop_last().len() == 0);
        assert(merge_raws(b.drop_last()) =~= Seq::<GStmt>::empty());
        assert(merge_raws(b) == merge_raws(b.drop_last()).push(b.last()));
        assert(merge_raws(b) =~~= seq![
            GStmt { pos: b[0].pos, code: GStmtCode::Raw(crate::grammar::raw_concat(b)) },
        ]);
    } else {
        assert(crate::grammar::all_raw(b.drop_last())) by {
            assert(forall|k: int|
                0 <= k < b.len() - 1 ==> b.drop_last()[k] == #[trigger] b[k] && b[k].code is Raw);
        }
        lemma_merge_all_raw(b.drop_last());
        assert(b.drop_last()[0] == b[0]);
        assert(b.last().code is Raw);
        let rest = merge_raws(b.drop_last());
        assert(rest.last() == GStmt {
            pos: b[0].pos,
            code: GStmtCode::Raw(crate::grammar::raw_concat(b.drop_last())),
        });
        assert(raw_of(rest.last()) == crate::grammar::raw_concat(b.drop_last()));
        assert(crate::grammar::raw_concat(b) == crate::grammar::raw_concat(b.drop_last()) + raw_of(
            b.last(),
        ));
        assert(rest.drop_last() =~= Seq::<GStmt>::empty());
        assert(merge_raws(b) =~~= seq![
            GStmt { pos: b[0].pos, code: GStmtCode::Raw(crate::grammar::raw_concat(b)) },
        ]);
    }
}

} // verus!
verus! {

/// No two raw statements stand next to each other.
pub open spec fn no_adjacent_raws(b: Seq<GStmt>) -> bool {
    forall|k: int| 0 <= k < b.len() - 1 ==> !((#[trigger] b[k].code) is Raw && b[k + 1].code is Raw)
}

/// Merging leaves no two raw statements adjacent.
pub proof fn lemma_merge_no_adjacent(b: Seq<GStmt>)
    ensures
        no_adjacent_raws(merge_raws(b)),
    decreases b.len(),
{
    if b.len() > 0 {
        lemma_merge_no_adjacent(b.drop_last());
        let rest = merge_raws(b.drop_last());
        let s = b.last();
        if rest.len() > 0 && rest.last().code is Raw && s.code is Raw {
            let m = GStmt { pos: rest.last().pos, code: GStmtCode::Raw(raw_of(rest.last()) + raw_of(s)) };
            let r = rest.drop_last().push(m);
            assert forall|k: int| 0 <= k < r.len() - 1 implies !((#[trigger] r[k].code) is Raw
                && r[k + 1].code is Raw) by {
                if k + 1 < r.len() - 1 {
                    assert(r[k] == rest[k] && r[k + 1] == rest[k + 1]);
                } else {
                    // The merged raw stands where the old last raw stood;
                    // its left neighbour was no raw already.
                    assert(r[k] == rest[k]);
                    assert(!(rest[k].code is Raw && rest[k + 1].code is Raw));
                    assert(rest[k + 1] == rest.last());
                }
            }
        } else {
            let r = rest.push(s);
            assert forall|k: int| 0 <= k < r.len() - 1 implies !((#[trigger] r[k].code) is Raw
                && r[k + 1].code is Raw) by {
                if k + 1 < r.len() - 1 {
                    assert(r[k] == rest[k] && r[k + 1] == rest[k + 1]);
                } else {
                    assert(r[k] == rest.last() && r[k + 1] == s);
                }
            }
        }
    }
}

/// Merging a body with no adjacent raw statements changes nothing.
pub proof fn lemma_merge_fixpoint(b: Seq<GStmt>)
    requires
        no_adjacent_raws(b),
    ensures
        merge_raws(b) == b,
    decreases b.len(),
{
    if b.len() > 0 {
        assert forall|k: int| 0 <= k < b.len() - 2 implies !((#[trigger] b.drop_last()[k].code)
            is Raw && b.drop_last()[k + 1].code is Raw) by {
            assert(b.drop_last()[k] == b[k] && b.drop_last()[k + 1] == b[k + 1]);
        }
        lemma_merge_fixpoint(b.drop_last());
        let rest = merge_raws(b.drop_last());
        let s = b.last();
        if rest.len() > 0 && rest.last().code is Raw && s.code is Raw {
            assert(b[b.len() - 2].code is Raw && b[b.len() - 1].code is Raw);
            assert(false);
        }
        assert(merge_raws(b) =~= b);
    }
}

/// Law: the raw-merging pass of the optimizer is idempotent — applying it
/// again to its own output changes nothing.
pub proof fn law_merge_idempotent(b: Seq<GStmt>)
    ensures
        merge_raws(merge_raws(b)) == merge_raws(b),
{
    lemma_merge_no_adjacent(b);
    lemma_merge_fixpoint(merge_raws(b));
}

} // verus!
verus! {

/// Every statement's nested bodies are already optimized.
pub open spec fn stmts_fixed(b: Seq<GStmt>) -> bool {
    forall|i: int| 0 <= i < b.len() ==> opt_stmt(#[trigger] b[i]) == b[i]
}

/// Whether the statement at `k` would be dropped by the whitespace pass,
/// reading its neighbours inside `b` itself.
pub open spec fn droppable_at(b: Seq<GStmt>, k: int) -> bool {
    &&& is_ws_stmt(b[k])
    &&& (k == 0 || is_line_stmt(b[k - 1]))
    &&& (k + 1 >= b.len() || is_line_stmt(b[k + 1]))
}

/// A body on which the children pass changes nothing.
pub proof fn lemma_opt_list_fixed(b: Seq<GStmt>)
    requires
        stmts_fixed(b),
    ensures
        opt_list(b) == b,
{
    lemma_opt_list_len(b);
    assert forall|i: int| 0 <= i < b.len() implies opt_list(b)[i] == b[i] by {
        lemma_opt_list_index(b, i);
    }
    assert(opt_list(b) =~= b);
}

/// Merging keeps every statement's nested bodies optimized: kept statements
/// are the input's, and a merged raw has no bodies at all.
pub proof fn lemma_merge_fixed(b: Seq<GStmt>)
    requires
        stmts_fixed(b),
    ensures
        stmts_fixed(merge_raws(b)),
    decreases b.len(),
{
    if b.len() > 0 {
        assert forall|i: int| 0 <= i < b.len() - 1 implies opt_stmt(#[trigger] b.drop_last()[i])
            == b.drop_last()[i] by {
            assert(b.drop_last()[i] == b[i]);
        }
        lemma_merge_fixed(b.drop_last());
        let rest = merge_raws(b.drop_last());
        let s = b.last();
        if rest.len() > 0 && rest.last().code is Raw && s.code is Raw {
            let m = GStmt {
                pos: rest.last().pos,
                code: GStmtCode::Raw(raw_of(rest.last()) + raw_of(s)),
            };
            let r = rest.drop_last().push(m);
            assert forall|i: int| 0 <= i < r.len() implies opt_stmt(#[trigger] r[i]) == r[i] by {
                if i < r.len() - 1 {
                    assert(r[i] == rest[i]);
                } else {
                    assert(r[i] == m);
                }
            }
        } else {
            let r = rest.push(s);
            assert forall|i: int| 0 <= i < r.len() implies opt_stmt(#[trigger] r[i]) == r[i] by {
                if i < r.len() - 1 {
                    assert(r[i] == rest[i]);
                } else {
                    assert(r[i] == s);
                }
            }
        }
    }
}

/// What the whitespace pass guarantees of its output, relative to the last
/// kept statement `prev` before position `k`: no adjacent raws appear, a
/// first element after a non-line `prev` is the very next statement, every
/// output element is an input element, and no output element is droppable
/// in its output context.
pub proof fn lemma_drop_props(b: Seq<GStmt>, k: int, prev: Option<GStmt>)
    requires
        0 <= k <= b.len(),
        forall|i: int| k <= i < b.len() - 1 ==> !((#[trigger] b[i].code) is Raw && b[i + 1].code
            is Raw),
        match prev {
            Some(p) => !(p.code is Raw && k < b.len() && b[k].code is Raw),
            None => true,
        },
    ensures
        ({
            let r = drop_ws_from(b, k, prev);
            &&& no_adjacent_raws(r)
            &&& (r.len() > 0 && k < b.len() && !is_line_or_none(prev) ==> r[0] == b[k])
            &&& forall|i: int| 0 <= i < r.len() ==> exists|j: int| k <= j < b.len() && #[trigger] r[i] == b[j]
            &&& forall|i: int|
                0 <= i < r.len() ==> !(is_ws_stmt(#[trigger] r[i]) && (if i == 0 {
                    is_line_or_none(prev)
                } else {
                    is_line_stmt(r[i - 1])
                }) && (i + 1 >= r.len() || is_line_stmt(r[i + 1])))
        }),
    decreases b.len() - k,
{
    let r = drop_ws_from(b, k, prev);
    if k >= b.len() {
    } else {
        let cur = b[k];
        if is_ws_stmt(cur) && is_line_or_none(prev) && (k + 1 >= b.len() || is_line_stmt(
            b[k + 1],
        )) {
            lemma_drop_props(b, k + 1, prev);
        } else {
            lemma_drop_props(b, k + 1, Some(cur));
            let rest = drop_ws_from(b, k + 1, Some(cur));
            assert(r == seq![cur] + rest);
            assert(r[0] == cur);
            assert forall|i: int| 0 <= i < r.len() implies exists|j: int|
                k <= j < b.len() && #[trigger] r[i] == b[j] by {
                if i == 0 {
                    assert(r[0] == b[k]);
                } else {
                    assert(r[i] == rest[i - 1]);
                }
            }
            assert forall|i: int| 0 <= i < r.len() - 1 implies !((#[trigger] r[i].code) is Raw
                && r[i + 1].code is Raw) by {
                if i == 0 {
                    if cur.code is Raw {
                        assert(!is_line_or_none(Some(cur)));
                        if rest.len() > 0 {
                            assert(rest[0] == b[k + 1]);
                            assert(!(b[k].code is Raw && b[k + 1].code is Raw));
                        }
                        assert(r[1] == rest[0]);
                    }
                } else {
                    assert(r[i] == rest[i - 1]);
                    assert(r[i + 1] == rest[i]);
                }
            }
            assert forall|i: int|
                0 <= i < r.len() implies !(is_ws_stmt(#[trigger] r[i]) && (if i == 0 {
                is_line_or_none(prev)
            } else {
                is_line_stmt(r[i - 1])
            }) && (i + 1 >= r.len() || is_line_stmt(r[i + 1]))) by {
                if i == 0 {
                    if is_ws_stmt(cur) && is_line_or_none(prev) {
                        // The statement was kept, so the one after it is no
                        // line statement and is the next kept one.
                        assert(k + 1 < b.len() && !is_line_stmt(b[k + 1]));
                        assert(!is_line_or_none(Some(cur)));
                        if rest.len() > 0 {
                            assert(rest[0] == b[k + 1]);
                            assert(r[1] == rest[0]);
                        } else {
                            assert(drop_ws_from(b, k + 1, Some(cur)).len() == 0);
                            assert(rest.len() > 0) by {
                                assert(!(is_ws_stmt(b[k + 1]) && is_line_or_none(Some(cur)) && (k
                                    + 2 >= b.len() || is_line_stmt(b[k + 2]))));
                                lemma_drop_keeps_nonempty(b, k + 1, Some(cur));
                            }
                        }
                    }
                } else {
                    assert(r[i] == rest[i - 1]);
                    if i >= 2 {
                        assert(r[i - 1] == rest[i - 2]);
                    }
                    if i + 1 < r.len() {
                        assert(r[i + 1] == rest[i]);
                    }
                }
            }
        }
    }
}

/// The whitespace pass keeps at least its first statement when that
/// statement is not dropped.
pub proof fn lemma_drop_keeps_nonempty(b: Seq<GStmt>, k: int, prev: Option<GStmt>)
    requires
        0 <= k < b.len(),
        !(is_ws_stmt(b[k]) && is_line_or_none(prev) && (k + 1 >= b.len() || is_line_stmt(
            b[k + 1],
        ))),
    ensures
        drop_ws_from(b, k, prev).len() > 0,
{
}

/// The whitespace pass changes nothing when nothing is droppable: from `k`
/// on, with `prev` standing where the predecessor would.
pub proof fn lemma_drop_fixpoint(b: Seq<GStmt>, k: int, prev: Option<GStmt>)
    requires
        0 <= k <= b.len(),
        forall|i: int|
            k <= i < b.len() ==> !(is_ws_stmt(#[trigger] b[i]) && (if i == k {
                is_line_or_none(prev)
            } else {
                is_line_stmt(b[i - 1])
            }) && (i + 1 >= b.len() || is_line_stmt(b[i + 1]))),
    ensures
        drop_ws_from(b, k, prev) == b.subrange(k, b.len() as int),
    decreases b.len() - k,
{
    if k >= b.len() {
        assert(drop_ws_from(b, k, prev) =~= b.subrange(k, b.len() as int));
    } else {
        let cur = b[k];
        assert(!(is_ws_stmt(cur) && is_line_or_none(prev) && (k + 1 >= b.len() || is_line_stmt(
            b[k + 1],
        ))));
        lemma_drop_fixpoint(b, k + 1, Some(cur));
        assert(seq![cur] + b.subrange(k + 1, b.len() as int) =~= b.subrange(k, b.len() as int));
    }
}

/// The whitespace pass keeps every statement's nested bodies optimized.
pub proof fn lemma_drop_fixed(b: Seq<GStmt>, k: int, prev: Option<GStmt>)
    requires
        0 <= k <= b.len(),
        stmts_fixed(b),
    ensures
        stmts_fixed(drop_ws_from(b, k, prev)),
    decreases b.len() - k,
{
    if k < b.len() {
        let cur = b[k];
        if is_ws_stmt(cur) && is_line_or_none(prev) && (k + 1 >= b.len() || is_line_stmt(
            b[k + 1],
        )) {
            lemma_drop_fixed(b, k + 1, prev);
        } else {
            lemma_drop_fixed(b, k + 1, Some(cur));
            let rest = drop_ws_from(b, k + 1, Some(cur));
            let r = seq![cur] + rest;
            assert forall|i: int| 0 <= i < r.len() implies opt_stmt(#[trigger] r[i]) == r[i] by {
                if i == 0 {
                    assert(r[0] == cur);
                } else {
                    assert(r[i] == rest[i - 1]);
                }
            }
        }
    }
}

/// The optimizer on one statement is idempotent.
pub proof fn lemma_opt_stmt_idem(s: GStmt)
    ensures
        opt_stmt(opt_stmt(s)) == opt_stmt(s),
    decreases s, 3int, 0int,
{
    match s.code {
        GStmtCode::Cond { indent, conditional, otherwise } => {
            lemma_opt_branches_idem(conditional);
            law_optimizer_idempotent(otherwise);
        },
        GStmtCode::Loop { indent, target, iterator, filter, body } => {
            law_optimizer_idempotent(body);
        },
        _ => {},
    }
}

/// The optimizer on conditional branches is idempotent.
pub proof fn lemma_opt_branches_idem(bs: Seq<(GExpr, Seq<GStmt>)>)
    ensures
        opt_branches(opt_branches(bs)) == opt_branches(bs),
    decreases bs, 3int, 0int,
{
    lemma_opt_branches_len(bs);
    lemma_opt_branches_len(opt_branches(bs));
    assert forall|i: int| 0 <= i < bs.len() implies opt_branches(opt_branches(bs))[i]
        == opt_branches(bs)[i] by {
        lemma_opt_branches_index(bs, i);
        lemma_opt_branches_index(opt_branches(bs), i);
        law_optimizer_idempotent(bs[i].1);
    }
    assert(opt_branches(opt_branches(bs)) =~= opt_branches(bs));
}

/// The shape of every optimizer output: no two raw statements adjacent,
/// every statement's nested bodies optimized, and nothing left that the
/// whitespace pass would drop.
pub proof fn lemma_optimize_output_props(b: Seq<GStmt>)
    ensures
        ({
            let x = spec_optimize(b);
            &&& no_adjacent_raws(x)
            &&& stmts_fixed(x)
            &&& forall|k: int| 0 <= k < x.len() ==> !droppable_at(x, k)
        }),
    decreases b, 3int, 1int,
{
    let l = opt_list(b);
    let m = merge_raws(l);
    let x = spec_optimize(b);
    // Every statement of the output carries optimized children.
    assert(stmts_fixed(l)) by {
        lemma_opt_list_len(b);
        assert forall|i: int| 0 <= i < l.len() implies opt_stmt(#[trigger] l[i]) == l[i] by {
            lemma_opt_list_index(b, i);
            lemma_opt_stmt_idem(b[i]);
        }
    }
    lemma_merge_fixed(l);
    lemma_drop_fixed(m, 0, None);
    // The output has no adjacent raws and nothing droppable.
    lemma_merge_no_adjacent(l);
    lemma_drop_props(m, 0, None);
}

/// Law: the optimizer is idempotent — applying the whole pass again to its
/// own output yields the same statement tree.
pub proof fn law_optimizer_idempotent(b: Seq<GStmt>)
    ensures
        spec_optimize(spec_optimize(b)) == spec_optimize(b),
    decreases b, 4int, 0int,
{
    let x = spec_optimize(b);
    lemma_optimize_output_props(b);
    lemma_opt_list_fixed(x);
    lemma_merge_fixpoint(x);
    lemma_drop_ws_fixpoint(x);
}

/// The whitespace pass changes nothing on a body with nothing droppable.
pub proof fn lemma_drop_ws_fixpoint(x: Seq<GStmt>)
    requires
        forall|k: int| 0 <= k < x.len() ==> !droppable_at(x, k),
    ensures
        drop_ws(x) == x,
{
    assert forall|i: int|
        0 <= i < x.len() implies !(is_ws_stmt(#[trigger] x[i]) && (if i == 0 {
        is_line_or_none(None::<GStmt>)
    } else {
        is_line_stmt(x[i - 1])
    }) && (i + 1 >= x.len() || is_line_stmt(x[i + 1]))) by {
        assert(!droppable_at(x, i));
    }
    lemma_drop_fixpoint(x, 0, None);
    assert(x.subrange(0, x.len() as int) =~= x);
}

} // verus!
