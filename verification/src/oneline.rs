//! The one-line postprocessor: collapses all internal whitespace runs in
//! raw text to single spaces, trims block boundaries based on the
//! neighbouring node, and resolves the default whitespace-control modes —
//! used for single-line, log-message-style templates.

use vstd::prelude::*;

use crate::chars::{is_space, is_space_char};
use crate::grammar::{
    lemma_view_stmt_list_index, lemma_view_stmt_list_len, view_body, view_stmt, view_stmt_list,
    Body, Expr, GExpr, GStmt, GStmtCode, OutputMode, Statement, StatementCode,
};
use crate::options::Options;

verus! {

broadcast use vstd::std_specs::vec::group_vec_axioms;

/// A one-line postprocessor pass.
#[derive(Debug)]
pub struct Postprocess {
    _priv: (),
}

/// The collapsed form of a text from position `i` on: whitespace runs
/// become single spaces between words, and vanish at the edges.  `started`
/// records whether a word character was written already; `pending` whether
/// a space is owed before the next word character.
pub open spec fn collapse_from(s: Seq<char>, i: int, started: bool, pending: bool) -> Seq<char>
    decreases s.len() - i,
{
    if i < 0 || i >= s.len() {
        Seq::empty()
    } else if is_space_char(s[i]) {
        collapse_from(s, i + 1, started, started)
    } else {
        (if pending {
            seq![' ']
        } else {
            Seq::empty()
        }) + seq![s[i]] + collapse_from(s, i + 1, true, false)
    }
}

/// The collapsed form of a text: its words joined by single spaces.
pub open spec fn collapsed(s: Seq<char>) -> Seq<char> {
    collapse_from(s, 0, false, false)
}

/// Collapsed text holds no whitespace but single spaces, never two adjacent
/// ones, never one at the end, and never one at the start.
pub proof fn lemma_collapse_shape(s: Seq<char>, i: int, started: bool, pending: bool)
    ensures
        forall|k: int|
            0 <= k < collapse_from(s, i, started, pending).len() && is_space_char(
                #[trigger] collapse_from(s, i, started, pending)[k],
            ) ==> collapse_from(s, i, started, pending)[k] == ' ',
        forall|k: int|
            0 <= k < collapse_from(s, i, started, pending).len() - 1 ==> !(collapse_from(
                s,
                i,
                started,
                pending,
            )[k] == ' ' && #[trigger] collapse_from(s, i, started, pending)[k + 1] == ' '),
        collapse_from(s, i, started, pending).len() > 0 ==> !is_space_char(
            collapse_from(s, i, started, pending).last(),
        ),
        !pending && !started && collapse_from(s, i, started, pending).len() > 0 ==> !is_space_char(
            collapse_from(s, i, started, pending)[0],
        ),
    decreases s.len() - i,
{
    if i < 0 || i >= s.len() {
    } else if is_space_char(s[i]) {
        lemma_collapse_shape(s, i + 1, started, started);
    } else {
        lemma_collapse_shape(s, i + 1, true, false);
        let head: Seq<char> = if pending {
            seq![' ']
        } else {
            Seq::empty()
        };
        let tail = collapse_from(s, i + 1, true, false);
        let whole = head + seq![s[i]] + tail;
        assert forall|k: int|
            0 <= k < whole.len() && is_space_char(#[trigger] whole[k]) implies whole[k] == ' ' by {
            if k >= head.len() + 1 {
                let j = k - head.len() - 1;
                assert(whole[k] == tail[j]);
            } else if k == head.len() {
                assert(whole[k] == s[i]);
            }
        }
        assert forall|k: int| 0 <= k < whole.len() - 1 implies !(whole[k] == ' '
            && #[trigger] whole[k + 1] == ' ') by {
            if k + 1 == head.len() {
                assert(whole[k + 1] == s[i]);
            } else if k == head.len() {
                assert(whole[k] == s[i]);
            } else if k > head.len() {
                let j = k - head.len() - 1;
                assert(whole[k] == tail[j]);
                assert(whole[k + 1] == tail[j + 1]);
            }
        }
        if whole.len() > 0 {
            if tail.len() > 0 {
                assert(whole.last() == tail.last());
            } else {
                assert(whole.last() == s[i]);
            }
        }
        if !pending {
            assert(whole[0] == s[i]);
        }
    }
}

/// Collapse the whitespace of a text: words joined by single spaces.
#[verifier::loop_isolation(false)]
pub fn collapse_ws(t: &Vec<char>) -> (r: Vec<char>)
    ensures
        r@ == collapsed(t@),
        forall|k: int| 0 <= k < r@.len() && is_space_char(#[trigger] r@[k]) ==> r@[k] == ' ',
        forall|k: int| 0 <= k < r@.len() - 1 ==> !(r@[k] == ' ' && #[trigger] r@[k + 1] == ' '),
        r@.len() > 0 ==> !is_space_char(r@[0]) && !is_space_char(r@.last()),
{
    let mut out: Vec<char> = Vec::new();
    let mut pending = false;
    let mut i: usize = 0;
    while i < t.len()
        invariant
            i <= t@.len(),
            pending ==> out@.len() > 0,
            out@ + collapse_from(t@, i as int, out@.len() > 0, pending) == collapsed(t@),
        decreases t@.len() - i,
    {
        let c = t[i];
        if is_space(c) {
            if out.len() > 0 {
                pending = true;
            }
        } else {
            if pending {
                out.push(' ');
            }
            out.push(c);
            pending = false;
        }
        i = i + 1;
        proof {
            assert(out@ + collapse_from(t@, i as int, out@.len() > 0, pending) =~= collapsed(t@));
        }
    }
    proof {
        assert(out@ + Seq::<char>::empty() =~= out@);
        lemma_collapse_shape(t@, 0, false, false);
    }
    out
}

// ---------------------------------------------------------------------------
// The ghost one-line transform
// ---------------------------------------------------------------------------

/// Whether the left boundary of statement `i` wants a space rather than a
/// strip: at the start of the body, after a raw text that ends in
/// whitespace (or is empty), or after a line statement; an adjacent
/// expression output suppresses it.
pub open spec fn fix_start_of(b: Seq<GStmt>, i: int) -> bool {
    i <= 0 || match b[i - 1].code {
        GStmtCode::Out { .. } => false,
        GStmtCode::Raw(x) => x.len() == 0 || is_space_char(x.last()),
        _ => true,
    }
}

/// Whether the right boundary of statement `i` wants a space: at the end of
/// the body, before a raw text that starts with whitespace (or is empty),
/// or before a line statement; an adjacent expression output suppresses it.
pub open spec fn fix_end_of(b: Seq<GStmt>, i: int) -> bool {
    i + 1 >= b.len() || match b[i + 1].code {
        GStmtCode::Out { .. } => false,
        GStmtCode::Raw(x) => x.len() == 0 || is_space_char(x[0]),
        _ => true,
    }
}

/// Resolve the default whitespace modes of an output statement from its
/// boundary flags: an unresolved left boundary becomes a space or a strip,
/// an unresolved right boundary becomes a space only where one is wanted.
pub open spec fn resolve_modes(code: GStmtCode, fs: bool, fe: bool) -> GStmtCode {
    match code {
        GStmtCode::Out { left_ws, expr, validator, right_ws } => GStmtCode::Out {
            left_ws: if left_ws == OutputMode::Preserve {
                if fs {
                    OutputMode::Space
                } else {
                    OutputMode::Strip
                }
            } else {
                left_ws
            },
            expr,
            validator,
            right_ws: if right_ws == OutputMode::Preserve && fe {
                OutputMode::Space
            } else {
                right_ws
            },
        },
        other => other,
    }
}

/// The one-line rewrite of one statement, given its boundary flags: raw
/// text collapses, output modes resolve, nested bodies rewrite recursively.
pub open spec fn onl_stmt(s: GStmt, fs: bool, fe: bool) -> GStmt
    decreases s, 0int, 0int,
{
    GStmt {
        pos: s.pos,
        code: match s.code {
            GStmtCode::Raw(t) => GStmtCode::Raw(collapsed(t)),
            GStmtCode::Out { .. } => resolve_modes(s.code, fs, fe),
            GStmtCode::Cond { indent, conditional, otherwise } => GStmtCode::Cond {
                indent,
                conditional: onl_branches(conditional),
                otherwise: spec_oneline(otherwise),
            },
            GStmtCode::Loop { indent, target, iterator, filter, body } => GStmtCode::Loop {
                indent,
                target,
                iterator,
                filter,
                body: spec_oneline(body),
            },
            other => other,
        },
    }
}

/// The one-line rewrite of the branches of a conditional.
pub open spec fn onl_branches(bs: Seq<(GExpr, Seq<GStmt>)>) -> Seq<(GExpr, Seq<GStmt>)>
    decreases bs, 0int, 0int,
{
    if bs.len() == 0 {
        Seq::empty()
    } else {
        seq![(bs[0].0, spec_oneline(bs[0].1))] + onl_branches(bs.subrange(1, bs.len() as int))
    }
}

/// The one-line rewrite of a body from statement `k` on, with the boundary
/// flags taken from the statement's own neighbours.
pub open spec fn onl_list(b: Seq<GStmt>, k: int) -> Seq<GStmt>
    decreases b, 1int, b.len() - k,
{
    if k < 0 || k >= b.len() {
        Seq::empty()
    } else {
        seq![onl_stmt(b[k], fix_start_of(b, k), fix_end_of(b, k))] + onl_list(b, k + 1)
    }
}

/// The whole one-line rewrite of a body.
pub open spec fn spec_oneline(b: Seq<GStmt>) -> Seq<GStmt>
    decreases b, 2int, 0int,
{
    onl_list(b, 0)
}

impl Postprocess {
    /// Create a new one-line postprocessor.
    pub fn new() -> Postprocess {
        Postprocess { _priv: () }
    }

    /// Apply the one-line rewrite to a body: collapse every raw text to
    /// words joined by single spaces, and resolve the unwritten whitespace
    /// modes of every output from its neighbours, recursively.
    pub fn process(&self, _opt: &Options, body: Body) -> (r: Body)
        ensures
            view_body(r) == spec_oneline(view_body(body)),
    {
        visit_body(body)
    }
}

fn starts_with_space(t: &Vec<char>) -> (r: bool)
    ensures
        r == (t@.len() == 0 || is_space_char(t@[0])),
{
    t.len() == 0 || is_space(t[0])
}

fn ends_with_space(t: &Vec<char>) -> (r: bool)
    ensures
        r == (t@.len() == 0 || is_space_char(t@.last())),
{
    t.len() == 0 || is_space(t[t.len() - 1])
}

/// Whether trimming is wanted at a side of statement `i`: an adjacent
/// expression output suppresses it; an adjacent whitespace boundary, a line
/// statement or the edge of the body asks for it.
fn fix_at(stmts: &Vec<Statement>, i: usize, before: bool) -> (r: bool)
    requires
        i < stmts@.len(),
    ensures
        before ==> r == fix_start_of(view_stmt_list(stmts@), i as int),
        !before ==> r == fix_end_of(view_stmt_list(stmts@), i as int),
{
    proof {
        vstd::std_specs::vec::axiom_spec_len(stmts);
        lemma_view_stmt_list_index(stmts@, i as int);
        if i > 0 {
            lemma_view_stmt_list_index(stmts@, i - 1);
        }
        if i + 1 < stmts@.len() {
            lemma_view_stmt_list_index(stmts@, i + 1);
        }
    }
    if before {
        if i == 0 {
            true
        } else {
            match &stmts[i - 1].code {
                StatementCode::Output { .. } => false,
                StatementCode::OutputRaw(t) => ends_with_space(t),
                _ => true,
            }
        }
    } else {
        if i + 1 >= stmts.len() {
            true
        } else {
            match &stmts[i + 1].code {
                StatementCode::Output { .. } => false,
                StatementCode::OutputRaw(t) => starts_with_space(t),
                _ => true,
            }
        }
    }
}

#[verifier::loop_isolation(false)]
fn visit_body(body: Body) -> (r: Body)
    ensures
        view_body(r) == spec_oneline(view_body(body)),
    decreases body,
{
    let ghost gbody = body;
    let Body { statements } = body;
    let ghost gstmts = statements;
    let ghost bview = view_stmt_list(statements@);
    proof {
        lemma_view_stmt_list_len(statements@);
    }

    // Decide the boundary trims from the neighbours, before any rewrite.
    let mut flags: Vec<(bool, bool)> = Vec::new();
    let mut i: usize = 0;
    while i < statements.len()
        invariant
            i <= statements@.len(),
            flags@.len() == i,
            forall|j: int|
                0 <= j < i ==> #[trigger] flags@[j] == (fix_start_of(bview, j), fix_end_of(
                    bview,
                    j,
                )),
        decreases statements@.len() - i,
    {
        flags.push((fix_at(&statements, i, true), fix_at(&statements, i, false)));
        i = i + 1;
    }

    // Resolve modes, collapse raw text, and recurse into nested bodies.
    let mut out: Vec<Statement> = Vec::new();
    let mut rest = statements;
    let ghost orig = rest@;
    proof {
        assert(orig.subrange(0, orig.len() as int) =~= orig);
        assert(view_stmt_list(Seq::<Statement>::empty()) + onl_list(bview, 0) =~= onl_list(
            bview,
            0,
        ));
    }
    while rest.len() > 0
        invariant
            rest@.len() <= orig.len(),
            rest@ == orig.subrange(orig.len() - rest@.len(), orig.len() as int),
            flags@.len() == orig.len(),
            bview == view_stmt_list(orig),
            bview.len() == orig.len(),
            forall|j: int|
                0 <= j < orig.len() ==> #[trigger] flags@[j] == (fix_start_of(bview, j), fix_end_of(
                    bview,
                    j,
                )),
            view_stmt_list(out@) + onl_list(bview, orig.len() - rest@.len()) == spec_oneline(
                bview,
            ),
        decreases rest@.len(),
    {
        let ghost k = orig.len() - rest@.len();
        proof {
            assert(orig.subrange(k, orig.len() as int)[0] == orig[k]);
            lemma_view_stmt_list_index(orig, k);
        }
        let kk = flags.len() - rest.len();
        let st = rest.remove(0);
        proof {
            assert(st == orig[k]);
            assert(rest@ =~= orig.subrange(k + 1, orig.len() as int));
            assert(decreases_to!(gbody => gbody.statements));
            assert(gbody.statements == gstmts);
            assert(decreases_to!(gstmts => gstmts@));
            assert(gstmts@ == orig);
            assert(decreases_to!(orig => orig[k]));
        }
        let (fix_start, fix_end) = flags[kk];
        let st2 = visit_one(st, fix_start, fix_end);
        let ghost prev_out = out@;
        out.push(st2);
        proof {
            crate::grammar::lemma_view_stmt_snoc(prev_out, st2);
            assert((view_stmt_list(prev_out) + seq![view_stmt(st2)]) + onl_list(bview, k + 1)
                =~= view_stmt_list(prev_out) + (seq![view_stmt(st2)] + onl_list(bview, k + 1)));
        }
    }
    proof {
        assert(view_stmt_list(out@) + Seq::<GStmt>::empty() =~= view_stmt_list(out@));
    }
    Body { statements: out }
}

/// Rewrite one statement: resolve its default whitespace modes, collapse
/// its raw text, and recurse into its nested bodies.
#[verifier::loop_isolation(false)]
fn visit_one(st: Statement, fix_start: bool, fix_end: bool) -> (r: Statement)
    ensures
        view_stmt(r) == onl_stmt(view_stmt(st), fix_start, fix_end),
    decreases st,
{
    let ghost gst = st;
    let Statement { position, code } = st;
    match code {
        StatementCode::OutputRaw(t) => {
            let c = collapse_ws(&t);
            Statement { position, code: StatementCode::OutputRaw(c) }
        },
        StatementCode::Output { left_ws, expr, validator, right_ws } => {
            let new_left = if left_ws == OutputMode::Preserve {
                if fix_start {
                    OutputMode::Space
                } else {
                    OutputMode::Strip
                }
            } else {
                left_ws
            };
            let new_right = if right_ws == OutputMode::Preserve && fix_end {
                OutputMode::Space
            } else {
                right_ws
            };
            Statement {
                position,
                code: StatementCode::Output {
                    left_ws: new_left,
                    expr,
                    validator,
                    right_ws: new_right,
                },
            }
        },
        StatementCode::Cond { indent, conditional, otherwise } => {
            let ghost gcond = conditional;
            let ghost goth = otherwise;
            let mut mapped: Vec<(Expr, Body)> = Vec::new();
            let mut rest = conditional;
            let ghost orig = rest@;
            proof {
                crate::grammar::lemma_view_branch_len(orig);
                assert(orig.subrange(0, 0) =~= Seq::<(Expr, Body)>::empty());
                assert(orig.subrange(0, orig.len() as int) =~= orig);
            }
            while rest.len() > 0
                invariant
                    rest@.len() <= orig.len(),
                    rest@ == orig.subrange(orig.len() - rest@.len(), orig.len() as int),
                    crate::grammar::view_branch_list(mapped@) == onl_branches(
                        crate::grammar::view_branch_list(
                            orig.subrange(0, orig.len() - rest@.len()),
                        ),
                    ),
                decreases rest@.len(),
            {
                let ghost k = orig.len() - rest@.len();
                proof {
                    assert(orig.subrange(k, orig.len() as int)[0] == orig[k]);
                }
                let (e, b) = rest.remove(0);
                proof {
                    assert((e, b) == orig[k]);
                    assert(rest@ =~= orig.subrange(k + 1, orig.len() as int));
                    assert(decreases_to!(gst => gst.code));
                    assert(gst.code == StatementCode::Cond {
                        indent: indent,
                        conditional: gcond,
                        otherwise: goth,
                    });
                    assert(decreases_to!(gst.code => gcond));
                    assert(decreases_to!(gcond => gcond@));
                    assert(gcond@ == orig);
                    assert(decreases_to!(gcond@ => gcond@[k]));
                    assert(decreases_to!(gcond@[k] => b));
                }
                let ob = visit_body(b);
                let ghost prev_mapped = mapped@;
                mapped.push((e, ob));
                proof {
                    crate::grammar::lemma_view_branch_snoc(orig.subrange(0, k), orig[k]);
                    assert(orig.subrange(0, k + 1) =~= orig.subrange(0, k).push(orig[k]));
                    crate::grammar::lemma_view_branch_snoc(prev_mapped, (e, ob));
                    lemma_onl_branches_snoc(
                        crate::grammar::view_branch_list(orig.subrange(0, k)),
                        (crate::grammar::view_expr(e), view_stmt_list(b.statements@)),
                    );
                }
            }
            proof {
                assert(decreases_to!(gst => gst.code));
                assert(gst.code == StatementCode::Cond {
                    indent: indent,
                    conditional: gcond,
                    otherwise: goth,
                });
                assert(decreases_to!(gst.code => goth));
            }
            let oth = visit_body(otherwise);
            Statement {
                position,
                code: StatementCode::Cond { indent, conditional: mapped, otherwise: oth },
            }
        },
        StatementCode::Loop { indent, target, iterator, filter, body } => {
            let ghost gb = body;
            let ghost gt = target;
            let ghost gi = iterator;
            let ghost gf = filter;
            proof {
                assert(decreases_to!(gst => gst.code));
                assert(gst.code == StatementCode::Loop {
                    indent: indent,
                    target: gt,
                    iterator: gi,
                    filter: gf,
                    body: gb,
                });
                assert(decreases_to!(gst.code => gb));
            }
            let ob = visit_body(body);
            Statement {
                position,
                code: StatementCode::Loop { indent, target, iterator, filter, body: ob },
            }
        },
        other => Statement { position, code: other },
    }
}

/// The one-line branch list grows branch-wise at the end.
pub proof fn lemma_onl_branches_snoc(bs: Seq<(GExpr, Seq<GStmt>)>, p: (GExpr, Seq<GStmt>))
    ensures
        onl_branches(bs.push(p)) == onl_branches(bs).push((p.0, spec_oneline(p.1))),
{
    lemma_onl_branches_len(bs.push(p));
    lemma_onl_branches_len(bs);
    assert forall|i: int| 0 <= i < bs.len() + 1 implies onl_branches(bs.push(p))[i] == onl_branches(
        bs,
    ).push((p.0, spec_oneline(p.1)))[i] by {
        lemma_onl_branches_index(bs.push(p), i);
        if i < bs.len() {
            lemma_onl_branches_index(bs, i);
        }
    }
    assert(onl_branches(bs.push(p)) =~= onl_branches(bs).push((p.0, spec_oneline(p.1))));
}

/// The one-line branch list has the same length.
pub proof fn lemma_onl_branches_len(bs: Seq<(GExpr, Seq<GStmt>)>)
    ensures
        onl_branches(bs).len() == bs.len(),
    decreases bs.len(),
{
    if bs.len() > 0 {
        lemma_onl_branches_len(bs.subrange(1, bs.len() as int));
    }
}

/// One-line branch lists have branch-wise models.
pub proof fn lemma_onl_branches_index(bs: Seq<(GExpr, Seq<GStmt>)>, i: int)
    requires
        0 <= i < bs.len(),
    ensures
        onl_branches(bs).len() == bs.len(),
        onl_branches(bs)[i] == (bs[i].0, spec_oneline(bs[i].1)),
    decreases bs.len(),
{
    lemma_onl_branches_len(bs);
    if i > 0 {
        lemma_onl_branches_index(bs.subrange(1, bs.len() as int), i - 1);
    }
}

} // verus!
verus! {

/// The one-line rewrite keeps the statement count, from `k` on.
pub proof fn lemma_onl_list_len(b: Seq<GStmt>, k: int)
    requires
        0 <= k <= b.len(),
    ensures
        onl_list(b, k).len() == b.len() - k,
    decreases b.len() - k,
{
    if k < b.len() {
        lemma_onl_list_len(b, k + 1);
    }
}

/// The one-line rewrite is statement-wise: element `i` of the result is the
/// rewrite of statement `i`, under its own boundary flags.
pub proof fn lemma_onl_list_index(b: Seq<GStmt>, k: int, i: int)
    requires
        0 <= k <= i < b.len(),
    ensures
        onl_list(b, k).len() == b.len() - k,
        onl_list(b, k)[i - k] == onl_stmt(b[i], fix_start_of(b, i), fix_end_of(b, i)),
    decreases b.len() - k,
{
    lemma_onl_list_len(b, k);
    if k < i {
        lemma_onl_list_index(b, k + 1, i);
    }
}

/// Law: after the one-line rewrite, every raw text of the body is in
/// collapsed shape — its only whitespace is single spaces, no two of them
/// adjacent, and none at either edge.  The law holds of any body, so it
/// holds of every nested body as well, each rewritten by the same
/// transform.
pub proof fn law_oneline_raw_shape(b: Seq<GStmt>, i: int)
    requires
        0 <= i < spec_oneline(b).len(),
    ensures
        spec_oneline(b).len() == b.len(),
        match spec_oneline(b)[i].code {
            GStmtCode::Raw(t) => {
                &&& forall|k: int|
                    0 <= k < t.len() && is_space_char(#[trigger] t[k]) ==> t[k] == ' '
                &&& forall|k: int| 0 <= k < t.len() - 1 ==> !(t[k] == ' ' && #[trigger] t[k + 1]
                    == ' ')
                &&& t.len() > 0 ==> !is_space_char(t[0]) && !is_space_char(t.last())
            },
            _ => true,
        },
{
    lemma_onl_list_len(b, 0);
    lemma_onl_list_index(b, 0, i);
    match b[i].code {
        GStmtCode::Raw(t0) => {
            lemma_collapse_shape(t0, 0, false, false);
        },
        _ => {},
    }
}

} // verus!
verus! {

/// Text in collapsed shape: its only whitespace is single interior spaces.
pub open spec fn collapsed_shape(s: Seq<char>) -> bool {
    &&& forall|k: int| 0 <= k < s.len() && is_space_char(#[trigger] s[k]) ==> s[k] == ' '
    &&& forall|k: int| 0 <= k < s.len() - 1 ==> !(s[k] == ' ' && #[trigger] s[k + 1] == ' ')
    &&& s.len() > 0 ==> !is_space_char(s[0]) && !is_space_char(s.last())
}

/// Collapsing text already in collapsed shape changes nothing, from any
/// position whose predecessor is no space.
proof fn lemma_collapse_shaped_from(s: Seq<char>, i: int)
    requires
        collapsed_shape(s),
        0 <= i <= s.len(),
        i > 0 ==> s[i - 1] != ' ',
    ensures
        collapse_from(s, i, i > 0, false) == s.subrange(i, s.len() as int),
    decreases s.len() - i,
{
    if i >= s.len() {
        assert(collapse_from(s, i, i > 0, false) =~= s.subrange(i, s.len() as int));
    } else if is_space_char(s[i]) {
        // A single interior space: the character after it is a word
        // character, so the pending space is written back as itself.
        assert(s[i] == ' ');
        assert(i > 0);
        assert(i + 1 < s.len()) by {
            if i + 1 == s.len() {
                assert(is_space_char(s.last()));
            }
        }
        assert(!(s[i] == ' ' && s[i + 1] == ' '));
        assert(!is_space_char(s[i + 1])) by {
            if is_space_char(s[i + 1]) {
                assert(s[i + 1] == ' ');
            }
        }
        lemma_collapse_shaped_from(s, i + 2);
        assert(collapse_from(s, i, true, false) == collapse_from(s, i + 1, true, true));
        assert(collapse_from(s, i + 1, true, true) == seq![' '] + seq![s[i + 1]] + collapse_from(
            s,
            i + 2,
            true,
            false,
        ));
        assert(seq![' '] + seq![s[i + 1]] + s.subrange(i + 2, s.len() as int) =~= s.subrange(
            i,
            s.len() as int,
        ));
    } else {
        lemma_collapse_shaped_from(s, i + 1);
        assert(collapse_from(s, i, i > 0, false) == seq![s[i]] + collapse_from(s, i + 1, true, false));
        assert(seq![s[i]] + s.subrange(i + 1, s.len() as int) =~= s.subrange(i, s.len() as int));
    }
}

/// Law: collapsing whitespace is idempotent — a collapsed text collapses to
/// itself, so a second one-line pass leaves every raw text unchanged.
pub proof fn law_collapse_idempotent(t: Seq<char>)
    ensures
        collapsed(collapsed(t)) == collapsed(t),
{
    lemma_collapse_shape(t, 0, false, false);
    lemma_collapse_shaped_from(collapsed(t), 0);
    assert(collapsed(t).subrange(0, collapsed(t).len() as int) =~= collapsed(t));
}

} // verus!
verus! {

/// Collapsing keeps a leading word character in place.
proof fn lemma_collapsed_head(t: Seq<char>)
    requires
        t.len() > 0,
        !is_space_char(t[0]),
    ensures
        collapsed(t).len() > 0,
        collapsed(t)[0] == t[0],
{
    assert(collapsed(t) == (Seq::<char>::empty() + seq![t[0]]) + collapse_from(t, 1, true, false));
    assert(collapsed(t)[0] == t[0]);
}

/// The one-line rewrite of conditional branches is idempotent.
proof fn lemma_onl_branches_idem(bs: Seq<(GExpr, Seq<GStmt>)>)
    ensures
        onl_branches(onl_branches(bs)) == onl_branches(bs),
    decreases bs, 3int, 0int,
{
    lemma_onl_branches_len(bs);
    lemma_onl_branches_len(onl_branches(bs));
    assert forall|i: int| 0 <= i < bs.len() implies onl_branches(onl_branches(bs))[i]
        == onl_branches(bs)[i] by {
        lemma_onl_branches_index(bs, i);
        lemma_onl_branches_index(onl_branches(bs), i);
        law_oneline_idempotent(bs[i].1);
    }
    assert(onl_branches(onl_branches(bs)) =~= onl_branches(bs));
}

/// Law: the one-line rewrite is idempotent — applying it again to its own
/// output yields the same statement tree.  Raw texts are already collapsed,
/// every left boundary is already resolved, and a right boundary that kept
/// its written mode faces a neighbour that still suppresses the rewrite.
pub proof fn law_oneline_idempotent(b: Seq<GStmt>)
    ensures
        spec_oneline(spec_oneline(b)) == spec_oneline(b),
    decreases b, 4int, 0int,
{
    let x = spec_oneline(b);
    lemma_onl_list_len(b, 0);
    lemma_onl_list_len(x, 0);
    assert forall|i: int| 0 <= i < x.len() implies onl_stmt(
        x[i],
        fix_start_of(x, i),
        fix_end_of(x, i),
    ) == x[i] by {
        lemma_onl_list_index(b, 0, i);
        let fs1 = fix_start_of(b, i);
        let fe1 = fix_end_of(b, i);
        assert(x[i] == onl_stmt(b[i], fs1, fe1));
        match b[i].code {
            GStmtCode::Raw(t) => {
                law_collapse_idempotent(t);
            },
            GStmtCode::Out { left_ws, expr, validator, right_ws } => {
                // The right boundary stays only when its neighbour still
                // suppresses the rewrite.
                if right_ws == OutputMode::Preserve && !fe1 {
                    assert(i + 1 < b.len());
                    lemma_onl_list_index(b, 0, i + 1);
                    assert(x[i + 1] == onl_stmt(b[i + 1], fix_start_of(b, i + 1), fix_end_of(
                        b,
                        i + 1,
                    )));
                    match b[i + 1].code {
                        GStmtCode::Raw(t) => {
                            assert(t.len() > 0 && !is_space_char(t[0]));
                            lemma_collapsed_head(t);
                            assert(x[i + 1].code == GStmtCode::Raw(collapsed(t)));
                            assert(!fix_end_of(x, i));
                        },
                        GStmtCode::Out { .. } => {
                            assert(!fix_end_of(x, i));
                        },
                        _ => {
                            assert(fe1);
                        },
                    }
                }
            },
            GStmtCode::Cond { indent, conditional, otherwise } => {
                lemma_onl_branches_idem(conditional);
                law_oneline_idempotent(otherwise);
            },
            GStmtCode::Loop { indent, target, iterator, filter, body } => {
                law_oneline_idempotent(body);
            },
            _ => {},
        }
    }
    assert forall|i: int| 0 <= i < x.len() implies spec_oneline(x)[i] == x[i] by {
        lemma_onl_list_index(x, 0, i);
    }
    assert(spec_oneline(spec_oneline(b)) =~= spec_oneline(b));
}

} // verus!
verus! {

/// Collapsing whitespace-only text gives nothing.
proof fn lemma_collapse_all_space(s: Seq<char>, i: int, started: bool, pending: bool)
    requires
        forall|j: int| i <= j < s.len() ==> is_space_char(#[trigger] s[j]),
    ensures
        collapse_from(s, i, started, pending) == Seq::<char>::empty(),
    decreases s.len() - i,
{
    if 0 <= i < s.len() {
        lemma_collapse_all_space(s, i + 1, started, started);
    }
}

/// Collapsing text that still holds a word character gives something.
proof fn lemma_collapse_sees_word(s: Seq<char>, i: int, started: bool, pending: bool, j: int)
    requires
        0 <= i <= j < s.len(),
        !is_space_char(s[j]),
    ensures
        collapse_from(s, i, started, pending).len() > 0,
    decreases s.len() - i,
{
    if is_space_char(s[i]) {
        lemma_collapse_sees_word(s, i + 1, started, started, j);
    }
}

/// The one-line rewrite keeps each statement's kind: raw stays raw,
/// whitespace-only raw stays whitespace-only, and line statements stay line
/// statements.
proof fn lemma_onl_kind_stable(s: GStmt, fs: bool, fe: bool)
    ensures
        ({
            let r = onl_stmt(s, fs, fe);
            &&& (r.code is Raw) == (s.code is Raw)
            &&& crate::optimize::is_ws_stmt(r) == crate::optimize::is_ws_stmt(s)
            &&& crate::optimize::is_line_stmt(r) == crate::optimize::is_line_stmt(s)
        }),
{
    match s.code {
        GStmtCode::Raw(t) => {
            if crate::chars::all_space(t) {
                lemma_collapse_all_space(t, 0, false, false);
            } else {
                let j = choose|j: int| 0 <= j < t.len() && !is_space_char(t[j]);
                lemma_collapse_sees_word(t, 0, false, false, j);
                lemma_collapse_shape(t, 0, false, false);
                assert(!is_space_char(collapsed(t)[0]));
            }
        },
        _ => {},
    }
}

/// An optimized body stays optimized through the one-line rewrite: the
/// rewrite merges nothing new, drops nothing new, and its nested bodies
/// come out as fixpoints of the optimizer again.
proof fn lemma_optimize_fix_oneline(c: Seq<GStmt>)
    requires
        crate::optimize::spec_optimize(c) == c,
    ensures
        crate::optimize::spec_optimize(spec_oneline(c)) == spec_oneline(c),
    decreases c,
{
    crate::optimize::lemma_optimize_output_props(c);
    let y = spec_oneline(c);
    lemma_onl_list_len(c, 0);
    assert forall|i: int| 0 <= i < y.len() implies {
        &&& (#[trigger] y[i].code is Raw) == (c[i].code is Raw)
        &&& crate::optimize::is_ws_stmt(y[i]) == crate::optimize::is_ws_stmt(c[i])
        &&& crate::optimize::is_line_stmt(y[i]) == crate::optimize::is_line_stmt(c[i])
    } by {
        lemma_onl_list_index(c, 0, i);
        lemma_onl_kind_stable(c[i], fix_start_of(c, i), fix_end_of(c, i));
    }
    assert(crate::optimize::no_adjacent_raws(y));
    assert forall|k: int| 0 <= k < y.len() implies !crate::optimize::droppable_at(y, k) by {
        assert(!crate::optimize::droppable_at(c, k));
    }
    assert(crate::optimize::stmts_fixed(y)) by {
        assert forall|i: int| 0 <= i < y.len() implies crate::optimize::opt_stmt(#[trigger] y[i])
            == y[i] by {
            lemma_onl_list_index(c, 0, i);
            assert(crate::optimize::opt_stmt(c[i]) == c[i]);
            match c[i].code {
                GStmtCode::Cond { indent, conditional, otherwise } => {
                    lemma_onl_branches_len(conditional);
                    crate::optimize::lemma_opt_branches_len(conditional);
                    assert forall|j: int| 0 <= j < conditional.len() implies #[trigger] conditional[j]
                        == (conditional[j].0, crate::optimize::spec_optimize(
                        conditional[j].1,
                    )) by {
                        crate::optimize::lemma_opt_branches_index(conditional, j);
                    }
                    assert forall|j: int|
                        0 <= j < conditional.len() implies crate::optimize::opt_branches(
                        onl_branches(conditional),
                    )[j] == onl_branches(conditional)[j] by {
                        lemma_onl_branches_index(conditional, j);
                        crate::optimize::lemma_opt_branches_index(onl_branches(conditional), j);
                        assert(crate::optimize::spec_optimize(conditional[j].1)
                            == conditional[j].1);
                        lemma_optimize_fix_oneline(conditional[j].1);
                    }
                    crate::optimize::lemma_opt_branches_len(onl_branches(conditional));
                    assert(crate::optimize::opt_branches(onl_branches(conditional))
                        =~= onl_branches(conditional));
                    assert(crate::optimize::spec_optimize(otherwise) == otherwise);
                    lemma_optimize_fix_oneline(otherwise);
                },
                GStmtCode::Loop { indent, target, iterator, filter, body } => {
                    assert(crate::optimize::spec_optimize(body) == body);
                    lemma_optimize_fix_oneline(body);
                },
                _ => {},
            }
        }
    }
    crate::optimize::lemma_opt_list_fixed(y);
    crate::optimize::lemma_merge_fixpoint(y);
    crate::optimize::lemma_drop_ws_fixpoint(y);
}

/// Law: the whole one-line compilation chain — the optimizer, then the
/// one-line rewrite — is idempotent: running the chain on its own output
/// yields the same statement tree.
pub proof fn law_oneline_chain_idempotent(b: Seq<GStmt>)
    ensures
        ({
            let once = spec_oneline(crate::optimize::spec_optimize(b));
            spec_oneline(crate::optimize::spec_optimize(once)) == once
        }),
{
    let x = crate::optimize::spec_optimize(b);
    crate::optimize::law_optimizer_idempotent(b);
    lemma_optimize_fix_oneline(x);
    law_oneline_idempotent(x);
}

} // verus!
