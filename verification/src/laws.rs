//! General laws of the engine, stated over the ghost interpreter and
//! proved from the contracts of the library.

use vstd::prelude::*;

use crate::grammar::{GExpr, GExprCode, GStmt, GStmtCode, GTarget, OutputMode};
use crate::render::{eval_links, spec_block, spec_eval, spec_stmt, BlockOut, EvalOut, GOpts, RState};
use crate::render_error::GErr;
use crate::validators::GFilter;
use crate::varmap::lookup_scopes;
use crate::vars::{bool_of, output_of, GVal};
use crate::Pos;

verus! {

/// The renderer state a render call starts from: empty output, nothing
/// frozen, whitespace preserved, no errors.
pub open spec fn init_state() -> RState {
    RState { buf: Seq::empty(), frozen: 0, tail: OutputMode::Preserve, errs: Seq::empty() }
}

/// Law: a template of raw text alone reproduces its text exactly.  In any
/// mode but the one-line one, rendering a body that is one raw statement
/// writes that text to the output, character for character, with no error,
/// whatever the scopes and the data.
pub proof fn law_raw_text_renders_itself(
    t: Seq<char>,
    pos: Pos,
    fr: Seq<Map<Seq<char>, GVal>>,
    rt: Map<Seq<char>, GVal>,
    opts: GOpts,
)
    requires
        !opts.oneline,
    ensures
        ({
            let o = spec_block(
                seq![GStmt { pos, code: GStmtCode::Raw(t) }],
                0,
                fr,
                rt,
                init_state(),
                opts,
            );
            &&& o.st.buf == t
            &&& o.st.errs.len() == 0
        }),
{
    let body = seq![GStmt { pos, code: GStmtCode::Raw(t) }];
    let o1 = spec_stmt(body[0], fr, rt, init_state(), opts);
    assert(Seq::<char>::empty() + t =~= t);
    assert(o1.st.buf == t);
    assert(spec_block(body, 1, o1.frames, rt, o1.st, opts) == BlockOut {
        st: o1.st,
        frames: o1.frames,
    });
    assert(spec_block(body, 0, fr, rt, init_state(), opts).st == o1.st);
}

/// Law: full whitespace strip on both sides.  An output with a stripping
/// right boundary, then raw whitespace, then an output with a stripping
/// left boundary, render with nothing at all between the two values,
/// whatever whitespace stood between them.
pub proof fn law_strip_both_sides(
    x: GExpr,
    t: Seq<char>,
    pos1: Pos,
    pos2: Pos,
    pos3: Pos,
    fr: Seq<Map<Seq<char>, GVal>>,
    rt: Map<Seq<char>, GVal>,
    opts: GOpts,
)
    requires
        crate::chars::all_space(t),
        !opts.oneline,
        opts.default_filter == GFilter::NoFilter,
        spec_eval(x, fr, rt).errs.len() == 0,
        output_of(spec_eval(x, fr, rt).val) matches Ok(_),
    ensures
        ({
            let out1 = GStmt {
                pos: pos1,
                code: GStmtCode::Out {
                    left_ws: OutputMode::Preserve,
                    expr: x,
                    validator: None,
                    right_ws: OutputMode::Strip,
                },
            };
            let ws = GStmt { pos: pos2, code: GStmtCode::Raw(t) };
            let out2 = GStmt {
                pos: pos3,
                code: GStmtCode::Out {
                    left_ws: OutputMode::Strip,
                    expr: x,
                    validator: None,
                    right_ws: OutputMode::Preserve,
                },
            };
            let o = spec_block(seq![out1, ws, out2], 0, fr, rt, init_state(), opts);
            let text = match output_of(spec_eval(x, fr, rt).val) {
                Ok(s) => s,
                Err(_) => Seq::empty(),
            };
            &&& o.st.buf == text + text
            &&& o.st.errs.len() == 0
        }),
{
    let ev = spec_eval(x, fr, rt);
    let text = match output_of(ev.val) {
        Ok(s) => s,
        Err(_) => Seq::<char>::empty(),
    };
    let out1 = GStmt {
        pos: pos1,
        code: GStmtCode::Out {
            left_ws: OutputMode::Preserve,
            expr: x,
            validator: None,
            right_ws: OutputMode::Strip,
        },
    };
    let ws = GStmt { pos: pos2, code: GStmtCode::Raw(t) };
    let out2 = GStmt {
        pos: pos3,
        code: GStmtCode::Out {
            left_ws: OutputMode::Strip,
            expr: x,
            validator: None,
            right_ws: OutputMode::Preserve,
        },
    };
    let body = seq![out1, ws, out2];
    // First output: written onto the empty buffer, everything frozen.
    let s1 = spec_stmt(body[0], fr, rt, init_state(), opts).st;
    assert(Seq::<(Pos, GErr)>::empty() + ev.errs =~= ev.errs);
    assert(Seq::<char>::empty() + text =~= text);
    assert(s1.buf == text && s1.frozen == text.len() && s1.tail == OutputMode::Strip);
    assert(s1.errs =~= Seq::<(Pos, GErr)>::empty());
    // The whitespace between: stripped entirely, the strip mode carried on.
    let s2 = spec_stmt(body[1], fr, rt, s1, opts).st;
    crate::chars::lemma_leading_spaces(t);
    assert(crate::chars::ltrim(t).len() == 0) by {
        if crate::chars::leading_spaces(t) < t.len() {
            assert(crate::chars::is_space_char(t[crate::chars::leading_spaces(t)]));
        }
    }
    assert(s2.buf =~= text);
    assert(s2.frozen == text.len() && s2.tail == OutputMode::Strip);
    // Second output: the strip truncates to the frozen prefix and appends.
    let s3 = spec_stmt(body[2], fr, rt, s2, opts).st;
    assert(s2.buf.subrange(0, s2.frozen) =~= text);
    assert(s3.buf == text + text);
    assert(s3.errs =~= Seq::<(Pos, GErr)>::empty());
    let b1 = spec_stmt(body[0], fr, rt, init_state(), opts);
    let b2 = spec_stmt(body[1], fr, rt, b1.st, opts);
    let b3 = spec_stmt(body[2], fr, rt, b2.st, opts);
    assert(b1.frames == fr && b2.frames == fr && b3.frames == fr);
    assert(spec_block(body, 3, b3.frames, rt, b3.st, opts) == BlockOut {
        st: b3.st,
        frames: b3.frames,
    });
    assert(spec_block(body, 2, b2.frames, rt, b2.st, opts).st == b3.st);
    assert(spec_block(body, 1, b1.frames, rt, b1.st, opts).st == b3.st);
    assert(spec_block(body, 0, fr, rt, init_state(), opts).st == b3.st);
}

/// Law: boolean short-circuit.  `a and b` evaluates to `b` exactly when
/// `a` is truthy and to `a` itself otherwise, recording no error of `b` in
/// the falsy case; `a or b` mirrors it.
pub proof fn law_boolean_short_circuit(
    e: GExpr,
    a: GExpr,
    b: GExpr,
    fr: Seq<Map<Seq<char>, GVal>>,
    rt: Map<Seq<char>, GVal>,
)
    requires
        e.code == GExprCode::And(Box::new(a), Box::new(b)) || e.code == GExprCode::Or(
            Box::new(a),
            Box::new(b),
        ),
    ensures
        ({
            let l = spec_eval(a, fr, rt);
            let r = spec_eval(b, fr, rt);
            e.code == GExprCode::And(Box::new(a), Box::new(b)) ==> spec_eval(e, fr, rt) == (
            if bool_of(l.val) {
                EvalOut { val: r.val, errs: l.errs + r.errs }
            } else {
                l
            })
        }),
        ({
            let l = spec_eval(a, fr, rt);
            let r = spec_eval(b, fr, rt);
            e.code == GExprCode::Or(Box::new(a), Box::new(b)) ==> spec_eval(e, fr, rt) == (
            if bool_of(l.val) {
                l
            } else {
                EvalOut { val: r.val, errs: l.errs + r.errs }
            })
        }),
{
}

/// Law: a chained comparison stops at the first failing link.  When the
/// current value compares false against the next link, the chain's value is
/// false and no later link is evaluated: the errors are exactly those
/// collected so far.
pub proof fn law_comparison_short_circuit(
    e: GExpr,
    k: int,
    cur: GVal,
    errs: Seq<(Pos, GErr)>,
    fr: Seq<Map<Seq<char>, GVal>>,
    rt: Map<Seq<char>, GVal>,
)
    requires
        0 <= k < crate::render::links_of(e).len(),
        ({
            let links = crate::render::links_of(e);
            let r = spec_eval(links[k].1, fr, rt);
            match (crate::compare::comparable_of(cur), crate::compare::comparable_of(r.val)) {
                (Some(lc), Some(rc)) => crate::compare::spec_compare(lc, rc, links[k].0) == Some(
                    false,
                ),
                _ => false,
            }
        }),
    ensures
        ({
            let links = crate::render::links_of(e);
            let r = spec_eval(links[k].1, fr, rt);
            eval_links(e, k, cur, errs, fr, rt) == EvalOut {
                val: GVal::Bool(false),
                errs: errs + r.errs,
            }
        }),
{
}

/// Law: loop scoping.  A binding introduced by a loop iteration — the loop
/// variable, or any alias made inside the body — is invisible once the loop
/// statement is done: the scope stack after the statement is exactly the
/// one before it, so every later lookup gives what it gave before.
pub proof fn law_loop_scoping(
    s: GStmt,
    name: Seq<char>,
    fr: Seq<Map<Seq<char>, GVal>>,
    rt: Map<Seq<char>, GVal>,
    st: RState,
    opts: GOpts,
)
    requires
        s.code is Loop,
    ensures
        spec_stmt(s, fr, rt, st, opts).frames == fr,
        lookup_scopes(spec_stmt(s, fr, rt, st, opts).frames, rt, name) == lookup_scopes(
            fr,
            rt,
            name,
        ),
{
    match s.code {
        GStmtCode::Loop { target, iterator, .. } => {
            let ev = spec_eval(iterator, fr, rt);
            let st1 = RState {
                buf: st.buf,
                frozen: st.frozen,
                tail: st.tail,
                errs: st.errs + ev.errs,
            };
            match target {
                GTarget::Var(n) => match ev.val {
                    GVal::List(items) => {
                        crate::render::lemma_loop_items_frames(s, n, items, 0, fr, rt, st1, opts);
                    },
                    _ => {},
                },
                GTarget::Pair(kn, vn) => match ev.val {
                    GVal::Dict(pairs) => {
                        crate::render::lemma_loop_pairs_frames(
                            s,
                            kn,
                            vn,
                            pairs,
                            0,
                            fr,
                            rt,
                            st1,
                            opts,
                        );
                    },
                    _ => {},
                },
            }
        },
        _ => {},
    }
}

/// Law: partial failure.  A body that outputs one defined variable, raw
/// text, and one undefined variable renders the defined value and the raw
/// text in full, substitutes the empty string for the undefined one, and
/// records exactly one error: the missing name.
pub proof fn law_partial_failure(
    aname: Seq<char>,
    bname: Seq<char>,
    t: Seq<char>,
    pos1: Pos,
    pos2: Pos,
    pos3: Pos,
    fr: Seq<Map<Seq<char>, GVal>>,
    rt: Map<Seq<char>, GVal>,
    opts: GOpts,
)
    requires
        !opts.oneline,
        opts.default_filter == GFilter::NoFilter,
        lookup_scopes(fr, rt, aname) matches Some(v) && output_of(v) matches Ok(_),
        lookup_scopes(fr, rt, bname) is None,
        t.len() > 0,
        !crate::chars::is_space_char(t[0]),
        !crate::chars::is_space_char(t.last()),
    ensures
        ({
            let out_a = GStmt {
                pos: pos1,
                code: GStmtCode::Out {
                    left_ws: OutputMode::Preserve,
                    expr: GExpr { pos: pos1, code: GExprCode::Var(aname) },
                    validator: None,
                    right_ws: OutputMode::Preserve,
                },
            };
            let raw = GStmt { pos: pos2, code: GStmtCode::Raw(t) };
            let out_b = GStmt {
                pos: pos3,
                code: GStmtCode::Out {
                    left_ws: OutputMode::Preserve,
                    expr: GExpr { pos: pos3, code: GExprCode::Var(bname) },
                    validator: None,
                    right_ws: OutputMode::Preserve,
                },
            };
            let o = spec_block(seq![out_a, raw, out_b], 0, fr, rt, init_state(), opts);
            let text = match output_of(match lookup_scopes(fr, rt, aname) {
                Some(v) => v,
                None => GVal::Undef,
            }) {
                Ok(s) => s,
                Err(_) => Seq::empty(),
            };
            &&& o.st.buf == text + t
            &&& o.st.errs.len() == 1
            &&& o.st.errs[0].1 == GErr::VariableNotFound(bname)
        }),
{
    let va = match lookup_scopes(fr, rt, aname) {
        Some(v) => v,
        None => GVal::Undef,
    };
    let text = match output_of(va) {
        Ok(s) => s,
        Err(_) => Seq::<char>::empty(),
    };
    let out_a = GStmt {
        pos: pos1,
        code: GStmtCode::Out {
            left_ws: OutputMode::Preserve,
            expr: GExpr { pos: pos1, code: GExprCode::Var(aname) },
            validator: None,
            right_ws: OutputMode::Preserve,
        },
    };
    let raw = GStmt { pos: pos2, code: GStmtCode::Raw(t) };
    let out_b = GStmt {
        pos: pos3,
        code: GStmtCode::Out {
            left_ws: OutputMode::Preserve,
            expr: GExpr { pos: pos3, code: GExprCode::Var(bname) },
            validator: None,
            right_ws: OutputMode::Preserve,
        },
    };
    let body = seq![out_a, raw, out_b];
    let s1 = spec_stmt(body[0], fr, rt, init_state(), opts).st;
    assert(Seq::<char>::empty() + text =~= text);
    assert(s1.buf == text && s1.frozen == text.len());
    assert(s1.errs =~= Seq::<(Pos, GErr)>::empty());
    let s2 = spec_stmt(body[1], fr, rt, s1, opts).st;
    crate::chars::lemma_trailing_spaces(t);
    assert(crate::chars::rtrim(t).len() > 0) by {
        if crate::chars::trailing_spaces(t) == t.len() {
            assert(crate::chars::is_space_char(t[0]));
        }
    }
    assert(crate::chars::trailing_spaces(t) == 0) by {
        if crate::chars::trailing_spaces(t) > 0 {
            assert(crate::chars::is_space_char(t[t.len() - 1]));
        }
    }
    assert(s2.buf == text + t);
    assert(s2.errs =~= Seq::<(Pos, GErr)>::empty());
    let s3 = spec_stmt(body[2], fr, rt, s2, opts).st;
    let evb = spec_eval(GExpr { pos: pos3, code: GExprCode::Var(bname) }, fr, rt);
    assert(evb.val == GVal::Undef);
    assert(evb.errs =~= seq![(pos3, GErr::VariableNotFound(bname))]);
    assert(s3.buf =~= (text + t) + Seq::<char>::empty());
    assert(s3.buf =~= text + t);
    assert(s3.errs =~= seq![(pos3, GErr::VariableNotFound(bname))]);
    let b1 = spec_stmt(body[0], fr, rt, init_state(), opts);
    let b2 = spec_stmt(body[1], fr, rt, b1.st, opts);
    let b3 = spec_stmt(body[2], fr, rt, b2.st, opts);
    assert(b1.frames == fr && b2.frames == fr && b3.frames == fr);
    assert(spec_block(body, 3, b3.frames, rt, b3.st, opts) == BlockOut {
        st: b3.st,
        frames: b3.frames,
    });
    assert(spec_block(body, 2, b2.frames, rt, b2.st, opts).st == b3.st);
    assert(spec_block(body, 1, b1.frames, rt, b1.st, opts).st == b3.st);
    assert(spec_block(body, 0, fr, rt, init_state(), opts).st == b3.st);
}

} // verus!
