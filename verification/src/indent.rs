//! The indent-mode postprocessor: for each nested block, it finds the
//! common indentation of the block's own lines, checks that no line falls
//! below the block's declared base indent, and strips the common excess so
//! nested blocks render at their logical column.
//!
//! The whole pass is specified by a ghost reindenter (`spec_indent`): the
//! executable code is proved to produce exactly its output, and to fail
//! exactly where it fails, at the position of the first under-indented
//! line.

use vstd::prelude::*;

use crate::chars::{self, leading_spaces};
use crate::grammar::{
    lemma_view_stmt_list_index, lemma_view_stmt_list_len, lemma_view_stmt_snoc, view_body,
    view_stmt, view_stmt_list, Body, Expr, GExpr, GStmt, GStmtCode, Statement, StatementCode,
};
use crate::options::Options;
use crate::parse_error::ParseError;
use crate::Pos;

verus! {

broadcast use vstd::std_specs::vec::group_vec_axioms;

/// An indent-mode postprocessor pass.
#[derive(Debug)]
pub struct Postprocess {
    _priv: (),
}

// ---------------------------------------------------------------------------
// The ghost reindenter
// ---------------------------------------------------------------------------

/// A single newline: the raw text that resets a line start without taking
/// part in indentation.
pub open spec fn is_newline_text(t: Seq<char>) -> bool {
    t == seq!['\n']
}

/// Fold one observed indentation into the running minimum.
pub open spec fn min_opt(acc: Option<int>, c: int) -> Option<int> {
    match acc {
        Some(x) => if c < x {
            Some(c)
        } else {
            Some(x)
        },
        None => Some(c),
    }
}

/// Scan a block's own lines from statement `k` on: the least indentation
/// among its line-start raw texts and nested block headers, or the position
/// of the first line-start raw line indented under the block's `base`.
pub open spec fn spec_scan(
    b: Seq<GStmt>,
    k: int,
    line_start: bool,
    acc: Option<int>,
    base: int,
) -> Result<Option<int>, Pos>
    decreases b.len() - k,
{
    if k < 0 || k >= b.len() {
        Ok(acc)
    } else {
        match b[k].code {
            GStmtCode::Joiner => spec_scan(b, k + 1, line_start, acc, base),
            GStmtCode::Raw(t) => if is_newline_text(t) {
                spec_scan(b, k + 1, true, acc, base)
            } else if line_start {
                let ci = leading_spaces(t);
                if ci < base {
                    Err(b[k].pos)
                } else {
                    spec_scan(b, k + 1, false, min_opt(acc, ci), base)
                }
            } else {
                spec_scan(b, k + 1, false, acc, base)
            },
            GStmtCode::Alias { .. } => spec_scan(b, k + 1, true, acc, base),
            GStmtCode::Out { .. } => spec_scan(b, k + 1, false, acc, base),
            GStmtCode::Cond { indent, .. } => spec_scan(b, k + 1, true, min_opt(acc, indent), base),
            GStmtCode::Loop { indent, .. } => spec_scan(b, k + 1, true, min_opt(acc, indent), base),
        }
    }
}

/// One statement through the stripping pass: a line-start raw text loses
/// its first `strip` characters (bounded by its length); everything else is
/// kept; the flag says whether the next statement starts a line.
pub open spec fn strip_one(s: GStmt, line_start: bool, strip: int) -> (GStmt, bool) {
    match s.code {
        GStmtCode::Raw(t) => if is_newline_text(t) {
            (s, true)
        } else if line_start {
            let cut = if strip < t.len() {
                strip
            } else {
                t.len() as int
            };
            (GStmt { pos: s.pos, code: GStmtCode::Raw(t.subrange(cut, t.len() as int)) }, false)
        } else {
            (s, false)
        },
        GStmtCode::Joiner => (s, line_start),
        GStmtCode::Alias { .. } => (s, true),
        GStmtCode::Out { .. } => (s, false),
        GStmtCode::Cond { .. } => (s, true),
        GStmtCode::Loop { .. } => (s, true),
    }
}

/// Strip `strip` leading characters from every line-start raw text, from
/// statement `k` on.
pub open spec fn spec_strip_list(b: Seq<GStmt>, k: int, line_start: bool, strip: int) -> Seq<GStmt>
    decreases b.len() - k,
{
    if k < 0 || k >= b.len() {
        Seq::empty()
    } else {
        let step = strip_one(b[k], line_start, strip);
        seq![step.0] + spec_strip_list(b, k + 1, step.1, strip)
    }
}

/// Reindent one statement: its nested blocks reindent at their own declared
/// indent, with `strip` characters owed from the levels outside.
pub open spec fn ind_stmt(s: GStmt, strip: int) -> Result<GStmt, Pos>
    decreases s, 0int, 0int,
{
    match s.code {
        GStmtCode::Cond { indent, conditional, otherwise } => match ind_branches(
            conditional,
            indent,
            strip,
        ) {
            Err(p) => Err(p),
            Ok(bs) => match spec_indent(otherwise, indent, strip) {
                Err(p) => Err(p),
                Ok(o2) => Ok(
                    GStmt {
                        pos: s.pos,
                        code: GStmtCode::Cond { indent, conditional: bs, otherwise: o2 },
                    },
                ),
            },
        },
        GStmtCode::Loop { indent, target, iterator, filter, body } => match spec_indent(
            body,
            indent,
            strip,
        ) {
            Err(p) => Err(p),
            Ok(b2) => Ok(
                GStmt {
                    pos: s.pos,
                    code: GStmtCode::Loop { indent, target, iterator, filter, body: b2 },
                },
            ),
        },
        _ => Ok(s),
    }
}

/// Reindent the branches of a conditional, stopping at the first failure.
pub open spec fn ind_branches(bs: Seq<(GExpr, Seq<GStmt>)>, indent: int, strip: int) -> Result<
    Seq<(GExpr, Seq<GStmt>)>,
    Pos,
>
    decreases bs, 0int, 0int,
{
    if bs.len() == 0 {
        Ok(Seq::empty())
    } else {
        match spec_indent(bs[0].1, indent, strip) {
            Err(p) => Err(p),
            Ok(b2) => match ind_branches(bs.subrange(1, bs.len() as int), indent, strip) {
                Err(p) => Err(p),
                Ok(rest) => Ok(seq![(bs[0].0, b2)] + rest),
            },
        }
    }
}

/// Reindent every statement of a body from `k` on, stopping at the first
/// failure.
pub open spec fn ind_list(b: Seq<GStmt>, k: int, strip: int) -> Result<Seq<GStmt>, Pos>
    decreases b, 1int, b.len() - k,
{
    if k < 0 || k >= b.len() {
        Ok(Seq::empty())
    } else {
        match ind_stmt(b[k], strip) {
            Err(p) => Err(p),
            Ok(s2) => match ind_list(b, k + 1, strip) {
                Err(p) => Err(p),
                Ok(rest) => Ok(seq![s2] + rest),
            },
        }
    }
}

/// Reindent a whole block declared at indent `base`, with `strip`
/// characters owed from outside: fail at the first under-indented line;
/// otherwise reindent the nested blocks, then strip from every line-start
/// raw text the owed characters plus the block's observed excess over its
/// base (the total capped only at the machine's limit).
pub open spec fn spec_indent(b: Seq<GStmt>, base: int, strip: int) -> Result<Seq<GStmt>, Pos>
    decreases b, 2int, 0int,
{
    match spec_scan(b, 0, true, None, base) {
        Err(p) => Err(p),
        Ok(acc) => {
            let ind = match acc {
                Some(x) => x,
                None => base,
            };
            let extra = if ind > base {
                ind - base
            } else {
                0
            };
            let strip2 = if strip + extra <= usize::MAX {
                strip + extra
            } else {
                usize::MAX as int
            };
            match ind_list(b, 0, strip2) {
                Err(p) => Err(p),
                Ok(kids) => Ok(
                    if strip2 > 0 {
                        spec_strip_list(kids, 0, true, strip2)
                    } else {
                        kids
                    },
                ),
            }
        },
    }
}

impl Postprocess {
    /// Create a new indent-mode postprocessor.
    pub fn new() -> Postprocess {
        Postprocess { _priv: () }
    }

    /// Re-indent a body: exactly the ghost reindenter's output, and a
    /// syntax error carrying the position of the first under-indented line
    /// exactly where the reindenter fails.
    pub fn process(&self, _opt: &Options, body: Body) -> (r: Result<Body, ParseError>)
        ensures
            match r {
                Ok(b) => spec_indent(view_body(body), 0, 0) == Ok::<Seq<GStmt>, Pos>(view_body(b)),
                Err(e) => match e {
                    ParseError::InvalidSyntax(p, _) => spec_indent(view_body(body), 0, 0) == Err::<
                        Seq<GStmt>,
                        Pos,
                    >(p),
                    _ => false,
                },
            },
    {
        visit_body(body, 0, 0)
    }
}

fn is_single_newline(t: &Vec<char>) -> (r: bool)
    ensures
        r == is_newline_text(t@),
{
    let r = t.len() == 1 && t[0] == '\n';
    proof {
        if r {
            assert(t@ =~= seq!['\n']);
        }
        if t@ == seq!['\n'] {
            assert(t@.len() == 1 && t@[0] == '\n');
        }
    }
    r
}

/// The smaller of two numbers.
fn min_usize(a: usize, b: usize) -> (r: usize)
    ensures
        r == if a < b {
            a as int
        } else {
            b as int
        },
{
    if a < b {
        a
    } else {
        b
    }
}

/// Scan the body's own lines: the least indentation of a line-start raw
/// text or nested block, or the position of the first under-indented line.
#[verifier::loop_isolation(false)]
fn scan_indent(statements: &Vec<Statement>, base_indent: usize) -> (r: Result<Option<usize>, Pos>)
    ensures
        ({
            let o = spec_scan(view_stmt_list(statements@), 0, true, None, base_indent as int);
            match r {
                Ok(a) => o == Ok::<Option<int>, Pos>(
                    match a {
                        Some(x) => Some(x as int),
                        None => None,
                    },
                ),
                Err(p) => o == Err::<Option<int>, Pos>(p),
            }
        }),
{
    let ghost bview = view_stmt_list(statements@);
    proof {
        lemma_view_stmt_list_len(statements@);
    }
    let mut indent: Option<usize> = None;
    let mut line_start = true;
    let mut i: usize = 0;
    while i < statements.len()
        invariant
            i <= statements@.len(),
            bview.len() == statements@.len(),
            spec_scan(bview, 0, true, None, base_indent as int) == spec_scan(
                bview,
                i as int,
                line_start,
                match indent {
                    Some(x) => Some(x as int),
                    None => None,
                },
                base_indent as int,
            ),
        decreases statements@.len() - i,
    {
        proof {
            lemma_view_stmt_list_index(statements@, i as int);
        }
        let st = &statements[i];
        line_start = match &st.code {
            StatementCode::Joiner => line_start,
            StatementCode::OutputRaw(txt) => {
                if is_single_newline(txt) {
                    true
                } else if line_start {
                    let cindent = chars::count_leading(txt);
                    if cindent < base_indent {
                        return Err(st.position.0);
                    }
                    indent = Some(
                        match indent {
                            Some(x) => min_usize(x, cindent),
                            None => cindent,
                        },
                    );
                    false
                } else {
                    false
                }
            },
            StatementCode::Alias { .. } => true,
            StatementCode::Output { .. } => false,
            StatementCode::Cond { indent: ci, .. } => {
                let c = *ci;
                indent = Some(
                    match indent {
                        Some(x) => min_usize(x, c),
                        None => c,
                    },
                );
                true
            },
            StatementCode::Loop { indent: ci, .. } => {
                let c = *ci;
                indent = Some(
                    match indent {
                        Some(x) => min_usize(x, c),
                        None => c,
                    },
                );
                true
            },
        };
        i = i + 1;
    }
    Ok(indent)
}

/// Strip `strip` characters from the start of every line-start raw text.
#[verifier::loop_isolation(false)]
fn strip_lines(statements: Vec<Statement>, strip: usize) -> (r: Vec<Statement>)
    ensures
        view_stmt_list(r@) == spec_strip_list(view_stmt_list(statements@), 0, true, strip as int),
{
    let ghost bview = view_stmt_list(statements@);
    let mut out: Vec<Statement> = Vec::new();
    let mut rest = statements;
    let ghost orig = rest@;
    proof {
        lemma_view_stmt_list_len(orig);
        assert(orig.subrange(0, orig.len() as int) =~= orig);
        assert(view_stmt_list(Seq::<Statement>::empty()) + spec_strip_list(bview, 0, true, strip as int)
            =~= spec_strip_list(bview, 0, true, strip as int));
    }
    let mut line_start = true;
    while rest.len() > 0
        invariant
            rest@.len() <= orig.len(),
            rest@ == orig.subrange(orig.len() - rest@.len(), orig.len() as int),
            bview == view_stmt_list(orig),
            bview.len() == orig.len(),
            view_stmt_list(out@) + spec_strip_list(
                bview,
                orig.len() - rest@.len(),
                line_start,
                strip as int,
            ) == spec_strip_list(bview, 0, true, strip as int),
        decreases rest@.len(),
    {
        let ghost k = orig.len() - rest@.len();
        proof {
            assert(orig.subrange(k, orig.len() as int)[0] == orig[k]);
            lemma_view_stmt_list_index(orig, k);
        }
        let st = rest.remove(0);
        proof {
            assert(st == orig[k]);
            assert(rest@ =~= orig.subrange(k + 1, orig.len() as int));
        }
        let (st2, ls) = match st {
            Statement { position, code: StatementCode::OutputRaw(txt) } => {
                if is_single_newline(&txt) {
                    (Statement { position, code: StatementCode::OutputRaw(txt) }, true)
                } else if line_start {
                    let cut = min_usize(strip, txt.len());
                    let stripped = chars::subvec(&txt, cut, txt.len());
                    (Statement { position, code: StatementCode::OutputRaw(stripped) }, false)
                } else {
                    (Statement { position, code: StatementCode::OutputRaw(txt) }, false)
                }
            },
            Statement { position, code: StatementCode::Joiner } => (
                Statement { position, code: StatementCode::Joiner },
                line_start,
            ),
            Statement { position, code: StatementCode::Alias { target, value } } => (
                Statement { position, code: StatementCode::Alias { target, value } },
                true,
            ),
            Statement {
                position,
                code: StatementCode::Output { left_ws, expr, validator, right_ws },
            } => (
                Statement {
                    position,
                    code: StatementCode::Output { left_ws, expr, validator, right_ws },
                },
                false,
            ),
            other => (other, true),
        };
        proof {
            assert(view_stmt(st2) == strip_one(bview[k], line_start, strip as int).0);
            assert(ls == strip_one(bview[k], line_start, strip as int).1);
        }
        let ghost prev_out = out@;
        out.push(st2);
        proof {
            lemma_view_stmt_snoc(prev_out, st2);
            assert((view_stmt_list(prev_out) + seq![view_stmt(st2)]) + spec_strip_list(
                bview,
                k + 1,
                ls,
                strip as int,
            ) =~= view_stmt_list(prev_out) + (seq![view_stmt(st2)] + spec_strip_list(
                bview,
                k + 1,
                ls,
                strip as int,
            )));
        }
        line_start = ls;
    }
    proof {
        assert(view_stmt_list(out@) + Seq::<GStmt>::empty() =~= view_stmt_list(out@));
    }
    out
}

/// Re-indent one body at its declared base indent, with `strip` characters
/// already owed to outer blocks.
#[verifier::loop_isolation(false)]
fn visit_body(body: Body, base_indent: usize, strip: usize) -> (r: Result<Body, ParseError>)
    ensures
        match r {
            Ok(b) => spec_indent(view_body(body), base_indent as int, strip as int) == Ok::<
                Seq<GStmt>,
                Pos,
            >(view_body(b)),
            Err(e) => match e {
                ParseError::InvalidSyntax(p, _) => spec_indent(
                    view_body(body),
                    base_indent as int,
                    strip as int,
                ) == Err::<Seq<GStmt>, Pos>(p),
                _ => false,
            },
        },
    decreases body,
{
    let ghost gbody = body;
    let ghost bview = view_body(body);
    let Body { statements } = body;
    let ghost gstmts = statements;

    let indent = match scan_indent(&statements, base_indent) {
        Ok(a) => match a {
            Some(x) => x,
            None => base_indent,
        },
        Err(p) => {
            return Err(
                ParseError::InvalidSyntax(
                    p,
                    "line is under-indented in the indent syntax mode".to_owned(),
                ),
            );
        },
    };
    let extra = if indent > base_indent {
        indent - base_indent
    } else {
        0
    };
    let strip2 = if strip <= usize::MAX - extra {
        strip + extra
    } else {
        usize::MAX
    };

    // Recurse into nested blocks at their own declared indent.
    let mut out: Vec<Statement> = Vec::new();
    let mut rest = statements;
    let ghost orig = rest@;
    proof {
        lemma_view_stmt_list_len(orig);
        assert(orig.subrange(0, orig.len() as int) =~= orig);
        assert(view_stmt_list(Seq::<Statement>::empty()) =~= Seq::<GStmt>::empty());
    }
    while rest.len() > 0
        invariant
            rest@.len() <= orig.len(),
            rest@ == orig.subrange(orig.len() - rest@.len(), orig.len() as int),
            bview == view_stmt_list(orig),
            bview.len() == orig.len(),
            ind_list(bview, 0, strip2 as int) == (match ind_list(
                bview,
                orig.len() - rest@.len(),
                strip2 as int,
            ) {
                Ok(tail) => Ok::<Seq<GStmt>, Pos>(view_stmt_list(out@) + tail),
                Err(p) => Err::<Seq<GStmt>, Pos>(p),
            }),
        decreases rest@.len(),
    {
        let ghost k = orig.len() - rest@.len();
        proof {
            assert(orig.subrange(k, orig.len() as int)[0] == orig[k]);
            lemma_view_stmt_list_index(orig, k);
        }
        let st = rest.remove(0);
        proof {
            assert(st == orig[k]);
            assert(rest@ =~= orig.subrange(k + 1, orig.len() as int));
            assert(decreases_to!(gbody => gbody.statements));
            assert(gbody.statements == gstmts);
            assert(decreases_to!(gstmts => gstmts@));
            assert(gstmts@ == orig);
            assert(decreases_to!(orig => orig[k]));
        }
        let st2 = match visit_one(st, strip2) {
            Ok(s2) => s2,
            Err(e) => {
                proof {
                    match e {
                        ParseError::InvalidSyntax(p, _) => {
                            assert(ind_stmt(bview[k], strip2 as int) == Err::<GStmt, Pos>(p));
                            assert(ind_list(bview, k, strip2 as int) == Err::<Seq<GStmt>, Pos>(p));
                        },
                        _ => {},
                    }
                }
                return Err(e);
            },
        };
        let ghost prev_out = out@;
        out.push(st2);
        proof {
            lemma_view_stmt_snoc(prev_out, st2);
            assert(view_stmt_list(out@) =~= view_stmt_list(prev_out) + seq![view_stmt(st2)]);
            assert(ind_stmt(bview[k], strip2 as int) == Ok::<GStmt, Pos>(view_stmt(st2)));
            match ind_list(bview, k + 1, strip2 as int) {
                Ok(tail) => {
                    assert(ind_list(bview, k, strip2 as int) == Ok::<Seq<GStmt>, Pos>(
                        seq![view_stmt(st2)] + tail,
                    ));
                    assert((view_stmt_list(prev_out) + seq![view_stmt(st2)]) + tail
                        =~= view_stmt_list(prev_out) + (seq![view_stmt(st2)] + tail));
                },
                Err(p) => {
                    assert(ind_list(bview, k, strip2 as int) == Err::<Seq<GStmt>, Pos>(p));
                },
            }
        }
    }

    // Strip the common excess from the body's own lines.
    let out2 = if strip2 > 0 {
        strip_lines(out, strip2)
    } else {
        out
    };
    proof {
        assert(view_stmt_list(out2@) + Seq::<GStmt>::empty() =~= view_stmt_list(out2@));
    }
    Ok(Body { statements: out2 })
}

/// Re-indent the nested blocks of one statement.
#[verifier::loop_isolation(false)]
fn visit_one(st: Statement, strip: usize) -> (r: Result<Statement, ParseError>)
    ensures
        match r {
            Ok(s2) => ind_stmt(view_stmt(st), strip as int) == Ok::<GStmt, Pos>(view_stmt(s2)),
            Err(e) => match e {
                ParseError::InvalidSyntax(p, _) => ind_stmt(view_stmt(st), strip as int) == Err::<
                    GStmt,
                    Pos,
                >(p),
                _ => false,
            },
        },
    decreases st,
{
    let ghost gst = st;
    let Statement { position, code } = st;
    match code {
        StatementCode::Cond { indent, conditional, otherwise } => {
            let ghost gcond = conditional;
            let ghost goth = otherwise;
            let mut mapped: Vec<(Expr, Body)> = Vec::new();
            let mut rest = conditional;
            let ghost orig = rest@;
            let ghost gbranches = crate::grammar::view_branch_list(orig);
            proof {
                crate::grammar::lemma_view_branch_len(orig);
                assert(orig.subrange(0, orig.len() as int) =~= orig);
                assert(gbranches.subrange(0, orig.len() as int) =~= gbranches);
                match ind_branches(gbranches, indent as int, strip as int) {
                    Ok(t) => {
                        assert(Seq::<(GExpr, Seq<GStmt>)>::empty() + t =~= t);
                    },
                    Err(_) => {},
                }
            }
            while rest.len() > 0
                invariant
                    rest@.len() <= orig.len(),
                    rest@ == orig.subrange(orig.len() - rest@.len(), orig.len() as int),
                    gbranches == crate::grammar::view_branch_list(orig),
                    gbranches.len() == orig.len(),
                    ind_branches(gbranches, indent as int, strip as int) == (match ind_branches(
                        gbranches.subrange(orig.len() - rest@.len(), orig.len() as int),
                        indent as int,
                        strip as int,
                    ) {
                        Ok(tail) => Ok::<Seq<(GExpr, Seq<GStmt>)>, Pos>(
                            crate::grammar::view_branch_list(mapped@) + tail,
                        ),
                        Err(p) => Err::<Seq<(GExpr, Seq<GStmt>)>, Pos>(p),
                    }),
                decreases rest@.len(),
            {
                let ghost k = orig.len() - rest@.len();
                proof {
                    assert(orig.subrange(k, orig.len() as int)[0] == orig[k]);
                    crate::grammar::lemma_view_branch_index(orig, k);
                    assert(gbranches.subrange(k, orig.len() as int)[0] == gbranches[k]);
                    assert(gbranches.subrange(k, orig.len() as int).subrange(
                        1,
                        gbranches.subrange(k, orig.len() as int).len() as int,
                    ) =~= gbranches.subrange(k + 1, orig.len() as int));
                }
                let (e, b) = rest.remove(0);
                proof {
                    assert((e, b) == orig[k]);
                    assert(rest@ =~= orig.subrange(k + 1, orig.len() as int));
                    assert(decreases_to!(gst => gst.code));
                    assert(gst.code == StatementCode::Cond {
                        indent: indent,
                        conditional: gcond,
                        otherwise: goth,
                    });
                    assert(decreases_to!(gst.code => gcond));
                    assert(decreases_to!(gcond => gcond@));
                    assert(gcond@ == orig);
                    assert(decreases_to!(gcond@ => gcond@[k]));
                    assert(decreases_to!(gcond@[k] => b));
                }
                let ob = match visit_body(b, indent, strip) {
                    Ok(x) => x,
                    Err(err) => {
                        proof {
                            assert(gbranches[k].1 == view_body(b));
                            match err {
                                ParseError::InvalidSyntax(p, _) => {
                                    assert(ind_branches(
                                        gbranches.subrange(k, orig.len() as int),
                                        indent as int,
                                        strip as int,
                                    ) == Err::<Seq<(GExpr, Seq<GStmt>)>, Pos>(p));
                                },
                                _ => {},
                            }
                        }
                        return Err(err);
                    },
                };
                let ghost prev_mapped = mapped@;
                mapped.push((e, ob));
                proof {
                    crate::grammar::lemma_view_branch_snoc(prev_mapped, (e, ob));
                    let ghost pair = (crate::grammar::view_expr(e), view_body(ob));
                    assert(crate::grammar::view_branch_list(mapped@)
                        =~= crate::grammar::view_branch_list(prev_mapped) + seq![pair]);
                    assert(gbranches[k].1 == view_body(b));
                    assert(spec_indent(gbranches[k].1, indent as int, strip as int) == Ok::<
                        Seq<GStmt>,
                        Pos,
                    >(view_body(ob)));
                    match ind_branches(
                        gbranches.subrange(k + 1, orig.len() as int),
                        indent as int,
                        strip as int,
                    ) {
                        Ok(tail) => {
                            assert(ind_branches(
                                gbranches.subrange(k, orig.len() as int),
                                indent as int,
                                strip as int,
                            ) == Ok::<Seq<(GExpr, Seq<GStmt>)>, Pos>(seq![pair] + tail));
                            assert((crate::grammar::view_branch_list(prev_mapped) + seq![pair])
                                + tail =~= crate::grammar::view_branch_list(prev_mapped) + (seq![
                                pair,
                            ] + tail));
                        },
                        Err(p) => {
                            assert(ind_branches(
                                gbranches.subrange(k, orig.len() as int),
                                indent as int,
                                strip as int,
                            ) == Err::<Seq<(GExpr, Seq<GStmt>)>, Pos>(p));
                        },
                    }
                }
            }
            proof {
                assert(gbranches.subrange(orig.len() as int, orig.len() as int) =~= Seq::<
                    (GExpr, Seq<GStmt>),
                >::empty());
                assert(crate::grammar::view_branch_list(mapped@) + Seq::<
                    (GExpr, Seq<GStmt>),
                >::empty() =~= crate::grammar::view_branch_list(mapped@));
                assert(decreases_to!(gst => gst.code));
                assert(gst.code == StatementCode::Cond {
                    indent: indent,
                    conditional: gcond,
                    otherwise: goth,
                });
                assert(decreases_to!(gst.code => goth));
            }
            let oth = match visit_body(otherwise, indent, strip) {
                Ok(x) => x,
                Err(err) => {
                    return Err(err);
                },
            };
            Ok(
                Statement {
                    position,
                    code: StatementCode::Cond { indent, conditional: mapped, otherwise: oth },
                },
            )
        },
        StatementCode::Loop { indent, target, iterator, filter, body } => {
            let ghost gb = body;
            let ghost gt = target;
            let ghost gi = iterator;
            let ghost gf = filter;
            proof {
                assert(decreases_to!(gst => gst.code));
                assert(gst.code == StatementCode::Loop {
                    indent: indent,
                    target: gt,
                    iterator: gi,
                    filter: gf,
                    body: gb,
                });
                assert(decreases_to!(gst.code => gb));
            }
            let ob = match visit_body(body, indent, strip) {
                Ok(x) => x,
                Err(err) => {
                    return Err(err);
                },
            };
            Ok(
                Statement {
                    position,
                    code: StatementCode::Loop { indent, target, iterator, filter, body: ob },
                },
            )
        },
        other => Ok(Statement { position, code: other }),
    }
}

} // verus!
