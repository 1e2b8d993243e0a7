//! The statement trees the parser builds, with their source spans.

use trimmer::grammar::ExprCode::Var;
use trimmer::grammar::StatementCode::{Alias, Cond, Loop, Output, OutputRaw};
use trimmer::grammar::{AssignTarget, Body, Expr, OutputMode, Parser, Statement};
use trimmer::render::extract;
use trimmer::Pos;

fn chars(s: &str) -> Vec<char> {
    s.chars().collect()
}

fn parse(data: &'static str) -> Vec<Statement> {
    extract(Parser::new().parse(data).unwrap()).body.statements
}

fn line(line_no: usize, start: usize, end: usize) -> (Pos, Pos) {
    (
        Pos {
            line: line_no,
            column: start,
        },
        Pos {
            line: line_no,
            column: end,
        },
    )
}

fn lines(line_st: usize, start: usize, line_end: usize, end: usize) -> (Pos, Pos) {
    (
        Pos {
            line: line_st,
            column: start,
        },
        Pos {
            line: line_end,
            column: end,
        },
    )
}

fn out(position: (Pos, Pos), expr: Expr) -> Statement {
    Statement {
        position,
        code: Output {
            left_ws: OutputMode::Preserve,
            expr,
            validator: None,
            right_ws: OutputMode::Preserve,
        },
    }
}

#[test]
fn body_empty() {
    assert_eq!(parse(""), vec![]);
}

#[test]
fn body_hello() {
    assert_eq!(
        parse("hello"),
        vec![Statement {
            position: line(1, 1, 6),
            code: OutputRaw(chars("hello")),
        }]
    );
}

#[test]
fn var() {
    assert_eq!(
        parse("a{{ x }}b"),
        vec![
            Statement {
                position: line(1, 1, 2),
                code: OutputRaw(chars("a")),
            },
            out(
                line(1, 2, 9),
                Expr {
                    position: line(1, 5, 6),
                    code: Var(chars("x")),
                }
            ),
            Statement {
                position: line(1, 9, 10),
                code: OutputRaw(chars("b")),
            },
        ]
    );
}

#[test]
fn condition() {
    assert_eq!(
        parse("a\n## if x\n  b\n## endif\n"),
        vec![
            Statement {
                position: lines(1, 1, 2, 1),
                code: OutputRaw(chars("a\n")),
            },
            Statement {
                position: lines(2, 1, 5, 1),
                code: Cond {
                    indent: 0,
                    conditional: vec![(
                        Expr {
                            position: line(2, 7, 8),
                            code: Var(chars("x")),
                        },
                        Body {
                            statements: vec![Statement {
                                position: lines(3, 1, 4, 1),
                                code: OutputRaw(chars("  b\n")),
                            }],
                        }
                    )],
                    otherwise: Body { statements: vec![] },
                },
            },
        ]
    );
}

#[test]
fn indented_condition() {
    assert_eq!(
        parse("a\n    ## if x\n  b\n    ## endif\n"),
        vec![
            Statement {
                position: lines(1, 1, 2, 1),
                code: OutputRaw(chars("a\n")),
            },
            Statement {
                position: lines(2, 1, 5, 1),
                code: Cond {
                    indent: 4,
                    conditional: vec![(
                        Expr {
                            position: line(2, 11, 12),
                            code: Var(chars("x")),
                        },
                        Body {
                            statements: vec![Statement {
                                position: lines(3, 1, 4, 1),
                                code: OutputRaw(chars("  b\n")),
                            }],
                        }
                    )],
                    otherwise: Body { statements: vec![] },
                },
            },
        ]
    );
}

#[test]
fn body_iteration() {
    assert_eq!(
        parse("a\n## for x in y\n  - {{ x }}\n## endfor\n"),
        vec![
            Statement {
                position: lines(1, 1, 2, 1),
                code: OutputRaw(chars("a\n")),
            },
            Statement {
                position: lines(2, 1, 5, 1),
                code: Loop {
                    indent: 0,
                    target: AssignTarget::Var(chars("x")),
                    iterator: Expr {
                        position: line(2, 13, 14),
                        code: Var(chars("y")),
                    },
                    filter: None,
                    body: Body {
                        statements: vec![
                            Statement {
                                position: line(3, 1, 5),
                                code: OutputRaw(chars("  - ")),
                            },
                            out(
                                line(3, 5, 12),
                                Expr {
                                    position: line(3, 8, 9),
                                    code: Var(chars("x")),
                                }
                            ),
                            Statement {
                                position: lines(3, 12, 4, 1),
                                code: OutputRaw(chars("\n")),
                            },
                        ],
                    },
                },
            },
        ]
    );
}

#[test]
fn assign() {
    assert_eq!(
        parse("## let x = y\n"),
        vec![Statement {
            position: lines(1, 1, 2, 1),
            code: Alias {
                target: AssignTarget::Var(chars("x")),
                value: Expr {
                    position: line(1, 12, 13),
                    code: Var(chars("y")),
                },
            },
        }]
    );
}

#[test]
fn at_eof() {
    assert_eq!(
        parse("## let x = y"),
        vec![Statement {
            position: lines(1, 1, 1, 13),
            code: Alias {
                target: AssignTarget::Var(chars("x")),
                value: Expr {
                    position: line(1, 12, 13),
                    code: Var(chars("y")),
                },
            },
        }]
    );
}
