//! The indent syntax mode re-indents nested blocks to their logical column.

use trimmer::{Context, Parser, Value};

fn chars(s: &str) -> Vec<char> {
    s.chars().collect()
}

fn sval(s: &str) -> Value {
    Value::Str(chars(s))
}

fn render_vars(template: &str, vars: Vec<(&str, Value)>) -> String {
    let tpl = Parser::new()
        .parse(&format!("## syntax: indent\n{}", template))
        .unwrap();
    let mut c: Context = Context::new();
    for (k, v) in vars {
        c.set(k, v);
    }
    tpl.render(&c).unwrap()
}

#[test]
fn indent_empty() {
    let t = Parser::new().parse("").unwrap();
    assert_eq!(t.render(&Context::new()).unwrap(), "");
}

#[test]
fn indent_hello() {
    let t = Parser::new().parse("hello\n  world").unwrap();
    assert_eq!(t.render(&Context::new()).unwrap(), "hello\n  world");
}

#[test]
fn indented_if() {
    assert_eq!(
        render_vars(
            "\nhello:\n    a: 1\n    ## if x\n        x: {{ x }}\n        y: {{ x }}+x\n    ## endif\n",
            vec![("x", sval("2"))],
        ),
        "\nhello:\n    a: 1\n    x: 2\n    y: 2+x\n"
    );
}

#[test]
fn nested_blocks() {
    assert_eq!(
        render_vars(
            "\nhello:\n    a: 1\n    ## if x\n        {{ x }}: 2\n        ## if y\n            y: {{ x }}+x\n        ## endif\n    ## endif\n",
            vec![("x", sval("x")), ("y", Value::Bool(true))],
        ),
        "\nhello:\n    a: 1\n    x: 2\n    y: x+x\n"
    );
}

#[test]
fn directly_nested_blocks() {
    assert_eq!(
        render_vars(
            "\nhello:\n    a: 1\n    ## if x\n        ## if y\n            x: {{ x }}\n            y: {{ x }}+x\n        ## endif\n    ## endif\n",
            vec![("x", sval("2")), ("y", Value::Bool(true))],
        ),
        "\nhello:\n    a: 1\n    x: 2\n    y: 2+x\n"
    );
}

#[test]
fn block_space() {
    let tpl = Parser::new()
        .parse("\n\n## if 1\n{{ x }}\n## endif\n\n\n## if 1\n{{ x }}\n## endif\n\n")
        .unwrap();
    let mut c: Context = Context::new();
    c.set("x", sval("x"));
    assert_eq!(tpl.render(&c).unwrap(), "x\nx\n");
}

#[test]
fn under_indented_line_is_rejected() {
    let r = Parser::new().parse("## syntax: indent\n    ## if x\nno\n    ## endif\n");
    match r {
        Err(trimmer::ParseError::InvalidSyntax(_, _)) => {}
        other => panic!("unexpected outcome {:?}", other.is_ok()),
    }
}
