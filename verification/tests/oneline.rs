//! The one-line syntax mode collapses whitespace to single spaces.

use trimmer::{Context, Parser, Value};

fn stdvars(template: &str) -> String {
    let template = format!("## syntax: oneline\n{}", template);
    let tpl = Parser::new().parse(&template).unwrap();
    let mut vars: Context = Context::new();
    vars.set("x", Value::Num(trimmer::number::Number::I64(1)));
    tpl.render(&vars).unwrap()
}

fn no_double_space(s: &str) {
    assert!(!s.contains("  "), "double space in {:?}", s);
    assert!(!s.starts_with(' ') && !s.ends_with(' '), "edge space in {:?}", s);
}

#[test]
fn text_only() {
    let r = stdvars("\n        just some\n            text\n    ");
    assert_eq!(r, "just some text");
    no_double_space(&r);
}

#[test]
fn var_and_ws() {
    assert_eq!(stdvars("   {{ x }} "), "1");
}

#[test]
fn var_at_start() {
    assert_eq!(stdvars("{{ x }}x"), "1x");
}

#[test]
fn var_at_end() {
    assert_eq!(stdvars("x{{ x }}"), "x1");
}

#[test]
fn start_spaces() {
    assert_eq!(stdvars("  x{{ x }}"), "x1");
}

#[test]
fn var_start_spaces() {
    assert_eq!(stdvars("  x  {{ x }}"), "x 1");
}

#[test]
fn start_var_spaces() {
    assert_eq!(stdvars("x  {{ x }}"), "x 1");
}

#[test]
fn end_spaces() {
    assert_eq!(stdvars("{{ x }}x   "), "1x");
}

#[test]
fn var_end_spaces() {
    assert_eq!(stdvars("{{ x }}  x   "), "1 x");
}

#[test]
fn end_var_spaces() {
    assert_eq!(stdvars("{{ x }} x"), "1 x");
}

#[test]
fn if_spaces() {
    let r = stdvars("\n## if x\n            {{ x }}\n## endif\n    ");
    assert_eq!(r, "1");
    no_double_space(&r);
}

#[test]
fn two_lines() {
    let r = stdvars("\n            {{ x }}\n            {{ x }}\n    ");
    assert_eq!(r, "1 1");
    no_double_space(&r);
}

#[test]
fn two_ifs() {
    let r = stdvars("\n## if 1\na\n## endif\n## if 2\nb\n## endif\n    ");
    assert_eq!(r, "a b");
    no_double_space(&r);
}

#[test]
fn two_ifs_vars() {
    let r = stdvars("\n## if 1\n  {{ x }}\n## endif\n## if 2\n  {{ x }}\n## endif\n    ");
    assert_eq!(r, "1 1");
    no_double_space(&r);
}

#[test]
fn two_ifs_mixed_left() {
    let r = stdvars("\n## if 1\n  x\n## endif\n## if 2\n  {{ x }}\n## endif\n    ");
    assert_eq!(r, "x 1");
    no_double_space(&r);
}

#[test]
fn two_ifs_mixed_right() {
    let r = stdvars("\n## if 1\n  {{ x }}\n## endif\n## if 2\n  x\n## endif\n    ");
    assert_eq!(r, "1 x");
    no_double_space(&r);
}
