//! The data-binding model: undefined attributes and indexes render empty.

use trimmer::{Context, Parser, Value};

fn chars(s: &str) -> Vec<char> {
    s.chars().collect()
}

fn sval(s: &str) -> Value {
    Value::Str(chars(s))
}

fn render_var(template: &str, value: Value) -> String {
    let tpl = Parser::new().parse(template).unwrap();
    let mut vars: Context = Context::new();
    vars.set("x", value);
    tpl.render(&vars).unwrap()
}

#[test]
#[should_panic(expected = "VariableNotFound")]
fn render_unknown_var() {
    render_var("{{ x }} {{ y }}", sval("x"));
}

#[test]
fn render_str() {
    assert_eq!(render_var("{{x}}", sval("xxyy")), "xxyy");
}

#[test]
fn undefined_attrs() {
    let tpl = Parser::new()
        .parse("## syntax: oneline\n        k: {{ x.k1 }},\n        k2: {{ x.k2 }},\n        k3.b: {{ x.k3.b }}\n    ")
        .unwrap();
    let x = Value::Dict(vec![(chars("k1"), sval("v"))]);
    let mut vars: Context = Context::new();
    vars.set("x", x);
    assert_eq!(tpl.render(&vars).unwrap(), "k: v, k2: , k3.b: ");
}

#[test]
fn undefined_str_index() {
    let tpl = Parser::new()
        .parse("## syntax: oneline\n        k: {{ x['k1'] }},\n        k2: {{ x['k2'] }},\n        k3.b: {{ x['k3'].b }}\n    ")
        .unwrap();
    let x = Value::Dict(vec![(chars("k1"), sval("v"))]);
    let mut vars: Context = Context::new();
    vars.set("x", x);
    assert_eq!(tpl.render(&vars).unwrap(), "k: v, k2: , k3.b: ");
}

#[test]
fn undefined_int_index() {
    let tpl = Parser::new()
        .parse("## syntax: oneline\n        2: {{ x[1] }},\n        3: {{ x[2] }},\n        3.b: {{ x[2].b }}\n    ")
        .unwrap();
    let x = Value::List(vec![sval("v1"), sval("v2")]);
    let mut vars: Context = Context::new();
    vars.set("x", x);
    assert_eq!(tpl.render(&vars).unwrap(), "2: v2, 3: , 3.b: ");
}

#[test]
#[should_panic(expected = "IntKeyUnsupported")]
fn str_key_in_list() {
    let tpl = Parser::new()
        .parse("## syntax: oneline\n        k: {{ x['k1'] }},\n    ")
        .unwrap();
    let x = Value::List(vec![]);
    let mut vars: Context = Context::new();
    vars.set("x", x);
    tpl.render(&vars).unwrap();
}
