//! Boolean operators short-circuit on the value of the left operand.

use trimmer::{Context, Parser, Value};

fn render(template: &str) -> String {
    let tpl = Parser::new().parse(template).unwrap();
    let mut vars: Context = Context::new();
    vars.set("yes", Value::Bool(true));
    vars.set("no", Value::Bool(false));
    vars.set("a", Value::Str("a".chars().collect()));
    vars.set("b", Value::Str("b".chars().collect()));
    tpl.render(&vars).unwrap()
}

#[test]
fn test_and_true() {
    assert_eq!(render("{{ yes and a }}"), "a");
}

#[test]
fn test_and_false() {
    assert_eq!(render("{{ no and a }}"), "false");
}

#[test]
fn test_or_true() {
    assert_eq!(render("{{ yes or a }}"), "true");
}

#[test]
fn test_or_false() {
    assert_eq!(render("{{ no or a }}"), "a");
}

#[test]
fn test_and_or_a() {
    assert_eq!(render("{{ yes and a or b }}"), "a");
}

#[test]
fn test_and_or_b() {
    assert_eq!(render("{{ no and a or b }}"), "b");
}

#[test]
fn test_and_or_false() {
    assert_eq!(render("{{ yes and no or b }}"), "b");
}
