//! Built-in escape filters rewrite the freshly written output.

use trimmer::{Context, Parser, Value};

fn render_x(template: &str, x: &str) -> String {
    let tpl = Parser::new().parse(template).unwrap();
    let mut vars: Context = Context::new();
    vars.set("x", Value::Str(x.chars().collect()));
    tpl.render(&vars).unwrap()
}

#[test]
fn filter_default() {
    assert_eq!(
        &render_x(
            "## syntax: oneline\n## filter default: builtin.html_entities\n{{ x }}",
            "<a>"
        ),
        "&lt;a&gt;"
    );
}

#[test]
fn filter_html() {
    assert_eq!(
        &render_x(
            "## syntax: oneline\n## filter h: builtin.html_entities\n{{ x | h }}",
            "<a>"
        ),
        "&lt;a&gt;"
    );
}

#[test]
fn filter_shell_argument() {
    assert_eq!(
        &render_x(
            "## syntax: oneline\n## filter arg: builtin.quoted_shell_argument\necho {{ x | arg }}",
            "don't crash"
        ),
        r#"echo 'don'"'"'t crash'"#
    );
}

#[test]
fn unknown_filter_name_is_a_parse_error() {
    let r = Parser::new().parse("## filter h: builtin.nothing\n{{ x | h }}");
    match r {
        Err(trimmer::ParseError::BadFilter(_)) => {}
        other => panic!("unexpected outcome {:?}", other.is_ok()),
    }
}

#[test]
fn html_entities_exact() {
    let mut out = String::new();
    trimmer::escape::html_entities(&mut out, "&<>\"'/`z");
    assert_eq!(out, "&amp;&lt;&gt;&quot;&#x27;&#x2f;&#x96;z");
}

#[test]
fn quoted_shell_argument_exact() {
    let mut out = String::new();
    trimmer::escape::quoted_shell_argument(&mut out, "a'b");
    assert_eq!(out, r#"'a'"'"'b'"#);
}
