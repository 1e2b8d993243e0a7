//! Validators run against the freshly written output of an expression.

use trimmer::{Context, Parser, Value};

fn render_x(template: &str, x: &str) -> String {
    let tpl = Parser::new().parse(template).unwrap();
    let mut vars: Context = Context::new();
    vars.set("x", Value::Str(x.chars().collect()));
    tpl.render(&vars).unwrap()
}

#[test]
fn valid_default() {
    assert_eq!(
        &render_x(
            "## syntax: oneline\n## validate default: [a-z]+\n{{ x }}",
            "hello"
        ),
        "hello"
    );
}

#[test]
fn valid_empty() {
    assert_eq!(
        &render_x(
            "## syntax: oneline\n## validate empty:\n{{ '' }}",
            "hello"
        ),
        ""
    );
}

#[test]
fn comment_in_validator() {
    assert_eq!(
        &render_x(
            "## syntax: oneline\n## validate default: [a-z]+  # safe default\n{{ x }}",
            "hello"
        ),
        "hello"
    );
}

#[test]
fn validator_tokenizing_number() {
    assert_eq!(
        &render_x(
            "## syntax: oneline\n## validate default: [0-9a-z]+\n{{ x }}",
            "hello"
        ),
        "hello"
    );
}

#[test]
fn validators_and_comments() {
    assert_eq!(
        &render_x(
            "## syntax: oneline\n### Default validator \n## validate default: [0-9a-z]+\n{{ x }}",
            "hello"
        ),
        "hello"
    );
}

#[test]
fn validator_tokenizing_caret() {
    assert_eq!(
        &render_x(
            "## syntax: oneline\n## validate default: [^0-9]+\n{{ x }}",
            "hello"
        ),
        "hello"
    );
}

#[test]
#[should_panic]
fn valid_default_non_matching() {
    render_x(
        "## syntax: oneline\n## validate default: [a-z]+\n{{ x }}",
        "a+b",
    );
}

#[test]
fn valid_non_default_override() {
    render_x(
        "## syntax: oneline\n## validate default: [a-z]+\n## validate sum: [a-z+]+\n{{ x | sum }}",
        "a+b",
    );
}

#[test]
fn bad_validator_pattern_is_a_parse_error() {
    let r = Parser::new().parse("## validate default: [a-z\n{{ x }}");
    match r {
        Err(trimmer::ParseError::BadRegexValidator(_, _)) => {}
        other => panic!("unexpected outcome {:?}", other.is_ok()),
    }
}
