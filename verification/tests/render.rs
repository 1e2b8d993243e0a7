//! Rendering templates against contexts.

use trimmer::{Context, Parser, Value};

fn chars(s: &str) -> Vec<char> {
    s.chars().collect()
}

fn sval(s: &str) -> Value {
    Value::Str(chars(s))
}

fn parse(template: &str) -> trimmer::Template {
    Parser::new().parse(template).unwrap()
}

fn render_x(template: &str) -> String {
    let tpl = parse(template);
    let mut vars: Context = Context::new();
    vars.set("x", sval("x"));
    tpl.render(&vars).unwrap()
}

#[test]
fn render_hello() {
    let t = parse("hello");
    assert_eq!(&t.render(&Context::new()).unwrap(), "hello");
}

#[test]
fn escape() {
    let t = parse("{{ '{{' }}");
    assert_eq!(&t.render(&Context::new()).unwrap(), "{{");
}

#[test]
fn number() {
    let t = parse("{{ 42 }}");
    assert_eq!(&t.render(&Context::new()).unwrap(), "42");
}

#[test]
fn comment() {
    let t = parse("{{ x }} {# +  {{ y }} #} + {{ z }}");
    let mut c = Context::new();
    c.set("x", sval("2"));
    c.set("y", sval("3"));
    c.set("z", sval("4"));
    assert_eq!(&t.render(&c).unwrap(), "2  + 4");
}

#[test]
fn line_comment() {
    assert_eq!(render_x("x\n### hello\ny"), "x\ny")
}

#[test]
fn indented_comment() {
    assert_eq!(render_x("x\n    ### hello\ny"), "x\ny")
}

#[test]
fn not_comment() {
    assert_eq!(render_x("x ### hello\ny"), "x\ny")
}

#[test]
fn var_borrow_static() {
    let t = parse("a{{ y }}b");
    let mut c = Context::new();
    c.set("y", sval(" / "));
    assert_eq!(&t.render(&c).unwrap(), "a / b");
}

#[test]
fn var_borrow_hashmap() {
    let t = parse("k1: {{ map.k1 }}, k2: {{ map.k2 }}");
    let map = Value::Dict(vec![(chars("k1"), sval("x")), (chars("k2"), sval("y"))]);
    let mut c = Context::new();
    c.set("map", map);
    assert_eq!(&t.render(&c).unwrap(), "k1: x, k2: y");
}

#[test]
fn var_str() {
    let t = parse("a{{ z }}b");
    let mut c = Context::new();
    c.set("z", sval("*"));
    assert_eq!(&t.render(&c).unwrap(), "a*b");
}

#[test]
fn aliasing_vars() {
    let t = parse("## let x = y\na{{ x }}b");
    let mut c = Context::new();
    c.set("y", sval("+"));
    assert_eq!(&t.render(&c).unwrap(), "a+b");
}

#[test]
fn const_str() {
    let t = parse(r#"a{{ " and " }}b"#);
    let c = Context::new();
    assert_eq!(&t.render(&c).unwrap(), "a and b");
}

#[test]
fn cond() {
    let t = parse("## if x\n  y\n## endif\n");
    let mut c = Context::new();
    c.set("x", sval(""));
    assert_eq!(&t.render(&c).unwrap(), "");
    c.set("x", sval("x"));
    assert_eq!(&t.render(&c).unwrap(), "  y\n");
}

#[test]
fn cond_comment() {
    let t = parse("## if x #comment\n  y\n## endif\n");
    let mut c = Context::new();
    c.set("x", sval("x"));
    assert_eq!(&t.render(&c).unwrap(), "  y\n");
}

#[test]
fn cond_else() {
    let t = parse("## if x\n  y\n## else\n  z\n## endif\n");
    let mut c = Context::new();
    c.set("x", sval(""));
    assert_eq!(&t.render(&c).unwrap(), "  z\n");
    c.set("x", sval("x"));
    assert_eq!(&t.render(&c).unwrap(), "  y\n");
}

#[test]
fn cond_not() {
    let t = parse("## if not x\n  y\n## else\n  z\n## endif\n");
    let mut c = Context::new();
    c.set("x", sval(""));
    assert_eq!(&t.render(&c).unwrap(), "  y\n");
    c.set("x", sval("x"));
    assert_eq!(&t.render(&c).unwrap(), "  z\n");
}

#[test]
fn print_not() {
    let t = parse("{{ not x }}");
    let mut c = Context::new();
    c.set("x", sval(""));
    assert_eq!(&t.render(&c).unwrap(), "true");
    c.set("x", sval("x"));
    assert_eq!(&t.render(&c).unwrap(), "false");
}

#[test]
fn cond_elif() {
    let t = parse("## if x\n  y\n## elif 1\n  z\n## endif\n");
    let mut c = Context::new();
    c.set("x", sval(""));
    assert_eq!(&t.render(&c).unwrap(), "  z\n");
    c.set("x", sval("x"));
    assert_eq!(&t.render(&c).unwrap(), "  y\n");
}

#[test]
fn render_iteration() {
    let t = parse("## for x in items\n  - {{ x }}\n## endfor\n");
    let v = Value::List(vec![sval("a"), sval("b")]);
    let mut c = Context::new();
    c.set("items", v);
    assert_eq!(&t.render(&c).unwrap(), "  - a\n  - b\n");
}

#[test]
fn skip_if() {
    let t = parse("## for x in items\n## skip if x == 'b'\n- {{ x }}\n## endfor\n");
    let v = Value::List(vec![sval("a"), sval("b"), sval("c")]);
    let mut c = Context::new();
    c.set("items", v);
    assert_eq!(&t.render(&c).unwrap(), "- a\n- c\n");
}

#[test]
fn pair_iteration() {
    let t = parse("## syntax: indent\n## for k, v in items\n  {{ k }}: {{ v }}\n## endfor\n");
    let v = Value::Dict(vec![(chars("x"), sval("1")), (chars("y"), sval("2"))]);
    let mut c = Context::new();
    c.set("items", v);
    let result = t.render(&c).unwrap();
    assert!(result == "x: 1\ny: 2\n" || result == "y: 2\nx: 1\n");
}

#[test]
fn strip_right() {
    assert_eq!(render_x("{{ x }}   {{- x }}"), "xx");
}

#[test]
fn strip_left() {
    assert_eq!(render_x("{{ x }}     {{- x }}"), "xx");
}

#[test]
fn strip_both() {
    assert_eq!(render_x("{{ x -}}   {{- x }}"), "xx");
}

#[test]
fn space_left() {
    assert_eq!(render_x("{{ x +}}   {{ x }}"), "x x");
}

#[test]
fn space_right() {
    assert_eq!(render_x("{{ x }}  {{+ x }}"), "x x");
}

#[test]
fn space_right_eol() {
    assert_eq!(render_x("{{ x }}\n## if x\n  {{+ x }}\n## endif"), "x x\n");
}

#[test]
fn space_left_eol() {
    assert_eq!(render_x("{{ x +}}\n## if x\n  {{ x }}\n## endif"), "x x\n");
}

#[test]
fn space_both() {
    assert_eq!(render_x("{{ x }}  {{+ x }}"), "x x");
}

#[test]
fn space_and_strip1() {
    assert_eq!(render_x("{{ x -}}  {{+ x }}"), "xx");
}

#[test]
fn space_and_strip2() {
    assert_eq!(render_x("{{ x +}}  {{- x }}"), "xx");
}

#[test]
fn preserve_manually() {
    assert_eq!(render_x(r#"{{ x -}}  {{ "" }}  {{ " " }} {{- x }}"#), "x   x");
}

#[test]
fn line_joiner() {
    assert_eq!(render_x("a  ##\n  b"), "a b");
}

#[test]
fn use_dict() {
    assert_eq!(
        render_x("## let a = {'x': 1, 'y': 2}\n{{ a['x'] }} / {{ a['y'] }}"),
        "1 / 2"
    );
}

#[test]
fn use_list() {
    assert_eq!(
        render_x("## let a = [4, 3, 5]\n## for i in a\n{{ i }}\n## endfor"),
        "4\n3\n5\n"
    );
}

#[test]
fn partial_failure_reports_one_error() {
    let t = parse("{{ x }} mid {{ y }}");
    let mut c = Context::new();
    c.set("x", sval("ok"));
    match t.render(&c) {
        Ok(_) => panic!("expected a data error"),
        Err(trimmer::RenderError::Data(errs)) => {
            assert_eq!(errs.len(), 1);
            match &errs[0].1 {
                trimmer::DataError::VariableNotFound(name) => {
                    assert_eq!(name.iter().collect::<String>(), "y");
                }
                other => panic!("unexpected error {:?}", other),
            }
        }
    }
}

#[test]
fn loop_binding_invisible_after_loop() {
    let t = parse("## for i in items\n{{ i }}\n## endfor\n{{ i }}");
    let mut c = Context::new();
    c.set("items", Value::List(vec![sval("a")]));
    match t.render(&c) {
        Ok(_) => panic!("expected a data error"),
        Err(trimmer::RenderError::Data(errs)) => {
            assert_eq!(errs.len(), 1);
            match &errs[0].1 {
                trimmer::DataError::VariableNotFound(name) => {
                    assert_eq!(name.iter().collect::<String>(), "i");
                }
                other => panic!("unexpected error {:?}", other),
            }
        }
    }
}
