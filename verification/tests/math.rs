//! Arithmetic and comparisons in templates, and the numeric lattice itself.

use trimmer::number::Number;
use trimmer::{Context, Parser, Value};

fn render_x_y(template: &str, x: Value, y: Value) -> String {
    let tpl = Parser::new().parse(template).unwrap();
    let mut vars: Context = Context::new();
    vars.set("x", x);
    vars.set("y", y);
    tpl.render(&vars).unwrap()
}

fn num(n: Number) -> Value {
    Value::Num(n)
}

#[test]
fn render_mul() {
    assert_eq!(
        render_x_y("{{ x * y }}", num(Number::U64(2)), num(Number::U64(3))),
        "6"
    );
}

#[test]
fn render_div() {
    assert_eq!(
        render_x_y("{{ x / y }}", num(Number::U64(6)), num(Number::U64(3))),
        "2"
    );
}

#[test]
fn render_mod() {
    assert_eq!(
        render_x_y("{{ x % y }}", num(Number::U64(5)), num(Number::U64(3))),
        "2"
    );
}

#[test]
fn render_sum_mul() {
    assert_eq!(
        render_x_y("{{ 2 + x * y }}", num(Number::U64(2)), num(Number::U64(3))),
        "8"
    );
}

#[test]
fn render_parenthesis() {
    assert_eq!(
        render_x_y("{{ (2+x) * y }}", num(Number::U64(2)), num(Number::U64(3))),
        "12"
    );
}

#[test]
fn render_greater() {
    assert_eq!(
        render_x_y(
            "{{ x > y }}",
            Value::Str("x".chars().collect()),
            Value::Str("y".chars().collect())
        ),
        "false"
    );
    assert_eq!(
        render_x_y("{{ x > y }}", num(Number::I64(2)), num(Number::I64(1))),
        "true"
    );
    assert_eq!(
        render_x_y("{{ x > y > 3 }}", num(Number::I64(5)), num(Number::I64(4))),
        "true"
    );
}

#[test]
fn chained_comparison_fails_at_first_link() {
    assert_eq!(
        render_x_y("{{ x > y > 3 }}", num(Number::I64(5)), num(Number::I64(2))),
        "false"
    );
}

#[test]
fn mixed_sign_addition() {
    assert_eq!(
        render_x_y("{{ x + y }}", num(Number::U64(10)), num(Number::I64(-100))),
        "-90"
    );
    assert_eq!(
        render_x_y("{{ x + y }}", num(Number::U64(10)), num(Number::I64(-1))),
        "9"
    );
    assert_eq!(
        render_x_y("{{ x + y }}", num(Number::U64(10)), num(Number::U64(7))),
        "17"
    );
}

#[test]
fn subtraction() {
    assert_eq!(
        render_x_y("{{ x - y }}", num(Number::U64(10)), num(Number::U64(7))),
        "3"
    );
    assert_eq!(
        render_x_y("{{ x - y }}", num(Number::I64(10)), num(Number::I64(-1))),
        "11"
    );
    assert_eq!(
        render_x_y("{{ x - y }}", num(Number::U64(1)), num(Number::U64(2))),
        "-1"
    );
}

#[test]
fn number_ops_exact() {
    assert_eq!(
        trimmer::number::add(Number::U64(10), Number::I64(-100)),
        Some(Number::I64(-90))
    );
    assert_eq!(trimmer::number::add(Number::U64(u64::MAX), Number::U64(1)), None);
    assert_eq!(trimmer::number::sub(Number::U64(3), Number::U64(5)), Some(Number::I64(-2)));
    assert_eq!(
        trimmer::number::mul(Number::I64(-3), Number::I64(-4)),
        Some(Number::U64(12))
    );
    assert_eq!(trimmer::number::div(Number::I64(7), Number::I64(2)), None);
    assert_eq!(trimmer::number::div(Number::I64(8), Number::I64(2)), Some(Number::U64(4)));
    assert_eq!(trimmer::number::div(Number::I64(1), Number::I64(0)), None);
    assert_eq!(trimmer::number::modulo(Number::I64(5), Number::I64(0)), None);
    assert_eq!(
        trimmer::number::modulo(Number::I64(-7), Number::I64(2)),
        Some(Number::I64(-1))
    );
}

#[test]
fn overflowing_addition_is_a_data_error() {
    let tpl = Parser::new().parse("{{ x + y }}").unwrap();
    let mut vars: Context = Context::new();
    vars.set("x", num(Number::U64(u64::MAX)));
    vars.set("y", num(Number::U64(1)));
    match tpl.render(&vars) {
        Ok(_) => panic!("expected a data error"),
        Err(trimmer::RenderError::Data(errs)) => {
            assert_eq!(errs.len(), 1);
            assert!(matches!(errs[0].1, trimmer::DataError::Overflow));
        }
    }
}
