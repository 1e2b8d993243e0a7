//! The preparser extracts directives into options.

use trimmer::preparser::{Preparser, Syntax};
use trimmer::validators::Filter;
use trimmer::Options;

#[test]
fn indent() {
    let opt = Preparser::new()
        .scan("## syntax: indent\n", &Options::new())
        .unwrap();
    assert_eq!(opt.syntax, Syntax::Indent);
    assert!(matches!(opt.default_filter, Filter::NoFilter));
    assert_eq!(opt.filters.len(), 0);
}

#[test]
fn oneline() {
    let opt = Preparser::new()
        .scan("## syntax: oneline\n", &Options::new())
        .unwrap();
    assert_eq!(opt.syntax, Syntax::Oneline);
    assert!(matches!(opt.default_filter, Filter::NoFilter));
    assert_eq!(opt.filters.len(), 0);
}

#[test]
fn default_oneline_approve() {
    let opt = Preparser::new()
        .scan("## syntax: oneline\n", &Options::new().syntax_oneline())
        .unwrap();
    assert_eq!(opt.syntax, Syntax::Oneline);
}

#[test]
fn default_oneline_override() {
    let opt = Preparser::new()
        .scan("## syntax: indent\n", &Options::new().syntax_oneline())
        .unwrap();
    assert_eq!(opt.syntax, Syntax::Indent);
}

#[test]
fn default_oneline() {
    let opt = Preparser::new()
        .scan("xxxx\n", &Options::new().syntax_oneline())
        .unwrap();
    assert_eq!(opt.syntax, Syntax::Oneline);
}

#[test]
fn minimal() {
    let opt = Preparser::new().scan("", &Options::new()).unwrap();
    assert_eq!(opt.syntax, Syntax::Plain);
}
