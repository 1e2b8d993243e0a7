//! Parse-time errors: fatal, they abort compilation.

use vstd::prelude::*;

use crate::Pos;

verus! {

/// Error parsing a template.
#[derive(Debug, PartialEq)]
pub enum ParseError {
    /// Invalid syntax at a source position, with a human-readable message.
    InvalidSyntax(Pos, String),
    /// A `## syntax` directive named an unknown mode.
    InvalidSyntaxDirective,
    /// A second `## syntax` directive.
    DuplicateSyntaxDirective,
    /// A `## validate` directive held a malformed regular expression:
    /// the pattern, and what was wrong with it.
    BadRegexValidator(String, String),
    /// A `## filter` directive named an unknown filter.
    BadFilter(String),
}

} // verus!
