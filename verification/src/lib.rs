//! A text-template engine.
//!
//! A template source is compiled into an immutable [`Template`], which can
//! then be rendered against a caller-supplied [`Context`] of variables to
//! produce a string together with a list of positioned data errors.

pub mod chars;
pub mod compare;
pub mod escape;
pub mod grammar;
pub mod indent;
pub mod laws;
pub mod number;
pub mod oneline;
pub mod optimize;
pub mod options;
pub mod parse_error;
pub mod preparser;
pub mod render;
pub mod render_error;
pub mod tokenizer;
pub mod validators;
pub mod varmap;
pub mod vars;

pub use grammar::Parser;
pub use options::Options;
pub use parse_error::ParseError;
pub use render::Template;
pub use render_error::{DataError, RenderError};
pub use varmap::Context;
pub use vars::Value;

use vstd::prelude::*;

verus! {

/// A position in the template source: 1-based line and column.
#[derive(Debug, Clone, Copy, PartialEq, Eq, Structural)]
pub struct Pos {
    /// Line number, starting at 1.
    pub line: usize,
    /// Column number in characters, starting at 1.
    pub column: usize,
}

impl Pos {
    /// The position of the very first character of a source text.
    pub fn start() -> (r: Pos)
        ensures
            r.line == 1,
            r.column == 1,
    {
        Pos { line: 1, column: 1 }
    }
}

} // verus!
