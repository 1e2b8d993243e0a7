//! Options of a template.
//!
//! Usually all options are set in the template itself using `## syntax ...`
//! and `## validate ...` directives, but this value can be prefilled with
//! defaults that suit the application, and handed to
//! `Parser::parse_with_options`.

use vstd::prelude::*;

use crate::preparser::Syntax;
use crate::validators::Filter;

verus! {

/// The compiled configuration of a template.
#[derive(Debug, Clone)]
pub struct Options {
    /// The syntax mode.
    pub syntax: Syntax,
    /// Whether a newline is required at the end of the file.
    pub new_line_at_eof: Option<bool>,
    /// Whether curly parentheses are allowed.
    pub curly: bool,
    /// Whether square parentheses are allowed.
    pub square: bool,
    /// Whether round parentheses are allowed.
    pub round: bool,
    /// The filter applied to outputs that name no filter.
    pub default_filter: Filter,
    /// The named filters; a later entry with the same name overrides an
    /// earlier one.
    pub filters: Vec<(Vec<char>, Filter)>,
}

impl Options {
    /// Options with all default values: plain syntax, no filters.
    pub fn new() -> (r: Options)
        ensures
            r.syntax == Syntax::Plain,
            r.new_line_at_eof == None::<bool>,
            !r.curly && !r.square && !r.round,
            r.default_filter == Filter::NoFilter,
            r.filters@ =~= Seq::<(Vec<char>, Filter)>::empty(),
    {
        Options {
            syntax: Syntax::Plain,
            new_line_at_eof: None,
            curly: false,
            square: false,
            round: false,
            default_filter: Filter::NoFilter,
            filters: Vec::new(),
        }
    }

    /// Enables `oneline` syntax by default; the template can still override
    /// it with its own `## syntax` directive.
    pub fn syntax_oneline(self) -> (r: Options)
        ensures
            r == (Options { syntax: Syntax::Oneline, ..self }),
    {
        Options { syntax: Syntax::Oneline, ..self }
    }

    /// Enables `indent` syntax by default; the template can still override
    /// it with its own `## syntax` directive.
    pub fn syntax_indent(self) -> (r: Options)
        ensures
            r == (Options { syntax: Syntax::Indent, ..self }),
    {
        Options { syntax: Syntax::Indent, ..self }
    }
}

} // verus!
