//! Output filters and validators named by `## validate` and `## filter`
//! directives.

use vstd::prelude::*;

use crate::escape;

verus! {

/// A built-in escape filter.
#[derive(Debug, Clone, Copy, PartialEq, Eq, Structural)]
pub enum BuiltinEscape {
    /// Escape `& < > " ' / `` ` `` for HTML contexts.
    HtmlEntities,
    /// POSIX single-quote escaping of a shell argument.
    QuotedShellArgument,
}

/// A filter applied to the freshly written output of an expression.
#[derive(Debug, Clone, PartialEq)]
pub enum Filter {
    /// No filtering: the value is written as is.
    NoFilter,
    /// Validate the written slice against a regular expression, given here
    /// by its anchored pattern.  A mismatch is a data error, not fatal.
    Validate(Vec<char>),
    /// Rewrite the written slice with a built-in escape.
    Escape(BuiltinEscape),
}

impl BuiltinEscape {
    /// The filter named `val` in a `## filter` directive, if the name is known.
    pub fn from_str(val: &Vec<char>) -> (r: Option<BuiltinEscape>)
        ensures
            r == (if val@ == "builtin.html_entities"@ {
                Some(BuiltinEscape::HtmlEntities)
            } else if val@ == "builtin.quoted_shell_argument"@ {
                Some(BuiltinEscape::QuotedShellArgument)
            } else {
                None::<BuiltinEscape>
            }),
    {
        proof {
            reveal_strlit("builtin.html_entities");
            reveal_strlit("builtin.quoted_shell_argument");
        }
        if crate::chars::eq_str(val, "builtin.html_entities") {
            Some(BuiltinEscape::HtmlEntities)
        } else if crate::chars::eq_str(val, "builtin.quoted_shell_argument") {
            Some(BuiltinEscape::QuotedShellArgument)
        } else {
            None
        }
    }

    /// The model of what this escape does to a text.
    pub open spec fn escaped(self, src: Seq<char>) -> Seq<char> {
        match self {
            BuiltinEscape::HtmlEntities => escape::html_escaped(src),
            BuiltinEscape::QuotedShellArgument => escape::shell_quoted(src),
        }
    }

    /// Append the escaped form of `src` to `dest`.
    pub fn escape(&self, dest: &mut String, src: &str)
        ensures
            final(dest)@ == old(dest)@ + self.escaped(src@),
    {
        match *self {
            BuiltinEscape::HtmlEntities => escape::html_entities(dest, src),
            BuiltinEscape::QuotedShellArgument => escape::quoted_shell_argument(dest, src),
        }
    }

    /// Append the escaped form of `src` to `dest`, on character vectors.
    pub fn escape_chars(&self, dest: &mut Vec<char>, src: &Vec<char>)
        ensures
            final(dest)@ == old(dest)@ + self.escaped(src@),
    {
        match *self {
            BuiltinEscape::HtmlEntities => escape::html_entities_chars(dest, src),
            BuiltinEscape::QuotedShellArgument => escape::quoted_shell_argument_chars(dest, src),
        }
    }
}

} // verus!
verus! {

/// Whether a pattern is a valid regular expression, as the regex engine
/// decides it.
pub uninterp spec fn regex_valid(pattern: Seq<char>) -> bool;

/// Whether the regular expression compiled from `pattern` matches `text`;
/// the outcome depends on the pattern and the text alone.
pub uninterp spec fn regex_match(pattern: Seq<char>, text: Seq<char>) -> bool;

/// Relies on `regex::Regex::new`: it accepts exactly the well-formed
/// patterns.  The error text, when there is one, describes the fault.
#[verifier::external_body]
pub fn regex_error(pattern: &str) -> (r: Option<String>)
    ensures
        r is None <==> regex_valid(pattern@),
{
    match regex::Regex::new(pattern) {
        Ok(_) => None,
        Err(e) => Some(format!("{}", e)),
    }
}

/// Relies on `regex::Regex::new` and `regex::Regex::is_match`: a
/// well-formed pattern compiles and then matches a text by the pattern and
/// the text alone; an ill-formed one has no outcome.
#[verifier::external_body]
pub fn regex_try_match(pattern: &str, text: &str) -> (r: Option<bool>)
    ensures
        r == (if regex_valid(pattern@) {
            Some(regex_match(pattern@, text@))
        } else {
            None::<bool>
        }),
{
    match regex::Regex::new(pattern) {
        Ok(re) => Some(re.is_match(text)),
        Err(_) => None,
    }
}

/// The model of a filter.
pub ghost enum GFilter {
    /// No filtering.
    NoFilter,
    /// Validation against an anchored pattern.
    Validate(Seq<char>),
    /// A built-in escape.
    Escape(BuiltinEscape),
}

/// The model of a filter.
pub open spec fn view_filter(f: Filter) -> GFilter {
    match f {
        Filter::NoFilter => GFilter::NoFilter,
        Filter::Validate(p) => GFilter::Validate(p@),
        Filter::Escape(b) => GFilter::Escape(b),
    }
}

} // verus!
