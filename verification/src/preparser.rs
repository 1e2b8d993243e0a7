//! The preparser: a line-oriented scanner run once over the whole source
//! before tokenizing, extracting global directives into [`Options`].

use vstd::prelude::*;

verus! {

/// The syntax mode of a template.
#[derive(Debug, Clone, Copy, PartialEq, Eq, Structural)]
pub enum Syntax {
    /// Text is rendered as written.
    Plain,
    /// Nested blocks are re-indented to their logical column.
    Indent,
    /// All whitespace runs collapse to single spaces.
    Oneline,
}

/// The kind of a directive line the preparser recognizes.
#[derive(Debug, Clone, Copy, PartialEq, Eq, Structural)]
pub enum Token {
    /// `## syntax: <name>`
    Syntax,
    /// `## validate <name>: <regex>`
    Validate,
    /// `## filter <name>: <builtin>`
    Filter,
    /// A comment or blank line.
    Comment,
}

} // verus!
use crate::chars;
use crate::options::Options;
use crate::parse_error::ParseError;
use crate::tokenizer::{match_lit, plain_text, space_run, word_run};
use crate::validators::{BuiltinEscape, Filter};

verus! {

broadcast use vstd::std_specs::vec::group_vec_axioms;

/// A reusable preparser.
#[derive(Debug)]
pub struct Preparser {
    _priv: (),
}

/// Copy a filter, keeping its model.
pub(crate) fn filter_dup(f: &Filter) -> (r: Filter)
    ensures
        crate::validators::view_filter(r) == crate::validators::view_filter(*f),
{
    match f {
        Filter::NoFilter => Filter::NoFilter,
        Filter::Validate(p) => Filter::Validate(p.clone()),
        Filter::Escape(b) => Filter::Escape(*b),
    }
}

/// Copy options, keeping their models.
#[verifier::loop_isolation(false)]
pub(crate) fn options_dup(o: &Options) -> (r: Options)
    ensures
        r.syntax == o.syntax,
        r.new_line_at_eof == o.new_line_at_eof,
        r.curly == o.curly && r.square == o.square && r.round == o.round,
        crate::validators::view_filter(r.default_filter) == crate::validators::view_filter(
            o.default_filter,
        ),
        crate::render::view_filter_pairs(r.filters@) == crate::render::view_filter_pairs(
            o.filters@,
        ),
{
    let mut filters: Vec<(Vec<char>, Filter)> = Vec::new();
    let mut i: usize = 0;
    while i < o.filters.len()
        invariant
            i <= o.filters@.len(),
            filters@.len() == i,
            crate::render::view_filter_pairs(filters@) == crate::render::view_filter_pairs(
                o.filters@.subrange(0, i as int),
            ),
        decreases o.filters@.len() - i,
    {
        let name = o.filters[i].0.clone();
        let f = filter_dup(&o.filters[i].1);
        let ghost prev = filters@;
        filters.push((name, f));
        proof {
            assert(filters@.drop_last() =~= prev);
            assert(o.filters@.subrange(0, i + 1).drop_last() =~= o.filters@.subrange(0, i as int));
            assert(o.filters@.subrange(0, i + 1).last() == o.filters@[i as int]);
        }
        i = i + 1;
    }
    proof {
        assert(o.filters@.subrange(0, o.filters@.len() as int) =~= o.filters@);
    }
    Options {
        syntax: o.syntax,
        new_line_at_eof: o.new_line_at_eof,
        curly: o.curly,
        square: o.square,
        round: o.round,
        default_filter: filter_dup(&o.default_filter),
        filters,
    }
}

// ---------------------------------------------------------------------------
// The ghost directive scan
// ---------------------------------------------------------------------------

/// The model of the options the preparser builds.
pub ghost struct GScan {
    /// The syntax mode.
    pub syntax: Syntax,
    /// The filter applied when an output names none.
    pub default_filter: crate::validators::GFilter,
    /// The named filters, later entries overriding earlier ones.
    pub filters: Seq<(Seq<char>, crate::validators::GFilter)>,
}

/// The model of options, as the preparser reads and writes them.
pub open spec fn view_scan(o: Options) -> GScan {
    GScan {
        syntax: o.syntax,
        default_filter: crate::validators::view_filter(o.default_filter),
        filters: crate::render::view_filter_pairs(o.filters@),
    }
}

/// The failures of the directive scan.
pub ghost enum GScanErr {
    /// A second `## syntax` directive.
    Duplicate,
    /// A syntax name that is neither `indent` nor `oneline`.
    Invalid,
    /// A validator pattern (already anchored) the regex engine refuses.
    BadRegex(Seq<char>),
    /// An unknown filter name.
    BadFilter(Seq<char>),
}

/// The whitespace run at `off`.
pub open spec fn run_sp(s: Seq<char>, off: int) -> int {
    if 0 <= off <= s.len() {
        chars::leading_spaces(s.subrange(off, s.len() as int))
    } else {
        0
    }
}

/// The word run at `off`.
pub open spec fn run_word(s: Seq<char>, off: int) -> int {
    if 0 <= off <= s.len() {
        chars::leading_words(s.subrange(off, s.len() as int))
    } else {
        0
    }
}

/// The space-or-tab run at `off`.
pub open spec fn run_blank(s: Seq<char>, off: int) -> int {
    if 0 <= off <= s.len() {
        crate::tokenizer::leading_blanks(s.subrange(off, s.len() as int))
    } else {
        0
    }
}

/// Whether the characters of `lit` stand at `off`.
pub open spec fn lit_at(s: Seq<char>, off: int, lit: Seq<char>) -> bool {
    0 <= off && off + lit.len() <= s.len() && s.subrange(off, off + lit.len()) == lit
}

/// The last newline inside `[off, end)`, if any.
pub open spec fn last_nl_from(s: Seq<char>, off: int, end: int) -> Option<int>
    decreases end - off,
{
    if off < 0 || off >= end || end > s.len() {
        None
    } else {
        match last_nl_from(s, off + 1, end) {
            Some(p) => Some(p),
            None => if s[off] == '\n' {
                Some(off)
            } else {
                None
            },
        }
    }
}

/// Clamp an offset into `[lo, hi]`: the scan only ever moves forward and
/// never past the end, and the clamp makes that visible to termination.
pub open spec fn clamp_off(x: int, lo: int, hi: int) -> int {
    if x < lo {
        lo
    } else if x > hi {
        hi
    } else {
        x
    }
}

/// Register a filter: the name `default` replaces the fallback, any other
/// name is appended to the named table.
pub open spec fn register(st: GScan, name: Seq<char>, f: crate::validators::GFilter) -> GScan {
    if name == "default"@ {
        GScan { default_filter: f, ..st }
    } else {
        GScan { filters: st.filters.push((name, f)), ..st }
    }
}

/// The built-in escape a `## filter` directive names, if any.
pub open spec fn builtin_of(value: Seq<char>) -> Option<BuiltinEscape> {
    if value == "builtin.html_entities"@ {
        Some(BuiltinEscape::HtmlEntities)
    } else if value == "builtin.quoted_shell_argument"@ {
        Some(BuiltinEscape::QuotedShellArgument)
    } else {
        None
    }
}

/// The position of the first `#` at or after `off`, or the text's end.
pub open spec fn first_hash_at(s: Seq<char>, off: int) -> int
    decreases s.len() - off,
{
    if off < 0 || off >= s.len() {
        s.len() as int
    } else if s[off] == '#' {
        off
    } else {
        first_hash_at(s, off + 1)
    }
}

/// A validator pattern with a trailing ` # comment` stripped: when a `#`
/// follows a space, the pattern is what stands before it, right-trimmed.
pub open spec fn strip_comment_spec(value: Seq<char>) -> Seq<char> {
    let h = first_hash_at(value, 0);
    if h < value.len() && h > 0 && value[h - 1] == ' ' {
        chars::rtrim(value.subrange(0, h))
    } else {
        value
    }
}

/// A pattern anchored with `^` and `$` where they are not already written.
pub open spec fn anchor_spec(p: Seq<char>) -> Seq<char> {
    (if p.len() == 0 || p[0] != '^' {
        seq!['^']
    } else {
        Seq::empty()
    }) + p + (if p.len() == 0 || p.last() != '$' {
        seq!['$']
    } else {
        Seq::empty()
    })
}

/// The directive scan from `off` on: one leading directive, comment or
/// blank line at a time.  `## syntax: <name>` sets the mode once —
/// a second one is a duplicate, an unknown name invalid; `## validate
/// <name>: <pat>` registers the comment-stripped, anchored pattern, failing
/// exactly when the regex engine refuses it; `## filter <name>: <builtin>`
/// registers a built-in escape; comments and blank lines are scanned over;
/// anything else stops the scan.  `consumed` tracks the end of the last
/// directive: what follows it stays for the tokenizer.
pub open spec fn spec_prescan(
    s: Seq<char>,
    off: int,
    has_syntax: bool,
    st: GScan,
    consumed: int,
) -> Result<(GScan, int), GScanErr>
    decreases s.len() - off,
{
    if off < 0 || off >= s.len() {
        Ok((st, consumed))
    } else if lit_at(s, off, "##"@) {
        let j = off + 2 + run_sp(s, off + 2);
        let j2 = j + 7 + run_sp(s, j + 7);
        let w = run_word(s, j2);
        if lit_at(s, j, "syntax:"@) && w > 0 && (j2 + w == s.len() || (j2 + w < s.len() && s[j2 + w]
            == '\n')) {
            if has_syntax {
                Err(GScanErr::Duplicate)
            } else {
                let kind = s.subrange(j2, j2 + w);
                let raw_end = if j2 + w < s.len() {
                    j2 + w + 1
                } else {
                    s.len() as int
                };
                let noff = clamp_off(raw_end, off + 1, s.len() as int);
                if kind == "indent"@ {
                    spec_prescan(s, noff, true, GScan { syntax: Syntax::Indent, ..st }, noff)
                } else if kind == "oneline"@ {
                    spec_prescan(s, noff, true, GScan { syntax: Syntax::Oneline, ..st }, noff)
                } else {
                    Err(GScanErr::Invalid)
                }
            }
        } else {
            let is_validate = lit_at(s, j, "validate"@);
            let is_filter = !is_validate && lit_at(s, j, "filter"@);
            let j2v = if is_validate {
                j + 8
            } else {
                j + 6
            };
            let sp = run_sp(s, j2v);
            let j3 = j2v + sp;
            let wv = run_word(s, j3);
            if (is_validate || is_filter) && sp > 0 && wv > 0 && j3 + wv < s.len() && s[j3 + wv]
                == ':' {
                let name = s.subrange(j3, j3 + wv);
                let v0 = j3 + wv + 1;
                let v = v0 + run_blank(s, v0);
                let line_end = chars::line_end_at(s, v);
                let value = s.subrange(v, line_end);
                let raw_end = if line_end < s.len() {
                    line_end + 1
                } else {
                    s.len() as int
                };
                let noff = clamp_off(raw_end, off + 1, s.len() as int);
                if is_validate {
                    let anchored = anchor_spec(strip_comment_spec(value));
                    if !crate::validators::regex_valid(anchored) {
                        Err(GScanErr::BadRegex(anchored))
                    } else {
                        spec_prescan(
                            s,
                            noff,
                            has_syntax,
                            register(st, name, crate::validators::GFilter::Validate(anchored)),
                            noff,
                        )
                    }
                } else {
                    match builtin_of(value) {
                        Some(b) => spec_prescan(
                            s,
                            noff,
                            has_syntax,
                            register(st, name, crate::validators::GFilter::Escape(b)),
                            noff,
                        ),
                        None => Err(GScanErr::BadFilter(value)),
                    }
                }
            } else if off + 2 < s.len() && s[off + 2] == '#' {
                // A `###` comment line: scanned over, not consumed.
                let line_end = chars::line_end_at(s, off);
                let raw_end = if line_end < s.len() {
                    line_end + 1
                } else {
                    s.len() as int
                };
                spec_prescan(s, clamp_off(raw_end, off + 1, s.len() as int), has_syntax, st, consumed)
            } else {
                // Any other `##` line is the template's own.
                Ok((st, consumed))
            }
        }
    } else if s[off] == '#' {
        // A full-line comment: scanned over, not consumed.
        let line_end = chars::line_end_at(s, off);
        let raw_end = if line_end < s.len() {
            line_end + 1
        } else {
            s.len() as int
        };
        spec_prescan(s, clamp_off(raw_end, off + 1, s.len() as int), has_syntax, st, consumed)
    } else {
        // A blank line: scanned over up to its newline, not consumed.
        match last_nl_from(s, off, off + run_sp(s, off)) {
            Some(nl) => spec_prescan(
                s,
                clamp_off(nl + 1, off + 1, s.len() as int),
                has_syntax,
                st,
                consumed,
            ),
            None => Ok((st, consumed)),
        }
    }
}

/// An all-whitespace maximal run at an offset is the offset's whitespace
/// run.
proof fn lemma_space_run_at(s: Seq<char>, off: int, r: int)
    requires
        0 <= off,
        off + r <= s.len(),
        0 <= r,
        forall|j: int| off <= j < off + r ==> chars::is_space_char(s[j]),
        off + r < s.len() ==> !chars::is_space_char(s[off + r]),
    ensures
        run_sp(s, off) == r,
{
    let sub = s.subrange(off, s.len() as int);
    assert forall|j: int| 0 <= j < r implies chars::is_space_char(sub[j]) by {
        assert(sub[j] == s[off + j]);
    }
    if r < sub.len() {
        assert(sub[r] == s[off + r]);
    }
    chars::lemma_leading_spaces_unique(sub, r);
}

/// An all-word maximal run at an offset is the offset's word run.
proof fn lemma_word_run_at(s: Seq<char>, off: int, r: int)
    requires
        0 <= off,
        off + r <= s.len(),
        0 <= r,
        forall|j: int| off <= j < off + r ==> chars::is_word_char(s[j]),
        off + r < s.len() ==> !chars::is_word_char(s[off + r]),
    ensures
        run_word(s, off) == r,
{
    let sub = s.subrange(off, s.len() as int);
    assert forall|j: int| 0 <= j < r implies chars::is_word_char(sub[j]) by {
        assert(sub[j] == s[off + j]);
    }
    if r < sub.len() {
        assert(sub[r] == s[off + r]);
    }
    chars::lemma_leading_words_unique(sub, r);
}

/// An all-blank maximal run at an offset is the offset's blank run.
proof fn lemma_blank_run_at(s: Seq<char>, off: int, r: int)
    requires
        0 <= off,
        off + r <= s.len(),
        0 <= r,
        forall|j: int| off <= j < off + r ==> crate::tokenizer::is_blank_char(s[j]),
        off + r < s.len() ==> !crate::tokenizer::is_blank_char(s[off + r]),
    ensures
        run_blank(s, off) == r,
{
    let sub = s.subrange(off, s.len() as int);
    assert forall|j: int| 0 <= j < r implies crate::tokenizer::is_blank_char(sub[j]) by {
        assert(sub[j] == s[off + j]);
    }
    if r < sub.len() {
        assert(sub[r] == s[off + r]);
    }
    crate::tokenizer::lemma_leading_blanks_unique(sub, r);
}

/// Extending the search range by one character keeps or replaces the last
/// newline found.
proof fn lemma_last_nl_snoc(s: Seq<char>, off: int, p: int)
    requires
        0 <= off <= p < s.len(),
    ensures
        last_nl_from(s, off, p + 1) == (if s[p] == '\n' {
            Some(p)
        } else {
            last_nl_from(s, off, p)
        }),
    decreases p - off,
{
    if off < p {
        lemma_last_nl_snoc(s, off + 1, p);
        assert(last_nl_from(s, off, p + 1) == (match last_nl_from(s, off + 1, p + 1) {
            Some(q) => Some(q),
            None => if s[off] == '\n' {
                Some(off)
            } else {
                None::<int>
            },
        }));
    } else {
        assert(last_nl_from(s, p + 1, p + 1) is None);
        assert(last_nl_from(s, off, p) is None);
    }
}

/// The last newline inside the whitespace run at `off`, if any.
#[verifier::loop_isolation(false)]
fn last_nl_in_ws_run(text: &Vec<char>, off: usize) -> (r: Option<usize>)
    requires
        off <= text@.len(),
        text@.len() + 16 < usize::MAX,
    ensures
        ({
            let o = last_nl_from(text@, off as int, off + run_sp(text@, off as int));
            match r {
                Some(p) => off <= p < text@.len() && text@[p as int] == '\n' && o == Some(p as int),
                None => o is None,
            }
        }),
{
    let run = space_run(text, off);
    proof {
        lemma_space_run_at(text@, off as int, run as int);
    }
    let mut p = off;
    let mut found: Option<usize> = None;
    while p < off + run
        invariant
            off <= p <= off + run,
            off + run <= text@.len(),
            match found {
                Some(q) => off <= q < text@.len() && text@[q as int] == '\n' && last_nl_from(
                    text@,
                    off as int,
                    p as int,
                ) == Some(q as int),
                None => last_nl_from(text@, off as int, p as int) is None,
            },
            forall|j: int| off <= j < off + run ==> chars::is_space_char(text@[j]),
        decreases off + run - p,
    {
        proof {
            lemma_last_nl_snoc(text@, off as int, p as int);
        }
        if text[p] == '\n' {
            found = Some(p);
        }
        p = p + 1;
    }
    found
}

/// Apply one `## validate` or `## filter` directive to the options:
/// a validator registers its comment-stripped, anchored pattern, failing
/// exactly when the regex engine refuses it; a filter registers the named
/// built-in escape, failing on an unknown name.
fn apply_directive(opts: Options, name: Vec<char>, value: Vec<char>, is_validate: bool) -> (r:
    Result<Options, ParseError>)
    ensures
        ({
            let st = view_scan(opts);
            if is_validate {
                let anchored = anchor_spec(strip_comment_spec(value@));
                match r {
                    Ok(o2) => crate::validators::regex_valid(anchored) && view_scan(o2)
                        == register(st, name@, crate::validators::GFilter::Validate(anchored)),
                    Err(e) => !crate::validators::regex_valid(anchored) && (match e {
                        ParseError::BadRegexValidator(p1, _) => p1@ == anchored,
                        _ => false,
                    }),
                }
            } else {
                match builtin_of(value@) {
                    Some(b) => match r {
                        Ok(o2) => view_scan(o2) == register(
                            st,
                            name@,
                            crate::validators::GFilter::Escape(b),
                        ),
                        Err(_) => false,
                    },
                    None => match r {
                        Ok(_) => false,
                        Err(e) => match e {
                            ParseError::BadFilter(v) => v@ == value@,
                            _ => false,
                        },
                    },
                }
            }
        }),
{
    let ghost gst = view_scan(opts);
    let mut opts = opts;
    proof {
        reveal_strlit("default");
    }
    if is_validate {
        let pattern = strip_inline_comment(&value);
        let anchored = anchor_pattern(&pattern);
        let ps = chars::chars_to_string(&anchored);
        match crate::validators::regex_error(ps.as_str()) {
            Some(msg) => Err(ParseError::BadRegexValidator(ps, msg)),
            None => {
                let ghost gf = crate::validators::GFilter::Validate(anchored@);
                if chars::eq_str(&name, "default") {
                    opts.default_filter = Filter::Validate(anchored);
                } else {
                    let ghost fprev = opts.filters@;
                    opts.filters.push((name, Filter::Validate(anchored)));
                    proof {
                        assert(opts.filters@.drop_last() =~= fprev);
                    }
                }
                proof {
                    assert(view_scan(opts) == register(gst, name@, gf));
                }
                Ok(opts)
            },
        }
    } else {
        match BuiltinEscape::from_str(&value) {
            Some(b) => {
                let ghost gf = crate::validators::GFilter::Escape(b);
                if chars::eq_str(&name, "default") {
                    opts.default_filter = Filter::Escape(b);
                } else {
                    let ghost fprev = opts.filters@;
                    opts.filters.push((name, Filter::Escape(b)));
                    proof {
                        assert(opts.filters@.drop_last() =~= fprev);
                    }
                }
                proof {
                    assert(view_scan(opts) == register(gst, name@, gf));
                }
                Ok(opts)
            },
            None => Err(ParseError::BadFilter(chars::chars_to_string(&value))),
        }
    }
}

/// Scan the directive prefix of a source text: exactly the options and the
/// consumed length of the ghost directive scan, failing with its error
/// exactly where it fails.  Source without `{` and `#` never holds a
/// directive: the options come back as given and nothing is consumed.
#[verifier::loop_isolation(false)]
#[verifier::rlimit(100)]
pub(crate) fn scan_inner(text: &Vec<char>, defaults: &Options) -> (r: Result<
    (Options, usize),
    ParseError,
>)
    requires
        text@.len() + 16 < usize::MAX,
    ensures
        ({
            let o = spec_prescan(text@, 0, false, view_scan(*defaults), 0);
            match r {
                Ok(p) => {
                    &&& p.1 <= text@.len()
                    &&& o == Ok::<(GScan, int), GScanErr>((view_scan(p.0), p.1 as int))
                    &&& (plain_text(text@) ==> p.1 == 0 && p.0.syntax == defaults.syntax
                        && crate::validators::view_filter(p.0.default_filter)
                        == crate::validators::view_filter(defaults.default_filter)
                        && crate::render::view_filter_pairs(p.0.filters@)
                        == crate::render::view_filter_pairs(defaults.filters@))
                },
                Err(e) => !plain_text(text@) && (match e {
                    ParseError::DuplicateSyntaxDirective => o == Err::<(GScan, int), GScanErr>(
                        GScanErr::Duplicate,
                    ),
                    ParseError::InvalidSyntaxDirective => o == Err::<(GScan, int), GScanErr>(
                        GScanErr::Invalid,
                    ),
                    ParseError::BadRegexValidator(p1, _) => o == Err::<(GScan, int), GScanErr>(
                        GScanErr::BadRegex(p1@),
                    ),
                    ParseError::BadFilter(v) => o == Err::<(GScan, int), GScanErr>(
                        GScanErr::BadFilter(v@),
                    ),
                    _ => false,
                }),
            }
        }),
{
    let len = text.len();
    let mut opts = options_dup(defaults);
    let mut has_syntax = false;
    let mut off: usize = 0;
    let mut consumed: usize = 0;
    proof {
        reveal_strlit("##");
        reveal_strlit("syntax:");
        reveal_strlit("validate");
        reveal_strlit("filter");
        reveal_strlit("indent");
        reveal_strlit("oneline");
        reveal_strlit("default");
        assert(view_scan(opts) == view_scan(*defaults));
    }
    while off < len
        invariant
            consumed <= off <= len,
            len == text@.len(),
            len + 16 < usize::MAX,
            spec_prescan(text@, 0, false, view_scan(*defaults), 0) == spec_prescan(
                text@,
                off as int,
                has_syntax,
                view_scan(opts),
                consumed as int,
            ),
            plain_text(text@) ==> consumed == 0 && opts.syntax == defaults.syntax
                && crate::validators::view_filter(opts.default_filter)
                == crate::validators::view_filter(defaults.default_filter)
                && crate::render::view_filter_pairs(opts.filters@)
                == crate::render::view_filter_pairs(defaults.filters@),
        decreases len - off,
    {
        let ghost goff = off as int;
        let ghost gst = view_scan(opts);
        let ghost ghs = has_syntax;
        let ghost gcons = consumed as int;
        if match_lit(text, off, "##") {
            proof {
                assert(text@.subrange(goff, goff + 2)[0] == text@[goff]);
                assert(!(text@[goff] != '{' && text@[goff] != '#'));
                assert(lit_at(text@, goff, "##"@));
            }
            let sp1 = space_run(text, off + 2);
            let j = off + 2 + sp1;
            proof {
                lemma_space_run_at(text@, goff + 2, sp1 as int);
            }
            // `## syntax: <name>` at the end of its line.
            let syntax_lit = match_lit(text, j, "syntax:");
            if syntax_lit {
                let sp2 = space_run(text, j + 7);
                proof {
                    lemma_space_run_at(text@, j + 7, sp2 as int);
                }
                let j2 = j + 7 + sp2;
                let w = word_run(text, j2);
                proof {
                    lemma_word_run_at(text@, j2 as int, w as int);
                }
                if w > 0 && (j2 + w == len || text[j2 + w] == '\n') {
                    if has_syntax {
                        return Err(ParseError::DuplicateSyntaxDirective);
                    }
                    has_syntax = true;
                    let kind = chars::subvec(text, j2, j2 + w);
                    let next = if j2 + w < len {
                        j2 + w + 1
                    } else {
                        len
                    };
                    proof {
                        assert(clamp_off(next as int, goff + 1, len as int) == next);
                    }
                    if chars::eq_str(&kind, "indent") {
                        opts.syntax = Syntax::Indent;
                    } else if chars::eq_str(&kind, "oneline") {
                        opts.syntax = Syntax::Oneline;
                    } else {
                        return Err(ParseError::InvalidSyntaxDirective);
                    }
                    off = next;
                    consumed = off;
                    proof {
                        assert(view_scan(opts) == GScan { syntax: opts.syntax, ..gst });
                    }
                    continue ;
                }
            }
            proof {
                let sv = text@;
                let sj = goff + 2 + run_sp(sv, goff + 2);
                let sj2 = sj + 7 + run_sp(sv, sj + 7);
                let sw = run_word(sv, sj2);
                assert(!(lit_at(sv, sj, "syntax:"@) && sw > 0 && (sj2 + sw == sv.len() || (sj2 + sw
                    < sv.len() && sv[sj2 + sw] == '\n'))));
            }
            // `## validate <name>: <pattern>` or `## filter <name>: <name>`.
            let is_validate = match_lit(text, j, "validate");
            let is_filter = !is_validate && match_lit(text, j, "filter");
            if is_validate || is_filter {
                let j2v = if is_validate {
                    j + 8
                } else {
                    j + 6
                };
                let sp = space_run(text, j2v);
                let j3 = j2v + sp;
                let wv = word_run(text, j3);
                proof {
                    lemma_space_run_at(text@, j2v as int, sp as int);
                    lemma_word_run_at(text@, j3 as int, wv as int);
                }
                if sp > 0 && wv > 0 && j3 + wv < len && text[j3 + wv] == ':' {
                    let name = chars::subvec(text, j3, j3 + wv);
                    let v0 = j3 + wv + 1;
                    let bl = crate::tokenizer::blank_run(text, v0);
                    let v = v0 + bl;
                    proof {
                        lemma_blank_run_at(text@, v0 as int, bl as int);
                    }
                    let line_end = match crate::tokenizer::find_newline(text, v) {
                        Some(nl) => nl,
                        None => len,
                    };
                    let value = chars::subvec(text, v, line_end);
                    let next = if line_end < len {
                        line_end + 1
                    } else {
                        len
                    };
                    proof {
                        chars::lemma_line_end_at(text@, v as int);
                        assert(line_end as int == chars::line_end_at(text@, v as int));
                        assert(clamp_off(next as int, goff + 1, len as int) == next);
                    }
                    let ghost gname = name@;
                    let ghost gvalue = value@;
                    let ghost gnext = next as int;
                    proof {
                        assert(gvalue == text@.subrange(
                            v as int,
                            chars::line_end_at(text@, v as int),
                        ));
                    }
                    opts = match apply_directive(opts, name, value, is_validate) {
                        Ok(o2) => o2,
                        Err(e) => {
                            proof {
                                match &e {
                                    ParseError::BadRegexValidator(p1, _) => {
                                        assert(spec_prescan(text@, goff, ghs, gst, gcons) == Err::<
                                            (GScan, int),
                                            GScanErr,
                                        >(GScanErr::BadRegex(p1@)));
                                    },
                                    ParseError::BadFilter(vv) => {
                                        assert(spec_prescan(text@, goff, ghs, gst, gcons) == Err::<
                                            (GScan, int),
                                            GScanErr,
                                        >(GScanErr::BadFilter(vv@)));
                                    },
                                    _ => {},
                                }
                            }
                            return Err(e);
                        },
                    };
                    proof {
                        assert(spec_prescan(text@, goff, ghs, gst, gcons) == spec_prescan(
                            text@,
                            gnext,
                            ghs,
                            view_scan(opts),
                            gnext,
                        ));
                    }
                    off = next;
                    consumed = off;
                    continue ;
                }
            }
            // A `###` comment line is scanned over; any other `##` line is
            // the template's own and stops the prefix scan.
            if off + 2 < len && text[off + 2] == '#' {
                let line_end = match crate::tokenizer::find_newline(text, off) {
                    Some(nl) => nl,
                    None => len,
                };
                let next = if line_end < len {
                    line_end + 1
                } else {
                    len
                };
                proof {
                    chars::lemma_line_end_at(text@, goff);
                    assert(clamp_off(next as int, goff + 1, len as int) == next);
                }
                off = next;
            } else {
                return Ok((opts, consumed));
            }
        } else if text[off] == '#' {
            // A full-line comment.
            proof {
                assert(!(text@[goff] != '{' && text@[goff] != '#'));
            }
            let line_end = match crate::tokenizer::find_newline(text, off) {
                Some(nl) => nl,
                None => len,
            };
            let next = if line_end < len {
                line_end + 1
            } else {
                len
            };
            proof {
                chars::lemma_line_end_at(text@, goff);
                assert(clamp_off(next as int, goff + 1, len as int) == next);
            }
            off = next;
        } else {
            // A blank line.
            match last_nl_in_ws_run(text, off) {
                Some(nl) => {
                    proof {
                        assert(clamp_off(nl + 1 as int, goff + 1, len as int) == nl + 1);
                    }
                    off = nl + 1;
                },
                None => {
                    return Ok((opts, consumed));
                },
            }
        }
    }
    Ok((opts, consumed))
}

/// Strip an inline ` # comment` from a validator pattern, as the directive
/// grammar allows.
#[verifier::loop_isolation(false)]
fn strip_inline_comment(value: &Vec<char>) -> (r: Vec<char>)
    ensures
        r@ == strip_comment_spec(value@),
{
    let mut i: usize = 0;
    while i < value.len()
        invariant
            i <= value@.len(),
            first_hash_at(value@, 0) == first_hash_at(value@, i as int),
        decreases value@.len() - i,
    {
        if value[i] == '#' {
            break ;
        }
        i = i + 1;
    }
    if i < value.len() && i > 0 && value[i - 1] == ' ' {
        let head = chars::subvec(value, 0, i);
        let trailing = chars::count_trailing(&head);
        proof {
            chars::lemma_trailing_spaces(head@);
        }
        let r = chars::subvec(&head, 0, head.len() - trailing);
        proof {
            assert(r@ =~= chars::rtrim(value@.subrange(0, i as int)));
        }
        r
    } else {
        value.clone()
    }
}

/// Anchor a validator pattern with `^` and `$` where they are not written.
#[verifier::loop_isolation(false)]
fn anchor_pattern(p: &Vec<char>) -> (r: Vec<char>)
    ensures
        r@ == anchor_spec(p@),
{
    let mut out: Vec<char> = Vec::new();
    if p.len() == 0 || p[0] != '^' {
        out.push('^');
    }
    let ghost prefix = out@;
    let mut i: usize = 0;
    while i < p.len()
        invariant
            i <= p@.len(),
            out@ == prefix + p@.subrange(0, i as int),
        decreases p@.len() - i,
    {
        out.push(p[i]);
        i = i + 1;
        proof {
            assert(out@ =~= prefix + p@.subrange(0, i as int));
        }
    }
    proof {
        assert(p@.subrange(0, p@.len() as int) =~= p@);
    }
    if p.len() == 0 || p[p.len() - 1] != '$' {
        out.push('$');
    }
    proof {
        assert(out@ =~= anchor_spec(p@));
    }
    out
}

impl Preparser {
    /// Create a new preparser.
    pub fn new() -> Preparser {
        Preparser { _priv: () }
    }

    /// Scan the directive prefix of a source text into options, starting
    /// from the given defaults: exactly the options of the ghost directive
    /// scan, failing with its error exactly where it fails.
    pub fn scan(&self, data: &str, defaults: &Options) -> (r: Result<Options, ParseError>)
        requires
            data@.len() + 16 < usize::MAX,
        ensures
            ({
                let o = spec_prescan(data@, 0, false, view_scan(*defaults), 0);
                match r {
                    Ok(opts) => o matches Ok(p) && p.0 == view_scan(opts),
                    Err(e) => !plain_text(data@) && (match e {
                        ParseError::DuplicateSyntaxDirective => o == Err::<
                            (GScan, int),
                            GScanErr,
                        >(GScanErr::Duplicate),
                        ParseError::InvalidSyntaxDirective => o == Err::<(GScan, int), GScanErr>(
                            GScanErr::Invalid,
                        ),
                        ParseError::BadRegexValidator(p1, _) => o == Err::<(GScan, int), GScanErr>(
                            GScanErr::BadRegex(p1@),
                        ),
                        ParseError::BadFilter(v) => o == Err::<(GScan, int), GScanErr>(
                            GScanErr::BadFilter(v@),
                        ),
                        _ => false,
                    }),
                }
            }),
    {
        let text = chars::str_to_chars(data);
        match scan_inner(&text, defaults) {
            Ok((opts, _)) => Ok(opts),
            Err(e) => Err(e),
        }
    }
}

} // verus!
