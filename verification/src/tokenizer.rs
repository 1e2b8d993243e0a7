//! The tokenizer: scans raw template text into a position-tracked token
//! stream, with three lexical modes (top-level text, inside `{{ }}`
//! expressions, inside `## ...` statement lines) switched on the delimiters
//! encountered.
//!
//! The central contracts: the token values concatenate back to the input
//! exactly; every token carries the line and column at which it starts; and
//! text without `{` or `#` tokenizes without error into raw text,
//! whitespace and newlines only.

use vstd::prelude::*;

use crate::chars::{self, is_digit, is_digit_char, is_space, is_space_char, is_word, is_word_char};
use vstd::string::StrSliceExecFns;
use crate::parse_error::ParseError;
use crate::Pos;

verus! {

broadcast use vstd::std_specs::vec::group_vec_axioms;

/// The kind of a token.
#[derive(Debug, PartialEq, Eq, Clone, Copy, Structural)]
pub enum Kind {
    /// A run of spaces and tabs.
    Whitespace,
    /// A comment, skipped by the parser.
    Comment,
    /// End of input.
    Eof,
    /// Raw text, output as is.
    Raw,
    /// A newline.
    Newline,
    /// `{{`, optionally with a whitespace-control marker.
    ExprStart,
    /// `}}`, optionally with a whitespace-control marker.
    ExprEnd,
    /// `##` at the end of a line: joins two lines without a newline.
    LineJoiner,
    /// `## word`: the start of a statement line.
    StStart,
    /// An operator.
    Operator,
    /// A parenthesis, bracket or brace.
    Paren,
    /// A reserved keyword.
    Keyword,
    /// An identifier.
    Ident,
    /// A numeric literal.
    Num,
    /// A quoted string literal.
    Str,
}

/// A token: its kind, its exact source text, and the position it starts at.
#[derive(Debug, PartialEq)]
pub struct Token {
    /// The kind.
    pub kind: Kind,
    /// The exact characters of the token in the source.
    pub value: Vec<char>,
    /// The position of the token's first character.
    pub start: Pos,
}

/// The tokenized form of one source text.
#[derive(Debug)]
pub struct TokenStream {
    /// The tokens, in source order; their values concatenate to the source.
    pub tokens: Vec<Token>,
    /// The position just past the end of the source.
    pub end: Pos,
}

/// A reusable tokenizer.
#[derive(Debug)]
pub struct Tokenizer {
    _priv: (),
}

/// The concatenation of the token values.
pub open spec fn tokens_text(toks: Seq<Token>) -> Seq<char>
    decreases toks.len(),
{
    if toks.len() == 0 {
        Seq::empty()
    } else {
        tokens_text(toks.drop_last()) + toks.last().value@
    }
}

/// Text that holds neither `{` nor `#`: only raw text, whitespace and
/// newlines can come out of it.
pub open spec fn plain_text(s: Seq<char>) -> bool {
    forall|i: int| 0 <= i < s.len() ==> s[i] != '{' && s[i] != '#'
}

/// A kind that plain text can produce.
pub open spec fn plain_kind(k: Kind) -> bool {
    k == Kind::Raw || k == Kind::Whitespace || k == Kind::Newline
}

/// All tokens have kinds that plain text can produce.
pub open spec fn tokens_plain(toks: Seq<Token>) -> bool {
    forall|i: int| 0 <= i < toks.len() ==> plain_kind(#[trigger] toks[i].kind)
}

/// The 1-based line at the end of `s`.
pub open spec fn line_of(s: Seq<char>) -> int
    decreases s.len(),
{
    if s.len() == 0 {
        1
    } else if s.last() == '\n' {
        line_of(s.drop_last()) + 1
    } else {
        line_of(s.drop_last())
    }
}

/// The 1-based column at the end of `s`.
pub open spec fn col_of(s: Seq<char>) -> int
    decreases s.len(),
{
    if s.len() == 0 {
        1
    } else if s.last() == '\n' {
        1
    } else {
        col_of(s.drop_last()) + 1
    }
}

/// Lines and columns stay within one past the text length.
pub proof fn lemma_pos_bounds(s: Seq<char>)
    ensures
        1 <= line_of(s) <= s.len() + 1,
        1 <= col_of(s) <= s.len() + 1,
    decreases s.len(),
{
    if s.len() > 0 {
        lemma_pos_bounds(s.drop_last());
    }
}

/// Every token starts at the position that the text before it ends at.
pub open spec fn tokens_pos_ok(toks: Seq<Token>) -> bool {
    forall|i: int|
        0 <= i < toks.len() ==> (#[trigger] toks[i]).start.line as int == line_of(
            tokens_text(toks.take(i)),
        ) && toks[i].start.column as int == col_of(tokens_text(toks.take(i)))
}

/// The position `p` advanced over the characters of `text` in `[from, to)`.
#[verifier::loop_isolation(false)]
fn advance_pos(p: Pos, text: &Vec<char>, from: usize, to: usize) -> (r: Pos)
    requires
        from <= to <= text@.len(),
        text@.len() + 16 < usize::MAX,
        p.line as int == line_of(text@.subrange(0, from as int)),
        p.column as int == col_of(text@.subrange(0, from as int)),
    ensures
        r.line as int == line_of(text@.subrange(0, to as int)),
        r.column as int == col_of(text@.subrange(0, to as int)),
{
    let mut line = p.line;
    let mut col = p.column;
    let mut i = from;
    while i < to
        invariant
            from <= i <= to <= text@.len(),
            text@.len() + 16 < usize::MAX,
            line as int == line_of(text@.subrange(0, i as int)),
            col as int == col_of(text@.subrange(0, i as int)),
        decreases to - i,
    {
        proof {
            lemma_pos_bounds(text@.subrange(0, i as int));
            assert(text@.subrange(0, i + 1).drop_last() =~= text@.subrange(0, i as int));
            assert(text@.subrange(0, i + 1).last() == text@[i as int]);
        }
        if text[i] == '\n' {
            line = line + 1;
            col = 1;
        } else {
            col = col + 1;
        }
        i = i + 1;
    }
    Pos { line, column: col }
}

/// Whether the characters of `lit` stand at `off` in `text`.
#[verifier::loop_isolation(false)]
pub(crate) fn match_lit(text: &Vec<char>, off: usize, lit: &str) -> (r: bool)
    requires
        off <= text@.len(),
        text@.len() + 16 < usize::MAX,
    ensures
        r == (off + lit@.len() <= text@.len() && text@.subrange(
            off as int,
            off + lit@.len(),
        ) == lit@),
{
    let n = lit.unicode_len();
    if text.len() - off < n {
        proof {
            assert(off + lit@.len() > text@.len());
        }
        return false;
    }
    let mut j: usize = 0;
    while j < n
        invariant
            j <= n,
            n == lit@.len(),
            off + n <= text@.len(),
            forall|k: int| 0 <= k < j ==> text@[off + k] == lit@[k],
        decreases n - j,
    {
        if text[off + j] != lit.get_char(j) {
            proof {
                assert(text@.subrange(off as int, off + lit@.len())[j as int] != lit@[j as int]);
            }
            return false;
        }
        j = j + 1;
    }
    proof {
        assert(text@.subrange(off as int, off + lit@.len()) =~= lit@);
    }
    true
}

/// Whether no word character stands at `off`: a word boundary after a word
/// run ending there.
pub(crate) fn boundary(text: &Vec<char>, off: usize) -> (r: bool)
    requires
        off <= text@.len(),
    ensures
        r == (off >= text@.len() || !is_word_char(text@[off as int])),
{
    off >= text.len() || !is_word(text[off])
}

/// The length of the whitespace run at `off`.
#[verifier::loop_isolation(false)]
pub(crate) fn space_run(text: &Vec<char>, off: usize) -> (r: usize)
    requires
        off <= text@.len(),
    ensures
        off + r <= text@.len(),
        forall|j: int| off <= j < off + r ==> is_space_char(text@[j]),
        off + r < text@.len() ==> !is_space_char(text@[off + r]),
{
    let mut p = off;
    while p < text.len() && is_space(text[p])
        invariant
            off <= p <= text@.len(),
            forall|j: int| off <= j < p ==> is_space_char(text@[j]),
        decreases text@.len() - p,
    {
        p = p + 1;
    }
    p - off
}

/// A space or a tab.
pub open spec fn is_blank_char(c: char) -> bool {
    c == ' ' || c == '\t'
}

/// The length of the space-or-tab run at `off`.
#[verifier::loop_isolation(false)]
pub(crate) fn blank_run(text: &Vec<char>, off: usize) -> (r: usize)
    requires
        off <= text@.len(),
    ensures
        off + r <= text@.len(),
        forall|j: int| off <= j < off + r ==> is_blank_char(text@[j]),
        off + r < text@.len() ==> !is_blank_char(text@[off + r]),
{
    let mut p = off;
    while p < text.len() && (text[p] == ' ' || text[p] == '\t')
        invariant
            off <= p <= text@.len(),
            forall|j: int| off <= j < p ==> is_blank_char(text@[j]),
        decreases text@.len() - p,
    {
        p = p + 1;
    }
    p - off
}

/// The length of the leading space-or-tab run of `s`.
pub open spec fn leading_blanks(s: Seq<char>) -> int
    decreases s.len(),
{
    if s.len() > 0 && is_blank_char(s[0]) {
        1 + leading_blanks(s.subrange(1, s.len() as int))
    } else {
        0
    }
}

/// The leading blank run is a well-formed prefix: bounded, made of blanks,
/// and maximal.
pub proof fn lemma_leading_blanks(s: Seq<char>)
    ensures
        0 <= leading_blanks(s) <= s.len(),
        forall|i: int| 0 <= i < leading_blanks(s) ==> is_blank_char(s[i]),
        leading_blanks(s) < s.len() ==> !is_blank_char(s[leading_blanks(s)]),
    decreases s.len(),
{
    if s.len() > 0 && is_blank_char(s[0]) {
        let sub = s.subrange(1, s.len() as int);
        lemma_leading_blanks(sub);
        assert forall|i: int| 0 <= i < leading_blanks(s) implies is_blank_char(s[i]) by {
            if i >= 1 {
                assert(sub[i - 1] == s[i]);
            }
        }
    }
}

/// A leading run is the whole leading-blank run exactly when it is all
/// blanks and maximal.
pub proof fn lemma_leading_blanks_unique(s: Seq<char>, r: int)
    requires
        0 <= r <= s.len(),
        forall|j: int| 0 <= j < r ==> is_blank_char(s[j]),
        r < s.len() ==> !is_blank_char(s[r]),
    ensures
        leading_blanks(s) == r,
{
    lemma_leading_blanks(s);
    let ls = leading_blanks(s);
    if r < ls {
        assert(!is_blank_char(s[r]));
        assert(is_blank_char(s[r]));
    }
    if r > ls {
        assert(is_blank_char(s[ls]));
        assert(!is_blank_char(s[ls]));
    }
}

/// The length of the word-character run at `off`.
#[verifier::loop_isolation(false)]
pub(crate) fn word_run(text: &Vec<char>, off: usize) -> (r: usize)
    requires
        off <= text@.len(),
    ensures
        off + r <= text@.len(),
        forall|j: int| off <= j < off + r ==> is_word_char(text@[j]),
        off + r < text@.len() ==> !is_word_char(text@[off + r]),
{
    let mut p = off;
    while p < text.len() && is_word(text[p])
        invariant
            off <= p <= text@.len(),
            forall|j: int| off <= j < p ==> is_word_char(text@[j]),
        decreases text@.len() - p,
    {
        p = p + 1;
    }
    p - off
}

/// The length of the digit-or-underscore run at `off`.
#[verifier::loop_isolation(false)]
fn numchar_run(text: &Vec<char>, off: usize) -> (r: usize)
    requires
        off <= text@.len(),
    ensures
        off + r <= text@.len(),
{
    let mut p = off;
    while p < text.len() && (is_digit(text[p]) || text[p] == '_')
        invariant
            off <= p <= text@.len(),
        decreases text@.len() - p,
    {
        p = p + 1;
    }
    p - off
}

/// The position after the closing `#}` of the block comment at `off`, if
/// one closes it.
#[verifier::loop_isolation(false)]
fn find_block_comment_end(text: &Vec<char>, off: usize) -> (r: Option<usize>)
    requires
        off <= text@.len(),
        text@.len() + 16 < usize::MAX,
    ensures
        match r {
            Some(e) => off < e <= text@.len(),
            None => true,
        },
{
    let mut p = off;
    while p + 1 < text.len()
        invariant
            off <= p,
            p <= text@.len(),
        decreases text@.len() - p,
    {
        if text[p] == '#' && text[p + 1] == '}' {
            return Some(p + 2);
        }
        p = p + 1;
    }
    None
}

/// The position of the next newline at or after `off`, if any.
#[verifier::loop_isolation(false)]
pub(crate) fn find_newline(text: &Vec<char>, off: usize) -> (r: Option<usize>)
    requires
        off <= text@.len(),
    ensures
        match r {
            Some(p) => off <= p < text@.len() && text@[p as int] == '\n' && p
                == crate::chars::line_end_at(text@, off as int),
            None => crate::chars::line_end_at(text@, off as int) == text@.len(),
        },
{
    let mut p = off;
    while p < text.len()
        invariant
            off <= p <= text@.len(),
            crate::chars::line_end_at(text@, off as int) == crate::chars::line_end_at(
                text@,
                p as int,
            ),
        decreases text@.len() - p,
    {
        if text[p] == '\n' {
            return Some(p);
        }
        p = p + 1;
    }
    None
}

/// Whether everything from `off` on is whitespace.
#[verifier::loop_isolation(false)]
fn all_space_from(text: &Vec<char>, off: usize) -> (r: bool)
    requires
        off <= text@.len(),
    ensures
        r == crate::chars::all_space(text@.subrange(off as int, text@.len() as int)),
{
    let mut p = off;
    while p < text.len()
        invariant
            off <= p <= text@.len(),
            forall|j: int| off <= j < p ==> is_space_char(text@[j]),
        decreases text@.len() - p,
    {
        if !is_space(text[p]) {
            proof {
                assert(!is_space_char(
                    text@.subrange(off as int, text@.len() as int)[p - off as int],
                ));
            }
            return false;
        }
        p = p + 1;
    }
    proof {
        let sub = text@.subrange(off as int, text@.len() as int);
        assert forall|j: int| 0 <= j < sub.len() implies is_space_char(sub[j]) by {
            assert(sub[j] == text@[off + j]);
        }
    }
    true
}

/// Where the raw text that starts at `off` ends: at the next special
/// marker, or at the end of the text.
#[verifier::loop_isolation(false)]
fn find_raw_end(text: &Vec<char>, off: usize) -> (r: usize)
    requires
        off < text@.len(),
        text@.len() + 16 < usize::MAX,
    ensures
        off < r <= text@.len(),
{
    let mut p = off + 1;
    while p < text.len()
        invariant
            off < p <= text@.len(),
        decreases text@.len() - p,
    {
        let c = text[p];
        if c == '\n' || c == ' ' || c == '\t' {
            return p;
        }
        if c == '{' && p + 1 < text.len() && (text[p + 1] == '{' || text[p + 1] == '#') {
            return p;
        }
        p = p + 1;
    }
    text.len()
}

/// The end of the string literal at `off`, where the text at `off` is a
/// quote character: the literal closes at the first quote that no backslash
/// precedes, or failing that at the last quote of the text.
#[verifier::loop_isolation(false)]
fn match_string(text: &Vec<char>, off: usize) -> (r: Option<usize>)
    requires
        off < text@.len(),
        text@.len() + 16 < usize::MAX,
    ensures
        match r {
            Some(e) => off + 2 <= e <= text@.len(),
            None => true,
        },
{
    let q = text[off];
    let mut last_q: Option<usize> = None;
    let mut p = off + 1;
    while p < text.len()
        invariant
            off < p <= text@.len(),
            match last_q {
                Some(l) => off < l < p,
                None => true,
            },
        decreases text@.len() - p,
    {
        if text[p] == q {
            if text[p - 1] == '\\' {
                last_q = Some(p);
            } else {
                return Some(p + 1);
            }
        }
        p = p + 1;
    }
    match last_q {
        Some(l) => Some(l + 1),
        None => None,
    }
}

/// The end of the numeric literal at `off`, following the lexical shape
/// `(0[oxb])? [0-9][0-9_]* (.[0-9_]+)?` ending at a word boundary.
fn match_number(text: &Vec<char>, off: usize) -> (r: Option<usize>)
    requires
        off < text@.len(),
        text@.len() + 16 < usize::MAX,
    ensures
        match r {
            Some(e) => off < e <= text@.len(),
            None => true,
        },
{
    let mut start = off;
    if text[off] == '0' && off + 2 < text.len() && (text[off + 1] == 'o' || text[off + 1] == 'x'
        || text[off + 1] == 'b') && is_digit(text[off + 2]) {
        start = off + 2;
    }
    if start >= text.len() || !is_digit(text[start]) {
        return None;
    }
    let int_end = start + 1 + numchar_run(text, start + 1);
    let mut frac_end = int_end;
    if int_end + 1 < text.len() && text[int_end] == '.' && (is_digit(text[int_end + 1]) || text[
        int_end + 1] == '_') {
        frac_end = int_end + 1 + numchar_run(text, int_end + 1);
    }
    if frac_end > int_end && boundary(text, frac_end) {
        return Some(frac_end);
    }
    if boundary(text, int_end) {
        return Some(int_end);
    }
    None
}

/// The kinds and shapes shared by expression and statement mode: a token
/// match at `off`, by the fixed priority of the lexical patterns.
fn match_common(text: &Vec<char>, off: usize) -> (r: Option<(Kind, usize)>)
    requires
        off < text@.len(),
        text@.len() + 16 < usize::MAX,
    ensures
        match r {
            Some((k, e)) => off < e <= text@.len() && (k == Kind::ExprEnd || k == Kind::Comment
                || k == Kind::Operator || k == Kind::Paren || k == Kind::Keyword || k == Kind::Ident
                || k == Kind::Num || k == Kind::Str),
            None => true,
        },
{
    proof {
        reveal_strlit("}}");
        reveal_strlit("and");
        reveal_strlit("or");
        reveal_strlit("not");
        reveal_strlit(">=");
        reveal_strlit("<=");
        reveal_strlit("==");
        reveal_strlit("!=");
        reveal_strlit("..");
        reveal_strlit("for");
        reveal_strlit("in");
        reveal_strlit("endfor");
        reveal_strlit("skip");
        reveal_strlit("if");
        reveal_strlit("elif");
        reveal_strlit("else");
        reveal_strlit("endif");
        reveal_strlit("let");
        reveal_strlit("syntax");
        reveal_strlit("validate");
    }
    let len = text.len();
    let c = text[off];
    // `}}`, with an optional leading whitespace-control marker.
    if match_lit(text, off, "}}") {
        return Some((Kind::ExprEnd, off + 2));
    }
    if (c == '+' || c == '-') && match_lit(text, off + 1, "}}") {
        return Some((Kind::ExprEnd, off + 3));
    }
    // An inline comment marker.
    if c == '#' {
        return Some((Kind::Comment, off + 1));
    }
    // Word operators, then the punctuation operators, longest first.
    if match_lit(text, off, "and") && boundary(text, off + 3) {
        return Some((Kind::Operator, off + 3));
    }
    if match_lit(text, off, "or") && boundary(text, off + 2) {
        return Some((Kind::Operator, off + 2));
    }
    if match_lit(text, off, "not") && boundary(text, off + 3) {
        return Some((Kind::Operator, off + 3));
    }
    if match_lit(text, off, ">=") || match_lit(text, off, "<=") || match_lit(text, off, "==")
        || match_lit(text, off, "!=") {
        return Some((Kind::Operator, off + 2));
    }
    if c == '=' {
        return Some((Kind::Operator, off + 1));
    }
    if match_lit(text, off, "..") {
        return Some((Kind::Operator, off + 2));
    }
    if c == '.' || c == ',' || c == '|' || c == ':' || c == '>' || c == '<' || c == '%' || c == '*'
        || c == '/' || c == '+' || c == '-' {
        return Some((Kind::Operator, off + 1));
    }
    if c == '{' || c == '}' || c == '(' || c == ')' || c == '[' || c == ']' {
        return Some((Kind::Paren, off + 1));
    }
    // Keywords, each at a word boundary.
    if match_lit(text, off, "for") && boundary(text, off + 3) {
        return Some((Kind::Keyword, off + 3));
    }
    if match_lit(text, off, "in") && boundary(text, off + 2) {
        return Some((Kind::Keyword, off + 2));
    }
    if match_lit(text, off, "endfor") && boundary(text, off + 6) {
        return Some((Kind::Keyword, off + 6));
    }
    if match_lit(text, off, "skip") && boundary(text, off + 4) {
        return Some((Kind::Keyword, off + 4));
    }
    if match_lit(text, off, "if") && boundary(text, off + 2) {
        return Some((Kind::Keyword, off + 2));
    }
    if match_lit(text, off, "elif") && boundary(text, off + 4) {
        return Some((Kind::Keyword, off + 4));
    }
    if match_lit(text, off, "else") && boundary(text, off + 4) {
        return Some((Kind::Keyword, off + 4));
    }
    if match_lit(text, off, "endif") && boundary(text, off + 5) {
        return Some((Kind::Keyword, off + 5));
    }
    if match_lit(text, off, "let") && boundary(text, off + 3) {
        return Some((Kind::Keyword, off + 3));
    }
    if match_lit(text, off, "syntax") && boundary(text, off + 6) {
        return Some((Kind::Keyword, off + 6));
    }
    if match_lit(text, off, "validate") && boundary(text, off + 8) {
        return Some((Kind::Keyword, off + 8));
    }
    // An identifier.
    if is_word(c) && !is_digit(c) {
        return Some((Kind::Ident, off + 1 + word_run(text, off + 1)));
    }
    // A numeric literal.
    if is_digit(c) {
        match match_number(text, off) {
            Some(e) => {
                return Some((Kind::Num, e));
            },
            None => {
                return None;
            },
        }
    }
    // A quoted string literal.
    if c == '"' || c == '\'' {
        match match_string(text, off) {
            Some(e) => {
                return Some((Kind::Str, e));
            },
            None => {
                return None;
            },
        }
    }
    None
}

/// Append the token `text[off..end]` of the given kind.
/// Append the token `text[off..end]` of the given kind.
#[verifier::rlimit(100)]
fn push_token(
    toks: &mut Vec<Token>,
    text: &Vec<char>,
    off: usize,
    end: usize,
    kind: Kind,
    start: Pos,
)
    requires
        off <= end <= text@.len(),
        tokens_text(old(toks)@) == text@.subrange(0, off as int),
        tokens_pos_ok(old(toks)@),
        start.line as int == line_of(text@.subrange(0, off as int)),
        start.column as int == col_of(text@.subrange(0, off as int)),
    ensures
        tokens_text(final(toks)@) == text@.subrange(0, end as int),
        tokens_pos_ok(final(toks)@),
        (tokens_plain(old(toks)@) && plain_kind(kind)) ==> tokens_plain(final(toks)@),
{
    let value = chars::subvec(text, off, end);
    let ghost orig = toks@;
    toks.push(Token { kind, value, start });
    proof {
        assert(toks@.drop_last() =~= orig);
        assert(tokens_text(toks@) == tokens_text(orig) + toks@.last().value@);
        assert(tokens_text(toks@) =~= text@.subrange(0, end as int));
        assert forall|i: int| 0 <= i < toks@.len() implies (#[trigger] toks@[i]).start.line as int
            == line_of(tokens_text(toks@.take(i))) && toks@[i].start.column as int == col_of(
            tokens_text(toks@.take(i)),
        ) by {
            assert(toks@.take(i) =~= orig.take(i));
            if i < orig.len() {
                assert(toks@[i] == orig[i]);
                assert(orig[i].start.line as int == line_of(tokens_text(orig.take(i))));
            } else {
                assert(toks@.take(i) =~= orig);
            }
        }
        if tokens_plain(orig) && plain_kind(kind) {
            assert forall|i: int| 0 <= i < toks@.len() implies plain_kind(
                #[trigger] toks@[i].kind,
            ) by {
                if i < orig.len() {
                    assert(toks@[i] == orig[i]);
                    assert(plain_kind(orig[i].kind));
                }
            }
        }
    }
}

#[derive(Clone, Copy)]
enum State {
    Top,
    Expr,
    Statement,
}

/// One step of top-level scanning at `off`.
fn top_step(toks: &mut Vec<Token>, text: &Vec<char>, off: usize, pos: Pos) -> (r: Result<
    (usize, Pos, State),
    ParseError,
>)
    requires
        text@.len() + 16 < usize::MAX,
        off < text@.len(),
        tokens_text(old(toks)@) == text@.subrange(0, off as int),
        tokens_pos_ok(old(toks)@),
        pos.line as int == line_of(text@.subrange(0, off as int)),
        pos.column as int == col_of(text@.subrange(0, off as int)),
        plain_text(text@) ==> tokens_plain(old(toks)@),
    ensures
        match r {
            Ok(step) => {
                &&& off < step.0 <= text@.len()
                &&& tokens_text(final(toks)@) == text@.subrange(0, step.0 as int)
                &&& tokens_pos_ok(final(toks)@)
                &&& step.1.line as int == line_of(text@.subrange(0, step.0 as int))
                &&& step.1.column as int == col_of(text@.subrange(0, step.0 as int))
                &&& (plain_text(text@) ==> (tokens_plain(final(toks)@) && step.2 is Top))
            },
            Err(_) => !plain_text(text@),
        },
{
    let len = text.len();
    let c = text[off];
    if c == '{' && off + 1 < len && text[off + 1] == '{' {
        // `{{`, with an optional whitespace-control marker.
        proof {
            assert(!(text@[off as int] != '{' && text@[off as int] != '#'));
        }
        let mut end = off + 2;
        if end < len && (text[end] == '+' || text[end] == '-') {
            end = end + 1;
        }
        push_token(toks, text, off, end, Kind::ExprStart, pos);
        Ok((end, advance_pos(pos, text, off, end), State::Expr))
    } else if c == '{' && off + 1 < len && text[off + 1] == '#' {
        // A `{# ... #}` block comment.
        proof {
            assert(!(text@[off as int] != '{' && text@[off as int] != '#'));
        }
        match find_block_comment_end(text, off + 2) {
            Some(end) => {
                push_token(toks, text, off, end, Kind::Comment, pos);
                Ok((end, advance_pos(pos, text, off, end), State::Top))
            },
            None => Err(
                ParseError::InvalidSyntax(pos, "Comment does not end".to_owned()),
            ),
        }
    } else if c == '\n' {
        push_token(toks, text, off, off + 1, Kind::Newline, pos);
        Ok((off + 1, advance_pos(pos, text, off, off + 1), State::Top))
    } else {
        // Anchored statement-line patterns: whitespace, then `###`,
        // `##` at end of line, or `## word`.
        proof {
            reveal_strlit("###");
            reveal_strlit("##");
        }
        let ws = space_run(text, off);
        let j = off + ws;
        if match_lit(text, j, "###") {
            // A line comment: to the end of the line, taking the newline
            // along when the comment starts its line.
            proof {
                assert(text@.subrange(j as int, j + 3)[0] == text@[j as int]);
                assert(!(text@[j as int] != '{' && text@[j as int] != '#'));
            }
            let skip_nl = pos.column == 1;
            let end = match find_newline(text, j + 3) {
                Some(nl) => if skip_nl {
                    nl + 1
                } else {
                    nl
                },
                None => len,
            };
            push_token(toks, text, off, end, Kind::Comment, pos);
            Ok((end, advance_pos(pos, text, off, end), State::Top))
        } else if match_lit(text, j, "##") && (j + 2 == len || text[j + 2] == '\n') {
            // A line joiner `##` at the end of a line.
            proof {
                assert(text@.subrange(j as int, j + 2)[0] == text@[j as int]);
                assert(!(text@[j as int] != '{' && text@[j as int] != '#'));
            }
            let end = if j + 2 < len {
                j + 3
            } else {
                j + 2
            };
            push_token(toks, text, off, end, Kind::LineJoiner, pos);
            Ok((end, advance_pos(pos, text, off, end), State::Top))
        } else {
            let blanks = blank_run(text, off);
            let j2 = off + blanks;
            if match_lit(text, j2, "##") {
                // A statement start `## word`.
                proof {
                    assert(text@.subrange(j2 as int, j2 + 2)[0] == text@[j2 as int]);
                    assert(!(text@[j2 as int] != '{' && text@[j2 as int] != '#'));
                }
                if pos.column != 1 {
                    return Err(ParseError::InvalidSyntax(
                        pos,
                        "Statement must start at the beginning of the line".to_owned(),
                    ));
                }
                let k = j2 + 2;
                let k2 = k + space_run(text, k);
                let end = k2 + word_run(text, k2);
                push_token(toks, text, off, end, Kind::StStart, pos);
                Ok((end, advance_pos(pos, text, off, end), State::Statement))
            } else if c == ' ' || c == '\t' {
                let end = off + blank_run(text, off);
                push_token(toks, text, off, end, Kind::Whitespace, pos);
                Ok((end, advance_pos(pos, text, off, end), State::Top))
            } else {
                let end = find_raw_end(text, off);
                push_token(toks, text, off, end, Kind::Raw, pos);
                Ok((end, advance_pos(pos, text, off, end), State::Top))
            }
        }
    }
}

/// One step of expression-mode scanning at `off`.
fn expr_step(toks: &mut Vec<Token>, text: &Vec<char>, off: usize, pos: Pos) -> (r: Result<
    (usize, Pos, State),
    ParseError,
>)
    requires
        text@.len() + 16 < usize::MAX,
        off < text@.len(),
        tokens_text(old(toks)@) == text@.subrange(0, off as int),
        tokens_pos_ok(old(toks)@),
        pos.line as int == line_of(text@.subrange(0, off as int)),
        pos.column as int == col_of(text@.subrange(0, off as int)),
    ensures
        match r {
            Ok(step) => {
                &&& off < step.0 <= text@.len()
                &&& tokens_text(final(toks)@) == text@.subrange(0, step.0 as int)
                &&& tokens_pos_ok(final(toks)@)
                &&& step.1.line as int == line_of(text@.subrange(0, step.0 as int))
                &&& step.1.column as int == col_of(text@.subrange(0, step.0 as int))
            },
            Err(_) => true,
        },
{
    let c = text[off];
    if is_space(c) {
        let end = off + space_run(text, off);
        push_token(toks, text, off, end, Kind::Whitespace, pos);
        Ok((end, advance_pos(pos, text, off, end), State::Expr))
    } else {
        match match_common(text, off) {
            Some((kind, end)) => {
                if kind == Kind::Comment {
                    // The original engine has no comments here.
                    return Err(ParseError::InvalidSyntax(
                        pos,
                        "comment inside an expression".to_owned(),
                    ));
                }
                push_token(toks, text, off, end, kind, pos);
                let next = if kind == Kind::ExprEnd {
                    State::Top
                } else {
                    State::Expr
                };
                Ok((end, advance_pos(pos, text, off, end), next))
            },
            None => Err(
                ParseError::InvalidSyntax(
                    pos,
                    "unexpected end of file, expected `}}`".to_owned(),
                ),
            ),
        }
    }
}

/// One step of statement-mode scanning at `off`.  A step that consumes
/// nothing ends the statement line.
fn stmt_step(toks: &mut Vec<Token>, text: &Vec<char>, off: usize, pos: Pos) -> (r: Result<
    (usize, Pos, State),
    ParseError,
>)
    requires
        text@.len() + 16 < usize::MAX,
        off < text@.len(),
        tokens_text(old(toks)@) == text@.subrange(0, off as int),
        tokens_pos_ok(old(toks)@),
        pos.line as int == line_of(text@.subrange(0, off as int)),
        pos.column as int == col_of(text@.subrange(0, off as int)),
    ensures
        match r {
            Ok(step) => {
                &&& off <= step.0 <= text@.len()
                &&& (step.0 == off ==> step.2 is Top)
                &&& tokens_text(final(toks)@) == text@.subrange(0, step.0 as int)
                &&& tokens_pos_ok(final(toks)@)
                &&& step.1.line as int == line_of(text@.subrange(0, step.0 as int))
                &&& step.1.column as int == col_of(text@.subrange(0, step.0 as int))
            },
            Err(_) => true,
        },
{
    let len = text.len();
    let c = text[off];
    if c == '\n' {
        push_token(toks, text, off, off + 1, Kind::Newline, pos);
        Ok((off + 1, advance_pos(pos, text, off, off + 1), State::Top))
    } else if c == ' ' || c == '\t' {
        let end = off + blank_run(text, off);
        push_token(toks, text, off, end, Kind::Whitespace, pos);
        Ok((end, advance_pos(pos, text, off, end), State::Statement))
    } else {
        match match_common(text, off) {
            Some((kind, end)) => {
                if kind == Kind::Comment {
                    // An inline comment runs to the end of the line; the
                    // newline stays outside it.
                    let cend = match find_newline(text, end) {
                        Some(nl) => nl,
                        None => len,
                    };
                    push_token(toks, text, off, cend, Kind::Comment, pos);
                    Ok((cend, advance_pos(pos, text, off, cend), State::Statement))
                } else {
                    push_token(toks, text, off, end, kind, pos);
                    Ok((end, advance_pos(pos, text, off, end), State::Statement))
                }
            },
            None => {
                if all_space_from(text, off) {
                    // Only whitespace is left: the statement line ends here.
                    push_token(toks, text, off, off, Kind::Newline, pos);
                    Ok((off, pos, State::Top))
                } else {
                    Err(
                        ParseError::InvalidSyntax(
                            pos,
                            "unexpected input in a statement".to_owned(),
                        ),
                    )
                }
            },
        }
    }
}

/// Tokenize a whole source text.
///
/// On success the token values concatenate back to `text` exactly, every
/// token records the position it starts at, and the stream's `end` is the
/// position just past the last character.  Text without `{` and `#`
/// always tokenizes, into raw text, whitespace and newline tokens alone.
#[verifier::loop_isolation(false)]
pub fn tokenize(text: &Vec<char>) -> (r: Result<TokenStream, ParseError>)
    requires
        text@.len() + 16 < usize::MAX,
    ensures
        match r {
            Ok(stream) => {
                &&& tokens_text(stream.tokens@) == text@
                &&& tokens_pos_ok(stream.tokens@)
                &&& stream.end.line as int == line_of(text@)
                &&& stream.end.column as int == col_of(text@)
                &&& (plain_text(text@) ==> tokens_plain(stream.tokens@))
            },
            Err(_) => !plain_text(text@),
        },
{
    let len = text.len();
    let mut toks: Vec<Token> = Vec::new();
    let mut off: usize = 0;
    let mut pos = Pos { line: 1, column: 1 };
    let mut state = State::Top;
    proof {
        assert(text@.subrange(0, 0) =~= Seq::<char>::empty());
    }
    while off < len
        invariant
            off <= len,
            tokens_text(toks@) == text@.subrange(0, off as int),
            tokens_pos_ok(toks@),
            pos.line as int == line_of(text@.subrange(0, off as int)),
            pos.column as int == col_of(text@.subrange(0, off as int)),
            plain_text(text@) ==> (tokens_plain(toks@) && state is Top),
        decreases 2 * (len - off) + (if state is Statement {
            1int
        } else {
            0int
        }),
    {
        let step = match state {
            State::Top => top_step(&mut toks, text, off, pos),
            State::Expr => expr_step(&mut toks, text, off, pos),
            State::Statement => stmt_step(&mut toks, text, off, pos),
        };
        match step {
            Ok((off2, pos2, state2)) => {
                off = off2;
                pos = pos2;
                state = state2;
            },
            Err(e) => {
                return Err(e);
            },
        }
    }
    if let State::Statement = state {
        // A statement line ending at the end of the file still ends.
        push_token(&mut toks, text, len, len, Kind::Newline, pos);
    }
    proof {
        assert(text@.subrange(0, text@.len() as int) =~= text@);
    }
    Ok(TokenStream { tokens: toks, end: pos })
}

impl Tokenizer {
    /// Create a new tokenizer.
    pub fn new() -> Tokenizer {
        Tokenizer { _priv: () }
    }

    /// Tokenize a whole source text.
    pub fn scan(&self, buf: &str) -> (r: Result<TokenStream, ParseError>)
        requires
            buf@.len() + 16 < usize::MAX,
        ensures
            match r {
                Ok(stream) => tokens_text(stream.tokens@) == buf@ && tokens_pos_ok(stream.tokens@),
                Err(_) => !plain_text(buf@),
            },
    {
        let text = chars::str_to_chars(buf);
        tokenize(&text)
    }
}

} // verus!
