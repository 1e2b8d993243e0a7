//! Character-level utilities: the engine's text model.
//!
//! Template text is handled internally as vectors of characters, modeled as
//! `Seq<char>`.  This module defines the whitespace and word-character
//! classes, trimming, decimal formatting, and the conversions between `str`
//! and character vectors.

use vstd::prelude::*;
use vstd::string::StrSliceExecFns;

verus! {

/// Whitespace as the engine understands it: the ASCII whitespace characters.
pub open spec fn is_space_char(c: char) -> bool {
    c == ' ' || c == '\t' || c == '\n' || c == '\r' || c == '\u{b}' || c == '\u{c}'
}

/// Whether `c` is whitespace.
pub fn is_space(c: char) -> (r: bool)
    ensures
        r == is_space_char(c),
{
    c == ' ' || c == '\t' || c == '\n' || c == '\r' || c == '\u{b}' || c == '\u{c}'
}

/// A word character: an ASCII letter, digit or underscore.
pub open spec fn is_word_char(c: char) -> bool {
    ('a' <= c && c <= 'z') || ('A' <= c && c <= 'Z') || ('0' <= c && c <= '9') || c == '_'
}

/// Whether `c` is a word character.
pub fn is_word(c: char) -> (r: bool)
    ensures
        r == is_word_char(c),
{
    ('a' <= c && c <= 'z') || ('A' <= c && c <= 'Z') || ('0' <= c && c <= '9') || c == '_'
}

/// A decimal digit.
pub open spec fn is_digit_char(c: char) -> bool {
    '0' <= c && c <= '9'
}

/// Whether `c` is a decimal digit.
pub fn is_digit(c: char) -> (r: bool)
    ensures
        r == is_digit_char(c),
{
    '0' <= c && c <= '9'
}

/// Every character of `s` is whitespace.
pub open spec fn all_space(s: Seq<char>) -> bool {
    forall|i: int| 0 <= i < s.len() ==> is_space_char(s[i])
}

/// The length of the leading whitespace run of `s`.
pub open spec fn leading_spaces(s: Seq<char>) -> int
    decreases s.len(),
{
    if s.len() > 0 && is_space_char(s[0]) {
        1 + leading_spaces(s.subrange(1, s.len() as int))
    } else {
        0
    }
}

/// The length of the trailing whitespace run of `s`.
pub open spec fn trailing_spaces(s: Seq<char>) -> int
    decreases s.len(),
{
    if s.len() > 0 && is_space_char(s.last()) {
        1 + trailing_spaces(s.drop_last())
    } else {
        0
    }
}

/// `s` with its leading whitespace removed.
pub open spec fn ltrim(s: Seq<char>) -> Seq<char> {
    s.subrange(leading_spaces(s), s.len() as int)
}

/// `s` with its trailing whitespace removed.
pub open spec fn rtrim(s: Seq<char>) -> Seq<char> {
    s.subrange(0, s.len() - trailing_spaces(s))
}

/// The leading whitespace run is a well-formed prefix: it is bounded, made
/// of whitespace, and maximal.
pub proof fn lemma_leading_spaces(s: Seq<char>)
    ensures
        0 <= leading_spaces(s) <= s.len(),
        forall|i: int| 0 <= i < leading_spaces(s) ==> is_space_char(s[i]),
        leading_spaces(s) < s.len() ==> !is_space_char(s[leading_spaces(s)]),
    decreases s.len(),
{
    if s.len() > 0 && is_space_char(s[0]) {
        let sub = s.subrange(1, s.len() as int);
        lemma_leading_spaces(sub);
        assert forall|i: int| 0 <= i < leading_spaces(s) implies is_space_char(s[i]) by {
            if i >= 1 {
                assert(sub[i - 1] == s[i]);
            }
        }
    }
}

/// The trailing whitespace run is a well-formed suffix: it is bounded, made
/// of whitespace, and maximal.
pub proof fn lemma_trailing_spaces(s: Seq<char>)
    ensures
        0 <= trailing_spaces(s) <= s.len(),
        forall|i: int| s.len() - trailing_spaces(s) <= i < s.len() ==> is_space_char(s[i]),
        trailing_spaces(s) < s.len() ==> !is_space_char(s[s.len() - trailing_spaces(s) - 1]),
    decreases s.len(),
{
    if s.len() > 0 && is_space_char(s.last()) {
        let sub = s.drop_last();
        lemma_trailing_spaces(sub);
        assert forall|i: int| s.len() - trailing_spaces(s) <= i < s.len() implies is_space_char(
            s[i],
        ) by {
            if i < s.len() - 1 {
                assert(sub[i] == s[i]);
            } else {
                assert(s[i] == s.last());
            }
        }
    }
}

fn count_leading_from(v: &Vec<char>, i: usize) -> (r: usize)
    requires
        i <= v@.len(),
    ensures
        r == leading_spaces(v@.subrange(i as int, v@.len() as int)),
        i + r <= v@.len(),
    decreases v@.len() - i,
{
    if i < v.len() && is_space(v[i]) {
        let n = count_leading_from(v, i + 1);
        proof {
            assert(v@.subrange(i as int, v@.len() as int).subrange(
                1,
                v@.subrange(i as int, v@.len() as int).len() as int,
            ) =~= v@.subrange(i + 1, v@.len() as int));
        }
        n + 1
    } else {
        0
    }
}

/// The length of the leading whitespace run of `v`.
pub fn count_leading(v: &Vec<char>) -> (r: usize)
    ensures
        r == leading_spaces(v@),
        r <= v@.len(),
{
    proof {
        assert(v@.subrange(0, v@.len() as int) =~= v@);
    }
    count_leading_from(v, 0)
}

fn count_trailing_to(v: &Vec<char>, i: usize) -> (r: usize)
    requires
        i <= v@.len(),
    ensures
        r == trailing_spaces(v@.subrange(0, i as int)),
        r <= i,
    decreases i,
{
    if i > 0 && is_space(v[i - 1]) {
        let n = count_trailing_to(v, i - 1);
        proof {
            assert(v@.subrange(0, i as int).drop_last() =~= v@.subrange(0, i - 1));
            assert(v@.subrange(0, i as int).last() == v@[i - 1]);
        }
        n + 1
    } else {
        0
    }
}

/// The length of the trailing whitespace run of `v`.
pub fn count_trailing(v: &Vec<char>) -> (r: usize)
    ensures
        r == trailing_spaces(v@),
        r <= v@.len(),
{
    let n = v.len();
    proof {
        assert(v@.subrange(0, v@.len() as int) =~= v@);
    }
    count_trailing_to(v, n)
}

/// Copy the characters of `v` in `[from, to)` into a fresh vector.
pub fn subvec(v: &Vec<char>, from: usize, to: usize) -> (r: Vec<char>)
    requires
        from <= to <= v@.len(),
    ensures
        r@ == v@.subrange(from as int, to as int),
{
    let mut r: Vec<char> = Vec::new();
    let mut i = from;
    while i < to
        invariant
            from <= i <= to <= v@.len(),
            r@ == v@.subrange(from as int, i as int),
        decreases to - i,
    {
        r.push(v[i]);
        i = i + 1;
        proof {
            assert(r@ =~= v@.subrange(from as int, i as int));
        }
    }
    r
}

/// Append the characters of `v` in `[from, to)` to `dest`.
pub fn append_range(dest: &mut Vec<char>, v: &Vec<char>, from: usize, to: usize)
    requires
        from <= to <= v@.len(),
    ensures
        final(dest)@ == old(dest)@ + v@.subrange(from as int, to as int),
{
    let ghost orig = dest@;
    let mut i = from;
    while i < to
        invariant
            from <= i <= to <= v@.len(),
            dest@ == orig + v@.subrange(from as int, i as int),
        decreases to - i,
    {
        dest.push(v[i]);
        i = i + 1;
        proof {
            assert(orig + v@.subrange(from as int, i - 1) + seq![v@[i - 1]] =~= orig + v@.subrange(
                from as int,
                i as int,
            ));
        }
    }
    proof {
        assert(dest@ =~= orig + v@.subrange(from as int, to as int));
    }
}

/// Relies on `String::push` of std: it appends exactly the one character.
#[verifier::external_body]
fn push_char(s: &mut String, c: char)
    ensures
        final(s)@ == old(s)@.push(c),
{
    s.push(c);
}

/// The characters of `s`, as a vector.
pub fn str_to_chars(s: &str) -> (r: Vec<char>)
    ensures
        r@ == s@,
{
    let n = s.unicode_len();
    let mut v: Vec<char> = Vec::new();
    let mut i: usize = 0;
    while i < n
        invariant
            i <= n,
            n == s@.len(),
            v@ == s@.subrange(0, i as int),
        decreases n - i,
    {
        let c = s.get_char(i);
        v.push(c);
        i = i + 1;
        proof {
            assert(v@ =~= s@.subrange(0, i as int));
        }
    }
    proof {
        assert(v@ =~= s@);
    }
    v
}

/// The characters of `v`, as a string.
pub fn chars_to_string(v: &Vec<char>) -> (r: String)
    ensures
        r@ == v@,
{
    let mut s = String::new();
    let mut i: usize = 0;
    while i < v.len()
        invariant
            i <= v@.len(),
            s@ == v@.subrange(0, i as int),
        decreases v@.len() - i,
    {
        push_char(&mut s, v[i]);
        i = i + 1;
        proof {
            assert(s@ =~= v@.subrange(0, i as int));
        }
    }
    proof {
        assert(s@ =~= v@);
    }
    s
}

/// Whether the characters of `v` equal the characters of the string `s`.
pub fn eq_str(v: &Vec<char>, s: &str) -> (r: bool)
    ensures
        r == (v@ == s@),
{
    let n = s.unicode_len();
    if v.len() != n {
        proof {
            assert(v@ != s@);
        }
        return false;
    }
    let mut i: usize = 0;
    while i < n
        invariant
            i <= n,
            n == s@.len(),
            n == v@.len(),
            forall|j: int| 0 <= j < i ==> v@[j] == s@[j],
        decreases n - i,
    {
        if v[i] != s.get_char(i) {
            return false;
        }
        i = i + 1;
    }
    proof {
        assert(v@ =~= s@);
    }
    true
}

/// Whether two character vectors hold the same characters.
pub fn eq_chars(a: &Vec<char>, b: &Vec<char>) -> (r: bool)
    ensures
        r == (a@ == b@),
{
    if a.len() != b.len() {
        proof {
            assert(a@ != b@);
        }
        return false;
    }
    let mut i: usize = 0;
    while i < a.len()
        invariant
            i <= a@.len(),
            a@.len() == b@.len(),
            forall|j: int| 0 <= j < i ==> a@[j] == b@[j],
        decreases a@.len() - i,
    {
        if a[i] != b[i] {
            return false;
        }
        i = i + 1;
    }
    proof {
        assert(a@ =~= b@);
    }
    true
}

/// The decimal digit character for `d`.
pub open spec fn digit_char(d: int) -> char {
    if d == 0 {
        '0'
    } else if d == 1 {
        '1'
    } else if d == 2 {
        '2'
    } else if d == 3 {
        '3'
    } else if d == 4 {
        '4'
    } else if d == 5 {
        '5'
    } else if d == 6 {
        '6'
    } else if d == 7 {
        '7'
    } else if d == 8 {
        '8'
    } else {
        '9'
    }
}

/// The decimal digits of a non-negative number.
pub open spec fn dec_digits(n: int) -> Seq<char>
    decreases n,
{
    if n < 10 {
        seq![digit_char(n)]
    } else {
        dec_digits(n / 10).push(digit_char(n % 10))
    }
}

/// The decimal rendering of an integer, with a leading minus for a
/// negative one.
pub open spec fn dec_int(s: int) -> Seq<char> {
    if s < 0 {
        seq!['-'] + dec_digits(-s)
    } else {
        dec_digits(s)
    }
}

fn digit(d: u64) -> (r: char)
    requires
        d < 10,
    ensures
        r == digit_char(d as int),
{
    if d == 0 {
        '0'
    } else if d == 1 {
        '1'
    } else if d == 2 {
        '2'
    } else if d == 3 {
        '3'
    } else if d == 4 {
        '4'
    } else if d == 5 {
        '5'
    } else if d == 6 {
        '6'
    } else if d == 7 {
        '7'
    } else if d == 8 {
        '8'
    } else {
        '9'
    }
}

/// The decimal digits of `n`.
pub fn u64_to_chars(n: u64) -> (r: Vec<char>)
    ensures
        r@ == dec_digits(n as int),
    decreases n,
{
    if n < 10 {
        let mut v: Vec<char> = Vec::new();
        v.push(digit(n));
        proof {
            assert(v@ =~= dec_digits(n as int));
        }
        v
    } else {
        let mut v = u64_to_chars(n / 10);
        v.push(digit(n % 10));
        v
    }
}

} // verus!
verus! {

/// A leading run is the whole leading-whitespace run exactly when it is
/// all-whitespace and maximal.
pub proof fn lemma_leading_spaces_unique(s: Seq<char>, r: int)
    requires
        0 <= r <= s.len(),
        forall|j: int| 0 <= j < r ==> is_space_char(s[j]),
        r < s.len() ==> !is_space_char(s[r]),
    ensures
        leading_spaces(s) == r,
{
    lemma_leading_spaces(s);
    let ls = leading_spaces(s);
    if r < ls {
        assert(!is_space_char(s[r]));
        assert(is_space_char(s[r]));
    }
    if r > ls {
        assert(is_space_char(s[ls]));
        assert(!is_space_char(s[ls]));
    }
}

/// The length of the leading word-character run of `s`.
pub open spec fn leading_words(s: Seq<char>) -> int
    decreases s.len(),
{
    if s.len() > 0 && is_word_char(s[0]) {
        1 + leading_words(s.subrange(1, s.len() as int))
    } else {
        0
    }
}

/// The leading word run is a well-formed prefix: bounded, made of word
/// characters, and maximal.
pub proof fn lemma_leading_words(s: Seq<char>)
    ensures
        0 <= leading_words(s) <= s.len(),
        forall|i: int| 0 <= i < leading_words(s) ==> is_word_char(s[i]),
        leading_words(s) < s.len() ==> !is_word_char(s[leading_words(s)]),
    decreases s.len(),
{
    if s.len() > 0 && is_word_char(s[0]) {
        let sub = s.subrange(1, s.len() as int);
        lemma_leading_words(sub);
        assert forall|i: int| 0 <= i < leading_words(s) implies is_word_char(s[i]) by {
            if i >= 1 {
                assert(sub[i - 1] == s[i]);
            }
        }
    }
}

/// A leading run is the whole leading-word run exactly when it is all word
/// characters and maximal.
pub proof fn lemma_leading_words_unique(s: Seq<char>, r: int)
    requires
        0 <= r <= s.len(),
        forall|j: int| 0 <= j < r ==> is_word_char(s[j]),
        r < s.len() ==> !is_word_char(s[r]),
    ensures
        leading_words(s) == r,
{
    lemma_leading_words(s);
    let ls = leading_words(s);
    if r < ls {
        assert(!is_word_char(s[r]));
        assert(is_word_char(s[r]));
    }
    if r > ls {
        assert(is_word_char(s[ls]));
        assert(!is_word_char(s[ls]));
    }
}

/// The position of the first newline at or after `off`, or the text's end.
pub open spec fn line_end_at(s: Seq<char>, off: int) -> int
    decreases s.len() - off,
{
    if off < 0 || off >= s.len() {
        s.len() as int
    } else if s[off] == '\n' {
        off
    } else {
        line_end_at(s, off + 1)
    }
}

/// The first newline position is bounded and holds a newline when inside.
pub proof fn lemma_line_end_at(s: Seq<char>, off: int)
    requires
        0 <= off <= s.len(),
    ensures
        off <= line_end_at(s, off) <= s.len(),
        line_end_at(s, off) < s.len() ==> s[line_end_at(s, off)] == '\n',
    decreases s.len() - off,
{
    if off < s.len() && s[off] != '\n' {
        lemma_line_end_at(s, off + 1);
    }
}

} // verus!
