//! Built-in escape filters: HTML entities and POSIX shell quoting.

use vstd::prelude::*;

use crate::chars;

verus! {

/// The escaped form of one character in an HTML context.
pub open spec fn html_escape_char(c: char) -> Seq<char> {
    if c == '&' {
        seq!['&', 'a', 'm', 'p', ';']
    } else if c == '<' {
        seq!['&', 'l', 't', ';']
    } else if c == '>' {
        seq!['&', 'g', 't', ';']
    } else if c == '"' {
        seq!['&', 'q', 'u', 'o', 't', ';']
    } else if c == '\'' {
        seq!['&', '#', 'x', '2', '7', ';']
    } else if c == '/' {
        seq!['&', '#', 'x', '2', 'f', ';']
    } else if c == '`' {
        seq!['&', '#', 'x', '9', '6', ';']
    } else {
        seq![c]
    }
}

/// The HTML-escaped form of a text.
pub open spec fn html_escaped(s: Seq<char>) -> Seq<char>
    decreases s.len(),
{
    if s.len() == 0 {
        Seq::empty()
    } else {
        html_escaped(s.drop_last()) + html_escape_char(s.last())
    }
}

/// The escaped form of one character inside single quotes for a POSIX shell.
pub open spec fn shell_escape_char(c: char) -> Seq<char> {
    if c == '\'' {
        seq!['\'', '"', '\'', '"', '\'']
    } else {
        seq![c]
    }
}

/// The body of a shell-quoted text, without the enclosing quotes.
pub open spec fn shell_quoted_body(s: Seq<char>) -> Seq<char>
    decreases s.len(),
{
    if s.len() == 0 {
        Seq::empty()
    } else {
        shell_quoted_body(s.drop_last()) + shell_escape_char(s.last())
    }
}

/// The shell-quoted form of a text: the escaped body in single quotes.
pub open spec fn shell_quoted(s: Seq<char>) -> Seq<char> {
    seq!['\''] + shell_quoted_body(s) + seq!['\'']
}

fn push_html_char(dest: &mut Vec<char>, c: char)
    ensures
        final(dest)@ == old(dest)@ + html_escape_char(c),
{
    if c == '&' {
        dest.push('&');
        dest.push('a');
        dest.push('m');
        dest.push('p');
        dest.push(';');
    } else if c == '<' {
        dest.push('&');
        dest.push('l');
        dest.push('t');
        dest.push(';');
    } else if c == '>' {
        dest.push('&');
        dest.push('g');
        dest.push('t');
        dest.push(';');
    } else if c == '"' {
        dest.push('&');
        dest.push('q');
        dest.push('u');
        dest.push('o');
        dest.push('t');
        dest.push(';');
    } else if c == '\'' {
        dest.push('&');
        dest.push('#');
        dest.push('x');
        dest.push('2');
        dest.push('7');
        dest.push(';');
    } else if c == '/' {
        dest.push('&');
        dest.push('#');
        dest.push('x');
        dest.push('2');
        dest.push('f');
        dest.push(';');
    } else if c == '`' {
        dest.push('&');
        dest.push('#');
        dest.push('x');
        dest.push('9');
        dest.push('6');
        dest.push(';');
    } else {
        dest.push(c);
    }
    proof {
        assert(dest@ =~= old(dest)@ + html_escape_char(c));
    }
}

/// Append the HTML-escaped form of `src` to `dest`, on character vectors.
pub fn html_entities_chars(dest: &mut Vec<char>, src: &Vec<char>)
    ensures
        final(dest)@ == old(dest)@ + html_escaped(src@),
{
    let ghost orig = dest@;
    let mut i: usize = 0;
    while i < src.len()
        invariant
            i <= src@.len(),
            dest@ == orig + html_escaped(src@.subrange(0, i as int)),
        decreases src@.len() - i,
    {
        push_html_char(dest, src[i]);
        i = i + 1;
        proof {
            assert(src@.subrange(0, i as int).drop_last() =~= src@.subrange(0, i - 1));
            assert(src@.subrange(0, i as int).last() == src@[i - 1]);
        }
    }
    proof {
        assert(src@.subrange(0, src@.len() as int) =~= src@);
    }
}

/// Append the shell-quoted form of `src` to `dest`, on character vectors.
pub fn quoted_shell_argument_chars(dest: &mut Vec<char>, src: &Vec<char>)
    ensures
        final(dest)@ == old(dest)@ + shell_quoted(src@),
{
    let ghost orig = dest@;
    dest.push('\'');
    let mut i: usize = 0;
    while i < src.len()
        invariant
            i <= src@.len(),
            dest@ == orig + seq!['\''] + shell_quoted_body(src@.subrange(0, i as int)),
        decreases src@.len() - i,
    {
        let c = src[i];
        if c == '\'' {
            dest.push('\'');
            dest.push('"');
            dest.push('\'');
            dest.push('"');
            dest.push('\'');
        } else {
            dest.push(c);
        }
        i = i + 1;
        proof {
            assert(src@.subrange(0, i as int).drop_last() =~= src@.subrange(0, i - 1));
            assert(src@.subrange(0, i as int).last() == src@[i - 1]);
            assert(dest@ =~= orig + seq!['\''] + shell_quoted_body(src@.subrange(0, i as int)));
        }
    }
    dest.push('\'');
    proof {
        assert(src@.subrange(0, src@.len() as int) =~= src@);
        assert(dest@ =~= orig + shell_quoted(src@));
    }
}

/// Escape the characters `& < > " ' /` and backtick of `src` as HTML
/// entities, appending to `dest`.
pub fn html_entities(dest: &mut String, src: &str)
    ensures
        final(dest)@ == old(dest)@ + html_escaped(src@),
{
    let v = chars::str_to_chars(src);
    let mut out: Vec<char> = Vec::new();
    html_entities_chars(&mut out, &v);
    let s = chars::chars_to_string(&out);
    dest.append(s.as_str());
}

/// Quote `src` as a single POSIX shell argument, appending to `dest`:
/// the text is enclosed in single quotes and each single quote inside it
/// is escaped.
pub fn quoted_shell_argument(dest: &mut String, src: &str)
    ensures
        final(dest)@ == old(dest)@ + shell_quoted(src@),
{
    let v = chars::str_to_chars(src);
    let mut out: Vec<char> = Vec::new();
    quoted_shell_argument_chars(&mut out, &v);
    let s = chars::chars_to_string(&out);
    dest.append(s.as_str());
}

} // verus!
