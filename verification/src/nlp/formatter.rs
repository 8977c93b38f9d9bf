//! Normalisation of a legal text: headings and articles are made to start on
//! lines of their own, and empty lines are dropped.

use vstd::prelude::*;
use crate::pattern::{regex_replace_all, replace_all};
use crate::text::{
    append_chars, lines_of, lines_view, split_lines, string_of, to_chars, trim_end, trimmed_end,
};

verus! {

/// White space, if any, and the heading of a part, a chapter or a section.
pub open spec fn major_pattern() -> Seq<char> {
    "(\\s*)(第[一二三四五六七八九十百\\d]+[编章节])"@
}

/// A line feed before what `major_pattern` matched.
pub open spec fn major_replacement() -> Seq<char> {
    "\n$1$2"@
}

/// The heading of an article behind the end of a sentence, a closing bracket
/// or white space.
pub open spec fn article_pattern() -> Seq<char> {
    "([。！？；\\)）】\\s])(第[一二三四五六七八九十百\\d]+条)"@
}

/// A line feed between the two halves of what `article_pattern` matched.
pub open spec fn article_replacement() -> Seq<char> {
    "$1\n$2"@
}

/// The first `k` characters of `s` with every ideographic space replaced by
/// two spaces.
pub open spec fn widened(s: Seq<char>, k: nat) -> Seq<char>
    decreases k,
{
    if k == 0 || k > s.len() {
        Seq::empty()
    } else if s[k - 1] == '\u{3000}' {
        widened(s, (k - 1) as nat).push(' ').push(' ')
    } else {
        widened(s, (k - 1) as nat).push(s[k - 1])
    }
}

/// `text` with every match of `pattern` replaced, or `text` itself where the
/// pattern is not accepted.
pub open spec fn replaced(pattern: Seq<char>, text: Seq<char>, replacement: Seq<char>) -> Seq<
    char,
> {
    match regex_replace_all(pattern, text, replacement) {
        Some(t) => t,
        None => text,
    }
}

/// The first `k` of `lines` without trailing white space, each followed by a
/// line feed, without those that are then empty.
pub open spec fn kept_lines(lines: Seq<Seq<char>>, k: nat) -> Seq<char>
    decreases k,
{
    if k == 0 || k > lines.len() {
        Seq::empty()
    } else if trimmed_end(lines[k - 1]).len() == 0 {
        kept_lines(lines, (k - 1) as nat)
    } else {
        kept_lines(lines, (k - 1) as nat) + trimmed_end(lines[k - 1]).push('\n')
    }
}

/// The normal form of `text`.
pub open spec fn normalize_spec(text: Seq<char>) -> Seq<char> {
    let t0 = widened(text, text.len());
    let t1 = replaced(major_pattern(), t0, major_replacement());
    let t2 = replaced(article_pattern(), t1, article_replacement());
    kept_lines(lines_of(t2), lines_of(t2).len())
}

/// `s` with every ideographic space replaced by two spaces.
pub fn widen_spaces(s: &Vec<char>) -> (out: Vec<char>)
    ensures
        out@ == widened(s@, s@.len()),
{
    let mut out: Vec<char> = Vec::new();
    let mut i: usize = 0;
    while i < s.len()
        invariant
            i <= s@.len(),
            out@ == widened(s@, i as nat),
        decreases s.len() - i,
    {
        if s[i] == '\u{3000}' {
            out.push(' ');
            out.push(' ');
        } else {
            out.push(s[i]);
        }
        i += 1;
    }
    out
}

fn replace_or_keep(pattern: &str, text: String, replacement: &str) -> (r: String)
    ensures
        r@ == replaced(pattern@, text@, replacement@),
{
    match replace_all(pattern, text.as_str(), replacement) {
        Some(t) => t,
        None => text,
    }
}

/// The lines without trailing white space, each followed by a line feed,
/// without those that are then empty.
pub fn keep_lines(lines: &Vec<Vec<char>>) -> (out: Vec<char>)
    ensures
        out@ == kept_lines(lines_view(lines@), lines@.len()),
{
    let mut out: Vec<char> = Vec::new();
    let mut i: usize = 0;
    while i < lines.len()
        invariant
            i <= lines@.len(),
            out@ == kept_lines(lines_view(lines@), i as nat),
        decreases lines.len() - i,
    {
        assert(lines_view(lines@)[i as int] == lines@[i as int]@);
        let mut line = trim_end(&lines[i]);
        if line.len() > 0 {
            line.push('\n');
            append_chars(&mut out, &line);
        }
        i += 1;
    }
    out
}

/// Puts the headings of parts, chapters, sections and articles at the start
/// of a line, removes trailing white space and drops empty lines. Every line
/// of the result ends in a line feed.
pub fn normalize_legal_text(text: &str) -> (r: String)
    ensures
        r@ == normalize_spec(text@),
{
    let chars = to_chars(text);
    let wide = widen_spaces(&chars);
    let t0 = string_of(&wide);
    let t1 = replace_or_keep("(\\s*)(第[一二三四五六七八九十百\\d]+[编章节])", t0, "\n$1$2");
    let t2 = replace_or_keep("([。！？；\\)）】\\s])(第[一二三四五六七八九十百\\d]+条)", t1, "$1\n$2");
    let lines = split_lines(&to_chars(t2.as_str()));
    let out = keep_lines(&lines);
    string_of(&out)
}

} // verus!
