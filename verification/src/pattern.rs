//! Regular expressions, evaluated by the `regex` crate.
//!
//! What an expression matches is not restated here: each result has a name,
//! and the functions below say that they return the named value.

use vstd::prelude::*;

verus! {

/// Whether the expression `pattern` matches somewhere in `text`; `None` where
/// `pattern` is not accepted as an expression.
pub uninterp spec fn regex_is_match(pattern: Seq<char>, text: Seq<char>) -> Option<bool>;

/// `text` with every match of `pattern`, leftmost first and not overlapping,
/// replaced by the expansion of `replacement`; `None` where `pattern` is not
/// accepted as an expression.
pub uninterp spec fn regex_replace_all(
    pattern: Seq<char>,
    text: Seq<char>,
    replacement: Seq<char>,
) -> Option<Seq<char>>;

/// The matches of `pattern` in `text`, leftmost first and not overlapping,
/// each as its start and end byte offsets and its text; `None` where
/// `pattern` is not accepted as an expression.
pub uninterp spec fn regex_find_all(pattern: Seq<char>, text: Seq<char>) -> Option<
    Seq<(usize, usize, Seq<char>)>,
>;

/// The matches held by a vector of found spans.
pub open spec fn spans_view(v: Seq<(usize, usize, String)>) -> Seq<(usize, usize, Seq<char>)> {
    v.map_values(|m: (usize, usize, String)| (m.0, m.1, m.2@))
}

/// Compiles `pattern` with `regex::Regex::new` and asks `Regex::is_match` for
/// `text`. Assumed: the answer is the one named `regex_is_match`, and `None`
/// stands for a pattern that did not compile.
#[verifier::external_body]
pub(crate) fn is_match(pattern: &str, text: &str) -> (r: Option<bool>)
    ensures
        r == regex_is_match(pattern@, text@),
{
    match regex::Regex::new(pattern) {
        Ok(re) => Some(re.is_match(text)),
        Err(_) => None,
    }
}

/// Compiles `pattern` with `regex::Regex::new` and applies
/// `Regex::replace_all`. Assumed: the text returned is the one named
/// `regex_replace_all`, and `None` stands for a pattern that did not compile.
#[verifier::external_body]
pub(crate) fn replace_all(pattern: &str, text: &str, replacement: &str) -> (r: Option<String>)
    ensures
        crate::models::opt_string_view(r) == regex_replace_all(pattern@, text@, replacement@),
{
    match regex::Regex::new(pattern) {
        Ok(re) => Some(re.replace_all(text, replacement).into_owned()),
        Err(_) => None,
    }
}

/// Compiles `pattern` with `regex::Regex::new` and collects what
/// `Regex::find_iter` yields. Assumed: the matches returned are those named
/// `regex_find_all`, and `None` stands for a pattern that did not compile.
#[verifier::external_body]
pub(crate) fn find_all(pattern: &str, text: &str) -> (r: Option<Vec<(usize, usize, String)>>)
    ensures
        match r {
            Some(v) => regex_find_all(pattern@, text@) == Some(spans_view(v@)),
            None => regex_find_all(pattern@, text@) is None,
        },
{
    match regex::Regex::new(pattern) {
        Ok(re) => Some(
            re.find_iter(text).map(|m| (m.start(), m.end(), m.as_str().to_string())).collect(),
        ),
        Err(_) => None,
    }
}

} // verus!
