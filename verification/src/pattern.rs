//! Regular-expression matching through the `regex` crate. What a pattern
//! matches is the crate's to decide; each call's result is named as a function
//! of the pattern and the text.
use vstd::prelude::*;

verus! {

/// Whether `regex::Regex::new(pattern)` compiles and `is_match` finds a match
/// in `hay`.
pub uninterp spec fn re_matches(pattern: Seq<char>, hay: Seq<char>) -> bool;

/// The capture groups of the leftmost match of `pattern` in `hay`
/// (`Regex::captures`), group 0 first; `None` without a match or when the
/// pattern does not compile.
pub uninterp spec fn re_captures(pattern: Seq<char>, hay: Seq<char>) -> Option<
    Seq<Option<Seq<char>>>,
>;

/// The capture groups of every successive non-overlapping match of `pattern`
/// in `hay` (`Regex::captures_iter`); empty when the pattern does not compile.
pub uninterp spec fn re_captures_all(pattern: Seq<char>, hay: Seq<char>) -> Seq<
    Seq<Option<Seq<char>>>,
>;

/// `hay` with every match of `pattern` replaced by the empty text
/// (`Regex::replace_all`); `hay` itself when the pattern does not compile.
pub uninterp spec fn re_remove_all(pattern: Seq<char>, hay: Seq<char>) -> Seq<char>;

pub open spec fn group_views(g: Seq<Option<String>>) -> Seq<Option<Seq<char>>> {
    g.map_values(|o: Option<String>| match o {
        Some(s) => Some(s@),
        None => None,
    })
}

pub open spec fn groups_views(gs: Seq<Vec<Option<String>>>) -> Seq<Seq<Option<Seq<char>>>> {
    gs.map_values(|g: Vec<Option<String>>| group_views(g@))
}

/// Calls `regex::Regex::new` and `Regex::is_match`.
#[verifier::external_body]
pub(crate) fn is_match(pattern: &str, hay: &str) -> (r: bool)
    ensures
        r == re_matches(pattern@, hay@),
{
    match regex::Regex::new(pattern) {
        Ok(re) => re.is_match(hay),
        Err(_) => false,
    }
}

/// Calls `regex::Regex::new` and `Regex::captures`, converting each group to
/// an owned string.
#[verifier::external_body]
pub(crate) fn captures(pattern: &str, hay: &str) -> (r: Option<Vec<Option<String>>>)
    ensures
        match r {
            Some(g) => re_captures(pattern@, hay@) == Some(group_views(g@)),
            None => re_captures(pattern@, hay@) is None,
        },
{
    let re = regex::Regex::new(pattern).ok()?;
    let caps = re.captures(hay)?;
    Some(caps.iter().map(|m| m.map(|m| m.as_str().to_string())).collect())
}

/// Calls `regex::Regex::new` and `Regex::captures_iter`, converting each
/// group to an owned string.
#[verifier::external_body]
pub(crate) fn captures_all(pattern: &str, hay: &str) -> (r: Vec<Vec<Option<String>>>)
    ensures
        groups_views(r@) == re_captures_all(pattern@, hay@),
{
    match regex::Regex::new(pattern) {
        Ok(re) => re.captures_iter(hay).map(
            |caps| caps.iter().map(|m| m.map(|m| m.as_str().to_string())).collect(),
        ).collect(),
        Err(_) => Vec::new(),
    }
}

/// Calls `regex::Regex::new` and `Regex::replace_all` with an empty
/// replacement.
#[verifier::external_body]
pub(crate) fn remove_all(pattern: &str, hay: &str) -> (r: String)
    ensures
        r@ == re_remove_all(pattern@, hay@),
{
    match regex::Regex::new(pattern) {
        Ok(re) => re.replace_all(hay, "").to_string(),
        Err(_) => hay.to_string(),
    }
}

/// A regular-expression meta character, as `regex_syntax::is_meta_character`
/// lists them.
pub open spec fn is_meta(c: char) -> bool {
    c == '\\' || c == '.' || c == '+' || c == '*' || c == '?' || c == '(' || c == ')' || c == '|'
        || c == '[' || c == ']' || c == '{' || c == '}' || c == '^' || c == '$' || c == '#' || c
        == '&' || c == '-' || c == '~'
}

/// A text with a backslash before each meta character, so that it matches
/// itself as a pattern.
pub open spec fn re_escaped(s: Seq<char>) -> Seq<char>
    decreases s.len(),
{
    if s.len() == 0 {
        seq![]
    } else {
        re_escaped(s.drop_last()) + if is_meta(s.last()) {
            seq!['\\', s.last()]
        } else {
            seq![s.last()]
        }
    }
}

/// Calls `regex::escape`, which puts a backslash before each meta character.
#[verifier::external_body]
pub(crate) fn escape(s: &str) -> (r: String)
    ensures
        r@ == re_escaped(s@),
{
    regex::escape(s)
}

} // verus!
