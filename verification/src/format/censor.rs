//! Detection of censored words such as `f**k` in lyrics.
use vstd::prelude::*;
use crate::text::{
    chars_of, contains_char, contains_char_exec, copy_range, eq_pred, lead, lead_char, split_ws,
    trail, trail_char, views, words,
};
use crate::unicode::{alphabetic, is_alphabetic};

verus! {

/// `token.trim_matches('*')`.
pub open spec fn trim_stars(token: Seq<char>) -> Seq<char> {
    let rest = token.skip(lead(token, eq_pred('*')) as int);
    rest.take(rest.len() - trail(rest, eq_pred('*')))
}

/// A token holding an asterisk, unless it is a stage direction: a word
/// wrapped in asterisks (`*sigh*`) with no asterisk inside and a letter.
pub open spec fn is_masked(token: Seq<char>) -> bool {
    let inner = trim_stars(token);
    let wrapped = token.len() > 0 && token[0] == '*' && token.last() == '*';
    contains_char(token, '*') && !(wrapped && !contains_char(inner, '*') && exists|i: int|
        0 <= i < inner.len() && alphabetic(inner[i]))
}

/// Some whitespace-separated token of the text is masked.
pub open spec fn censored(text: Seq<char>) -> bool {
    exists|i: int| 0 <= i < words(text).len() && is_masked(#[trigger] words(text)[i])
}

pub fn is_masked_exec(token: &[char]) -> (r: bool)
    ensures
        r == is_masked(token@),
{
    if !contains_char_exec(token, '*') {
        return false;
    }
    let a = lead_char(token, 0, '*');
    assert(token@.skip(0) =~= token@);
    let rest = copy_range(token, a, token.len());
    assert(rest@ =~= token@.skip(a as int));
    let t = trail_char(rest.as_slice(), rest.len(), '*');
    assert(rest@.take(rest@.len() as int) =~= rest@);
    let inner = copy_range(rest.as_slice(), 0, rest.len() - t);
    let n = token.len();
    let wrapped = n > 0 && token[0] == '*' && token[n - 1] == '*';
    let mut has_letter = false;
    let mut i: usize = 0;
    while i < inner.len()
        invariant
            i <= inner@.len(),
            has_letter == exists|j: int| 0 <= j < i && alphabetic(inner@[j]),
        decreases inner.len() - i,
    {
        if is_alphabetic(inner[i]) {
            has_letter = true;
        }
        i = i + 1;
    }
    !(wrapped && !contains_char_exec(inner.as_slice(), '*') && has_letter)
}

/// Whether some whitespace-separated token of the text is masked with
/// asterisks.
pub fn is_censored(text: &str) -> (r: bool)
    ensures
        r == censored(text@),
{
    let chars = chars_of(text);
    let ws = split_ws(chars.as_slice());
    let mut i: usize = 0;
    while i < ws.len()
        invariant
            i <= ws@.len(),
            views(ws@) == words(text@),
            forall|j: int| 0 <= j < i ==> !is_masked(#[trigger] words(text@)[j]),
        decreases ws.len() - i,
    {
        assert(words(text@)[i as int] == ws@[i as int]@);
        if is_masked_exec(ws[i].as_slice()) {
            return true;
        }
        i = i + 1;
    }
    false
}

} // verus!
