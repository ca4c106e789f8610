//! Unicode character properties and case mappings of `std`. Those whose
//! tables are too large to restate are named functions of their argument.
use vstd::prelude::*;

verus! {

/// `char::is_alphabetic`: the Unicode `Alphabetic` property.
pub uninterp spec fn alphabetic(c: char) -> bool;

/// `char::is_alphanumeric`: `Alphabetic` or `Numeric`.
pub uninterp spec fn alphanumeric(c: char) -> bool;

/// `char::is_control`: general category `Cc`, the C0 and C1 control codes
/// U+0000 to U+001F and U+007F to U+009F.
pub open spec fn control(c: char) -> bool {
    (c as u32) <= 0x1F || (0x7F <= (c as u32) && (c as u32) <= 0x9F)
}

/// `str::to_lowercase`: the full Unicode lowercase mapping of a text.
pub uninterp spec fn lowercase(s: Seq<char>) -> Seq<char>;

/// `char::to_lowercase`: the characters a single character lowercases to.
pub uninterp spec fn char_lowercase(c: char) -> Seq<char>;

/// Calls `char::is_alphabetic`; the result is the property named above.
#[verifier::external_body]
pub(crate) fn is_alphabetic(c: char) -> (r: bool)
    ensures
        r == alphabetic(c),
{
    c.is_alphabetic()
}

/// Calls `char::is_alphanumeric`; the result is the property named above.
#[verifier::external_body]
pub(crate) fn is_alphanumeric(c: char) -> (r: bool)
    ensures
        r == alphanumeric(c),
{
    c.is_alphanumeric()
}

/// Whether a character is a control code (as `char::is_control`).
pub(crate) fn is_control(c: char) -> (r: bool)
    ensures
        r == control(c),
{
    let u = c as u32;
    u <= 0x1F || (0x7F <= u && u <= 0x9F)
}

/// Calls `str::to_lowercase`; the result is the mapping named above.
#[verifier::external_body]
pub(crate) fn to_lowercase(s: &str) -> (r: String)
    ensures
        r@ == lowercase(s@),
{
    s.to_lowercase()
}

/// Calls `char::to_lowercase` and collects what it yields; the result is the
/// mapping named above.
#[verifier::external_body]
pub(crate) fn lowercase_of(c: char) -> (r: Vec<char>)
    ensures
        r@ == char_lowercase(c),
{
    c.to_lowercase().collect()
}

} // verus!
