//! The calls that leave this crate. Their contracts are taken on trust; each
//! one names the function it stands for and what is claimed of it.

use vstd::prelude::*;

verus! {

/// The lower-case form that `str::to_lowercase` gives a text.
pub uninterp spec fn lowercased(text: Seq<char>) -> Seq<char>;

/// Whether `char::is_alphanumeric` holds of a character.
pub uninterp spec fn alphanumeric(c: char) -> bool;

/// The Jaro-Winkler similarity of two texts that `strsim::jaro_winkler`
/// computes, as the bit pattern of the double it returns.
pub uninterp spec fn jaro_winkler_bits(left: Seq<char>, right: Seq<char>) -> u64;

/// Whether a character is white space to `str::trim`: whether it has the
/// Unicode property `White_Space`, as `char::is_whitespace` tells.
pub uninterp spec fn white_space(c: char) -> bool;

/// Whether `inner` stands in `text` from the position `from` on, with
/// nothing but white space before and after it, and without white space at
/// its own two ends.
pub open spec fn cut_at(text: Seq<char>, inner: Seq<char>, from: int) -> bool {
    &&& 0 <= from
    &&& from + inner.len() <= text.len()
    &&& text.subrange(from, from + inner.len()) == inner
    &&& forall|i: int| 0 <= i < from ==> white_space(#[trigger] text[i])
    &&& forall|i: int| from + inner.len() <= i < text.len() ==> white_space(#[trigger] text[i])
    &&& inner.len() > 0 ==> !white_space(inner[0]) && !white_space(inner.last())
}

/// Whether `inner` is `text` without the white space at its two ends.
pub open spec fn is_trim_of(text: Seq<char>, inner: Seq<char>) -> bool {
    exists|from: int| cut_at(text, inner, from)
}

/// Calls `str::to_lowercase`. The result depends on the characters of `text`
/// alone; nothing more is claimed of it.
#[verifier::external_body]
pub(crate) fn to_lowercase(text: &str) -> (lower: String)
    ensures
        lower@ == lowercased(text@),
{
    text.to_lowercase()
}

/// Calls `char::is_alphanumeric`. The result depends on `c` alone; nothing
/// more is claimed of it.
#[verifier::external_body]
pub(crate) fn is_alphanumeric(c: char) -> (yes: bool)
    ensures
        yes == alphanumeric(c),
{
    c.is_alphanumeric()
}

/// Calls `String::push`, which appends one character to the end of the
/// string.
#[verifier::external_body]
pub(crate) fn push_char(text: &mut String, c: char)
    ensures
        final(text)@ == old(text)@.push(c),
{
    text.push(c)
}

/// Calls `str::trim`, which gives the text without its leading and trailing
/// white space: a stretch of the text, with only white space cut away, and
/// none left at either end. Which characters are white space is not said
/// here.
#[verifier::external_body]
pub(crate) fn trim(text: &str) -> (inner: &str)
    ensures
        is_trim_of(text@, inner@),
        inner@.len() > 0 ==> !white_space(inner@[0]) && !white_space(inner@.last()),
{
    text.trim()
}

/// Calls `strsim::jaro_winkler` and hands back the bits of its result. The
/// score depends on the characters of the two texts alone; nothing more is
/// claimed of it.
#[verifier::external_body]
pub(crate) fn similarity_bits(left: &str, right: &str) -> (bits: u64)
    ensures
        bits == jaro_winkler_bits(left@, right@),
{
    strsim::jaro_winkler(left, right).to_bits()
}

} // verus!
