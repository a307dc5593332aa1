//! Matching of keywords against a normalized text: literally, as a substring,
//! or word by word through a similarity score.

use vstd::prelude::*;
use crate::bindings::{jaro_winkler_bits, push_char, similarity_bits};
use crate::normalizer::text::to_chars;

verus! {

/// The similarity threshold used where none is configured: the double 0.85.
pub const DEFAULT_THRESHOLD_BITS: u64 = 0x3FEB_3333_3333_3333;

/// The bit of a double that holds its sign.
pub const SIGN_BIT: u64 = 0x8000_0000_0000_0000;

/// The bits of positive infinity; a larger magnitude is not a number.
pub const INFINITY_BITS: u64 = 0x7FF0_0000_0000_0000;

/// The bits of a double without its sign.
pub open spec fn unsigned_part(bits: u64) -> int {
    bits as int % 0x8000_0000_0000_0000
}

/// Whether the bits are those of a double that is not a number.
pub open spec fn not_a_number(bits: u64) -> bool {
    unsigned_part(bits) > 0x7FF0_0000_0000_0000
}

/// A number that orders the doubles as their values do: both zeros at 0.
pub open spec fn rank(bits: u64) -> int {
    if bits >= 0x8000_0000_0000_0000 {
        -unsigned_part(bits)
    } else {
        unsigned_part(bits)
    }
}

/// `score >= threshold` on the doubles with these bits: false where either
/// is not a number.
pub open spec fn reaches(score: u64, threshold: u64) -> bool {
    !not_a_number(score) && !not_a_number(threshold) && rank(score) >= rank(threshold)
}

/// Whether the double with the bits `score` is at least the one with the
/// bits `threshold`.
pub fn score_reaches(score: u64, threshold: u64) -> (yes: bool)
    ensures
        yes == reaches(score, threshold),
{
    let s: u64 = score % SIGN_BIT;
    let t: u64 = threshold % SIGN_BIT;
    if s > INFINITY_BITS || t > INFINITY_BITS {
        false
    } else if score >= SIGN_BIT {
        if threshold >= SIGN_BIT {
            s <= t
        } else {
            s == 0 && t == 0
        }
    } else {
        threshold >= SIGN_BIT || s >= t
    }
}

/// Whether `needle` stands in `text` at the position `at`.
pub open spec fn occurs_at(text: Seq<char>, needle: Seq<char>, at: int) -> bool {
    0 <= at && at + needle.len() <= text.len() && text.subrange(at, at + needle.len()) == needle
}

/// Whether `needle` is a substring of `text`.
pub open spec fn contains(text: Seq<char>, needle: Seq<char>) -> bool {
    exists|at: int| occurs_at(text, needle, at)
}

/// Whether `text` begins with `prefix`.
pub open spec fn starts_with(text: Seq<char>, prefix: Seq<char>) -> bool {
    occurs_at(text, prefix, 0)
}

/// The characters that separate words: space, tab, line feed, form feed and
/// carriage return.
pub open spec fn is_space(c: char) -> bool {
    c == ' ' || c == '\t' || c == '\n' || c == '\u{000C}' || c == '\r'
}

/// Whether the characters from `from` up to `to` are a word of `text`: a
/// longest run without a separator.
pub open spec fn is_word(text: Seq<char>, from: int, to: int) -> bool {
    &&& 0 <= from < to <= text.len()
    &&& forall|i: int| from <= i < to ==> !is_space(#[trigger] text[i])
    &&& (from == 0 || is_space(text[from - 1]))
    &&& (to == text.len() || is_space(text[to]))
}

/// Whether some word of `text` is similar enough to `needle`.
pub open spec fn has_close_word(text: Seq<char>, needle: Seq<char>, threshold: u64) -> bool {
    exists|from: int, to: int|
        is_word(text, from, to) && reaches(
            jaro_winkler_bits(#[trigger] text.subrange(from, to), needle),
            threshold,
        )
}

/// Whether `needle` matches `text`: as a substring, or closely enough by one
/// of its words.
pub open spec fn matches_needle(text: Seq<char>, needle: Seq<char>, threshold: u64) -> bool {
    contains(text, needle) || has_close_word(text, needle, threshold)
}

/// Whether one of `needles` matches `text`.
pub open spec fn matches_any(text: Seq<char>, needles: Seq<Seq<char>>, threshold: u64) -> bool {
    exists|k: int| 0 <= k < needles.len() && matches_needle(text, #[trigger] needles[k], threshold)
}

/// The texts of a list of strings.
pub open spec fn views(list: Seq<&str>) -> Seq<Seq<char>> {
    Seq::new(list.len(), |k: int| list[k]@)
}

/// Tests one position for an occurrence of `needle`.
pub fn stands_at(text: &[char], needle: &[char], at: usize) -> (yes: bool)
    ensures
        yes == occurs_at(text@, needle@, at as int),
{
    if needle.len() > text.len() || at > text.len() - needle.len() {
        return false;
    }
    let mut k: usize = 0;
    while k < needle.len()
        invariant
            k <= needle@.len(),
            at + needle@.len() <= text@.len() <= usize::MAX,
            forall|j: int| 0 <= j < k ==> text@[at + j] == needle@[j],
        decreases needle@.len() - k,
    {
        if text[at + k] != needle[k] {
            proof {
                assert(text@.subrange(at as int, at + needle@.len())[k as int] == text@[at + k]);
            }
            return false;
        }
        k += 1;
    }
    proof {
        assert(text@.subrange(at as int, at + needle@.len()) =~= needle@);
    }
    true
}

/// Searches `text` for `needle`.
pub fn find(text: &[char], needle: &[char]) -> (yes: bool)
    ensures
        yes == contains(text@, needle@),
{
    if needle.len() > text.len() {
        return false;
    }
    let last: usize = text.len() - needle.len();
    let mut at: usize = 0;
    loop
        invariant
            at <= last,
            last == text@.len() - needle@.len(),
            forall|j: int| 0 <= j < at ==> !occurs_at(text@, needle@, j),
        decreases last - at,
    {
        if stands_at(text, needle, at) {
            return true;
        }
        if at == last {
            return false;
        }
        at += 1;
    }
}

/// Tests whether `text` begins with `prefix`.
pub fn begins_with(text: &[char], prefix: &[char]) -> (yes: bool)
    ensures
        yes == starts_with(text@, prefix@),
{
    stands_at(text, prefix, 0)
}

/// Tests whether a character separates words.
pub fn separates(c: char) -> (yes: bool)
    ensures
        yes == is_space(c),
{
    c == ' ' || c == '\t' || c == '\n' || c == '\u{000C}' || c == '\r'
}

/// Tests the words of `text` one by one against `needle`.
pub fn close_word(text: &[char], needle: &str, threshold: u64) -> (yes: bool)
    ensures
        yes == has_close_word(text@, needle@, threshold),
{
    let mut i: usize = 0;
    while i < text.len()
        invariant
            i <= text@.len(),
            i == 0 || i == text@.len() || is_space(text@[i - 1]) || is_space(text@[i as int]),
            forall|from: int, to: int|
                is_word(text@, from, to) && from < i ==> !reaches(
                    jaro_winkler_bits(#[trigger] text@.subrange(from, to), needle@),
                    threshold,
                ),
        decreases text@.len() - i,
    {
        if separates(text[i]) {
            i += 1;
        } else {
            let mut word = String::new();
            let mut j: usize = i;
            while j < text.len() && !separates(text[j])
                invariant
                    i <= j <= text@.len(),
                    word@ == text@.subrange(i as int, j as int),
                    forall|k: int| i <= k < j ==> !is_space(#[trigger] text@[k]),
                decreases text@.len() - j,
            {
                push_char(&mut word, text[j]);
                proof {
                    assert(text@.subrange(i as int, j + 1) =~= text@.subrange(
                        i as int,
                        j as int,
                    ).push(text@[j as int]));
                }
                j += 1;
            }
            assert(is_word(text@, i as int, j as int));
            let score = similarity_bits(word.as_str(), needle);
            if score_reaches(score, threshold) {
                return true;
            }
            assert forall|from: int, to: int| is_word(text@, from, to) && from < j implies !reaches(
                jaro_winkler_bits(#[trigger] text@.subrange(from, to), needle@),
                threshold,
            ) by {
                if from >= i {
                    if from > i {
                        assert(!is_space(text@[from - 1]));
                    } else {
                        if to < j {
                            assert(!is_space(text@[to]));
                        } else if to > j {
                            assert(!is_space(text@[j as int]));
                        }
                    }
                }
            }
            i = j;
        }
    }
    false
}

/// Tests whether one of `needles` matches `text`, literally or closely.
pub fn has_any(text: &[char], needles: &[&str], threshold: u64) -> (yes: bool)
    ensures
        yes == matches_any(text@, views(needles@), threshold),
{
    let mut k: usize = 0;
    while k < needles.len()
        invariant
            k <= needles@.len(),
            forall|j: int| 0 <= j < k ==> !matches_needle(text@, #[trigger] views(needles@)[j], threshold),
        decreases needles@.len() - k,
    {
        let needle: &str = needles[k];
        let chars = to_chars(needle);
        assert(views(needles@)[k as int] == needle@);
        if find(text, chars.as_slice()) {
            return true;
        }
        if close_word(text, needle, threshold) {
            return true;
        }
        k += 1;
    }
    false
}

} // verus!
