//! Normalization of recognized text: lower case, words of letters and digits,
//! one space between two words.

use vstd::prelude::*;
use crate::bindings::{alphanumeric, is_alphanumeric, lowercased, push_char, to_lowercase};

verus! {

/// The words of `text`, joined by single spaces. A word is a longest run of
/// characters whose flag in `keep` is set; every other character separates.
pub open spec fn squeezed(text: Seq<char>, keep: Seq<bool>) -> Seq<char>
    recommends
        text.len() == keep.len(),
    decreases text.len(),
{
    if text.len() == 0 || keep.len() != text.len() {
        Seq::empty()
    } else {
        let before = squeezed(text.drop_last(), keep.drop_last());
        if !keep.last() {
            before
        } else if text.len() >= 2 && !keep[text.len() - 2] && before.len() > 0 {
            before.push(' ').push(text.last())
        } else {
            before.push(text.last())
        }
    }
}

/// Whether a text has no space at either end and no two spaces in a row.
pub open spec fn tidy(text: Seq<char>) -> bool {
    &&& text.len() > 0 ==> text[0] != ' ' && text.last() != ' '
    &&& forall|j: int| 0 <= j < text.len() - 1 ==> !(text[j] == ' ' && #[trigger] text[j + 1] == ' ')
}

/// Where no space counts as part of a word, what comes out has single
/// spaces between its words and none at its ends.
pub proof fn lemma_squeezed_is_tidy(text: Seq<char>, keep: Seq<bool>)
    requires
        text.len() == keep.len(),
        forall|i: int| 0 <= i < text.len() && keep[i] ==> text[i] != ' ',
    ensures
        tidy(squeezed(text, keep)),
    decreases text.len(),
{
    if text.len() > 0 {
        lemma_squeezed_is_tidy(text.drop_last(), keep.drop_last());
    }
}

/// A text without a separator in it is one word, and comes back as it is.
pub proof fn lemma_one_word_is_kept(text: Seq<char>, keep: Seq<bool>)
    requires
        text.len() == keep.len(),
        forall|i: int| 0 <= i < keep.len() ==> keep[i],
    ensures
        squeezed(text, keep) == text,
    decreases text.len(),
{
    if text.len() > 0 {
        lemma_one_word_is_kept(text.drop_last(), keep.drop_last());
        assert(text.drop_last().push(text.last()) =~= text);
    }
}

/// A text of separators only has no word, and nothing is left of it.
pub proof fn lemma_separators_leave_nothing(text: Seq<char>, keep: Seq<bool>)
    requires
        text.len() == keep.len(),
        forall|i: int| 0 <= i < keep.len() ==> !keep[i],
    ensures
        squeezed(text, keep).len() == 0,
    decreases text.len(),
{
    if text.len() > 0 {
        lemma_separators_leave_nothing(text.drop_last(), keep.drop_last());
    }
}

/// For each character of `text`, whether it is a letter or a digit.
pub open spec fn word_flags(text: Seq<char>) -> Seq<bool> {
    Seq::new(text.len(), |i: int| alphanumeric(text[i]))
}

/// The normal form of a text: its lower-case form, cut into words of letters
/// and digits, the words joined by single spaces.
pub open spec fn normalized(raw: Seq<char>) -> Seq<char> {
    squeezed(lowercased(raw), word_flags(lowercased(raw)))
}

/// The characters of a string.
pub fn to_chars(text: &str) -> (chars: Vec<char>)
    ensures
        chars@ == text@,
{
    let mut chars: Vec<char> = Vec::new();
    for c in it: text.chars()
        invariant
            chars@ == it.seq().take(it.index@),
    {
        chars.push(c);
    }
    chars
}

/// The string made of the given characters.
pub fn to_text(chars: &[char]) -> (text: String)
    ensures
        text@ == chars@,
{
    proof {
        assert(chars@.skip(0) =~= chars@);
    }
    tail_text(chars, 0)
}

/// The string made of the characters from `start` on.
pub fn tail_text(chars: &[char], start: usize) -> (text: String)
    requires
        start <= chars@.len(),
    ensures
        text@ == chars@.skip(start as int),
{
    let mut text = String::new();
    let mut i: usize = start;
    while i < chars.len()
        invariant
            start <= i <= chars@.len(),
            text@ == chars@.subrange(start as int, i as int),
        decreases chars@.len() - i,
    {
        push_char(&mut text, chars[i]);
        proof {
            assert(chars@.subrange(start as int, i + 1) =~= chars@.subrange(
                start as int,
                i as int,
            ).push(chars@[i as int]));
        }
        i += 1;
    }
    proof {
        assert(chars@.subrange(start as int, i as int) =~= chars@.skip(start as int));
    }
    text
}

/// Tests whether two strings hold the same characters.
pub fn same_text(left: &str, right: &str) -> (same: bool)
    ensures
        same == (left@ == right@),
{
    let a = to_chars(left);
    let b = to_chars(right);
    if a.len() != b.len() {
        return false;
    }
    let mut i: usize = 0;
    while i < a.len()
        invariant
            i <= a@.len(),
            a@.len() == b@.len(),
            a@ == left@,
            b@ == right@,
            forall|j: int| 0 <= j < i ==> a@[j] == b@[j],
        decreases a@.len() - i,
    {
        if a[i] != b[i] {
            return false;
        }
        i += 1;
    }
    proof {
        assert(a@ =~= b@);
    }
    true
}

/// Appends the characters of `more` to `text`.
pub fn append_text(text: &mut String, more: &str)
    ensures
        final(text)@ == old(text)@ + more@,
{
    let chars = to_chars(more);
    let mut i: usize = 0;
    proof {
        assert(text@ =~= old(text)@ + chars@.take(0));
    }
    while i < chars.len()
        invariant
            i <= chars@.len(),
            text@ == old(text)@ + chars@.take(i as int),
        decreases chars@.len() - i,
    {
        push_char(text, chars[i]);
        proof {
            assert(old(text)@ + chars@.take(i + 1) =~= (old(text)@ + chars@.take(i as int)).push(
                chars@[i as int],
            ));
        }
        i += 1;
    }
    proof {
        assert(chars@.take(i as int) =~= chars@);
    }
}

/// Marks the letters and digits of `text`.
pub fn mark_words(text: &[char]) -> (keep: Vec<bool>)
    ensures
        keep@ == word_flags(text@),
{
    let mut keep: Vec<bool> = Vec::new();
    let mut i: usize = 0;
    while i < text.len()
        invariant
            i <= text@.len(),
            keep@ == word_flags(text@.take(i as int)),
        decreases text@.len() - i,
    {
        keep.push(is_alphanumeric(text[i]));
        proof {
            assert(keep@ =~= word_flags(text@.take(i + 1)));
        }
        i += 1;
    }
    proof {
        assert(text@.take(i as int) =~= text@);
    }
    keep
}

/// Joins the words of `text` by single spaces; `keep` marks the characters
/// that belong to a word. Nothing is dropped from a word, nothing but one
/// space is put between two words, and none before the first or after the last.
pub fn squeeze(text: &[char], keep: &[bool]) -> (out: Vec<char>)
    requires
        text@.len() == keep@.len(),
    ensures
        out@ == squeezed(text@, keep@),
{
    let mut out: Vec<char> = Vec::new();
    let mut i: usize = 0;
    while i < text.len()
        invariant
            i <= text@.len(),
            text@.len() == keep@.len(),
            out@ == squeezed(text@.take(i as int), keep@.take(i as int)),
        decreases text@.len() - i,
    {
        proof {
            assert(text@.take(i + 1).drop_last() =~= text@.take(i as int));
            assert(keep@.take(i + 1).drop_last() =~= keep@.take(i as int));
        }
        if keep[i] {
            if i >= 1 && !keep[i - 1] && out.len() > 0 {
                out.push(' ');
            }
            out.push(text[i]);
        }
        i += 1;
    }
    proof {
        assert(text@.take(i as int) =~= text@);
        assert(keep@.take(i as int) =~= keep@);
    }
    out
}

/// The normal form of `raw`: lower case, punctuation and other symbols
/// replaced by spaces, runs of spaces collapsed, no space at either end.
pub fn normalize_chars(raw: &str) -> (out: Vec<char>)
    ensures
        out@ == normalized(raw@),
{
    let lower = to_lowercase(raw);
    let chars = to_chars(lower.as_str());
    let keep = mark_words(chars.as_slice());
    squeeze(chars.as_slice(), keep.as_slice())
}

/// The normal form of `raw`, as a string.
pub fn normalize(raw: &str) -> (out: String)
    ensures
        out@ == normalized(raw@),
{
    let chars = normalize_chars(raw);
    to_text(chars.as_slice())
}

} // verus!
