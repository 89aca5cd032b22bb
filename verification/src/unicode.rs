//! Trusted boundary to the Unicode facilities the pipeline relies on:
//! per-character display width (`unicode_width`), extended grapheme cluster
//! segmentation (`unicode_segmentation`), and std's alphanumeric predicate.
//!
//! Each result below is a pure function of the characters alone, so it is
//! given a name that the contracts of the verified code speak of.

use vstd::prelude::*;

use unicode_segmentation::UnicodeSegmentation;

verus! {

/// The display width, in terminal columns, that `unicode_width` assigns to
/// one character in a non-CJK context (control characters count as zero).
pub uninterp spec fn char_width_table(c: char) -> nat;

/// Per-character display width. A space is one column wide (as the width
/// crate's own table states); everything else is taken from the table.
pub open spec fn char_width(c: char) -> nat {
    if c == ' ' {
        1
    } else {
        char_width_table(c)
    }
}

/// Relies on `unicode_width::UnicodeWidthChar::width`: the displayed width
/// of a character in columns, a function of the character alone; `None`
/// (control characters) is taken as zero columns, and `' '` is one column.
#[verifier::external_body]
pub(crate) fn char_display_width(c: char) -> (w: usize)
    ensures
        w as nat == char_width(c),
        c != ' ' ==> w as nat == char_width_table(c),
{
    unicode_width::UnicodeWidthChar::width(c).unwrap_or(0)
}

/// Whether std's `char::is_alphanumeric` holds of a character.
pub uninterp spec fn is_alnum(c: char) -> bool;

/// Relies on `char::is_alphanumeric`: a pure predicate on the character
/// (true exactly for Unicode letters and numbers).
#[verifier::external_body]
pub(crate) fn char_is_alphanumeric(c: char) -> (r: bool)
    ensures
        r == is_alnum(c),
{
    c.is_alphanumeric()
}

/// The length, in characters, of the first extended grapheme cluster of a
/// character sequence (zero for the empty sequence).
pub uninterp spec fn first_grapheme_len(s: Seq<char>) -> nat;

/// Relies on `unicode_segmentation::UnicodeSegmentation::graphemes`: the
/// clusters partition the text, so the first cluster is a nonempty prefix
/// of a nonempty text, and segmentation is a function of the characters
/// alone.
#[verifier::external_body]
pub(crate) fn first_grapheme_char_count(v: &Vec<char>, from: usize) -> (n: usize)
    requires
        from <= v@.len(),
    ensures
        n as nat == first_grapheme_len(v@.skip(from as int)),
        from < v@.len() ==> 1 <= n <= v@.len() - from,
        from == v@.len() ==> n == 0,
{
    let s: String = v[from..].iter().collect();
    match s.graphemes(true).next() {
        Some(g) => g.chars().count(),
        None => 0,
    }
}

/// Relies on `String`'s `FromIterator<char>` implementation: collecting
/// characters yields the string of exactly those characters in order.
#[verifier::external_body]
pub(crate) fn chars_to_string(v: &Vec<char>) -> (r: String)
    ensures
        r@ == v@,
{
    v.iter().collect()
}

} // verus!
