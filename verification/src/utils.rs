//! Text analysis helpers: indentation counting, code-character counting,
//! footer and list-marker detection, bullet-prefix extraction, display
//! width, and greedy wrapping.

use vstd::prelude::*;

use crate::chars::chars_of;
use crate::chars::chars_width;
use crate::chars::char_utf8_len;
use crate::chars::clamp_usize;
use crate::chars::digit_fn;
use crate::chars::has_prefix;
use crate::chars::indent_char_fn;
use crate::chars::indent_weight_fn;
use crate::chars::is_ascii;
use crate::chars::is_ascii_char;
use crate::chars::is_digit;
use crate::chars::is_digit_char;
use crate::chars::is_ws;
use crate::chars::is_ws_char;
use crate::chars::lemma_prefix_len_by_is;
use crate::chars::lemma_prefix_len_by_props;
use crate::chars::lemma_sum_by_take_step;
use crate::chars::prefix_len_by;
use crate::chars::sum_by;
use crate::chars::trim_start_spec;
use crate::chars::trim_start_vec;
use crate::chars::str_width;
use crate::chars::utf8_len_fn;
use crate::chars::utf8_len_of;
use crate::chars::begins_with;
use crate::chars::char_width_fn;
use crate::chars::lemma_sum_by_concat;
use crate::chars::push_all;
use crate::chars::subvec;
use crate::unicode::char_is_alphanumeric;
use crate::unicode::first_grapheme_char_count;
use crate::unicode::first_grapheme_len;
use crate::unicode::is_alnum;

verus! {

// ---------------------------------------------------------------------------
// Indentation
// ---------------------------------------------------------------------------

/// Indentation width of a line: over the leading run of spaces and tabs, a
/// tab counts four columns and a space one.
pub open spec fn spec_indent(s: Seq<char>) -> nat {
    sum_by(s.take(prefix_len_by(s, indent_char_fn()) as int), indent_weight_fn())
}

/// Count the indentation width of the leading whitespace run of `line`
/// (tab = 4 columns, space = 1), saturating at `usize::MAX`.
pub fn count_indent(line: &str) -> (r: usize)
    ensures
        r == clamp_usize(spec_indent(line@)),
{
    let v = chars_of(line);
    let mut n: usize = 0;
    while n < v.len() && (v[n] == ' ' || v[n] == '\t')
        invariant
            n <= v@.len(),
            forall|j: int| 0 <= j < n ==> (v@[j] == ' ' || v@[j] == '\t'),
        decreases v@.len() - n,
    {
        n += 1;
    }
    proof {
        lemma_prefix_len_by_is(v@, indent_char_fn(), n as int);
    }
    let ghost run = v@.take(n as int);
    let mut total: usize = 0;
    let mut i: usize = 0;
    while i < n
        invariant
            i <= n <= v@.len(),
            run == v@.take(n as int),
            total == clamp_usize(sum_by(run.take(i as int), indent_weight_fn())),
        decreases n - i,
    {
        let w: usize = if v[i] == '\t' {
            4
        } else {
            1
        };
        proof {
            lemma_sum_by_take_step(run, indent_weight_fn(), i as int);
            assert(run[i as int] == v@[i as int]);
        }
        if total <= usize::MAX - w {
            total += w;
        } else {
            total = usize::MAX;
        }
        i += 1;
    }
    proof {
        assert(run.take(n as int) =~= run);
    }
    total
}

// ---------------------------------------------------------------------------
// Special characters
// ---------------------------------------------------------------------------

pub open spec fn special_fn() -> spec_fn(char) -> nat {
    |c: char|
        if !is_alnum(c) && !is_ws_char(c) {
            1 as nat
        } else {
            0 as nat
        }
}

/// The number of characters of `s` that are neither alphanumeric nor
/// whitespace.
pub open spec fn spec_special_count(s: Seq<char>) -> nat {
    sum_by(s, special_fn())
}

/// Count characters typically found in code rather than natural language:
/// those that are neither alphanumeric nor whitespace.
pub fn count_special_chars(s: &str) -> (r: usize)
    ensures
        r == spec_special_count(s@),
{
    let v = chars_of(s);
    let mut total: usize = 0;
    let mut i: usize = 0;
    while i < v.len()
        invariant
            i <= v@.len(),
            v@ == s@,
            total == spec_special_count(s@.take(i as int)),
            total <= i,
        decreases v@.len() - i,
    {
        proof {
            lemma_sum_by_take_step(s@, special_fn(), i as int);
        }
        if !char_is_alphanumeric(v[i]) && !is_ws(v[i]) {
            total += 1;
        }
        i += 1;
    }
    proof {
        assert(s@.take(s@.len() as int) =~= s@);
    }
    total
}

/// The byte length of the UTF-8 encoding of `s`.
pub open spec fn spec_byte_len(s: Seq<char>) -> nat {
    sum_by(s, utf8_len_fn())
}

/// Does the special-character ratio of `t` exceed three tenths of its byte
/// length? This is the code-content heuristic of the lexer.
pub fn code_ratio_exceeded(t: &Vec<char>) -> (r: bool)
    ensures
        r == (10 * spec_special_count(t@) > 3 * spec_byte_len(t@)),
{
    let mut special: u128 = 0;
    let mut bytes: u128 = 0;
    let mut i: usize = 0;
    while i < t.len()
        invariant
            i <= t@.len(),
            special == spec_special_count(t@.take(i as int)),
            bytes == spec_byte_len(t@.take(i as int)),
            special <= i,
            bytes <= 4 * i,
        decreases t@.len() - i,
    {
        proof {
            lemma_sum_by_take_step(t@, special_fn(), i as int);
            lemma_sum_by_take_step(t@, utf8_len_fn(), i as int);
        }
        if !char_is_alphanumeric(t[i]) && !is_ws(t[i]) {
            special += 1;
        }
        bytes += utf8_len_of(t[i]) as u128;
        i += 1;
    }
    proof {
        assert(t@.take(t@.len() as int) =~= t@);
    }
    10 * special > 3 * bytes
}

// ---------------------------------------------------------------------------
// Footer detection
// ---------------------------------------------------------------------------

/// The fixed footer-tag vocabulary: a line is a footer when it starts with
/// one of these literal, case-sensitive tags. No generic "word:" fallback
/// is used; it would catch ordinary prose such as "EN: something broke".
pub open spec fn is_footer_text(s: Seq<char>) -> bool {
    ||| has_prefix(s, "Signed-off-by:"@)
    ||| has_prefix(s, "Co-authored-by:"@)
    ||| has_prefix(s, "Reviewed-by:"@)
    ||| has_prefix(s, "Acked-by:"@)
    ||| has_prefix(s, "Tested-by:"@)
    ||| has_prefix(s, "Reported-by:"@)
    ||| has_prefix(s, "Suggested-by:"@)
    ||| has_prefix(s, "Fixes:"@)
    ||| has_prefix(s, "Closes:"@)
    ||| has_prefix(s, "Resolves:"@)
    ||| has_prefix(s, "See-also:"@)
    ||| has_prefix(s, "Ref:"@)
    ||| has_prefix(s, "References:"@)
}

/// Does `v` start with one of the footer tags?
pub fn starts_with_footer_tag(v: &Vec<char>) -> (r: bool)
    ensures
        r == is_footer_text(v@),
{
    proof {
        assert(v@.skip(0) =~= v@);
    }
    begins_with(v, 0, "Signed-off-by:") || begins_with(v, 0, "Co-authored-by:") || begins_with(
        v,
        0,
        "Reviewed-by:",
    ) || begins_with(v, 0, "Acked-by:") || begins_with(v, 0, "Tested-by:") || begins_with(
        v,
        0,
        "Reported-by:",
    ) || begins_with(v, 0, "Suggested-by:") || begins_with(v, 0, "Fixes:") || begins_with(
        v,
        0,
        "Closes:",
    ) || begins_with(v, 0, "Resolves:") || begins_with(v, 0, "See-also:") || begins_with(
        v,
        0,
        "Ref:",
    ) || begins_with(v, 0, "References:")
}

/// Check whether a line matches the Git trailer vocabulary
/// (`Signed-off-by:`, `Fixes:`, and so on) by literal prefix.
pub fn is_footer_line(line: &str) -> (r: bool)
    ensures
        r == is_footer_text(line@),
{
    let v = chars_of(line);
    starts_with_footer_tag(&v)
}

// ---------------------------------------------------------------------------
// List markers
// ---------------------------------------------------------------------------

/// Numbered list marker: one or more ASCII digits followed by `". "` or
/// `") "`.
pub open spec fn numbered_marker(t: Seq<char>) -> bool {
    let d = prefix_len_by(t, digit_fn());
    d > 0 && (has_prefix(t.skip(d as int), ". "@) || has_prefix(t.skip(d as int), ") "@))
}

/// Emoji-style marker: the first extended grapheme cluster is not pure
/// ASCII and is followed by exactly one space before further text.
pub open spec fn emoji_marker(t: Seq<char>) -> bool {
    let n = first_grapheme_len(t);
    t.len() > 0 && 1 <= n && n < t.len() && t[n as int] == ' ' && (exists|j: int|
        0 <= j < n && !is_ascii_char(t[j]))
}

/// The list-marker grammar, applied to the line after leading whitespace:
/// `* ` or `- `, a numbered marker, or an emoji-style marker.
pub open spec fn is_list_text(s: Seq<char>) -> bool {
    let t = trim_start_spec(s);
    has_prefix(t, "* "@) || has_prefix(t, "- "@) || numbered_marker(t) || emoji_marker(t)
}

/// Detect whether a line is a list item (bullet, numbered, or a non-ASCII
/// grapheme-cluster bullet such as an emoji).
pub fn is_list_item(line: &str) -> (r: bool)
    ensures
        r == is_list_text(line@),
{
    let v = chars_of(line);
    is_list_vec(&v)
}

/// `is_list_item` on a character vector.
pub fn is_list_vec(v: &Vec<char>) -> (r: bool)
    ensures
        r == is_list_text(v@),
{
    let t = trim_start_vec(&v);
    proof {
        assert(t@.skip(0) =~= t@);
    }
    if begins_with(&t, 0, "* ") || begins_with(&t, 0, "- ") {
        return true;
    }
    // numbered marker
    let mut d: usize = 0;
    while d < t.len() && is_digit(t[d])
        invariant
            d <= t@.len(),
            forall|j: int| 0 <= j < d ==> is_digit_char(t@[j]),
        decreases t@.len() - d,
    {
        d += 1;
    }
    proof {
        lemma_prefix_len_by_is(t@, digit_fn(), d as int);
    }
    if d > 0 && (begins_with(&t, d, ". ") || begins_with(&t, d, ") ")) {
        return true;
    }
    // emoji-style marker
    let n = first_grapheme_char_count(&t, 0);
    if t.len() > 0 && 1 <= n && n < t.len() && t[n] == ' ' {
        let mut j: usize = 0;
        while j < n
            invariant
                j <= n,
                t@ == trim_start_spec(v@),
                n == first_grapheme_len(t@),
                0 < t@.len(),
                1 <= n < t@.len(),
                t@[n as int] == ' ',
                forall|k: int| 0 <= k < j ==> is_ascii_char(t@[k]),
            decreases n - j,
        {
            if !is_ascii(t[j]) {
                return true;
            }
            j += 1;
        }
        return false;
    }
    false
}

// ---------------------------------------------------------------------------
// Bullet prefix
// ---------------------------------------------------------------------------

pub open spec fn space_fn() -> spec_fn(char) -> bool {
    |c: char| c == ' '
}

pub open spec fn non_space_fn() -> spec_fn(char) -> bool {
    |c: char| c != ' '
}

/// Length, in characters, of the bullet prefix of a list-item line: leading
/// spaces, the marker up to and including its first space, plus any further
/// spaces. On a line whose trimmed part holds no space, everything up to
/// (but not including) the last character counts as the prefix.
pub open spec fn bullet_prefix_len(s: Seq<char>) -> nat {
    let off = prefix_len_by(s, space_fn());
    let t = s.skip(off as int);
    let k = prefix_len_by(t, non_space_fn());
    let base: nat = if k < t.len() {
        off + k + 1
    } else if t.len() > 0 {
        (off + t.len() - 1) as nat
    } else {
        off
    };
    base + prefix_len_by(s.skip(base as int), space_fn())
}

/// The bullet prefix itself.
pub open spec fn bullet_prefix_spec(s: Seq<char>) -> Seq<char> {
    s.take(bullet_prefix_len(s) as int)
}

/// Extract the bullet prefix (marker plus following spaces) of a list-item
/// line; the prefix is preserved verbatim when the item is rewrapped.
pub fn extract_bullet_prefix(line: &str) -> (r: &str)
    ensures
        r@ == bullet_prefix_spec(line@),
        bullet_prefix_len(line@) <= line@.len(),
{
    let v = chars_of(line);
    let n = v.len();
    // leading spaces
    let mut off: usize = 0;
    while off < n && v[off] == ' '
        invariant
            off <= n,
            n == v@.len(),
            forall|j: int| 0 <= j < off ==> v@[j] == ' ',
        decreases n - off,
    {
        off += 1;
    }
    proof {
        lemma_prefix_len_by_is(v@, space_fn(), off as int);
    }
    // marker run up to its first space
    let mut k: usize = 0;
    while off + k < n && v[off + k] != ' '
        invariant
            off + k <= n,
            n == v@.len(),
            forall|j: int| 0 <= j < k ==> v@.skip(off as int)[j] != ' ',
        decreases n - off - k,
    {
        proof {
            assert(v@.skip(off as int)[k as int] == v@[off + k]);
        }
        k += 1;
    }
    proof {
        if off + k < n {
            assert(v@.skip(off as int)[k as int] == v@[off + k]);
        }
        lemma_prefix_len_by_is(v@.skip(off as int), non_space_fn(), k as int);
    }
    let base: usize = if off + k < n {
        off + k + 1
    } else if n - off > 0 {
        n - 1
    } else {
        off
    };
    // trailing spaces of the prefix
    let mut idx: usize = base;
    while idx < n && v[idx] == ' '
        invariant
            base <= idx <= n,
            n == v@.len(),
            forall|j: int| base <= j < idx ==> v@[j] == ' ',
        decreases n - idx,
    {
        idx += 1;
    }
    proof {
        assert forall|j: int| 0 <= j < idx - base implies (v@.skip(base as int)[j] == ' ') by {
            assert(v@.skip(base as int)[j] == v@[base + j]);
        }
        if idx < n {
            assert(v@.skip(base as int)[idx - base] == v@[idx as int]);
        }
        lemma_prefix_len_by_is(v@.skip(base as int), space_fn(), idx - base);
        assert(bullet_prefix_len(line@) == idx as nat);
    }
    let r = line.substring_char(0, idx);
    proof {
        assert(r@ =~= line@.take(idx as int));
    }
    r
}

// ---------------------------------------------------------------------------
// Display width
// ---------------------------------------------------------------------------

/// Display width of a string: the number of terminal columns it occupies,
/// computed as the sum of per-character widths (wide characters count two
/// columns, zero-width characters none), saturating at `usize::MAX`.
pub fn display_width(s: &str) -> (r: usize)
    ensures
        r == clamp_usize(str_width(s@)),
{
    let v = chars_of(s);
    let n = v.len();
    let r = chars_width(&v, 0, n);
    proof {
        assert(v@.subrange(0, n as int) =~= s@);
    }
    r
}

// ---------------------------------------------------------------------------
// Words and greedy wrapping
// ---------------------------------------------------------------------------

pub open spec fn non_ws_fn() -> spec_fn(char) -> bool {
    |c: char| !is_ws_char(c)
}

/// The words of `s`: its maximal runs of non-whitespace characters, in
/// order.
pub open spec fn words_of(s: Seq<char>) -> Seq<Seq<char>>
    decreases s.len(),
    via words_of_dec
{
    if s.len() == 0 {
        Seq::empty()
    } else if is_ws_char(s[0]) {
        words_of(s.drop_first())
    } else {
        let k = prefix_len_by(s, non_ws_fn());
        seq![s.take(k as int)] + words_of(s.skip(k as int))
    }
}

#[via_fn]
proof fn words_of_dec(s: Seq<char>) {
    if s.len() > 0 && !is_ws_char(s[0]) {
        lemma_prefix_len_by_props(s, non_ws_fn());
    }
}

/// A word is nonempty and holds no whitespace.
pub open spec fn wf_word(w: Seq<char>) -> bool {
    w.len() > 0 && forall|j: int| 0 <= j < w.len() ==> !is_ws_char(w[j])
}

pub open spec fn wf_words(ws: Seq<Seq<char>>) -> bool {
    forall|i: int| 0 <= i < ws.len() ==> wf_word(#[trigger] ws[i])
}

pub proof fn lemma_words_of_wf(s: Seq<char>)
    ensures
        wf_words(words_of(s)),
    decreases s.len(),
{
    if s.len() == 0 {
    } else if is_ws_char(s[0]) {
        lemma_words_of_wf(s.drop_first());
    } else {
        lemma_prefix_len_by_props(s, non_ws_fn());
        let k = prefix_len_by(s, non_ws_fn());
        lemma_words_of_wf(s.skip(k as int));
        assert(wf_word(s.take(k as int)));
        assert forall|i: int| 0 <= i < words_of(s).len() implies wf_word(#[trigger] words_of(s)[i]) by {
            if i > 0 {
                assert(words_of(s)[i] == words_of(s.skip(k as int))[i - 1]);
            }
        }
    }
}

/// Splitting at a maximal word prefix.
pub proof fn lemma_words_of_word_head(s: Seq<char>, k: int)
    requires
        0 < k <= s.len(),
        forall|j: int| 0 <= j < k ==> !is_ws_char(s[j]),
        k == s.len() || is_ws_char(s[k]),
    ensures
        words_of(s) == seq![s.take(k)] + words_of(s.skip(k)),
{
    lemma_prefix_len_by_is(s, non_ws_fn(), k);
}

/// The views of a vector of character vectors.
pub open spec fn views_of(ws: Seq<Vec<char>>) -> Seq<Seq<char>> {
    ws.map_values(|x: Vec<char>| x@)
}

/// The views of a vector of strings.
pub open spec fn str_views(ss: Seq<String>) -> Seq<Seq<char>> {
    ss.map_values(|x: String| x@)
}

/// The words of `v`, as fresh vectors.
pub fn split_words(v: &Vec<char>) -> (r: Vec<Vec<char>>)
    ensures
        views_of(r@) == words_of(v@),
{
    let mut r: Vec<Vec<char>> = Vec::new();
    let n = v.len();
    let mut i: usize = 0;
    proof {
        assert(views_of(r@) =~= Seq::<Seq<char>>::empty());
        assert(v@.skip(0) =~= v@);
        assert(views_of(r@) + words_of(v@) =~= words_of(v@));
    }
    while i < n
        invariant
            i <= n,
            n == v@.len(),
            views_of(r@) + words_of(v@.skip(i as int)) == words_of(v@),
        decreases n - i,
    {
        if is_ws(v[i]) {
            proof {
                assert(v@.skip(i as int)[0] == v@[i as int]);
                assert(v@.skip(i as int).drop_first() =~= v@.skip(i + 1));
            }
            i += 1;
        } else {
            let mut j: usize = i + 1;
            while j < n && !is_ws(v[j])
                invariant
                    i < j <= n,
                    n == v@.len(),
                    forall|t: int| i <= t < j ==> !is_ws_char(v@[t]),
                decreases n - j,
            {
                j += 1;
            }
            let w = subvec(v, i, j);
            proof {
                let tail = v@.skip(i as int);
                assert forall|t: int| 0 <= t < j - i implies !is_ws_char(tail[t]) by {
                    assert(tail[t] == v@[i + t]);
                }
                if (j as int) - (i as int) < tail.len() {
                    assert(tail[j - i] == v@[j as int]);
                }
                lemma_words_of_word_head(tail, j - i);
                assert(tail.take(j - i) =~= v@.subrange(i as int, j as int));
                assert(tail.skip(j - i) =~= v@.skip(j as int));
                assert(views_of(r@.push(w)) =~= views_of(r@).push(w@));
                assert(views_of(r@).push(w@) + words_of(v@.skip(j as int)) =~= views_of(r@) + (seq![
                    w@,
                ] + words_of(v@.skip(j as int))));
            }
            r.push(w);
            i = j;
        }
    }
    proof {
        assert(v@.skip(n as int) =~= Seq::<char>::empty());
        assert(views_of(r@) + Seq::<Seq<char>>::empty() =~= views_of(r@));
    }
    r
}

/// The words joined with single spaces.
pub open spec fn line_of_words(ws: Seq<Seq<char>>) -> Seq<char>
    decreases ws.len(),
{
    if ws.len() == 0 {
        Seq::empty()
    } else if ws.len() == 1 {
        ws[0]
    } else {
        ws[0] + seq![' '] + line_of_words(ws.drop_first())
    }
}

pub proof fn lemma_line_of_words_push(ws: Seq<Seq<char>>, w: Seq<char>)
    requires
        ws.len() >= 1,
    ensures
        line_of_words(ws.push(w)) == line_of_words(ws) + seq![' '] + w,
    decreases ws.len(),
{
    if ws.len() == 1 {
        assert(ws.push(w).drop_first() =~= seq![w]);
        assert(ws.push(w)[0] == ws[0]);
        assert(line_of_words(seq![w]) == w);
    } else {
        assert(ws.push(w).drop_first() =~= ws.drop_first().push(w));
        assert(ws.push(w)[0] == ws[0]);
        lemma_line_of_words_push(ws.drop_first(), w);
        assert(ws[0] + seq![' '] + (line_of_words(ws.drop_first()) + seq![' '] + w) =~= (ws[0]
            + seq![' '] + line_of_words(ws.drop_first())) + seq![' '] + w);
    }
}

pub proof fn lemma_str_width_concat(a: Seq<char>, b: Seq<char>)
    ensures
        str_width(a + b) == str_width(a) + str_width(b),
{
    lemma_sum_by_concat(a, b, char_width_fn());
}

/// Width of a line extended by a space and one more word.
pub proof fn lemma_line_width_push(ws: Seq<Seq<char>>, w: Seq<char>)
    requires
        ws.len() >= 1,
    ensures
        str_width(line_of_words(ws.push(w))) == str_width(line_of_words(ws)) + 1 + str_width(w),
{
    lemma_line_of_words_push(ws, w);
    lemma_str_width_concat(line_of_words(ws) + seq![' '], w);
    lemma_str_width_concat(line_of_words(ws), seq![' ']);
    assert(seq![' '].drop_first() =~= Seq::<char>::empty());
    assert(seq![' '][0] == ' ');
    assert(char_width_fn()(' ') == 1);
    assert(str_width(seq![' ']) == char_width_fn()(' ') + sum_by(
        seq![' '].drop_first(),
        char_width_fn(),
    ));
    assert(str_width(seq![' ']) == 1);
}

/// How many further words fit on a line that already has width `cur`.
pub open spec fn take_fit(words: Seq<Seq<char>>, width: usize, cur: nat) -> nat
    decreases words.len(),
{
    if words.len() == 0 {
        0
    } else {
        let w = str_width(words[0]);
        if cur + 1 + w <= width {
            1 + take_fit(words.drop_first(), width, (cur + 1 + w) as nat)
        } else {
            0
        }
    }
}

pub proof fn lemma_take_fit_le(words: Seq<Seq<char>>, width: usize, cur: nat)
    ensures
        take_fit(words, width, cur) <= words.len(),
    decreases words.len(),
{
    if words.len() > 0 {
        let w = str_width(words[0]);
        if cur + 1 + w <= width {
            lemma_take_fit_le(words.drop_first(), width, (cur + 1 + w) as nat);
        }
    }
}

/// Greedy wrap: fill each line with as many words as fit within `width`
/// (one space between words); a word wider than `width` stands alone on its
/// own line, unmodified.
pub open spec fn greedy_wrap(words: Seq<Seq<char>>, width: usize) -> Seq<Seq<char>>
    decreases words.len(),
    via greedy_wrap_dec
{
    if words.len() == 0 {
        Seq::empty()
    } else {
        let w0 = str_width(words[0]);
        if w0 > width {
            seq![words[0]] + greedy_wrap(words.drop_first(), width)
        } else {
            let k = 1 + take_fit(words.drop_first(), width, w0);
            seq![line_of_words(words.take(k as int))] + greedy_wrap(words.skip(k as int), width)
        }
    }
}

#[via_fn]
proof fn greedy_wrap_dec(words: Seq<Seq<char>>, width: usize) {
    if words.len() > 0 {
        lemma_take_fit_le(words.drop_first(), width, str_width(words[0]));
    }
}

/// Display width of a word vector, clamped at `usize::MAX`.
fn vec_width(w: &Vec<char>) -> (r: usize)
    ensures
        r == clamp_usize(str_width(w@)),
{
    let n = w.len();
    let r = chars_width(w, 0, n);
    proof {
        assert(w@.subrange(0, n as int) =~= w@);
    }
    r
}

/// Wrap `words[from..]` greedily at `width`.
fn wrap_words(words: &Vec<Vec<char>>, from: usize, width: usize) -> (r: Vec<String>)
    requires
        from <= words@.len(),
        width < usize::MAX,
    ensures
        str_views(r@) == greedy_wrap(views_of(words@).skip(from as int), width),
    decreases words@.len() - from,
{
    let ghost ws = views_of(words@).skip(from as int);
    if from == words.len() {
        let r: Vec<String> = Vec::new();
        proof {
            assert(ws =~= Seq::<Seq<char>>::empty());
            assert(str_views(r@) =~= Seq::<Seq<char>>::empty());
        }
        return r;
    }
    proof {
        assert(ws[0] == words@[from as int]@);
    }
    let w0 = vec_width(&words[from]);
    if w0 > width {
        // a word wider than the limit occupies its own unmodified line
        let line = crate::unicode::chars_to_string(&words[from]);
        let mut out: Vec<String> = Vec::new();
        out.push(line);
        let mut rest = wrap_words(words, from + 1, width);
        proof {
        }
        let ghost out1 = out@;
        out.append(&mut rest);
        proof {
            assert(str_width(ws[0]) > width);
            assert(views_of(words@).skip(from + 1) =~= ws.drop_first());
            assert(str_views(out@) =~= seq![ws[0]] + greedy_wrap(ws.drop_first(), width));
        }
        out
    } else {
        proof {
            assert(str_width(ws[0]) <= width);
        }
        let ghost w0n = str_width(ws[0]);
        let nw = words.len();
        let mut cur: usize = w0;
        let mut k: usize = 1;
        proof {
            assert(ws.skip(1) =~= ws.drop_first());
        }
        while from + k < nw && cur < width && vec_width(&words[from + k]) <= width - cur - 1
            invariant
                1 <= k,
                nw == words@.len(),
                from + k <= nw,
                width < usize::MAX,
                ws == views_of(words@).skip(from as int),
                k <= ws.len(),
                cur <= width,
                cur == str_width(line_of_words(ws.take(k as int))),
                take_fit(ws.drop_first(), width, w0n) == (k - 1) + take_fit(
                    ws.skip(k as int),
                    width,
                    cur as nat,
                ),
            decreases words@.len() - from - k,
        {
            let w = vec_width(&words[from + k]);
            proof {
                assert(ws[k as int] == words@[from + k]@);
                assert(str_width(ws[k as int]) == w);
                assert(ws.take(k as int).len() == k);
                assert(ws.take(k + 1) =~= ws.take(k as int).push(ws[k as int]));
                lemma_line_width_push(ws.take(k as int), ws[k as int]);
                assert(ws.skip(k as int)[0] == ws[k as int]);
                assert(ws.skip(k as int).drop_first() =~= ws.skip(k + 1));
            }
            cur = cur + 1 + w;
            k += 1;
        }
        // the next word no longer fits (or none is left)
        proof {
            if from + k < words@.len() {
                assert(ws[k as int] == words@[from + k]@);
                if cur < width {
                    // the width test failed; whether or not the computed
                    // width was clamped, the true width does not fit
                    assert(clamp_usize(str_width(ws[k as int])) > width - cur - 1);
                    assert(cur + 1 + str_width(ws[k as int]) > width);
                }
                assert(take_fit(ws.skip(k as int), width, cur as nat) == 0);
            } else {
                assert(ws.skip(k as int) =~= Seq::<Seq<char>>::empty());
            }
            assert(take_fit(ws.drop_first(), width, w0n) == k - 1);
        }
        // build the joined line
        let mut line: Vec<char> = subvec(&words[from], 0, words[from].len());
        proof {
            assert(line@ =~= ws[0]);
            assert(line_of_words(ws.take(1)) == ws.take(1)[0]);
            assert(ws.take(1)[0] == ws[0]);
        }
        let mut t: usize = 1;
        while t < k
            invariant
                1 <= t <= k <= ws.len(),
                nw == words@.len(),
                from + k <= nw,
                ws == views_of(words@).skip(from as int),
                line@ == line_of_words(ws.take(t as int)),
            decreases k - t,
        {
            proof {
                assert(ws[t as int] == words@[from + t]@);
                assert(ws.take(t + 1) =~= ws.take(t as int).push(ws[t as int]));
                lemma_line_of_words_push(ws.take(t as int), ws[t as int]);
            }
            line.push(' ');
            push_all(&mut line, &words[from + t]);
            t += 1;
        }
        let mut out: Vec<String> = Vec::new();
        out.push(crate::unicode::chars_to_string(&line));
        let mut rest = wrap_words(words, from + k, width);
        out.append(&mut rest);
        proof {
            assert(views_of(words@).skip(from + k) =~= ws.skip(k as int));
            assert(greedy_wrap(ws, width) == seq![line_of_words(ws.take(k as int))] + greedy_wrap(
                ws.skip(k as int),
                width,
            ));
            assert(str_views(out@) =~= seq![line_of_words(ws.take(k as int))] + greedy_wrap(
                ws.skip(k as int),
                width,
            ));
        }
        out
    }
}

/// Wrap `text` to `width` columns with the greedy algorithm: words are kept
/// whole and joined by single spaces; a word wider than `width` stands on
/// its own line. Whitespace-only text yields one empty line.
pub fn wrap_text(text: &str, width: usize) -> (r: Vec<String>)
    requires
        width < usize::MAX,
    ensures
        words_of(text@).len() == 0 ==> r@.len() == 1 && r@[0]@ == Seq::<char>::empty(),
        words_of(text@).len() > 0 ==> str_views(r@) == greedy_wrap(words_of(text@), width),
{
    let v = chars_of(text);
    let words = split_words(&v);
    if words.len() == 0 {
        let mut r: Vec<String> = Vec::new();
        r.push(String::new());
        r
    } else {
        let r = wrap_words(&words, 0, width);
        proof {
            assert(views_of(words@).skip(0) =~= views_of(words@));
        }
        r
    }
}

// ---------------------------------------------------------------------------
// Wrapping laws
// ---------------------------------------------------------------------------

/// Width contributed by words appended after the first: one separating
/// space plus the word, for each.
pub open spec fn sep_width(g: Seq<Seq<char>>) -> nat
    decreases g.len(),
{
    if g.len() == 0 {
        0
    } else {
        1 + str_width(g[0]) + sep_width(g.drop_first())
    }
}

proof fn lemma_take_fit_width(ws: Seq<Seq<char>>, width: usize, cur: nat)
    requires
        cur <= width,
    ensures
        cur + sep_width(ws.take(take_fit(ws, width, cur) as int)) <= width,
    decreases ws.len(),
{
    if ws.len() > 0 {
        let w = str_width(ws[0]);
        if cur + 1 + w <= width {
            let t = take_fit(ws.drop_first(), width, (cur + 1 + w) as nat);
            lemma_take_fit_le(ws.drop_first(), width, (cur + 1 + w) as nat);
            lemma_take_fit_width(ws.drop_first(), width, (cur + 1 + w) as nat);
            assert(ws.take(1 + t as int).drop_first() =~= ws.drop_first().take(t as int));
            assert(ws.take(1 + t as int)[0] == ws[0]);
        } else {
            assert(ws.take(0) =~= Seq::<Seq<char>>::empty());
        }
    } else {
        assert(ws.take(0) =~= Seq::<Seq<char>>::empty());
    }
}

proof fn lemma_line_width_sep(g: Seq<Seq<char>>)
    requires
        g.len() >= 1,
    ensures
        str_width(line_of_words(g)) == str_width(g[0]) + sep_width(g.drop_first()),
    decreases g.len(),
{
    if g.len() == 1 {
        assert(g.drop_first() =~= Seq::<Seq<char>>::empty());
    } else {
        lemma_line_width_sep(g.drop_first());
        lemma_str_width_concat(g[0] + seq![' '], line_of_words(g.drop_first()));
        lemma_str_width_concat(g[0], seq![' ']);
        assert(seq![' '].drop_first() =~= Seq::<char>::empty());
        assert(seq![' '][0] == ' ');
        assert(char_width_fn()(' ') == 1);
        assert(str_width(seq![' ']) == char_width_fn()(' ') + sum_by(
            seq![' '].drop_first(),
            char_width_fn(),
        ));
    }
}

/// No line of a greedy wrap exceeds `width` in display width, unless it is
/// a single input word that alone exceeds `width` (and stands unmodified).
pub proof fn lemma_wrap_width(words: Seq<Seq<char>>, width: usize)
    ensures
        forall|i: int|
            0 <= i < greedy_wrap(words, width).len() ==> str_width(
                #[trigger] greedy_wrap(words, width)[i],
            ) <= width || (exists|j: int|
                0 <= j < words.len() && greedy_wrap(words, width)[i] == words[j] && str_width(
                    words[j],
                ) > width),
    decreases words.len(),
{
    if words.len() == 0 {
    } else {
        let w0 = str_width(words[0]);
        let g = greedy_wrap(words, width);
        if w0 > width {
            let rest = greedy_wrap(words.drop_first(), width);
            lemma_wrap_width(words.drop_first(), width);
            assert forall|i: int|
                0 <= i < g.len() implies str_width(#[trigger] g[i]) <= width || (exists|j: int|
                0 <= j < words.len() && g[i] == words[j] && str_width(words[j]) > width) by {
                if i == 0 {
                    assert(g[0] == words[0] && str_width(words[0]) > width);
                } else {
                    assert(g[i] == rest[i - 1]);
                    if str_width(rest[i - 1]) > width {
                        let j = choose|j: int|
                            0 <= j < words.drop_first().len() && rest[i - 1]
                                == words.drop_first()[j] && str_width(words.drop_first()[j])
                                > width;
                        assert(words.drop_first()[j] == words[j + 1]);
                        assert(g[i] == words[j + 1] && str_width(words[j + 1]) > width);
                    }
                }
            }
        } else {
            let k = 1 + take_fit(words.drop_first(), width, w0 as nat);
            let rest = greedy_wrap(words.skip(k as int), width);
            lemma_take_fit_le(words.drop_first(), width, w0 as nat);
            lemma_take_fit_width(words.drop_first(), width, w0 as nat);
            lemma_line_width_sep(words.take(k as int));
            assert(words.take(k as int)[0] == words[0]);
            assert(words.take(k as int).drop_first() =~= words.drop_first().take(k - 1));
            assert(str_width(line_of_words(words.take(k as int))) <= width);
            lemma_wrap_width(words.skip(k as int), width);
            assert forall|i: int|
                0 <= i < g.len() implies str_width(#[trigger] g[i]) <= width || (exists|j: int|
                0 <= j < words.len() && g[i] == words[j] && str_width(words[j]) > width) by {
                if i > 0 {
                    assert(g[i] == rest[i - 1]);
                    if str_width(rest[i - 1]) > width {
                        let j = choose|j: int|
                            0 <= j < words.skip(k as int).len() && rest[i - 1] == words.skip(
                                k as int,
                            )[j] && str_width(words.skip(k as int)[j]) > width;
                        assert(words.skip(k as int)[j] == words[j + k]);
                        assert(g[i] == words[j + k] && str_width(words[j + k]) > width);
                    }
                }
            }
        }
    }
}

/// The words of a joined well-formed word group followed by a whitespace
/// (or empty) tail: the group itself, then the words of the tail.
proof fn lemma_words_of_line_head(g: Seq<Seq<char>>, t: Seq<char>)
    requires
        wf_words(g),
        g.len() >= 1,
        t.len() == 0 || is_ws_char(t[0]),
    ensures
        words_of(line_of_words(g) + t) == g + words_of(t),
    decreases g.len(),
{
    if g.len() == 1 {
        let s = g[0] + t;
        assert(line_of_words(g) + t =~= s);
        assert(wf_word(g[0]));
        assert forall|j: int| 0 <= j < g[0].len() implies !is_ws_char(s[j]) by {
            assert(s[j] == g[0][j]);
        }
        if g[0].len() < s.len() {
            assert(s[g[0].len() as int] == t[0]);
        }
        lemma_words_of_word_head(s, g[0].len() as int);
        assert(s.take(g[0].len() as int) =~= g[0]);
        assert(s.skip(g[0].len() as int) =~= t);
        assert(seq![g[0]] + words_of(t) =~= g + words_of(t));
    } else {
        let tail = seq![' '] + (line_of_words(g.drop_first()) + t);
        let s = g[0] + tail;
        assert(line_of_words(g) + t =~= s);
        assert(wf_word(g[0]));
        assert forall|j: int| 0 <= j < g[0].len() implies !is_ws_char(s[j]) by {
            assert(s[j] == g[0][j]);
        }
        assert(s[g[0].len() as int] == tail[0]);
        assert(is_ws_char(tail[0]));
        lemma_words_of_word_head(s, g[0].len() as int);
        assert(s.take(g[0].len() as int) =~= g[0]);
        assert(s.skip(g[0].len() as int) =~= tail);
        // a leading space is skipped
        assert(words_of(tail) == words_of(tail.drop_first()));
        assert(tail.drop_first() =~= line_of_words(g.drop_first()) + t);
        assert(wf_words(g.drop_first()));
        lemma_words_of_line_head(g.drop_first(), t);
        assert(seq![g[0]] + (g.drop_first() + words_of(t)) =~= g + words_of(t));
    }
}

/// A greedy wrap of a nonempty word list yields at least one line.
proof fn lemma_greedy_nonempty(words: Seq<Seq<char>>, width: usize)
    ensures
        (greedy_wrap(words, width).len() == 0) == (words.len() == 0),
{
}

/// De-wrapping: joining the greedily wrapped lines back with single spaces
/// reconstructs exactly the original word sequence.
pub proof fn lemma_wrap_roundtrip(words: Seq<Seq<char>>, width: usize)
    requires
        wf_words(words),
    ensures
        words_of(line_of_words(greedy_wrap(words, width))) == words,
    decreases words.len(),
{
    if words.len() == 0 {
    } else {
        let w0 = str_width(words[0]);
        let g = greedy_wrap(words, width);
        if w0 > width {
            let rest = greedy_wrap(words.drop_first(), width);
            lemma_wrap_roundtrip(words.drop_first(), width);
            lemma_greedy_nonempty(words.drop_first(), width);
            if rest.len() == 0 {
                assert(words.drop_first().len() == 0);
                assert(g =~= seq![words[0]]);
                assert(line_of_words(g) == words[0]);
                assert(wf_word(words[0]));
                lemma_words_of_line_head(seq![words[0]], Seq::<char>::empty());
                assert(line_of_words(seq![words[0]]) + Seq::<char>::empty() =~= words[0]);
                assert(words_of(Seq::<char>::empty()) =~= Seq::<Seq<char>>::empty());
                assert(seq![words[0]] + Seq::<Seq<char>>::empty() =~= words);
            } else {
                assert(g.len() >= 2);
                assert(g[0] == words[0]);
                assert(g.drop_first() =~= rest);
                assert(line_of_words(g) == g[0] + seq![' '] + line_of_words(rest));
                assert(g[0] + seq![' '] + line_of_words(rest) =~= g[0] + (seq![' ']
                    + line_of_words(rest)));
                assert(wf_words(seq![words[0]]));
                lemma_words_of_line_head(seq![words[0]], seq![' '] + line_of_words(rest));
                assert(line_of_words(seq![words[0]]) == words[0]);
                assert((seq![' '] + line_of_words(rest))[0] == ' ');
                assert(words_of(seq![' '] + line_of_words(rest)) == words_of(
                    (seq![' '] + line_of_words(rest)).drop_first(),
                ));
                assert((seq![' '] + line_of_words(rest)).drop_first() =~= line_of_words(rest));
                assert(seq![words[0]] + words.drop_first() =~= words);
            }
        } else {
            let k = 1 + take_fit(words.drop_first(), width, w0 as nat);
            lemma_take_fit_le(words.drop_first(), width, w0 as nat);
            let line1 = line_of_words(words.take(k as int));
            let rest = greedy_wrap(words.skip(k as int), width);
            lemma_wrap_roundtrip(words.skip(k as int), width);
            lemma_greedy_nonempty(words.skip(k as int), width);
            assert(wf_words(words.take(k as int)));
            assert(words.take(k as int).len() >= 1);
            if rest.len() == 0 {
                assert(words.skip(k as int).len() == 0);
                assert(g =~= seq![line1]);
                assert(line_of_words(g) == line1);
                lemma_words_of_line_head(words.take(k as int), Seq::<char>::empty());
                assert(line1 + Seq::<char>::empty() =~= line1);
                assert(words_of(Seq::<char>::empty()) =~= Seq::<Seq<char>>::empty());
                assert(words.take(k as int) + Seq::<Seq<char>>::empty() =~= words.take(k as int));
                assert(words.take(k as int) =~= words);
            } else {
                assert(g.len() >= 2);
                assert(g[0] == line1);
                assert(g.drop_first() =~= rest);
                assert(line_of_words(g) == g[0] + seq![' '] + line_of_words(rest));
                assert(g[0] + seq![' '] + line_of_words(rest) =~= line1 + (seq![' ']
                    + line_of_words(rest)));
                lemma_words_of_line_head(words.take(k as int), seq![' '] + line_of_words(rest));
                assert((seq![' '] + line_of_words(rest))[0] == ' ');
                assert(words_of(seq![' '] + line_of_words(rest)) == words_of(
                    (seq![' '] + line_of_words(rest)).drop_first(),
                ));
                assert((seq![' '] + line_of_words(rest)).drop_first() =~= line_of_words(rest));
                assert(words.take(k as int) + words.skip(k as int) =~= words);
            }
        }
    }
}

/// Both wrapping laws, stated of the text `wrap_text` is given: no produced
/// line exceeds `width` unless it is a single over-wide word, and joining
/// the produced lines with single spaces reconstructs the whitespace-
/// normalized word sequence of `s`.
pub proof fn lemma_wrap_text_laws(s: Seq<char>, width: usize)
    ensures
        forall|i: int|
            0 <= i < greedy_wrap(words_of(s), width).len() ==> str_width(
                #[trigger] greedy_wrap(words_of(s), width)[i],
            ) <= width || (exists|j: int|
                0 <= j < words_of(s).len() && greedy_wrap(words_of(s), width)[i] == words_of(s)[j]
                    && str_width(words_of(s)[j]) > width),
        words_of(line_of_words(greedy_wrap(words_of(s), width))) == words_of(s),
{
    lemma_words_of_wf(s);
    lemma_wrap_width(words_of(s), width);
    lemma_wrap_roundtrip(words_of(s), width);
}

/// The lines `wrap_text` produces for a text: one empty line when the text
/// holds no words, else the greedy wrap of its words.
pub open spec fn wrap_lines(s: Seq<char>, width: usize) -> Seq<Seq<char>> {
    if words_of(s).len() == 0 {
        seq![Seq::<char>::empty()]
    } else {
        greedy_wrap(words_of(s), width)
    }
}

/// `wrap_text` on a character vector.
pub fn wrap_chars(v: &Vec<char>, width: usize) -> (r: Vec<String>)
    requires
        width < usize::MAX,
    ensures
        str_views(r@) == wrap_lines(v@, width),
        r@.len() >= 1,
{
    let words = split_words(v);
    if words.len() == 0 {
        let mut r: Vec<String> = Vec::new();
        r.push(String::new());
        proof {
            assert(str_views(r@) =~= seq![Seq::<char>::empty()]);
        }
        r
    } else {
        let r = wrap_words(&words, 0, width);
        proof {
            assert(views_of(words@).skip(0) =~= views_of(words@));
            lemma_greedy_nonempty(words_of(v@), width);
        }
        r
    }
}

/// Re-running the wrap at the same width keeps every produced line within
/// `width` except single over-wide words: every line that the renderer
/// rewraps — paragraph or list item — satisfies the width bound, so a
/// second pass never pushes a reflow-eligible line beyond the body width.
pub proof fn lemma_wrap_lines_width(s: Seq<char>, width: usize)
    ensures
        forall|i: int|
            0 <= i < wrap_lines(s, width).len() ==> str_width(
                #[trigger] wrap_lines(s, width)[i],
            ) <= width || (exists|j: int|
                0 <= j < words_of(s).len() && wrap_lines(s, width)[i] == words_of(s)[j]
                    && str_width(words_of(s)[j]) > width),
{
    if words_of(s).len() == 0 {
        assert(str_width(Seq::<char>::empty()) == 0);
        assert(wrap_lines(s, width) =~= seq![Seq::<char>::empty()]);
    } else {
        lemma_wrap_text_laws(s, width);
    }
}

} // verus!
