//! Character-sequence vocabulary: whitespace, trimming, prefix tests,
//! display width sums, and the small verified helpers over `Vec<char>`
//! that the pipeline stages are built from.

use vstd::prelude::*;

use crate::unicode::char_display_width;
use crate::unicode::char_width;

verus! {

// ---------------------------------------------------------------------------
// Character classes
// ---------------------------------------------------------------------------

/// The Unicode `White_Space` code points (the class std's trimming and
/// whitespace splitting use).
pub open spec fn is_ws_char(c: char) -> bool {
    let u = c as u32;
    u == 0x20 || (0x09 <= u && u <= 0x0D) || u == 0x85 || u == 0xA0 || u == 0x1680 || (0x2000 <= u
        && u <= 0x200A) || u == 0x2028 || u == 0x2029 || u == 0x202F || u == 0x205F || u == 0x3000
}

pub fn is_ws(c: char) -> (r: bool)
    ensures
        r == is_ws_char(c),
{
    let u = c as u32;
    u == 0x20 || (0x09 <= u && u <= 0x0D) || u == 0x85 || u == 0xA0 || u == 0x1680 || (0x2000 <= u
        && u <= 0x200A) || u == 0x2028 || u == 0x2029 || u == 0x202F || u == 0x205F || u == 0x3000
}

/// ASCII decimal digit.
pub open spec fn is_digit_char(c: char) -> bool {
    0x30 <= c as u32 && c as u32 <= 0x39
}

pub fn is_digit(c: char) -> (r: bool)
    ensures
        r == is_digit_char(c),
{
    let u = c as u32;
    0x30 <= u && u <= 0x39
}

/// ASCII code point.
pub open spec fn is_ascii_char(c: char) -> bool {
    (c as u32) < 128
}

pub fn is_ascii(c: char) -> (r: bool)
    ensures
        r == is_ascii_char(c),
{
    (c as u32) < 128
}

/// The number of bytes the UTF-8 encoding of a character occupies.
pub open spec fn char_utf8_len(c: char) -> nat {
    let u = c as u32;
    if u < 0x80 {
        1
    } else if u < 0x800 {
        2
    } else if u < 0x10000 {
        3
    } else {
        4
    }
}

pub fn utf8_len_of(c: char) -> (r: usize)
    ensures
        r as nat == char_utf8_len(c),
{
    let u = c as u32;
    if u < 0x80 {
        1
    } else if u < 0x800 {
        2
    } else if u < 0x10000 {
        3
    } else {
        4
    }
}

// ---------------------------------------------------------------------------
// Generic prefix runs and sums over character sequences
// ---------------------------------------------------------------------------

/// Length of the longest prefix of `s` whose characters all satisfy `f`.
pub open spec fn prefix_len_by(s: Seq<char>, f: spec_fn(char) -> bool) -> nat
    decreases s.len(),
{
    if s.len() > 0 && f(s[0]) {
        1 + prefix_len_by(s.drop_first(), f)
    } else {
        0
    }
}

pub proof fn lemma_prefix_len_by_props(s: Seq<char>, f: spec_fn(char) -> bool)
    ensures
        prefix_len_by(s, f) <= s.len(),
        forall|j: int| 0 <= j < prefix_len_by(s, f) ==> f(s[j]),
        prefix_len_by(s, f) < s.len() ==> !f(s[prefix_len_by(s, f) as int]),
    decreases s.len(),
{
    if s.len() > 0 && f(s[0]) {
        lemma_prefix_len_by_props(s.drop_first(), f);
        assert forall|j: int| 0 <= j < prefix_len_by(s, f) implies f(s[j]) by {
            if j > 0 {
                assert(s.drop_first()[j - 1] == s[j]);
            }
        }
        if prefix_len_by(s, f) < s.len() {
            assert(s.drop_first()[prefix_len_by(s, f) - 1] == s[prefix_len_by(s, f) as int]);
        }
    }
}

/// The prefix run length is the unique `n` bounded by a non-`f` character.
pub proof fn lemma_prefix_len_by_is(s: Seq<char>, f: spec_fn(char) -> bool, n: int)
    requires
        0 <= n <= s.len(),
        forall|j: int| 0 <= j < n ==> f(s[j]),
        n == s.len() || !f(s[n]),
    ensures
        prefix_len_by(s, f) == n,
    decreases s.len(),
{
    if s.len() > 0 && f(s[0]) {
        assert forall|j: int| 0 <= j < n - 1 implies f(s.drop_first()[j]) by {
            assert(s.drop_first()[j] == s[j + 1]);
        }
        if n < s.len() {
            assert(s.drop_first()[n - 1] == s[n]);
        }
        lemma_prefix_len_by_is(s.drop_first(), f, n - 1);
    }
}

/// Sum of a per-character weight over a sequence.
pub open spec fn sum_by(s: Seq<char>, w: spec_fn(char) -> nat) -> nat
    decreases s.len(),
{
    if s.len() == 0 {
        0
    } else {
        w(s[0]) + sum_by(s.drop_first(), w)
    }
}

pub proof fn lemma_sum_by_take_step(s: Seq<char>, w: spec_fn(char) -> nat, i: int)
    requires
        0 <= i < s.len(),
    ensures
        sum_by(s.take(i + 1), w) == sum_by(s.take(i), w) + w(s[i]),
    decreases i,
{
    if i == 0 {
        assert(s.take(1).drop_first() =~= s.take(0));
        assert(s.take(1)[0] == s[0]);
    } else {
        assert(s.take(i + 1).drop_first() =~= s.drop_first().take(i));
        assert(s.take(i).drop_first() =~= s.drop_first().take(i - 1));
        lemma_sum_by_take_step(s.drop_first(), w, i - 1);
        assert(s.drop_first()[i - 1] == s[i]);
    }
}

pub proof fn lemma_sum_by_concat(a: Seq<char>, b: Seq<char>, w: spec_fn(char) -> nat)
    ensures
        sum_by(a + b, w) == sum_by(a, w) + sum_by(b, w),
    decreases a.len(),
{
    if a.len() == 0 {
        assert(a + b =~= b);
    } else {
        assert((a + b).drop_first() =~= a.drop_first() + b);
        assert((a + b)[0] == a[0]);
        lemma_sum_by_concat(a.drop_first(), b, w);
    }
}

// ---------------------------------------------------------------------------
// Named weight and predicate functions (so spec and lemma instances agree)
// ---------------------------------------------------------------------------

pub open spec fn ws_fn() -> spec_fn(char) -> bool {
    |c: char| is_ws_char(c)
}

pub open spec fn char_width_fn() -> spec_fn(char) -> nat {
    |c: char| char_width(c)
}

pub open spec fn digit_fn() -> spec_fn(char) -> bool {
    |c: char| is_digit_char(c)
}

pub open spec fn indent_char_fn() -> spec_fn(char) -> bool {
    |c: char| c == ' ' || c == '\t'
}

pub open spec fn indent_weight_fn() -> spec_fn(char) -> nat {
    |c: char| if c == '\t' { 4 as nat } else { 1 as nat }
}

pub open spec fn utf8_len_fn() -> spec_fn(char) -> nat {
    |c: char| char_utf8_len(c)
}

// ---------------------------------------------------------------------------
// Trimming
// ---------------------------------------------------------------------------

/// Length of the leading whitespace run.
pub open spec fn ws_prefix_len(s: Seq<char>) -> nat {
    prefix_len_by(s, ws_fn())
}

/// `s` without its leading whitespace.
pub open spec fn trim_start_spec(s: Seq<char>) -> Seq<char> {
    s.skip(ws_prefix_len(s) as int)
}

/// `s` without its trailing whitespace.
pub open spec fn trim_end_spec(s: Seq<char>) -> Seq<char>
    decreases s.len(),
{
    if s.len() > 0 && is_ws_char(s.last()) {
        trim_end_spec(s.drop_last())
    } else {
        s
    }
}

/// `s` without leading and trailing whitespace.
pub open spec fn trim_spec(s: Seq<char>) -> Seq<char> {
    trim_start_spec(trim_end_spec(s))
}

/// `trim_end_spec` keeps exactly the prefix up to the last non-whitespace.
pub proof fn lemma_trim_end_is(s: Seq<char>, k: int)
    requires
        0 <= k <= s.len(),
        forall|j: int| k <= j < s.len() ==> is_ws_char(s[j]),
        k == 0 || !is_ws_char(s[k - 1]),
    ensures
        trim_end_spec(s) == s.take(k),
    decreases s.len(),
{
    if s.len() > 0 && is_ws_char(s.last()) {
        assert(k < s.len());
        lemma_trim_end_is(s.drop_last(), k);
        assert(s.drop_last().take(k) =~= s.take(k));
    } else {
        assert(k == s.len());
        assert(s.take(k) =~= s);
    }
}

pub proof fn lemma_trim_end_props(s: Seq<char>)
    ensures
        trim_end_spec(s).len() <= s.len(),
        trim_end_spec(s) == s.take(trim_end_spec(s).len() as int),
        trim_end_spec(s).len() > 0 ==> !is_ws_char(s[trim_end_spec(s).len() - 1]),
        forall|j: int| trim_end_spec(s).len() <= j < s.len() ==> is_ws_char(s[j]),
    decreases s.len(),
{
    if s.len() > 0 && is_ws_char(s.last()) {
        lemma_trim_end_props(s.drop_last());
        assert(s.drop_last().take(trim_end_spec(s).len() as int) =~= s.take(
            trim_end_spec(s).len() as int,
        ));
        assert forall|j: int| trim_end_spec(s).len() <= j < s.len() implies is_ws_char(s[j]) by {
            if j < s.len() - 1 {
                assert(is_ws_char(s.drop_last()[j]));
            }
        }
        if trim_end_spec(s).len() > 0 {
            assert(s.drop_last()[trim_end_spec(s).len() - 1] == s[trim_end_spec(s).len() - 1]);
        }
    } else {
        assert(s.take(s.len() as int) =~= s);
    }
}

// ---------------------------------------------------------------------------
// Prefix and containment tests
// ---------------------------------------------------------------------------

pub open spec fn has_prefix(s: Seq<char>, p: Seq<char>) -> bool {
    p.len() <= s.len() && forall|j: int| 0 <= j < p.len() ==> s[j] == p[j]
}

pub open spec fn contains_char(s: Seq<char>, c: char) -> bool {
    exists|i: int| 0 <= i < s.len() && s[i] == c
}

pub open spec fn contains_seq(s: Seq<char>, p: Seq<char>) -> bool {
    exists|i: int| 0 <= i && i + p.len() <= s.len() && has_prefix(s.skip(i), p)
}

pub open spec fn ends_with_char(s: Seq<char>, c: char) -> bool {
    s.len() > 0 && s.last() == c
}

// ---------------------------------------------------------------------------
// Executable helpers
// ---------------------------------------------------------------------------

/// The characters of a string slice, in order.
pub fn chars_of(s: &str) -> (v: Vec<char>)
    ensures
        v@ == s@,
{
    let n = s.unicode_len();
    let mut v: Vec<char> = Vec::new();
    let mut i: usize = 0;
    while i < n
        invariant
            i <= n,
            n == s@.len(),
            v@ =~= s@.take(i as int),
        decreases n - i,
    {
        v.push(s.get_char(i));
        i += 1;
    }
    assert(s@.take(n as int) =~= s@);
    v
}

/// A fresh copy of `v[from..to]`.
pub fn subvec(v: &Vec<char>, from: usize, to: usize) -> (r: Vec<char>)
    requires
        from <= to <= v@.len(),
    ensures
        r@ == v@.subrange(from as int, to as int),
{
    let mut r: Vec<char> = Vec::new();
    let mut i: usize = from;
    while i < to
        invariant
            from <= i <= to <= v@.len(),
            r@ =~= v@.subrange(from as int, i as int),
        decreases to - i,
    {
        r.push(v[i]);
        i += 1;
    }
    r
}

/// Append a copy of `src` to `dst`.
pub fn push_all(dst: &mut Vec<char>, src: &Vec<char>)
    ensures
        final(dst)@ == old(dst)@ + src@,
{
    let mut i: usize = 0;
    while i < src.len()
        invariant
            i <= src@.len(),
            dst@ =~= old(dst)@ + src@.take(i as int),
        decreases src@.len() - i,
    {
        dst.push(src[i]);
        i += 1;
    }
    assert(old(dst)@ + src@.take(src@.len() as int) =~= old(dst)@ + src@);
}

/// `n` spaces.
pub fn spaces(n: usize) -> (r: Vec<char>)
    ensures
        r@ =~= Seq::new(n as nat, |i: int| ' '),
{
    let mut r: Vec<char> = Vec::new();
    let mut i: usize = 0;
    while i < n
        invariant
            i <= n,
            r@ =~= Seq::new(i as nat, |j: int| ' '),
        decreases n - i,
    {
        r.push(' ');
        i += 1;
    }
    r
}

/// Index one past the last non-whitespace character of `v`.
pub fn trim_end_len(v: &Vec<char>) -> (k: usize)
    ensures
        k <= v@.len(),
        v@.take(k as int) == trim_end_spec(v@),
{
    let mut k: usize = v.len();
    while k > 0 && is_ws(v[k - 1])
        invariant
            k <= v@.len(),
            forall|j: int| k <= j < v@.len() ==> is_ws_char(v@[j]),
        decreases k,
    {
        k -= 1;
    }
    proof {
        lemma_trim_end_is(v@, k as int);
    }
    k
}

/// Length of the leading whitespace run of `v`.
pub fn trim_start_len(v: &Vec<char>) -> (a: usize)
    ensures
        a == ws_prefix_len(v@),
        a <= v@.len(),
{
    let mut a: usize = 0;
    while a < v.len() && is_ws(v[a])
        invariant
            a <= v@.len(),
            forall|j: int| 0 <= j < a ==> is_ws_char(v@[j]),
        decreases v@.len() - a,
    {
        a += 1;
    }
    proof {
        lemma_prefix_len_by_is(v@, ws_fn(), a as int);
    }
    a
}

/// `v` without leading whitespace.
pub fn trim_start_vec(v: &Vec<char>) -> (r: Vec<char>)
    ensures
        r@ == trim_start_spec(v@),
{
    let a = trim_start_len(v);
    let r = subvec(v, a, v.len());
    assert(v@.subrange(a as int, v@.len() as int) =~= v@.skip(a as int));
    r
}

/// `v` without trailing whitespace.
pub fn trim_end_vec(v: &Vec<char>) -> (r: Vec<char>)
    ensures
        r@ == trim_end_spec(v@),
{
    let k = trim_end_len(v);
    let r = subvec(v, 0, k);
    assert(v@.subrange(0, k as int) =~= v@.take(k as int));
    r
}

/// `v` without leading and trailing whitespace.
pub fn trim_vec(v: &Vec<char>) -> (r: Vec<char>)
    ensures
        r@ == trim_spec(v@),
{
    let t = trim_end_vec(v);
    trim_start_vec(&t)
}

/// Does `v[from..]` start with the characters of `p`?
pub fn begins_with(v: &Vec<char>, from: usize, p: &str) -> (r: bool)
    requires
        from <= v@.len(),
    ensures
        r == has_prefix(v@.skip(from as int), p@),
{
    let plen = p.unicode_len();
    let n = v.len();
    if n - from < plen {
        return false;
    }
    let mut j: usize = 0;
    while j < plen
        invariant
            j <= plen,
            plen == p@.len(),
            n == v@.len(),
            from + plen <= n,
            forall|t: int| 0 <= t < j ==> v@.skip(from as int)[t] == p@[t],
        decreases plen - j,
    {
        if v[from + j] != p.get_char(j) {
            assert(v@.skip(from as int)[j as int] != p@[j as int]);
            return false;
        }
        assert(v@.skip(from as int)[j as int] == p@[j as int]);
        j += 1;
    }
    true
}


/// Does `v` start with the characters of `p`?
pub fn starts_with_str(v: &Vec<char>, p: &str) -> (r: bool)
    ensures
        r == has_prefix(v@, p@),
{
    proof {
        assert(v@.skip(0) =~= v@);
    }
    begins_with(v, 0, p)
}

/// Does `v` contain the character `c`?
pub fn has_char(v: &Vec<char>, c: char) -> (r: bool)
    ensures
        r == contains_char(v@, c),
{
    let mut i: usize = 0;
    while i < v.len()
        invariant
            i <= v@.len(),
            forall|j: int| 0 <= j < i ==> v@[j] != c,
        decreases v@.len() - i,
    {
        if v[i] == c {
            return true;
        }
        i += 1;
    }
    false
}

/// Does `v` contain the characters of `p` as a contiguous run?
pub fn contains_str(v: &Vec<char>, p: &str) -> (r: bool)
    ensures
        r == contains_seq(v@, p@),
{
    let plen = p.unicode_len();
    let n = v.len();
    if n < plen {
        assert(!contains_seq(v@, p@));
        return false;
    }
    let mut i: usize = 0;
    while i <= n - plen
        invariant
            plen == p@.len(),
            n == v@.len(),
            plen <= n,
            i <= n - plen + 1,
            forall|t: int| 0 <= t < i ==> !(t + p@.len() <= v@.len() && has_prefix(v@.skip(t), p@)),
        decreases v@.len() - i,
    {
        if begins_with(v, i, p) {
            return true;
        }
        i += 1;
    }
    false
}

/// Does `v` end with the character `c`?
pub fn last_is(v: &Vec<char>, c: char) -> (r: bool)
    ensures
        r == ends_with_char(v@, c),
{
    v.len() > 0 && v[v.len() - 1] == c
}

// ---------------------------------------------------------------------------
// Display width
// ---------------------------------------------------------------------------

/// Display width of a character sequence: the sum of the per-character
/// column widths. This additive model counts wide and zero-width characters
/// per the width table; it is the measure all wrapping decisions use.
pub open spec fn str_width(s: Seq<char>) -> nat {
    sum_by(s, char_width_fn())
}

/// `n` clamped into `usize`.
pub open spec fn clamp_usize(n: nat) -> usize {
    if n <= usize::MAX as nat {
        n as usize
    } else {
        usize::MAX
    }
}

/// Display width of `v[from..to]`, clamped at `usize::MAX`.
pub fn chars_width(v: &Vec<char>, from: usize, to: usize) -> (w: usize)
    requires
        from <= to <= v@.len(),
    ensures
        w == clamp_usize(str_width(v@.subrange(from as int, to as int))),
{
    let ghost sub = v@.subrange(from as int, to as int);
    let mut total: usize = 0;
    let mut i: usize = from;
    while i < to
        invariant
            from <= i <= to <= v@.len(),
            sub == v@.subrange(from as int, to as int),
            total == clamp_usize(str_width(sub.take(i - from))),
        decreases to - i,
    {
        let cw = char_display_width(v[i]);
        proof {
            lemma_sum_by_take_step(sub, char_width_fn(), i - from);
            assert(sub[i - from] == v@[i as int]);
        }
        if total <= usize::MAX - cw {
            total += cw;
        } else {
            total = usize::MAX;
        }
        i += 1;
    }
    proof {
        assert(sub.take(to - from) =~= sub);
    }
    total
}

// ---------------------------------------------------------------------------
// Line splitting
// ---------------------------------------------------------------------------

/// `s` without its trailing carriage returns.
pub open spec fn strip_cr(s: Seq<char>) -> Seq<char>
    decreases s.len(),
{
    if s.len() > 0 && s.last() == '\r' {
        strip_cr(s.drop_last())
    } else {
        s
    }
}

pub proof fn lemma_strip_cr_is(s: Seq<char>, k: int)
    requires
        0 <= k <= s.len(),
        forall|j: int| k <= j < s.len() ==> s[j] == '\r',
        k == 0 || s[k - 1] != '\r',
    ensures
        strip_cr(s) == s.take(k),
    decreases s.len(),
{
    if s.len() > 0 && s.last() == '\r' {
        assert(k < s.len());
        lemma_strip_cr_is(s.drop_last(), k);
        assert(s.drop_last().take(k) =~= s.take(k));
    } else {
        assert(k == s.len());
        assert(s.take(k) =~= s);
    }
}

pub open spec fn not_nl_fn() -> spec_fn(char) -> bool {
    |c: char| c != '\n'
}

/// The lines of a text: split on newline, one trailing carriage-return run
/// stripped from each line, and no final empty line after a trailing
/// newline (as `str::lines` behaves).
pub open spec fn split_lines(s: Seq<char>) -> Seq<Seq<char>>
    decreases s.len(),
{
    if s.len() == 0 {
        Seq::empty()
    } else {
        let k0 = prefix_len_by(s, not_nl_fn());
        let k = if k0 <= s.len() {
            k0
        } else {
            s.len()
        };
        if k >= s.len() {
            seq![strip_cr(s)]
        } else {
            seq![strip_cr(s.take(k as int))] + split_lines(s.skip(k as int + 1))
        }
    }
}

/// The views of a sequence of string slices.
pub open spec fn strs_views(ss: Seq<&str>) -> Seq<Seq<char>> {
    ss.map_values(|x: &str| x@)
}

/// Split `input` into lines: on each newline, with trailing carriage
/// returns of every line removed, and no final empty line for a trailing
/// newline.
pub fn split_into_lines(input: &str) -> (r: Vec<&str>)
    ensures
        strs_views(r@) == split_lines(input@),
{
    let v = chars_of(input);
    let n = v.len();
    let mut r: Vec<&str> = Vec::new();
    let mut pos: usize = 0;
    proof {
        assert(strs_views(r@) =~= Seq::<Seq<char>>::empty());
        assert(input@.skip(0) =~= input@);
        assert(strs_views(r@) + split_lines(input@) =~= split_lines(input@));
    }
    while pos < n
        invariant
            pos <= n,
            n == v@.len(),
            v@ == input@,
            strs_views(r@) + split_lines(input@.skip(pos as int)) == split_lines(input@),
        decreases n - pos,
    {
        let ghost tail = input@.skip(pos as int);
        // find the end of the segment
        let mut e: usize = pos;
        while e < n && v[e] != '\n'
            invariant
                pos <= e <= n,
                n == v@.len(),
                forall|t: int| pos <= t < e ==> v@[t] != '\n',
            decreases n - e,
        {
            e += 1;
        }
        proof {
            assert forall|t: int| 0 <= t < e - pos implies (not_nl_fn())(tail[t]) by {
                assert(tail[t] == v@[pos + t]);
            }
            if (e as int) - (pos as int) < tail.len() {
                assert(tail[e - pos] == v@[e as int]);
            }
            lemma_prefix_len_by_is(tail, not_nl_fn(), e - pos);
        }
        // strip trailing carriage returns
        let mut e2: usize = e;
        while e2 > pos && v[e2 - 1] == '\r'
            invariant
                pos <= e2 <= e <= n,
                n == v@.len(),
                forall|t: int| e2 <= t < e ==> v@[t] == '\r',
            decreases e2,
        {
            e2 -= 1;
        }
        let seg = input.substring_char(pos, e2);
        proof {
            let segment = tail.take(e - pos);
            assert forall|t: int| e2 - pos <= t < segment.len() implies (segment[t] == '\r') by {
                assert(segment[t] == v@[pos + t]);
            }
            if e2 > pos {
                assert(segment[(e2 as int) - (pos as int) - 1] == v@[e2 - 1]);
            }
            lemma_strip_cr_is(segment, (e2 as int) - (pos as int));
            assert(seg@ =~= segment.take((e2 as int) - (pos as int)));
            assert(seg@ == strip_cr(segment));
        }
        let ghost r0 = r@;
        r.push(seg);
        proof {
            assert(strs_views(r@) =~= strs_views(r0).push(seg@));
        }
        if e >= n {
            // final segment without trailing newline
            proof {
                assert(tail.len() > 0);
                assert(tail.take(e - pos) =~= tail);
                assert(split_lines(tail) =~= seq![strip_cr(tail)]);
                assert(input@.skip(n as int) =~= Seq::<char>::empty());
                assert(strs_views(r@) + split_lines(input@.skip(n as int)) =~= strs_views(r0)
                    + split_lines(tail));
            }
            pos = n;
        } else {
            proof {
                assert(tail.len() > 0);
                assert(tail[0] == v@[pos as int]);
                assert(split_lines(tail) =~= seq![strip_cr(tail.take(e - pos))] + split_lines(
                    tail.skip(e - pos + 1),
                ));
                assert(tail.skip(e - pos + 1) =~= input@.skip(e + 1));
                assert(strs_views(r@) + split_lines(input@.skip(e + 1)) =~= strs_views(r0) + (seq![
                    strip_cr(tail.take(e - pos)),
                ] + split_lines(tail.skip(e - pos + 1))));
            }
            pos = e + 1;
        }
    }
    proof {
        assert(input@.skip(pos as int) =~= Seq::<char>::empty());
    }
    r
}

} // verus!
