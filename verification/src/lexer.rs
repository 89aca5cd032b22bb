//! Lexical analysis: convert raw text lines into classified lines.
//!
//! The first pipeline stage analyzes each line individually and assigns
//! initial category scores from content patterns and indentation. The
//! detectors run in a fixed priority; the first match sets a dominant and a
//! runner-up score.

use vstd::prelude::*;

use crate::chars::chars_of;
use crate::chars::clamp_usize;
use crate::chars::contains_seq;
use crate::chars::contains_str;
use crate::chars::has_prefix;
use crate::chars::starts_with_str;
use crate::chars::trim_spec;
use crate::chars::trim_vec;
use crate::types::CatLine;
use crate::types::Options;
use crate::types::Scores;
use crate::utils::count_indent;
use crate::utils::code_ratio_exceeded;
use crate::utils::is_footer_text;
use crate::utils::is_list_text;
use crate::utils::is_list_vec;
use crate::utils::spec_byte_len;
use crate::utils::spec_indent;
use crate::utils::spec_special_count;
use crate::utils::starts_with_footer_tag;

verus! {

/// The initial score distribution of one raw line. The detectors apply in
/// this fixed priority; the first match decides:
/// 1. whitespace-only: Empty;
/// 2. trimmed text starts with `#` or `//`: Comment-dominant;
/// 3. starts and ends with `|`: Table-dominant;
/// 4. starts with `http` or contains `://`: URL-dominant;
/// 5. a literal footer tag: Footer-dominant;
/// 6. the list-marker grammar: List-dominant;
/// 7. indentation at least 4, or a special-character ratio over three
///    tenths of the trimmed byte length: Code-dominant;
/// 8. the first line of the input: prose with a small Code residual;
/// 9. otherwise: prose with a small Introduction residual.
pub open spec fn lex_scores(raw: Seq<char>, idx: nat) -> Scores {
    let t = trim_spec(raw);
    if t.len() == 0 {
        Scores { empty: 100, ..Scores::spec_zero() }
    } else if has_prefix(t, "#"@) || has_prefix(t, "//"@) {
        Scores { comment: 90, prose: 10, ..Scores::spec_zero() }
    } else if t[0] == '|' && t.last() == '|' {
        Scores { table: 80, code: 20, ..Scores::spec_zero() }
    } else if has_prefix(t, "http"@) || contains_seq(t, "://"@) {
        Scores { url: 90, prose: 10, ..Scores::spec_zero() }
    } else if is_footer_text(t) {
        Scores { footer: 90, prose: 10, ..Scores::spec_zero() }
    } else if is_list_text(t) {
        Scores { list: 92, prose: 8, ..Scores::spec_zero() }
    } else if spec_indent(raw) >= 4 || 10 * spec_special_count(t) > 3 * spec_byte_len(t) {
        Scores { code: 77, prose: 23, ..Scores::spec_zero() }
    } else if idx == 0 {
        Scores { prose: 94, code: 6, ..Scores::spec_zero() }
    } else {
        Scores { prose: 80, intro: 20, ..Scores::spec_zero() }
    }
}

/// What the lexer guarantees of each produced line: text and index carried
/// verbatim, the indentation width, the initial scores, and the resolved
/// category as their arg-max.
pub open spec fn lexed_line(raw: Seq<char>, idx: nat, l: CatLine) -> bool {
    &&& l.text@ == raw
    &&& l.line_number == idx
    &&& l.indent == clamp_usize(spec_indent(raw))
    &&& l.scores == lex_scores(raw, idx)
    &&& l.final_category == lex_scores(raw, idx).spec_arg_max()
}

/// Classify one raw line.
fn lex_one(line: &str, idx: usize) -> (l: CatLine)
    ensures
        lexed_line(line@, idx as nat, l),
{
    let v = chars_of(line);
    let t = trim_vec(&v);
    let indent = count_indent(line);
    let scores: Scores = if t.len() == 0 {
        Scores { empty: 100, ..Scores::zero() }
    } else if starts_with_str(&t, "#") || starts_with_str(&t, "//") {
        Scores { comment: 90, prose: 10, ..Scores::zero() }
    } else if t[0] == '|' && t[t.len() - 1] == '|' {
        Scores { table: 80, code: 20, ..Scores::zero() }
    } else if starts_with_str(&t, "http") || contains_str(&t, "://") {
        Scores { url: 90, prose: 10, ..Scores::zero() }
    } else if starts_with_footer_tag(&t) {
        Scores { footer: 90, prose: 10, ..Scores::zero() }
    } else if is_list_vec(&t) {
        Scores { list: 92, prose: 8, ..Scores::zero() }
    } else if indent >= 4 || code_ratio_exceeded(&t) {
        proof {
            assert(spec_indent(line@) >= 4 || 10 * spec_special_count(t@) > 3 * spec_byte_len(t@));
        }
        Scores { code: 77, prose: 23, ..Scores::zero() }
    } else if idx == 0 {
        Scores { prose: 94, code: 6, ..Scores::zero() }
    } else {
        Scores { prose: 80, intro: 20, ..Scores::zero() }
    };
    let final_category = scores.arg_max();
    CatLine { text: line.to_owned(), line_number: idx, indent, scores, final_category }
}

/// Lexer: convert raw lines to classified lines with initial scores. The
/// output has exactly one line per input line, blank lines included.
pub fn lex_lines(lines: &[&str], opts: &Options) -> (r: Vec<CatLine>)
    ensures
        r@.len() == lines@.len(),
        forall|i: int| 0 <= i < r@.len() ==> lexed_line(lines@[i]@, i as nat, #[trigger] r@[i]),
{
    let _ = opts;
    let mut r: Vec<CatLine> = Vec::new();
    let mut i: usize = 0;
    while i < lines.len()
        invariant
            i <= lines@.len(),
            r@.len() == i,
            forall|j: int| 0 <= j < i ==> lexed_line(lines@[j]@, j as nat, #[trigger] r@[j]),
        decreases lines@.len() - i,
    {
        let l = lex_one(lines[i], i);
        r.push(l);
        i += 1;
    }
    r
}

/// Every lexed line is well-formed: its resolved category carries the
/// maximum score of its distribution.
pub proof fn lemma_lexed_wf(raw: Seq<char>, idx: nat, l: CatLine)
    requires
        lexed_line(raw, idx, l),
    ensures
        l.wf(),
{
    l.scores.lemma_arg_max_is_max();
}

} // verus!
