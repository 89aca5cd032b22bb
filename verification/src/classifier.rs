//! Context-aware classification refinement using neighboring lines.
//!
//! The second pipeline stage inspects, for each line, its neighbors at
//! offsets -2, -1, +1 and +2 (clipped at the sequence bounds) and adjusts
//! the line's score distribution. Only the neighbors' pre-refinement
//! values are read — never another line's already-refined values — which
//! prevents circular reinforcement. The resolved category is then
//! recomputed as the arg-max of the adjusted distribution.

use vstd::prelude::*;

use crate::chars::chars_of;
use crate::chars::contains_char;
use crate::chars::contains_seq;
use crate::chars::contains_str;
use crate::chars::ends_with_char;
use crate::chars::has_char;
use crate::chars::last_is;
use crate::chars::trim_spec;
use crate::chars::trim_vec;
use crate::chars::has_prefix;
use crate::chars::is_ws_char;
use crate::types::CatLine;
use crate::types::Category;
use crate::types::Scores;

verus! {

/// Whether two indentation widths are within two columns of each other.
pub open spec fn indent_close(a: nat, b: nat) -> bool {
    if a >= b {
        a - b <= 2
    } else {
        b - a <= 2
    }
}

/// The adjustment one neighbor contributes to a line's scores:
/// - a List neighbor boosts List (and slightly ProseGeneral) on indented
///   lines not already resolved Code;
/// - a Code neighbor with nearby indentation boosts Code on lines indented
///   at least four columns;
/// - a Table neighbor boosts Table when the line contains `|`;
/// - an Introduction directly above (offset +1 looking back, i.e. the
///   neighbor follows the introduction) boosts List and ProseGeneral.
pub open spec fn neighbor_adjust(cur: Scores, me: CatLine, nb: CatLine, next_one: bool) -> Scores {
    match nb.final_category {
        Category::List => {
            if me.indent > 0 && me.final_category != Category::Code {
                cur.spec_bump(Category::List, 10).spec_bump(Category::ProseGeneral, 5)
            } else {
                cur
            }
        },
        Category::Code => {
            if me.indent >= 4 && indent_close(me.indent as nat, nb.indent as nat) {
                cur.spec_bump(Category::Code, 15)
            } else {
                cur
            }
        },
        Category::Table => {
            if contains_char(me.text@, '|') {
                cur.spec_bump(Category::Table, 20)
            } else {
                cur
            }
        },
        Category::ProseIntroduction => {
            if next_one {
                cur.spec_bump(Category::List, 10).spec_bump(Category::ProseGeneral, 10)
            } else {
                cur
            }
        },
        _ => cur,
    }
}

/// The refined score distribution of line `i`: the neighbor adjustments at
/// offsets -2, -1, +1, +2 (in that order, reading pre-refinement values
/// only), then a boost to Introduction when the trimmed text ends with `:`
/// and the line does not contain `http`.
pub open spec fn refine_scores(lines: Seq<CatLine>, i: int) -> Scores {
    let me = lines[i];
    let s0 = me.scores;
    let s1 = if i - 2 >= 0 {
        neighbor_adjust(s0, me, lines[i - 2], false)
    } else {
        s0
    };
    let s2 = if i - 1 >= 0 {
        neighbor_adjust(s1, me, lines[i - 1], false)
    } else {
        s1
    };
    let s3 = if i + 1 < lines.len() {
        neighbor_adjust(s2, me, lines[i + 1], true)
    } else {
        s2
    };
    let s4 = if i + 2 < lines.len() {
        neighbor_adjust(s3, me, lines[i + 2], false)
    } else {
        s3
    };
    if ends_with_char(trim_spec(me.text@), ':') && !contains_seq(me.text@, "http"@) {
        s4.spec_bump(Category::ProseIntroduction, 30)
    } else {
        s4
    }
}

/// What the refiner guarantees of each produced line: text, index and
/// indentation carried verbatim, the refined scores, and the resolved
/// category as their arg-max.
pub open spec fn refined_line(lines: Seq<CatLine>, i: int, l: CatLine) -> bool {
    &&& l.text == lines[i].text
    &&& l.line_number == lines[i].line_number
    &&& l.indent == lines[i].indent
    &&& l.scores == refine_scores(lines, i)
    &&& l.final_category == refine_scores(lines, i).spec_arg_max()
}

/// One neighbor adjustment, executable.
fn adjust(cur: Scores, me: &CatLine, nb: &CatLine, next_one: bool) -> (r: Scores)
    ensures
        r == neighbor_adjust(cur, *me, *nb, next_one),
{
    match nb.final_category {
        Category::List => {
            if me.indent > 0 && !matches!(me.final_category, Category::Code) {
                cur.bump(Category::List, 10).bump(Category::ProseGeneral, 5)
            } else {
                cur
            }
        },
        Category::Code => {
            let close = if me.indent >= nb.indent {
                me.indent - nb.indent <= 2
            } else {
                nb.indent - me.indent <= 2
            };
            if me.indent >= 4 && close {
                cur.bump(Category::Code, 15)
            } else {
                cur
            }
        },
        Category::Table => {
            let v = chars_of(me.text.as_str());
            if has_char(&v, '|') {
                cur.bump(Category::Table, 20)
            } else {
                cur
            }
        },
        Category::ProseIntroduction => {
            if next_one {
                cur.bump(Category::List, 10).bump(Category::ProseGeneral, 10)
            } else {
                cur
            }
        },
        _ => cur,
    }
}

/// Refine one line against the whole pre-refinement sequence.
fn refine_one(lines: &Vec<CatLine>, i: usize) -> (l: CatLine)
    requires
        i < lines@.len(),
    ensures
        refined_line(lines@, i as int, l),
{
    let n = lines.len();
    let me = &lines[i];
    let mut s = me.scores;
    if i >= 2 {
        s = adjust(s, me, &lines[i - 2], false);
    }
    if i >= 1 {
        s = adjust(s, me, &lines[i - 1], false);
    }
    if n - i > 1 {
        s = adjust(s, me, &lines[i + 1], true);
    }
    if n - i > 2 {
        s = adjust(s, me, &lines[i + 2], false);
    }
    let v = chars_of(me.text.as_str());
    let t = trim_vec(&v);
    if last_is(&t, ':') && !contains_str(&v, "http") {
        s = s.bump(Category::ProseIntroduction, 30);
    }
    let final_category = s.arg_max();
    CatLine {
        text: me.text.clone(),
        line_number: me.line_number,
        indent: me.indent,
        scores: s,
        final_category,
    }
}

/// Apply context-aware refinement to every line. Order and count are
/// preserved exactly; each output line's scores are the refinement of the
/// corresponding input line against the pre-refinement sequence.
pub fn classify_with_context(cat_lines: Vec<CatLine>) -> (r: Vec<CatLine>)
    ensures
        r@.len() == cat_lines@.len(),
        forall|i: int| 0 <= i < r@.len() ==> refined_line(cat_lines@, i, #[trigger] r@[i]),
{
    let mut r: Vec<CatLine> = Vec::new();
    let mut i: usize = 0;
    while i < cat_lines.len()
        invariant
            i <= cat_lines@.len(),
            r@.len() == i,
            forall|j: int| 0 <= j < i ==> refined_line(cat_lines@, j, #[trigger] r@[j]),
        decreases cat_lines@.len() - i,
    {
        let l = refine_one(&cat_lines, i);
        r.push(l);
        i += 1;
    }
    r
}

// ---------------------------------------------------------------------------
// Classification laws
// ---------------------------------------------------------------------------

/// One neighbor adjustment never touches the Footer, Empty, Comment, URL
/// or Introduction scores, and raises the others by bounded amounts.
proof fn lemma_adjust_bounds(cur: Scores, me: CatLine, nb: CatLine, next_one: bool)
    ensures
        ({
            let r = neighbor_adjust(cur, me, nb, next_one);
            &&& r.footer == cur.footer
            &&& r.empty == cur.empty
            &&& r.comment == cur.comment
            &&& r.url == cur.url
            &&& r.intro == cur.intro
            &&& cur.prose <= r.prose <= cur.prose + 10
            &&& cur.list <= r.list <= cur.list + 10
            &&& cur.code <= r.code <= cur.code + 15
            &&& cur.table <= r.table <= cur.table + 20
        }),
{
}

/// The refinement keeps the Footer score and bounds how far the competing
/// scores can rise.
proof fn lemma_refine_bounds(lines: Seq<CatLine>, i: int)
    requires
        0 <= i < lines.len(),
    ensures
        ({
            let s0 = lines[i].scores;
            let r = refine_scores(lines, i);
            &&& r.footer == s0.footer
            &&& r.empty == s0.empty
            &&& r.comment == s0.comment
            &&& r.url == s0.url
            &&& s0.intro <= r.intro <= s0.intro + 30
            &&& s0.prose <= r.prose <= s0.prose + 40
            &&& s0.list <= r.list <= s0.list + 40
            &&& s0.code <= r.code <= s0.code + 60
            &&& s0.table <= r.table <= s0.table + 80
        }),
{
    let me = lines[i];
    let s0 = me.scores;
    let s1 = if i - 2 >= 0 {
        neighbor_adjust(s0, me, lines[i - 2], false)
    } else {
        s0
    };
    let s2 = if i - 1 >= 0 {
        neighbor_adjust(s1, me, lines[i - 1], false)
    } else {
        s1
    };
    let s3 = if i + 1 < lines.len() {
        neighbor_adjust(s2, me, lines[i + 1], true)
    } else {
        s2
    };
    let s4 = if i + 2 < lines.len() {
        neighbor_adjust(s3, me, lines[i + 2], false)
    } else {
        s3
    };
    if i - 2 >= 0 {
        lemma_adjust_bounds(s0, me, lines[i - 2], false);
    }
    if i - 1 >= 0 {
        lemma_adjust_bounds(s1, me, lines[i - 1], false);
    }
    if i + 1 < lines.len() {
        lemma_adjust_bounds(s2, me, lines[i + 1], true);
    }
    if i + 2 < lines.len() {
        lemma_adjust_bounds(s3, me, lines[i + 2], false);
    }
}

/// A distribution whose Footer score beats every other resolves to Footer;
/// one whose Footer score is zero never does.
proof fn lemma_arg_max_footer(s: Scores)
    ensures
        (s.footer > s.intro && s.footer > s.prose && s.footer > s.list && s.footer > s.code
            && s.footer > s.table && s.footer > s.url && s.footer > s.empty && s.footer
            > s.comment) ==> s.spec_arg_max() == Category::Footer,
        s.footer == 0 ==> s.spec_arg_max() != Category::Footer,
{
}

/// A line that begins with exactly `Fixes: #123` resolves to Footer after
/// refinement, whatever its neighbors are — unless it also carries the URL
/// marker `://` somewhere, which an earlier detector claims first. A line
/// that begins with `fix:` (the lowercase conventional-commit form) never
/// resolves to Footer.
pub proof fn lemma_footer_stability(
    raw: Seq<Seq<char>>,
    ls: Seq<CatLine>,
    rs: Seq<CatLine>,
    i: int,
)
    requires
        0 <= i < raw.len(),
        ls.len() == raw.len(),
        rs.len() == ls.len(),
        crate::lexer::lexed_line(raw[i], i as nat, ls[i]),
        refined_line(ls, i, rs[i]),
    ensures
        has_prefix(raw[i], "Fixes: #123"@) && !contains_seq(raw[i], "://"@) ==> rs[i].final_category
            == Category::Footer,
        has_prefix(raw[i], "fix:"@) ==> rs[i].final_category != Category::Footer,
{
    let s = raw[i];
    reveal_strlit("Fixes: #123");
    reveal_strlit("fix:");
    reveal_strlit("Signed-off-by:");
    reveal_strlit("Co-authored-by:");
    reveal_strlit("Reviewed-by:");
    reveal_strlit("Acked-by:");
    reveal_strlit("Tested-by:");
    reveal_strlit("Reported-by:");
    reveal_strlit("Suggested-by:");
    reveal_strlit("Fixes:");
    reveal_strlit("Closes:");
    reveal_strlit("Resolves:");
    reveal_strlit("See-also:");
    reveal_strlit("Ref:");
    reveal_strlit("References:");
    reveal_strlit("#");
    reveal_strlit("//");
    reveal_strlit("http");
    reveal_strlit("://");
    lemma_refine_bounds(ls, i);
    if has_prefix(s, "Fixes: #123"@) {
        crate::chars::lemma_trim_end_props(s);
        let te = crate::chars::trim_end_spec(s);
        let k = te.len() as int;
        // the `#123` tail is not whitespace, so trimming keeps the tag
        assert(s[10] == '3' && !is_ws_char('3'));
        assert(k >= 11) by {
            if k < 11 {
                assert(is_ws_char(s[10]));
            }
        }
        assert(te == s.take(k));
        assert(!is_ws_char('F'));
        assert(te[0] == 'F');
        crate::chars::lemma_prefix_len_by_is(te, crate::chars::ws_fn(), 0);
        assert(trim_spec(s) =~= te);
        let t = trim_spec(s);
        if !contains_seq(s, "://"@) {
            // the earlier detectors do not fire
            assert(t.len() >= 11);
            assert(t[0] == 'F' && t[1] == 'i' && t[2] == 'x' && t[3] == 'e' && t[4] == 's' && t[5]
                == ':');
            assert(!crate::chars::has_prefix(t, "#"@));
            assert(!crate::chars::has_prefix(t, "//"@));
            assert(!(t[0] == '|' && t.last() == '|'));
            assert(!crate::chars::has_prefix(t, "http"@));
            assert(!contains_seq(t, "://"@)) by {
                if contains_seq(t, "://"@) {
                    let w = choose|w: int|
                        0 <= w && w + "://"@.len() <= t.len() && crate::chars::has_prefix(
                            t.skip(w),
                            "://"@,
                        );
                    assert(crate::chars::has_prefix(s.skip(w), "://"@)) by {
                        assert(forall|u: int|
                            0 <= u < "://"@.len() ==> t.skip(w)[u] == s.skip(w)[u]);
                    }
                    assert(contains_seq(s, "://"@));
                }
            }
            assert(crate::chars::has_prefix(t, "Fixes:"@));
            assert(crate::utils::is_footer_text(t));
            let base = crate::lexer::lex_scores(s, i as nat);
            assert(base.footer == 90 && base.prose == 10 && base.intro == 0 && base.list == 0
                && base.code == 0 && base.table == 0 && base.url == 0 && base.empty == 0
                && base.comment == 0);
            lemma_arg_max_footer(rs[i].scores);
            assert(rs[i].final_category == Category::Footer);
        }
    }
    if has_prefix(s, "fix:"@) {
        crate::chars::lemma_trim_end_props(s);
        let te = crate::chars::trim_end_spec(s);
        let k = te.len() as int;
        assert(s[3] == ':' && !is_ws_char(':'));
        assert(k >= 4) by {
            if k < 4 {
                assert(is_ws_char(s[3]));
            }
        }
        assert(te == s.take(k));
        assert(!is_ws_char('f'));
        assert(te[0] == 'f');
        crate::chars::lemma_prefix_len_by_is(te, crate::chars::ws_fn(), 0);
        assert(trim_spec(s) =~= te);
        let t = trim_spec(s);
        assert(t[0] == 'f');
        assert(!crate::utils::is_footer_text(t));
        let base = crate::lexer::lex_scores(s, i as nat);
        assert(base.footer == 0);
        assert(rs[i].scores.footer == 0);
        lemma_arg_max_footer(rs[i].scores);
        assert(rs[i].final_category != Category::Footer);
    }
}

/// A refined line that did not resolve to Empty still holds text after
/// right-trimming: blank lines always resolve to Empty, whatever their
/// neighbors.
pub proof fn lemma_refined_nonblank(raw: Seq<char>, idx: nat, ls: Seq<CatLine>, i: int, l: CatLine)
    requires
        0 <= i < ls.len(),
        crate::lexer::lexed_line(raw, idx, ls[i]),
        refined_line(ls, i, l),
    ensures
        l.final_category != Category::Empty ==> crate::chars::trim_end_spec(l.text@).len() > 0,
{
    if crate::chars::trim_end_spec(raw).len() == 0 {
        let te = crate::chars::trim_end_spec(raw);
        crate::chars::lemma_prefix_len_by_props(te, crate::chars::ws_fn());
        assert(trim_spec(raw).len() == 0);
        let base = crate::lexer::lex_scores(raw, idx);
        assert(base.empty == 100 && base.footer == 0 && base.comment == 0 && base.url == 0
            && base.intro == 0 && base.prose == 0 && base.list == 0 && base.code == 0 && base.table
            == 0);
        lemma_refine_bounds(ls, i);
        assert(l.scores.empty == 100);
        assert(l.scores.intro <= 30 && l.scores.prose <= 40 && l.scores.list <= 40 && l.scores.code
            <= 60 && l.scores.table <= 80);
        assert(l.final_category == Category::Empty);
    }
}

/// Every refined line is well-formed: its resolved category carries the
/// maximum score of its distribution.
pub proof fn lemma_refined_wf(lines: Seq<CatLine>, i: int, l: CatLine)
    requires
        refined_line(lines, i, l),
    ensures
        l.wf(),
{
    l.scores.lemma_arg_max_is_max();
}

} // verus!
