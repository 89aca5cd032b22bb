//! Document assembly: group the classified line stream into a hierarchical
//! document: an optional headline, body chunks (paragraphs, lists, code
//! blocks, tables, comments), and the footer lines.
//!
//! One left-to-right pass with bounded lookahead:
//! 1. everything from the first Footer-classified line on becomes the
//!    footers, verbatim;
//! 2. a leading run of Comment/Empty lines yields one singleton Comment
//!    chunk per comment line (the blank lines are dropped);
//! 3. the next line is examined for the headline: a line whose trimmed text
//!    ends with `:` and whose next non-blank line is a List introduces that
//!    list instead; a ProseGeneral line becomes the headline; anything else
//!    goes to the main loop unconsumed;
//! 4. the main loop forms chunks: each Empty line is a blank-line sentinel
//!    paragraph; contiguous Comment/Table/Code runs form one chunk per run,
//!    except that a single Code line ending in `:` directly before a List
//!    introduces that list; a List line starts a recursive list parse,
//!    folding a single prose line ending in `:` directly above it into the
//!    list introduction; prose runs (Introduction/GeneralProse/URL)
//!    accumulate into paragraphs, except that a run whose last line ends in
//!    `:` directly before a Code run donates that line to the code chunk.
//!
//! List parse: starting at the bullet's indentation, siblings sit at the
//! same indentation; a deeper List line starts a nested list attached to
//! the previous sibling; a shallower one ends the list. Continuation lines
//! of an item are the following lines that are not List, not Empty, not
//! Footer, and indented strictly deeper than the bullet.

use vstd::prelude::*;

use crate::chars::chars_of;
use crate::chars::ends_with_char;
use crate::chars::last_is;
use crate::chars::trim_spec;
use crate::chars::trim_end_spec;
use crate::chars::trim_vec;
use crate::types::CatLine;
use crate::types::Category;
use crate::types::ChunkV;
use crate::types::ContChunk;
use crate::types::Document;
use crate::types::DocumentV;
use crate::types::ListItem;
use crate::types::ListItemV;
use crate::types::ListNode;
use crate::types::ListNodeV;
use crate::types::chunks_deep;
use crate::types::items_deep;

verus! {

// ---------------------------------------------------------------------------
// Line predicates and scans
// ---------------------------------------------------------------------------

/// Does the line's trimmed text end with a colon?
pub open spec fn ends_colon(l: CatLine) -> bool {
    ends_with_char(trim_spec(l.text@), ':')
}

pub(crate) fn ends_colon_exec(l: &CatLine) -> (r: bool)
    ensures
        r == ends_colon(*l),
{
    let v = chars_of(l.text.as_str());
    let t = trim_vec(&v);
    last_is(&t, ':')
}

/// The prose-like categories that accumulate into paragraphs.
pub open spec fn prose_like(c: Category) -> bool {
    c == Category::ProseGeneral || c == Category::ProseIntroduction || c == Category::URL
}

/// A continuation line of a list item with bullet indentation `b`: not a
/// new list line, not blank, not a footer, and indented strictly deeper.
pub open spec fn is_cont_line(l: CatLine, b: nat) -> bool {
    l.final_category != Category::List && l.final_category != Category::Empty
        && l.final_category != Category::Footer && l.indent > b
}

pub open spec fn cat_is_fn(c: Category) -> spec_fn(CatLine) -> bool {
    |l: CatLine| l.final_category == c
}

pub open spec fn prose_fn() -> spec_fn(CatLine) -> bool {
    |l: CatLine| prose_like(l.final_category)
}

pub open spec fn lead_fn() -> spec_fn(CatLine) -> bool {
    |l: CatLine| l.final_category == Category::Comment || l.final_category == Category::Empty
}

pub open spec fn not_footer_fn() -> spec_fn(CatLine) -> bool {
    |l: CatLine| l.final_category != Category::Footer
}

pub open spec fn cont_fn(b: nat) -> spec_fn(CatLine) -> bool {
    |l: CatLine| is_cont_line(l, b)
}

/// First index at or after `i` whose line fails `p` (or the length).
pub open spec fn scan_while(lines: Seq<CatLine>, i: int, p: spec_fn(CatLine) -> bool) -> int
    decreases lines.len() - i,
{
    if !(0 <= i < lines.len()) {
        lines.len() as int
    } else if p(lines[i]) {
        scan_while(lines, i + 1, p)
    } else {
        i
    }
}

pub proof fn lemma_scan_while_props(lines: Seq<CatLine>, i: int, p: spec_fn(CatLine) -> bool)
    requires
        0 <= i <= lines.len(),
    ensures
        i <= scan_while(lines, i, p) <= lines.len(),
        forall|t: int| i <= t < scan_while(lines, i, p) ==> p(lines[t]),
        scan_while(lines, i, p) < lines.len() ==> !p(lines[scan_while(lines, i, p)]),
    decreases lines.len() - i,
{
    if i < lines.len() && p(lines[i]) {
        lemma_scan_while_props(lines, i + 1, p);
    }
}

pub proof fn lemma_scan_while_is(lines: Seq<CatLine>, i: int, p: spec_fn(CatLine) -> bool, j: int)
    requires
        0 <= i <= j <= lines.len(),
        forall|t: int| i <= t < j ==> p(lines[t]),
        j == lines.len() || !p(lines[j]),
    ensures
        scan_while(lines, i, p) == j,
    decreases j - i,
{
    if i < j {
        lemma_scan_while_is(lines, i + 1, p, j);
    }
}

/// `x`, but at least `y`.
pub open spec fn at_least(x: int, y: int) -> int {
    if x >= y {
        x
    } else {
        y
    }
}

// ---------------------------------------------------------------------------
// List parsing, specification
// ---------------------------------------------------------------------------

/// Sibling items at indentation `b` starting at `i`: the parsed items and
/// the index of the first line past the list. A List line indented deeper
/// than `b` becomes a nested list attached to the previous sibling; one
/// indented shallower ends the list.
pub open spec fn parse_items(lines: Seq<CatLine>, i: int, b: nat) -> (Seq<ListItemV>, int)
    decreases lines.len() - i, 1int,
    via parse_items_dec
{
    if !(0 <= i < lines.len()) || lines[i].final_category != Category::List || (
    lines[i].indent as nat) != b {
        (Seq::empty(), i)
    } else {
        let bullet = lines[i];
        let j0 = scan_while(lines, i + 1, cont_fn(b));
        let j = if i + 1 <= j0 <= lines.len() { j0 } else { i + 1 };
        let cont = lines.subrange(i + 1, j);
        let nk = collect_nested(lines, j, b);
        let k = if j <= nk.1 <= lines.len() { nk.1 } else { j };
        let item = ListItemV {
            bullet_line: bullet,
            continuation: cont,
            nested: if nk.0.len() > 0 {
                Option::Some(ListNodeV { introduction: Seq::empty(), items: nk.0 })
            } else {
                Option::None
            },
        };
        let rest = parse_items(lines, k, b);
        (seq![item] + rest.0, rest.1)
    }
}

#[via_fn]
proof fn parse_items_dec(lines: Seq<CatLine>, i: int, b: nat) {
    if 0 <= i < lines.len() && lines[i].final_category == Category::List && (lines[i].indent as nat)
        == b {
        lemma_scan_while_props(lines, i + 1, cont_fn(b));
    }
}

/// Deeper List runs following an item: their items, merged in order, and
/// the first index past them.
pub open spec fn collect_nested(lines: Seq<CatLine>, i: int, b: nat) -> (Seq<ListItemV>, int)
    decreases lines.len() - i, 2int,
{
    if 0 <= i < lines.len() && lines[i].final_category == Category::List && (lines[i].indent as nat)
        > b {
        let r1 = parse_items(lines, i, lines[i].indent as nat);
        let k1 = if i + 1 <= r1.1 <= lines.len() { r1.1 } else { i + 1 };
        let r2 = collect_nested(lines, k1, b);
        (r1.0 + r2.0, r2.1)
    } else {
        (Seq::empty(), i)
    }
}

// ---------------------------------------------------------------------------
// Chunk assembly, specification
// ---------------------------------------------------------------------------

/// The body chunks formed from `lines[i..]`, up to the first Footer line.
pub open spec fn build_chunks(lines: Seq<CatLine>, i: int) -> Seq<ChunkV>
    decreases lines.len() - i, 3int,
    via build_chunks_dec
{
    if !(0 <= i < lines.len()) || lines[i].final_category == Category::Footer {
        Seq::empty()
    } else {
        let c = lines[i].final_category;
        if c == Category::Empty {
            // blank-line sentinel
            seq![ChunkV::Paragraph(seq![lines[i]])] + build_chunks(lines, i + 1)
        } else if c == Category::Comment {
            let j0 = scan_while(lines, i, cat_is_fn(c));
            let j = if i + 1 <= j0 <= lines.len() { j0 } else { i + 1 };
            seq![ChunkV::Comment(lines.subrange(i, j))] + build_chunks(lines, j)
        } else if c == Category::Table {
            let j0 = scan_while(lines, i, cat_is_fn(c));
            let j = if i + 1 <= j0 <= lines.len() { j0 } else { i + 1 };
            seq![ChunkV::Table(lines.subrange(i, j))] + build_chunks(lines, j)
        } else if c == Category::Code {
            let j0 = scan_while(lines, i, cat_is_fn(c));
            let j = if i + 1 <= j0 <= lines.len() { j0 } else { i + 1 };
            if j == i + 1 && ends_colon(lines[i]) && j < lines.len() && lines[j].final_category
                == Category::List {
                // a single code line ending in `:` introduces the list
                let r = parse_items(lines, j, lines[j].indent as nat);
                let e = if j <= r.1 <= lines.len() { r.1 } else { j };
                seq![ChunkV::List(ListNodeV { introduction: seq![lines[i]], items: r.0 })]
                    + build_chunks(lines, e)
            } else {
                seq![ChunkV::Code(lines.subrange(i, j))] + build_chunks(lines, j)
            }
        } else if c == Category::List {
            let r = parse_items(lines, i, lines[i].indent as nat);
            let e = if i + 1 <= r.1 <= lines.len() { r.1 } else { i + 1 };
            seq![ChunkV::List(ListNodeV { introduction: Seq::empty(), items: r.0 })]
                + build_chunks(lines, e)
        } else {
            // prose run
            let j0 = scan_while(lines, i, prose_fn());
            let j = if i + 1 <= j0 <= lines.len() { j0 } else { i + 1 };
            if j - i == 1 && j < lines.len() && lines[j].final_category == Category::List
                && ends_colon(lines[i]) && (c == Category::ProseGeneral
                || c == Category::ProseIntroduction) {
                // a single prose line ending in `:` introduces the list
                let r = parse_items(lines, j, lines[j].indent as nat);
                let e = if j <= r.1 <= lines.len() { r.1 } else { j };
                seq![ChunkV::List(ListNodeV { introduction: seq![lines[i]], items: r.0 })]
                    + build_chunks(lines, e)
            } else if j < lines.len() && lines[j].final_category == Category::Code && ends_colon(
                lines[j - 1],
            ) {
                // the run's closing `:` line joins the code chunk
                let jc0 = scan_while(lines, j, cat_is_fn(Category::Code));
                let jc = if j + 1 <= jc0 <= lines.len() { jc0 } else { j + 1 };
                let code = ChunkV::Code(lines.subrange(j - 1, jc));
                if j - 1 > i {
                    seq![ChunkV::Paragraph(lines.subrange(i, j - 1)), code] + build_chunks(
                        lines,
                        jc,
                    )
                } else {
                    seq![code] + build_chunks(lines, jc)
                }
            } else {
                seq![ChunkV::Paragraph(lines.subrange(i, j))] + build_chunks(lines, j)
            }
        }
    }
}

#[via_fn]
proof fn build_chunks_dec(lines: Seq<CatLine>, i: int) {
    if 0 <= i < lines.len() && lines[i].final_category != Category::Footer {
        let c = lines[i].final_category;
        lemma_scan_while_props(lines, i, cat_is_fn(c));
        lemma_scan_while_props(lines, i, prose_fn());
        let j0 = scan_while(lines, i, prose_fn());
        let j = if i + 1 <= j0 <= lines.len() { j0 } else { i + 1 };
        if j < lines.len() {
            lemma_scan_while_props(lines, j, cat_is_fn(Category::Code));
        }
    }
}

/// The singleton Comment chunks of the leading Comment/Empty run
/// `lines[0..k]`; blank lines are dropped.
pub open spec fn lead_chunks(lines: Seq<CatLine>, k: int) -> Seq<ChunkV>
    decreases k,
{
    if k <= 0 || k > lines.len() {
        Seq::empty()
    } else {
        lead_chunks(lines, k - 1) + (if lines[k - 1].final_category == Category::Comment {
            seq![ChunkV::Comment(seq![lines[k - 1]])]
        } else {
            Seq::empty()
        })
    }
}

/// The assembled document of a classified line sequence.
pub open spec fn spec_build(lines: Seq<CatLine>) -> DocumentV {
    let ff = scan_while(lines, 0, not_footer_fn());
    let body = lines.take(ff);
    let footers = lines.skip(ff);
    let k = at_least(scan_while(body, 0, lead_fn()), 0);
    let lead = lead_chunks(body, k);
    if k >= body.len() {
        DocumentV { headline: Option::None, body_chunks: lead, footers }
    } else {
        let cand = body[k];
        let ne = scan_while(body, k + 1, cat_is_fn(Category::Empty));
        if ends_colon(cand) && ne < body.len() && body[ne].final_category == Category::List {
            // the candidate headline (plus blank lines) introduces a list
            let r = parse_items(body, ne, body[ne].indent as nat);
            let e = at_least(r.1, ne);
            let node = ListNodeV { introduction: body.subrange(k, ne), items: r.0 };
            DocumentV {
                headline: Option::None,
                body_chunks: lead + seq![ChunkV::List(node)] + build_chunks(body, e),
                footers,
            }
        } else if cand.final_category == Category::ProseGeneral {
            DocumentV {
                headline: Option::Some(cand),
                body_chunks: lead + build_chunks(body, k + 1),
                footers,
            }
        } else {
            DocumentV { headline: Option::None, body_chunks: lead + build_chunks(body, k), footers }
        }
    }
}

// ---------------------------------------------------------------------------
// Executable helpers
// ---------------------------------------------------------------------------

/// A fresh copy of `v[a..b]`.
fn clone_lines(v: &Vec<CatLine>, a: usize, b: usize) -> (r: Vec<CatLine>)
    requires
        a <= b <= v@.len(),
    ensures
        r@ == v@.subrange(a as int, b as int),
{
    let mut r: Vec<CatLine> = Vec::new();
    let mut i: usize = a;
    while i < b
        invariant
            a <= i <= b <= v@.len(),
            r@ =~= v@.subrange(a as int, i as int),
        decreases b - i,
    {
        r.push(v[i].clone());
        i += 1;
    }
    r
}

/// End of the run of category `c` starting at `i`.
fn scan_cat(lines: &Vec<CatLine>, i: usize, c: Category) -> (j: usize)
    requires
        i <= lines@.len(),
    ensures
        j as int == scan_while(lines@, i as int, cat_is_fn(c)),
        i <= j <= lines@.len(),
{
    let n = lines.len();
    let mut j: usize = i;
    while j < n && lines[j].final_category == c
        invariant
            i <= j <= n,
            n == lines@.len(),
            forall|t: int| i <= t < j ==> (cat_is_fn(c))(lines@[t]),
        decreases n - j,
    {
        j += 1;
    }
    proof {
        lemma_scan_while_is(lines@, i as int, cat_is_fn(c), j as int);
    }
    j
}

/// End of the prose-like run starting at `i`.
fn scan_prose(lines: &Vec<CatLine>, i: usize) -> (j: usize)
    requires
        i <= lines@.len(),
    ensures
        j as int == scan_while(lines@, i as int, prose_fn()),
        i <= j <= lines@.len(),
{
    let n = lines.len();
    let mut j: usize = i;
    while j < n && (lines[j].final_category == Category::ProseGeneral || lines[j].final_category
        == Category::ProseIntroduction || lines[j].final_category == Category::URL)
        invariant
            i <= j <= n,
            n == lines@.len(),
            forall|t: int| i <= t < j ==> (prose_fn())(lines@[t]),
        decreases n - j,
    {
        j += 1;
    }
    proof {
        lemma_scan_while_is(lines@, i as int, prose_fn(), j as int);
    }
    j
}

/// End of the leading Comment/Empty run starting at `i`.
fn scan_lead(lines: &Vec<CatLine>, i: usize) -> (j: usize)
    requires
        i <= lines@.len(),
    ensures
        j as int == scan_while(lines@, i as int, lead_fn()),
        i <= j <= lines@.len(),
{
    let n = lines.len();
    let mut j: usize = i;
    while j < n && (lines[j].final_category == Category::Comment || lines[j].final_category
        == Category::Empty)
        invariant
            i <= j <= n,
            n == lines@.len(),
            forall|t: int| i <= t < j ==> (lead_fn())(lines@[t]),
        decreases n - j,
    {
        j += 1;
    }
    proof {
        lemma_scan_while_is(lines@, i as int, lead_fn(), j as int);
    }
    j
}

/// Index of the first Footer-classified line at or after `i`.
fn scan_not_footer(lines: &Vec<CatLine>, i: usize) -> (j: usize)
    requires
        i <= lines@.len(),
    ensures
        j as int == scan_while(lines@, i as int, not_footer_fn()),
        i <= j <= lines@.len(),
        forall|t: int| i <= t < j ==> lines@[t].final_category != Category::Footer,
{
    let n = lines.len();
    let mut j: usize = i;
    while j < n && !(lines[j].final_category == Category::Footer)
        invariant
            i <= j <= n,
            n == lines@.len(),
            forall|t: int| i <= t < j ==> (not_footer_fn())(lines@[t]),
        decreases n - j,
    {
        j += 1;
    }
    proof {
        lemma_scan_while_is(lines@, i as int, not_footer_fn(), j as int);
        assert(forall|t: int|
            i <= t < j ==> (not_footer_fn())(lines@[t]) && lines@[t].final_category
                != Category::Footer);
    }
    j
}

/// End of a continuation run for bullet indentation `b` starting at `i`.
fn scan_cont(lines: &Vec<CatLine>, i: usize, b: usize) -> (j: usize)
    requires
        i <= lines@.len(),
    ensures
        j as int == scan_while(lines@, i as int, cont_fn(b as nat)),
        i <= j <= lines@.len(),
{
    let n = lines.len();
    let mut j: usize = i;
    while j < n && !(lines[j].final_category == Category::List) && !(lines[j].final_category
        == Category::Empty) && !(lines[j].final_category == Category::Footer) && lines[j].indent > b
        invariant
            i <= j <= n,
            n == lines@.len(),
            forall|t: int| i <= t < j ==> (cont_fn(b as nat))(lines@[t]),
        decreases n - j,
    {
        j += 1;
    }
    proof {
        lemma_scan_while_is(lines@, i as int, cont_fn(b as nat), j as int);
    }
    j
}

// ---------------------------------------------------------------------------
// List parsing, executable
// ---------------------------------------------------------------------------

/// Parse sibling items at indentation `b` starting at `i`.
fn parse_list_items(lines: &Vec<CatLine>, i: usize, b: usize) -> (r: (Vec<ListItem>, usize))
    requires
        i <= lines@.len(),
    ensures
        items_deep(r.0@) == parse_items(lines@, i as int, b as nat).0,
        r.1 as int == parse_items(lines@, i as int, b as nat).1,
        i <= r.1 <= lines@.len(),
        (i < lines@.len() && lines@[i as int].final_category == Category::List
            && lines@[i as int].indent == b) ==> r.1 > i,
    decreases lines@.len() - i, 1int,
{
    let n = lines.len();
    if i >= n || !(lines[i].final_category == Category::List) || !(lines[i].indent == b) {
        let empty_items: Vec<ListItem> = Vec::new();
        proof {
            assert(items_deep(empty_items@) =~= Seq::<ListItemV>::empty());
        }
        return (empty_items, i);
    }
    let ghost sp = parse_items(lines@, i as int, b as nat);
    let bullet = lines[i].clone();
    let j = scan_cont(lines, i + 1, b);
    let cont = clone_lines(lines, i + 1, j);
    let nested_r = collect_nested_lists(lines, j, b);
    let nitems = nested_r.0;
    let k = nested_r.1;
    let ghost nitems0 = nitems@;
    let nested: Option<Box<ListNode>> = if nitems.len() > 0 {
        Option::Some(Box::new(ListNode { introduction: Vec::new(), items: nitems }))
    } else {
        Option::None
    };
    let item = ListItem { bullet_line: bullet, continuation: cont, nested };
    proof {
        let spj = at_least(scan_while(lines@, i + 1, cont_fn(b as nat)), i + 1);
        assert(spj == j as int);
        let spnk = collect_nested(lines@, j as int, b as nat);
        assert(items_deep(nitems0) == spnk.0);
        assert(items_deep(nitems0).len() == nitems0.len());
        let spitem = ListItemV {
            bullet_line: lines@[i as int],
            continuation: lines@.subrange(i + 1, j as int),
            nested: if spnk.0.len() > 0 {
                Option::Some(ListNodeV { introduction: Seq::empty(), items: spnk.0 })
            } else {
                Option::None
            },
        };
        match &item.nested {
            Option::Some(bx) => {
                (**bx).lemma_deep_items();
                assert((**bx).deep().introduction =~= Seq::<CatLine>::empty());
                assert(items_deep((**bx).items@) == spnk.0);
            },
            Option::None => {},
        }
        assert(item.deep() == spitem);
    }
    let rest_r = parse_list_items(lines, k, b);
    let mut rest = rest_r.0;
    let e = rest_r.1;
    let ghost rest0 = rest@;
    let mut out: Vec<ListItem> = Vec::new();
    out.push(item);
    out.append(&mut rest);
    proof {
        assert(out@ =~= seq![item] + rest0);
        assert(items_deep(out@) =~= seq![item.deep()] + items_deep(rest0));
        assert(items_deep(out@) =~= sp.0);
    }
    (out, e)
}

/// Collect deeper list runs following an item at indentation `b`.
fn collect_nested_lists(lines: &Vec<CatLine>, i: usize, b: usize) -> (r: (Vec<ListItem>, usize))
    requires
        i <= lines@.len(),
    ensures
        items_deep(r.0@) == collect_nested(lines@, i as int, b as nat).0,
        r.1 as int == collect_nested(lines@, i as int, b as nat).1,
        i <= r.1 <= lines@.len(),
    decreases lines@.len() - i, 2int,
{
    let n = lines.len();
    if i < n && lines[i].final_category == Category::List && lines[i].indent > b {
        let r1 = parse_list_items(lines, i, lines[i].indent);
        let r2 = collect_nested_lists(lines, r1.1, b);
        let mut out = r1.0;
        let mut second = r2.0;
        let ghost out0 = out@;
        let ghost second0 = second@;
        out.append(&mut second);
        proof {
            assert(out@ =~= out0 + second0);
            assert(items_deep(out@) =~= items_deep(out0) + items_deep(second0));
        }
        (out, r2.1)
    } else {
        let empty_items: Vec<ListItem> = Vec::new();
        proof {
            assert(items_deep(empty_items@) =~= Seq::<ListItemV>::empty());
        }
        (empty_items, i)
    }
}

// ---------------------------------------------------------------------------
// Document assembly, executable
// ---------------------------------------------------------------------------

/// Build the hierarchical document from the refined line sequence.
pub fn build_document(lines: Vec<CatLine>) -> (doc: Document)
    ensures
        doc.deep() == spec_build(lines@),
{
    let n = lines.len();
    let ff = scan_not_footer(&lines, 0);
    let body = clone_lines(&lines, 0, ff);
    let footers = clone_lines(&lines, ff, n);
    proof {
        assert(body@ =~= lines@.take(ff as int));
        assert(footers@ =~= lines@.skip(ff as int));
        assert(forall|t: int|
            0 <= t < body@.len() ==> #[trigger] body@[t].final_category != Category::Footer);
    }
    let ghost full = spec_build(lines@).body_chunks;
    let bn = body.len();
    let k = scan_lead(&body, 0);
    let mut chunks: Vec<ContChunk> = Vec::new();
    // leading comment lines become singleton Comment chunks; blanks drop
    let mut t: usize = 0;
    proof {
        assert(chunks_deep(chunks@) =~= Seq::<ChunkV>::empty());
    }
    while t < k
        invariant
            t <= k <= bn,
            bn == body@.len(),
            chunks_deep(chunks@) == lead_chunks(body@, t as int),
        decreases k - t,
    {
        let ghost ch0 = chunks@;
        if body[t].final_category == Category::Comment {
            let mut cl: Vec<CatLine> = Vec::new();
            cl.push(body[t].clone());
            let ck = ContChunk::Comment(cl);
            proof {
                assert(ck.deep() == ChunkV::Comment(seq![body@[t as int]]));
            }
            chunks.push(ck);
            proof {
                assert(chunks_deep(chunks@) =~= chunks_deep(ch0) + seq![
                    ChunkV::Comment(seq![body@[t as int]]),
                ]);
            }
        } else {
            proof {
                assert(chunks_deep(chunks@) =~= chunks_deep(ch0) + Seq::<ChunkV>::empty());
            }
        }
        t += 1;
    }
    // headline decision
    let mut headline: Option<CatLine> = Option::None;
    let mut start: usize = k;
    if k < bn {
        let ne = scan_cat(&body, k + 1, Category::Empty);
        if ends_colon_exec(&body[k]) && ne < bn && body[ne].final_category == Category::List {
            // the candidate headline (plus blank lines) introduces a list
            let r = parse_list_items(&body, ne, body[ne].indent);
            let intro = clone_lines(&body, k, ne);
            let node = ListNode { introduction: intro, items: r.0 };
            proof {
                node.lemma_deep_items();
                let spr = parse_items(body@, ne as int, body@[ne as int].indent as nat);
                assert(node.deep() == ListNodeV {
                    introduction: body@.subrange(k as int, ne as int),
                    items: spr.0,
                });
            }
            let ghost ch0 = chunks@;
            chunks.push(ContChunk::List(node));
            start = r.1;
            proof {
                assert(chunks_deep(chunks@) =~= chunks_deep(ch0) + seq![chunks@.last().deep()]);
                assert(chunks_deep(chunks@) + build_chunks(body@, start as int) =~= full);
            }
        } else if body[k].final_category == Category::ProseGeneral {
            headline = Option::Some(body[k].clone());
            start = k + 1;
            proof {
                assert(chunks_deep(chunks@) + build_chunks(body@, start as int) =~= full);
            }
        } else {
            start = k;
            proof {
                assert(chunks_deep(chunks@) + build_chunks(body@, start as int) =~= full);
            }
        }
    } else {
        proof {
            assert(build_chunks(body@, start as int) =~= Seq::<ChunkV>::empty());
            assert(chunks_deep(chunks@) + build_chunks(body@, start as int) =~= full);
        }
    }
    // main loop
    let mut i: usize = start;
    while i < bn
        invariant
            i <= bn,
            bn == body@.len(),
            forall|u: int|
                0 <= u < body@.len() ==> #[trigger] body@[u].final_category != Category::Footer,
            chunks_deep(chunks@) + build_chunks(body@, i as int) == full,
        decreases bn - i,
    {
        let ghost ch0 = chunks@;
        let ghost i0 = i as int;
        let c = body[i].final_category;
        if c == Category::Empty {
            let mut cl: Vec<CatLine> = Vec::new();
            cl.push(body[i].clone());
            chunks.push(ContChunk::Paragraph(cl));
            i += 1;
            proof {
                assert(chunks_deep(chunks@) =~= chunks_deep(ch0) + seq![
                    ChunkV::Paragraph(seq![body@[i0]]),
                ]);
                assert(build_chunks(body@, i0) == seq![ChunkV::Paragraph(seq![body@[i0]])]
                    + build_chunks(body@, i0 + 1));
            }
        } else if c == Category::Comment || c == Category::Table {
            let j = scan_cat(&body, i, c);
            proof {
                lemma_scan_while_props(body@, i0, cat_is_fn(c));
                assert((cat_is_fn(c))(body@[i0]));
                assert(j > i);
            }
            let run = clone_lines(&body, i, j);
            let ck = if c == Category::Comment {
                ContChunk::Comment(run)
            } else {
                ContChunk::Table(run)
            };
            chunks.push(ck);
            proof {
                let cv = if c == Category::Comment {
                    ChunkV::Comment(body@.subrange(i0, j as int))
                } else {
                    ChunkV::Table(body@.subrange(i0, j as int))
                };
                assert(chunks_deep(chunks@) =~= chunks_deep(ch0) + seq![cv]);
                assert(build_chunks(body@, i0) == seq![cv] + build_chunks(body@, j as int));
            }
            i = j;
        } else if c == Category::Code {
            let j = scan_cat(&body, i, c);
            proof {
                lemma_scan_while_props(body@, i0, cat_is_fn(c));
                assert((cat_is_fn(c))(body@[i0]));
                assert(j > i);
            }
            if j == i + 1 && ends_colon_exec(&body[i]) && j < bn && body[j].final_category
                == Category::List {
                let r = parse_list_items(&body, j, body[j].indent);
                let mut intro: Vec<CatLine> = Vec::new();
                intro.push(body[i].clone());
                let node = ListNode { introduction: intro, items: r.0 };
                proof {
                    node.lemma_deep_items();
                    assert(node.deep().introduction =~= seq![body@[i0]]);
                }
                chunks.push(ContChunk::List(node));
                i = r.1;
                proof {
                    let spr = parse_items(body@, j as int, body@[j as int].indent as nat);
                    let cv = ChunkV::List(ListNodeV { introduction: seq![body@[i0]], items: spr.0 });
                    assert(chunks_deep(chunks@) =~= chunks_deep(ch0) + seq![cv]);
                    assert(build_chunks(body@, i0) == seq![cv] + build_chunks(body@, i as int));
                }
            } else {
                chunks.push(ContChunk::Code(clone_lines(&body, i, j)));
                proof {
                    let cv = ChunkV::Code(body@.subrange(i0, j as int));
                    assert(chunks_deep(chunks@) =~= chunks_deep(ch0) + seq![cv]);
                    assert(build_chunks(body@, i0) == seq![cv] + build_chunks(body@, j as int));
                }
                i = j;
            }
        } else if c == Category::List {
            let r = parse_list_items(&body, i, body[i].indent);
            let node = ListNode { introduction: Vec::new(), items: r.0 };
            proof {
                node.lemma_deep_items();
                assert(node.deep().introduction =~= Seq::<CatLine>::empty());
            }
            chunks.push(ContChunk::List(node));
            i = r.1;
            proof {
                let spr = parse_items(body@, i0, body@[i0].indent as nat);
                let cv = ChunkV::List(ListNodeV { introduction: Seq::empty(), items: spr.0 });
                assert(chunks_deep(chunks@) =~= chunks_deep(ch0) + seq![cv]);
                assert(build_chunks(body@, i0) == seq![cv] + build_chunks(body@, i as int));
            }
        } else {
            // prose-like run
            let j = scan_prose(&body, i);
            proof {
                lemma_scan_while_props(body@, i0, prose_fn());
                assert((prose_fn())(body@[i0]));
                assert(j > i);
            }
            if j - i == 1 && j < bn && body[j].final_category == Category::List && ends_colon_exec(
                &body[i],
            ) && (c == Category::ProseGeneral || c == Category::ProseIntroduction) {
                let r = parse_list_items(&body, j, body[j].indent);
                let mut intro: Vec<CatLine> = Vec::new();
                intro.push(body[i].clone());
                let node = ListNode { introduction: intro, items: r.0 };
                proof {
                    node.lemma_deep_items();
                    assert(node.deep().introduction =~= seq![body@[i0]]);
                }
                chunks.push(ContChunk::List(node));
                i = r.1;
                proof {
                    let spr = parse_items(body@, j as int, body@[j as int].indent as nat);
                    let cv = ChunkV::List(ListNodeV { introduction: seq![body@[i0]], items: spr.0 });
                    assert(chunks_deep(chunks@) =~= chunks_deep(ch0) + seq![cv]);
                    assert(build_chunks(body@, i0) == seq![cv] + build_chunks(body@, i as int));
                }
            } else if j < bn && body[j].final_category == Category::Code && ends_colon_exec(
                &body[j - 1],
            ) {
                // the closing `:` line joins the code chunk
                let jc = scan_cat(&body, j, Category::Code);
                proof {
                    lemma_scan_while_props(body@, j as int, cat_is_fn(Category::Code));
                    assert((cat_is_fn(Category::Code))(body@[j as int]));
                    assert(jc > j);
                }
                if j - 1 > i {
                    chunks.push(ContChunk::Paragraph(clone_lines(&body, i, j - 1)));
                }
                let ghost ch1 = chunks@;
                chunks.push(ContChunk::Code(clone_lines(&body, j - 1, jc)));
                proof {
                    let pv = ChunkV::Paragraph(body@.subrange(i0, j - 1));
                    let cv = ChunkV::Code(body@.subrange(j - 1, jc as int));
                    if j - 1 > i {
                        assert(chunks_deep(chunks@) =~= chunks_deep(ch0) + seq![pv, cv]);
                        assert(build_chunks(body@, i0) == seq![pv, cv] + build_chunks(
                            body@,
                            jc as int,
                        ));
                    } else {
                        assert(chunks_deep(chunks@) =~= chunks_deep(ch0) + seq![cv]);
                        assert(build_chunks(body@, i0) == seq![cv] + build_chunks(body@, jc as int));
                    }
                }
                i = jc;
            } else {
                chunks.push(ContChunk::Paragraph(clone_lines(&body, i, j)));
                proof {
                    let cv = ChunkV::Paragraph(body@.subrange(i0, j as int));
                    assert(chunks_deep(chunks@) =~= chunks_deep(ch0) + seq![cv]);
                    assert(build_chunks(body@, i0) == seq![cv] + build_chunks(body@, j as int));
                }
                i = j;
            }
        }
    }
    let doc = Document { headline, body_chunks: chunks, footers };
    proof {
        assert(build_chunks(body@, i as int) =~= Seq::<ChunkV>::empty());
        assert(chunks_deep(doc.body_chunks@) =~= full);
        assert(doc.deep() == spec_build(lines@));
    }
    doc
}

// ---------------------------------------------------------------------------
// Assembled chunks carry no blank verbatim lines
// ---------------------------------------------------------------------------

/// Every Comment-, Table- or Code-classified line still holds text after
/// right-trimming.
pub open spec fn lines_nonblank(lines: Seq<CatLine>) -> bool {
    forall|t: int|
        0 <= t < lines.len() ==> ((#[trigger] lines[t].final_category == Category::Comment
            || lines[t].final_category == Category::Table || lines[t].final_category
            == Category::Code) ==> trim_end_spec(lines[t].text@).len() > 0)
}

/// A line whose trimmed text ends in `:` is not blank.
proof fn lemma_ends_colon_nonblank(l: CatLine)
    ensures
        ends_colon(l) ==> trim_end_spec(l.text@).len() > 0,
{
    if ends_colon(l) {
        assert(trim_spec(l.text@).len() > 0);
        crate::chars::lemma_prefix_len_by_props(trim_end_spec(l.text@), crate::chars::ws_fn());
    }
}

proof fn lemma_lead_chunks_nonblank(lines: Seq<CatLine>, k: int)
    requires
        lines_nonblank(lines),
    ensures
        crate::pretty_printer::chunks_nonblank(lead_chunks(lines, k)),
    decreases k,
{
    if 0 < k <= lines.len() {
        lemma_lead_chunks_nonblank(lines, k - 1);
        let prev = lead_chunks(lines, k - 1);
        let cur = lead_chunks(lines, k);
        assert forall|j: int|
            0 <= j < cur.len() implies match #[trigger] cur[j] {
            ChunkV::Comment(ls) => forall|t: int|
                0 <= t < ls.len() ==> trim_end_spec(#[trigger] ls[t].text@).len() > 0,
            ChunkV::Table(ls) => forall|t: int|
                0 <= t < ls.len() ==> trim_end_spec(#[trigger] ls[t].text@).len() > 0,
            ChunkV::Code(ls) => forall|t: int|
                0 <= t < ls.len() ==> trim_end_spec(#[trigger] ls[t].text@).len() > 0,
            _ => true,
        } by {
            if j < prev.len() {
                assert(cur[j] == prev[j]);
            } else {
                assert(lines[k - 1].final_category == Category::Comment);
                assert(cur[j] == ChunkV::Comment(seq![lines[k - 1]]));
            }
        }
    }
}

proof fn lemma_build_chunks_nonblank(lines: Seq<CatLine>, i: int)
    requires
        lines_nonblank(lines),
    ensures
        crate::pretty_printer::chunks_nonblank(build_chunks(lines, i)),
    decreases lines.len() - i, 4int,
{
    if !(0 <= i < lines.len()) || lines[i].final_category == Category::Footer {
    } else {
        let c = lines[i].final_category;
        if c == Category::Empty {
            lemma_build_chunks_nonblank(lines, i + 1);
            lemma_chunks_nonblank_cons(
                ChunkV::Paragraph(seq![lines[i]]),
                build_chunks(lines, i + 1),
            );
        } else if c == Category::Comment || c == Category::Table || c == Category::Code {
            lemma_scan_while_props(lines, i, cat_is_fn(c));
            let j0 = scan_while(lines, i, cat_is_fn(c));
            let j = if i + 1 <= j0 <= lines.len() {
                j0
            } else {
                i + 1
            };
            assert forall|t: int|
                0 <= t < lines.subrange(i, j).len() implies trim_end_spec(
                #[trigger] lines.subrange(i, j)[t].text@,
            ).len() > 0 by {
                assert(lines.subrange(i, j)[t] == lines[i + t]);
                assert((cat_is_fn(c))(lines[i + t]));
            }
            if c == Category::Code && j == i + 1 && ends_colon(lines[i]) && j < lines.len()
                && lines[j].final_category == Category::List {
                let r = parse_items(lines, j, lines[j].indent as nat);
                let e = if j <= r.1 <= lines.len() {
                    r.1
                } else {
                    j
                };
                lemma_build_chunks_nonblank(lines, e);
                lemma_chunks_nonblank_cons(
                    ChunkV::List(ListNodeV { introduction: seq![lines[i]], items: r.0 }),
                    build_chunks(lines, e),
                );
            } else {
                lemma_build_chunks_nonblank(lines, j);
                if c == Category::Comment {
                    lemma_chunks_nonblank_cons(
                        ChunkV::Comment(lines.subrange(i, j)),
                        build_chunks(lines, j),
                    );
                } else if c == Category::Table {
                    lemma_chunks_nonblank_cons(
                        ChunkV::Table(lines.subrange(i, j)),
                        build_chunks(lines, j),
                    );
                } else {
                    lemma_chunks_nonblank_cons(
                        ChunkV::Code(lines.subrange(i, j)),
                        build_chunks(lines, j),
                    );
                }
            }
        } else if c == Category::List {
            let r = parse_items(lines, i, lines[i].indent as nat);
            let e = if i + 1 <= r.1 <= lines.len() {
                r.1
            } else {
                i + 1
            };
            lemma_build_chunks_nonblank(lines, e);
            lemma_chunks_nonblank_cons(
                ChunkV::List(ListNodeV { introduction: Seq::empty(), items: r.0 }),
                build_chunks(lines, e),
            );
        } else {
            lemma_scan_while_props(lines, i, prose_fn());
            let j0 = scan_while(lines, i, prose_fn());
            let j = if i + 1 <= j0 <= lines.len() {
                j0
            } else {
                i + 1
            };
            if j - i == 1 && j < lines.len() && lines[j].final_category == Category::List
                && ends_colon(lines[i]) && (c == Category::ProseGeneral
                || c == Category::ProseIntroduction) {
                let r = parse_items(lines, j, lines[j].indent as nat);
                let e = if j <= r.1 <= lines.len() {
                    r.1
                } else {
                    j
                };
                lemma_build_chunks_nonblank(lines, e);
                lemma_chunks_nonblank_cons(
                    ChunkV::List(ListNodeV { introduction: seq![lines[i]], items: r.0 }),
                    build_chunks(lines, e),
                );
            } else if j < lines.len() && lines[j].final_category == Category::Code && ends_colon(
                lines[j - 1],
            ) {
                lemma_scan_while_props(lines, j, cat_is_fn(Category::Code));
                let jc0 = scan_while(lines, j, cat_is_fn(Category::Code));
                let jc = if j + 1 <= jc0 <= lines.len() {
                    jc0
                } else {
                    j + 1
                };
                lemma_ends_colon_nonblank(lines[j - 1]);
                assert forall|t: int|
                    0 <= t < lines.subrange(j - 1, jc).len() implies trim_end_spec(
                    #[trigger] lines.subrange(j - 1, jc)[t].text@,
                ).len() > 0 by {
                    assert(lines.subrange(j - 1, jc)[t] == lines[j - 1 + t]);
                    if t > 0 {
                        assert((cat_is_fn(Category::Code))(lines[j - 1 + t]));
                    }
                }
                lemma_build_chunks_nonblank(lines, jc);
                let code = ChunkV::Code(lines.subrange(j - 1, jc));
                if j - 1 > i {
                    lemma_chunks_nonblank_cons(code, build_chunks(lines, jc));
                    lemma_chunks_nonblank_cons(
                        ChunkV::Paragraph(lines.subrange(i, j - 1)),
                        seq![code] + build_chunks(lines, jc),
                    );
                    assert(seq![ChunkV::Paragraph(lines.subrange(i, j - 1)), code] + build_chunks(
                        lines,
                        jc,
                    ) =~= seq![ChunkV::Paragraph(lines.subrange(i, j - 1))] + (seq![code]
                        + build_chunks(lines, jc)));
                } else {
                    lemma_chunks_nonblank_cons(code, build_chunks(lines, jc));
                }
            } else {
                lemma_build_chunks_nonblank(lines, j);
                lemma_chunks_nonblank_cons(
                    ChunkV::Paragraph(lines.subrange(i, j)),
                    build_chunks(lines, j),
                );
            }
        }
    }
}

/// Prepending a chunk whose verbatim lines are nonblank keeps the property.
proof fn lemma_chunks_nonblank_cons(c: ChunkV, rest: Seq<ChunkV>)
    requires
        crate::pretty_printer::chunks_nonblank(rest),
        match c {
            ChunkV::Comment(ls) => forall|t: int|
                0 <= t < ls.len() ==> trim_end_spec(#[trigger] ls[t].text@).len() > 0,
            ChunkV::Table(ls) => forall|t: int|
                0 <= t < ls.len() ==> trim_end_spec(#[trigger] ls[t].text@).len() > 0,
            ChunkV::Code(ls) => forall|t: int|
                0 <= t < ls.len() ==> trim_end_spec(#[trigger] ls[t].text@).len() > 0,
            _ => true,
        },
    ensures
        crate::pretty_printer::chunks_nonblank(seq![c] + rest),
{
    let cs = seq![c] + rest;
    assert forall|k: int|
        0 <= k < cs.len() implies match #[trigger] cs[k] {
        ChunkV::Comment(ls) => forall|t: int|
            0 <= t < ls.len() ==> trim_end_spec(#[trigger] ls[t].text@).len() > 0,
        ChunkV::Table(ls) => forall|t: int|
            0 <= t < ls.len() ==> trim_end_spec(#[trigger] ls[t].text@).len() > 0,
        ChunkV::Code(ls) => forall|t: int|
            0 <= t < ls.len() ==> trim_end_spec(#[trigger] ls[t].text@).len() > 0,
        _ => true,
    } by {
        if k == 0 {
            assert(cs[0] == c);
        } else {
            assert(cs[k] == rest[k - 1]);
        }
    }
}

/// Every document the assembler builds from nonblank-classified lines has
/// nonblank verbatim chunk lines.
pub proof fn lemma_spec_build_nonblank(lines: Seq<CatLine>)
    requires
        lines_nonblank(lines),
    ensures
        crate::pretty_printer::chunks_nonblank(spec_build(lines).body_chunks),
{
    let ff = scan_while(lines, 0, not_footer_fn());
    lemma_scan_while_props(lines, 0, not_footer_fn());
    let body = lines.take(ff);
    assert forall|t: int|
        0 <= t < body.len() implies ((#[trigger] body[t].final_category == Category::Comment
        || body[t].final_category == Category::Table || body[t].final_category
        == Category::Code) ==> trim_end_spec(body[t].text@).len() > 0) by {
        assert(body[t] == lines[t]);
    }
    let k = at_least(scan_while(body, 0, lead_fn()), 0);
    lemma_lead_chunks_nonblank(body, k);
    let lead = lead_chunks(body, k);
    if k >= body.len() {
    } else {
        let cand = body[k];
        let ne = scan_while(body, k + 1, cat_is_fn(Category::Empty));
        if ends_colon(cand) && ne < body.len() && body[ne].final_category == Category::List {
            let r = parse_items(body, ne, body[ne].indent as nat);
            let e = at_least(r.1, ne);
            let node = ListNodeV { introduction: body.subrange(k, ne), items: r.0 };
            lemma_build_chunks_nonblank(body, e);
            lemma_chunks_nonblank_cons(ChunkV::List(node), build_chunks(body, e));
            lemma_chunks_nonblank_concat(lead, seq![ChunkV::List(node)] + build_chunks(body, e));
            assert(lead + seq![ChunkV::List(node)] + build_chunks(body, e) =~= lead + (seq![
                ChunkV::List(node),
            ] + build_chunks(body, e)));
        } else if cand.final_category == Category::ProseGeneral {
            lemma_build_chunks_nonblank(body, k + 1);
            lemma_chunks_nonblank_concat(lead, build_chunks(body, k + 1));
        } else {
            lemma_build_chunks_nonblank(body, k);
            lemma_chunks_nonblank_concat(lead, build_chunks(body, k));
        }
    }
}

proof fn lemma_chunks_nonblank_concat(a: Seq<ChunkV>, b: Seq<ChunkV>)
    requires
        crate::pretty_printer::chunks_nonblank(a),
        crate::pretty_printer::chunks_nonblank(b),
    ensures
        crate::pretty_printer::chunks_nonblank(a + b),
{
    let cs = a + b;
    assert forall|k: int|
        0 <= k < cs.len() implies match #[trigger] cs[k] {
        ChunkV::Comment(ls) => forall|t: int|
            0 <= t < ls.len() ==> trim_end_spec(#[trigger] ls[t].text@).len() > 0,
        ChunkV::Table(ls) => forall|t: int|
            0 <= t < ls.len() ==> trim_end_spec(#[trigger] ls[t].text@).len() > 0,
        ChunkV::Code(ls) => forall|t: int|
            0 <= t < ls.len() ==> trim_end_spec(#[trigger] ls[t].text@).len() > 0,
        _ => true,
    } by {
        if k < a.len() {
            assert(cs[k] == a[k]);
        } else {
            assert(cs[k] == b[k - a.len()]);
        }
    }
}

} // verus!
