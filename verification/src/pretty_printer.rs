//! Rendering: print the document tree back to text with per-kind rules.
//!
//! - The headline is emitted verbatim, never wrapped.
//! - Comment, Table and Code chunks are emitted verbatim, line for line.
//! - A paragraph whose lines all fit the body width is emitted verbatim;
//!   otherwise its trimmed lines are joined with single spaces and
//!   greedily rewrapped at the body width.
//! - A list item whose bullet line or continuation exceeds the body width
//!   is rewrapped at the width left of its bullet prefix (at least one
//!   column); later lines are padded with spaces of the prefix's display
//!   width. Nested lists render after their parent item.
//! - Between body chunks one blank line separates neighbors, omitted when
//!   either side is a blank-line sentinel, when a Comment chunk precedes,
//!   or when a single-line introduction ending in `:` precedes a List.
//! - Footers are separated from the body by exactly one blank line and
//!   emitted verbatim.
//! - Every line is right-trimmed; the output carries one trailing newline.

use vstd::prelude::*;

use crate::chars::chars_of;
use crate::chars::chars_width;
use crate::chars::clamp_usize;
use crate::chars::push_all;
use crate::chars::spaces;
use crate::chars::str_width;
use crate::chars::subvec;
use crate::chars::trim_end_spec;
use crate::chars::trim_end_vec;
use crate::chars::trim_spec;
use crate::chars::trim_start_spec;
use crate::chars::trim_start_vec;
use crate::chars::trim_vec;
use crate::tree_builder::ends_colon;
use crate::types::CatLine;
use crate::types::Category;
use crate::types::ChunkV;
use crate::types::ContChunk;
use crate::types::Document;
use crate::types::DocumentV;
use crate::types::ListItem;
use crate::types::ListItemV;
use crate::types::ListNode;
use crate::types::ListNodeV;
use crate::types::Options;
use crate::types::items_deep;
use crate::types::chunks_deep;
use crate::unicode::chars_to_string;
use crate::utils::bullet_prefix_len;
use crate::utils::bullet_prefix_spec;
use crate::utils::extract_bullet_prefix;
use crate::utils::str_views;
use crate::utils::wrap_chars;
use crate::utils::wrap_lines;

verus! {

// ---------------------------------------------------------------------------
// Rendering, specification
// ---------------------------------------------------------------------------

/// Display width of a sequence, clamped into `usize` — the measure all
/// width comparisons of the renderer use.
pub open spec fn wclamp(s: Seq<char>) -> usize {
    clamp_usize(str_width(s))
}

/// Right-trimmed verbatim lines.
pub open spec fn verbatim_rtrim(ls: Seq<CatLine>) -> Seq<Seq<char>> {
    ls.map_values(|l: CatLine| trim_end_spec(l.text@))
}

/// Trimmed texts joined onto `acc` with single spaces, from index `i` on.
pub open spec fn join_from(acc: Seq<char>, ls: Seq<CatLine>, i: int) -> Seq<char>
    decreases ls.len() - i,
{
    if !(0 <= i < ls.len()) {
        acc
    } else {
        join_from(acc + seq![' '] + trim_spec(ls[i].text@), ls, i + 1)
    }
}

/// The trimmed lines of a paragraph joined with single spaces.
pub open spec fn join_trimmed(ls: Seq<CatLine>) -> Seq<char> {
    if ls.len() == 0 {
        Seq::empty()
    } else {
        join_from(trim_spec(ls[0].text@), ls, 1)
    }
}

/// A blank-line sentinel: a paragraph of exactly one Empty-classified line.
pub open spec fn is_sentinel(c: ChunkV) -> bool {
    match c {
        ChunkV::Paragraph(ls) => ls.len() == 1 && ls[0].final_category == Category::Empty,
        _ => false,
    }
}

/// A paragraph renders verbatim when every line fits the width; otherwise
/// it is rewrapped from its space-joined trimmed lines.
pub open spec fn render_paragraph(ls: Seq<CatLine>, width: usize) -> Seq<Seq<char>> {
    if ls.len() == 1 && ls[0].final_category == Category::Empty {
        seq![Seq::<char>::empty()]
    } else if exists|t: int| 0 <= t < ls.len() && wclamp(ls[t].text@) > width {
        wrap_lines(join_trimmed(ls), width)
    } else {
        verbatim_rtrim(ls)
    }
}

/// `n` spaces.
pub open spec fn pad(n: usize) -> Seq<char> {
    Seq::new(n as nat, |i: int| ' ')
}

/// The wrapped lines of a list item: the first carries the bullet prefix,
/// the rest are padded to the prefix's display width; every line is
/// right-trimmed (the final pass every output line receives).
pub open spec fn prefix_first_pad_rest(
    wrapped: Seq<Seq<char>>,
    pf: Seq<char>,
    bw: usize,
) -> Seq<Seq<char>> {
    Seq::new(
        wrapped.len(),
        |i: int|
            if i == 0 {
                trim_end_spec(pf + wrapped[0])
            } else {
                trim_end_spec(pad(bw) + wrapped[i])
            },
    )
}

/// Introduction lines of a list: blank sentinels render empty, the rest
/// verbatim.
pub open spec fn render_intro(ls: Seq<CatLine>) -> Seq<Seq<char>> {
    ls.map_values(
        |l: CatLine|
            if l.final_category == Category::Empty {
                Seq::<char>::empty()
            } else {
                trim_end_spec(l.text@)
            },
    )
}

/// One list item: the bullet prefix is preserved verbatim; if the item
/// exceeds the width on any line, the text after the bullet and the
/// trimmed continuation lines are joined and rewrapped at the remaining
/// width (at least one column), later lines padded under the prefix;
/// otherwise the lines are emitted verbatim. A nested list follows.
pub open spec fn render_item(item: ListItemV, width: usize) -> Seq<Seq<char>>
    decreases item,
{
    let text = item.bullet_line.text@;
    let pf = bullet_prefix_spec(text);
    let bw = wclamp(pf);
    let text_start = trim_start_spec(text.skip(bullet_prefix_len(text) as int));
    let full = join_from(text_start, item.continuation, 0);
    let needs = wclamp(pf + text_start) > width || (exists|t: int|
        0 <= t < item.continuation.len() && wclamp(item.continuation[t].text@) > width);
    let own = if needs {
        let w2 = if bw < width {
            (width - bw) as usize
        } else {
            1usize
        };
        prefix_first_pad_rest(wrap_lines(full, w2), pf, bw)
    } else {
        seq![trim_end_spec(text)] + verbatim_rtrim(item.continuation)
    };
    own + (match item.nested {
        Option::Some(nd) => render_list(nd, width),
        Option::None => Seq::empty(),
    })
}

/// The items of a list from index `i` on.
pub open spec fn render_items(items: Seq<ListItemV>, i: int, width: usize) -> Seq<Seq<char>>
    decreases items, items.len() - i,
{
    if !(0 <= i < items.len()) {
        Seq::empty()
    } else {
        render_item(items[i], width) + render_items(items, i + 1, width)
    }
}

/// A list: its introduction lines, then its items in order.
pub open spec fn render_list(node: ListNodeV, width: usize) -> Seq<Seq<char>>
    decreases node,
{
    render_intro(node.introduction) + render_items(node.items, 0, width)
}

/// One chunk.
pub open spec fn render_chunk(c: ChunkV, width: usize) -> Seq<Seq<char>> {
    match c {
        ChunkV::Comment(ls) => verbatim_rtrim(ls),
        ChunkV::Table(ls) => verbatim_rtrim(ls),
        ChunkV::Code(ls) => verbatim_rtrim(ls),
        ChunkV::Paragraph(ls) => render_paragraph(ls, width),
        ChunkV::List(node) => render_list(node, width),
    }
}

/// A single-line introduction: a Paragraph or Code chunk of one line whose
/// trimmed text ends in `:`.
pub open spec fn single_intro(c: ChunkV) -> bool {
    match c {
        ChunkV::Paragraph(ls) => ls.len() == 1 && ends_colon(ls[0]),
        ChunkV::Code(ls) => ls.len() == 1 && ends_colon(ls[0]),
        _ => false,
    }
}

/// When the blank-line separator between two adjacent chunks is omitted:
/// either side is a blank sentinel, a Comment precedes, or a single-line
/// introduction precedes a List.
pub open spec fn omit_sep(prev: ChunkV, cur: ChunkV) -> bool {
    ||| is_sentinel(prev)
    ||| is_sentinel(cur)
    ||| prev is Comment
    ||| (single_intro(prev) && cur is List)
}

/// The body chunks from index `i` on, with separators.
pub open spec fn render_chunks(cs: Seq<ChunkV>, i: int, width: usize) -> Seq<Seq<char>>
    decreases cs.len() - i,
{
    if !(0 <= i < cs.len()) {
        Seq::empty()
    } else {
        let sep: Seq<Seq<char>> = if i > 0 && !omit_sep(cs[i - 1], cs[i]) {
            seq![Seq::<char>::empty()]
        } else {
            Seq::empty()
        };
        sep + render_chunk(cs[i], width) + render_chunks(cs, i + 1, width)
    }
}

/// Lines with trailing blank lines removed.
pub open spec fn strip_trailing_blanks(out: Seq<Seq<char>>) -> Seq<Seq<char>>
    decreases out.len(),
{
    if out.len() > 0 && out.last().len() == 0 {
        strip_trailing_blanks(out.drop_last())
    } else {
        out
    }
}

/// The rendered lines of a document: the headline, the body chunks with
/// their separators, and — when footers exist — the body stripped of
/// trailing blanks, one blank line, and the footers verbatim.
pub open spec fn render_doc(doc: DocumentV, width: usize) -> Seq<Seq<char>> {
    let head: Seq<Seq<char>> = match doc.headline {
        Option::Some(h) => seq![trim_end_spec(h.text@)],
        Option::None => Seq::empty(),
    };
    let body = head + render_chunks(doc.body_chunks, 0, width);
    if doc.footers.len() > 0 {
        strip_trailing_blanks(body) + seq![Seq::<char>::empty()] + verbatim_rtrim(doc.footers)
    } else {
        body
    }
}

/// Lines joined onto `acc`, each followed by a newline.
pub open spec fn join_nl_from(acc: Seq<char>, ls: Seq<Seq<char>>, i: int) -> Seq<char>
    decreases ls.len() - i,
{
    if !(0 <= i < ls.len()) {
        acc
    } else {
        join_nl_from(acc + ls[i] + seq!['\n'], ls, i + 1)
    }
}

/// The final text: newline-joined lines with a single trailing newline
/// (an empty document renders as one newline).
pub open spec fn rendered_text(ls: Seq<Seq<char>>) -> Seq<char> {
    if ls.len() == 0 {
        seq!['\n']
    } else {
        join_nl_from(Seq::empty(), ls, 0)
    }
}

// ---------------------------------------------------------------------------
// Rendering, executable
// ---------------------------------------------------------------------------

/// The line's text, right-trimmed, as a fresh string.
fn rtrim_line(l: &CatLine) -> (r: String)
    ensures
        r@ == trim_end_spec(l.text@),
{
    let v = chars_of(l.text.as_str());
    let t = trim_end_vec(&v);
    chars_to_string(&t)
}

/// Clamped display width of the line's text.
fn line_width(l: &CatLine) -> (w: usize)
    ensures
        w == wclamp(l.text@),
{
    let v = chars_of(l.text.as_str());
    let n = v.len();
    let w = chars_width(&v, 0, n);
    proof {
        assert(v@.subrange(0, n as int) =~= l.text@);
    }
    w
}

/// Right-trimmed verbatim lines of a run.
fn verbatim_exec(ls: &Vec<CatLine>) -> (r: Vec<String>)
    ensures
        str_views(r@) == verbatim_rtrim(ls@),
{
    let mut r: Vec<String> = Vec::new();
    let mut i: usize = 0;
    while i < ls.len()
        invariant
            i <= ls@.len(),
            r@.len() == i,
            forall|t: int| 0 <= t < i ==> #[trigger] r@[t]@ == trim_end_spec(ls@[t].text@),
        decreases ls@.len() - i,
    {
        r.push(rtrim_line(&ls[i]));
        i += 1;
    }
    proof {
        assert(str_views(r@) =~= verbatim_rtrim(ls@));
    }
    r
}

/// Render one paragraph chunk.
fn render_paragraph_exec(ls: &Vec<CatLine>, width: usize) -> (r: Vec<String>)
    requires
        width < usize::MAX,
    ensures
        str_views(r@) == render_paragraph(ls@, width),
{
    if ls.len() == 1 && ls[0].final_category == Category::Empty {
        let mut r: Vec<String> = Vec::new();
        r.push(String::new());
        proof {
            assert(str_views(r@) =~= seq![Seq::<char>::empty()]);
        }
        return r;
    }
    // does any line exceed the width?
    let mut needs = false;
    let mut i: usize = 0;
    while i < ls.len()
        invariant
            i <= ls@.len(),
            needs == exists|t: int| 0 <= t < i && wclamp(ls@[t].text@) > width,
        decreases ls@.len() - i,
    {
        if line_width(&ls[i]) > width {
            needs = true;
        }
        i += 1;
    }
    if needs {
        // join the trimmed lines with single spaces, then wrap
        let v0 = chars_of(ls[0].text.as_str());
        let mut full = trim_vec(&v0);
        let mut t: usize = 1;
        while t < ls.len()
            invariant
                1 <= t <= ls@.len(),
                1 <= ls@.len(),
                join_from(full@, ls@, t as int) == join_trimmed(ls@),
            decreases ls@.len() - t,
        {
            let ghost full0 = full@;
            full.push(' ');
            let cv = chars_of(ls[t].text.as_str());
            let tv = trim_vec(&cv);
            push_all(&mut full, &tv);
            proof {
                assert(full@ =~= full0 + seq![' '] + trim_spec(ls@[t as int].text@));
            }
            t += 1;
        }
        wrap_chars(&full, width)
    } else {
        verbatim_exec(ls)
    }
}

/// Render one list item, nested list included.
fn render_item_exec(item: &ListItem, width: usize) -> (r: Vec<String>)
    requires
        width < usize::MAX,
    ensures
        str_views(r@) == render_item(item.deep(), width),
    decreases *item, 1int,
{
    let ghost iv = item.deep();
    let pf_str = extract_bullet_prefix(item.bullet_line.text.as_str());
    let pf = chars_of(pf_str);
    let pn = pf.len();
    let bw = chars_width(&pf, 0, pn);
    proof {
        assert(pf@.subrange(0, pn as int) =~= pf@);
        assert(pf@ == bullet_prefix_spec(item.bullet_line.text@));
    }
    let text_chars = chars_of(item.bullet_line.text.as_str());
    let after = subvec(&text_chars, pn, text_chars.len());
    let text_start = trim_start_vec(&after);
    proof {
        assert(after@ =~= item.bullet_line.text@.skip(
            bullet_prefix_len(item.bullet_line.text@) as int,
        ));
    }
    // width of bullet prefix plus text
    let mut first_line: Vec<char> = subvec(&pf, 0, pn);
    push_all(&mut first_line, &text_start);
    let fn_len = first_line.len();
    let flw = chars_width(&first_line, 0, fn_len);
    proof {
        assert(first_line@.subrange(0, fn_len as int) =~= pf@ + trim_start_spec(after@));
    }
    // does any continuation line exceed the width?
    let mut cont_over = false;
    let mut i: usize = 0;
    while i < item.continuation.len()
        invariant
            i <= item.continuation@.len(),
            cont_over == exists|t: int|
                0 <= t < i && wclamp(item.continuation@[t].text@) > width,
        decreases item.continuation@.len() - i,
    {
        if line_width(&item.continuation[i]) > width {
            cont_over = true;
        }
        i += 1;
    }
    let mut own: Vec<String> = Vec::new();
    if flw > width || cont_over {
        // join the text after the bullet with the trimmed continuation
        let mut full = text_start;
        let mut t: usize = 0;
        while t < item.continuation.len()
            invariant
                t <= item.continuation@.len(),
                join_from(full@, item.continuation@, t as int) == join_from(
                    trim_start_spec(
                        item.bullet_line.text@.skip(
                            bullet_prefix_len(item.bullet_line.text@) as int,
                        ),
                    ),
                    item.continuation@,
                    0,
                ),
            decreases item.continuation@.len() - t,
        {
            let ghost full0 = full@;
            full.push(' ');
            let cv = chars_of(item.continuation[t].text.as_str());
            let tv = trim_vec(&cv);
            push_all(&mut full, &tv);
            proof {
                assert(full@ =~= full0 + seq![' '] + trim_spec(item.continuation@[t as int].text@));
            }
            t += 1;
        }
        let w2: usize = if bw < width {
            width - bw
        } else {
            1
        };
        let wrapped = wrap_chars(&full, w2);
        let mut l0 = subvec(&pf, 0, pn);
        let w0chars = chars_of(wrapped[0].as_str());
        push_all(&mut l0, &w0chars);
        let t0 = trim_end_vec(&l0);
        proof {
            assert(l0@ =~= pf@ + wrapped@[0]@);
        }
        own.push(chars_to_string(&t0));
        let mut k: usize = 1;
        while k < wrapped.len()
            invariant
                1 <= k <= wrapped@.len(),
                pf@ == bullet_prefix_spec(item.bullet_line.text@),
                own@.len() == k,
                own@[0]@ == trim_end_spec(pf@ + wrapped@[0]@),
                forall|t: int|
                    1 <= t < k ==> #[trigger] own@[t]@ == trim_end_spec(pad(bw) + wrapped@[t]@),
            decreases wrapped@.len() - k,
        {
            let mut li = spaces(bw);
            let wkchars = chars_of(wrapped[k].as_str());
            push_all(&mut li, &wkchars);
            let ti = trim_end_vec(&li);
            proof {
                assert(li@ =~= pad(bw) + wrapped@[k as int]@);
            }
            own.push(chars_to_string(&ti));
            k += 1;
        }
        proof {
            assert(str_views(own@) =~= prefix_first_pad_rest(str_views(wrapped@), pf@, bw));
        }
    } else {
        own.push(rtrim_line(&item.bullet_line));
        let mut t: usize = 0;
        while t < item.continuation.len()
            invariant
                t <= item.continuation@.len(),
                own@.len() == t + 1,
                own@[0]@ == trim_end_spec(item.bullet_line.text@),
                forall|u: int|
                    1 <= u < t + 1 ==> #[trigger] own@[u]@ == trim_end_spec(
                        item.continuation@[u - 1].text@,
                    ),
            decreases item.continuation@.len() - t,
        {
            own.push(rtrim_line(&item.continuation[t]));
            t += 1;
        }
        proof {
            assert(str_views(own@) =~= seq![trim_end_spec(item.bullet_line.text@)]
                + verbatim_rtrim(item.continuation@));
        }
    }
    match &item.nested {
        Option::Some(nd) => {
            let mut sub = render_list_exec(nd, width);
            let ghost own0 = own@;
            let ghost sub0 = sub@;
            own.append(&mut sub);
            proof {
                assert(str_views(own@) =~= str_views(own0) + str_views(sub0));
                assert(iv.nested == Option::Some((**nd).deep()));
            }
        },
        Option::None => {
            proof {
                assert(str_views(own@) + Seq::<Seq<char>>::empty() =~= str_views(own@));
            }
        },
    }
    own
}

/// Render one list: introduction lines, then the items in order.
fn render_list_exec(node: &ListNode, width: usize) -> (r: Vec<String>)
    requires
        width < usize::MAX,
    ensures
        str_views(r@) == render_list(node.deep(), width),
    decreases *node, 0int,
{
    let ghost nv = node.deep();
    proof {
        node.lemma_deep_items();
    }
    let mut out: Vec<String> = Vec::new();
    let mut t: usize = 0;
    while t < node.introduction.len()
        invariant
            t <= node.introduction@.len(),
            out@.len() == t,
            forall|u: int|
                0 <= u < t ==> #[trigger] out@[u]@ == render_intro(node.introduction@)[u],
        decreases node.introduction@.len() - t,
    {
        if node.introduction[t].final_category == Category::Empty {
            out.push(String::new());
        } else {
            out.push(rtrim_line(&node.introduction[t]));
        }
        t += 1;
    }
    proof {
        assert(str_views(out@) =~= render_intro(node.introduction@));
    }
    let ghost itemsv = items_deep(node.items@);
    let mut i: usize = 0;
    while i < node.items.len()
        invariant
            i <= node.items@.len(),
            width < usize::MAX,
            itemsv == items_deep(node.items@),
            str_views(out@) + render_items(itemsv, i as int, width) == render_intro(
                node.introduction@,
            ) + render_items(itemsv, 0, width),
        decreases node.items@.len() - i,
    {
        let mut sub = render_item_exec(&node.items[i], width);
        let ghost out0 = out@;
        let ghost sub0 = sub@;
        out.append(&mut sub);
        proof {
            assert(itemsv[i as int] == node.items@[i as int].deep());
            assert(str_views(out@) =~= str_views(out0) + str_views(sub0));
            assert(render_items(itemsv, i as int, width) == render_item(itemsv[i as int], width)
                + render_items(itemsv, i + 1, width));
            assert(str_views(out@) + render_items(itemsv, i + 1, width) =~= str_views(out0) + (
            str_views(sub0) + render_items(itemsv, i + 1, width)));
        }
        i += 1;
    }
    proof {
        assert(render_items(itemsv, node.items@.len() as int, width) =~= Seq::<Seq<char>>::empty());
        assert(str_views(out@) =~= render_intro(node.introduction@) + render_items(
            itemsv,
            0,
            width,
        ));
    }
    out
}

/// Format a list node with proper indentation and wrapping; the depth
/// parameter is unused (nesting is carried by the tree itself).
pub fn pretty_print_list(list: &ListNode, opts: &Options, _depth: usize) -> (r: Vec<String>)
    requires
        opts.width < usize::MAX,
    ensures
        str_views(r@) == render_list(list.deep(), opts.width),
{
    render_list_exec(list, opts.width)
}

/// Is this chunk a blank-line sentinel?
fn chunk_is_sentinel(c: &ContChunk) -> (r: bool)
    ensures
        r == is_sentinel(c.deep()),
{
    match c {
        ContChunk::Paragraph(ls) => ls.len() == 1 && ls[0].final_category == Category::Empty,
        _ => false,
    }
}

/// Is this chunk a single-line introduction ending in `:`?
fn chunk_single_intro(c: &ContChunk) -> (r: bool)
    ensures
        r == single_intro(c.deep()),
{
    match c {
        ContChunk::Paragraph(ls) => ls.len() == 1 && crate::tree_builder::ends_colon_exec(&ls[0]),
        ContChunk::Code(ls) => ls.len() == 1 && crate::tree_builder::ends_colon_exec(&ls[0]),
        _ => false,
    }
}

/// Is the blank separator between these neighbors omitted?
fn omit_sep_exec(prev: &ContChunk, cur: &ContChunk) -> (r: bool)
    ensures
        r == omit_sep(prev.deep(), cur.deep()),
{
    chunk_is_sentinel(prev) || chunk_is_sentinel(cur) || matches!(prev, ContChunk::Comment(_)) || (
    chunk_single_intro(prev) && matches!(cur, ContChunk::List(_)))
}

/// Render one chunk.
fn render_chunk_exec(c: &ContChunk, width: usize) -> (r: Vec<String>)
    requires
        width < usize::MAX,
    ensures
        str_views(r@) == render_chunk(c.deep(), width),
{
    match c {
        ContChunk::Comment(ls) => verbatim_exec(ls),
        ContChunk::Table(ls) => verbatim_exec(ls),
        ContChunk::Code(ls) => verbatim_exec(ls),
        ContChunk::Paragraph(ls) => render_paragraph_exec(ls, width),
        ContChunk::List(node) => render_list_exec(node, width),
    }
}

/// Render the document into its final text: headline, body chunks with
/// blank-line separators, then the footers after exactly one blank line;
/// every line right-trimmed, one trailing newline.
pub fn pretty_print(doc: &Document, opts: &Options) -> (r: String)
    requires
        opts.width < usize::MAX,
    ensures
        r@ == rendered_text(render_doc(doc.deep(), opts.width)),
{
    let width = opts.width;
    let ghost dv = doc.deep();
    let mut out: Vec<String> = Vec::new();
    match &doc.headline {
        Option::Some(h) => {
            out.push(rtrim_line(h));
        },
        Option::None => {},
    }
    let ghost head: Seq<Seq<char>> = match dv.headline {
        Option::Some(h) => seq![trim_end_spec(h.text@)],
        Option::None => Seq::empty(),
    };
    proof {
        assert(str_views(out@) =~= head);
    }
    let ghost cs = chunks_deep(doc.body_chunks@);
    let nch = doc.body_chunks.len();
    let mut i: usize = 0;
    while i < nch
        invariant
            i <= nch,
            nch == doc.body_chunks@.len(),
            width < usize::MAX,
            cs == chunks_deep(doc.body_chunks@),
            str_views(out@) + render_chunks(cs, i as int, width) == head + render_chunks(
                cs,
                0,
                width,
            ),
        decreases nch - i,
    {
        let ghost out0 = out@;
        if i > 0 && !omit_sep_exec(&doc.body_chunks[i - 1], &doc.body_chunks[i]) {
            out.push(String::new());
        }
        let mut sub = render_chunk_exec(&doc.body_chunks[i], width);
        let ghost mid = out@;
        let ghost sub0 = sub@;
        out.append(&mut sub);
        proof {
            assert(cs[i as int] == doc.body_chunks@[i as int].deep());
            if i > 0 {
                assert(cs[i - 1] == doc.body_chunks@[i - 1].deep());
            }
            let sep: Seq<Seq<char>> = if i > 0 && !omit_sep(cs[i - 1], cs[i as int]) {
                seq![Seq::<char>::empty()]
            } else {
                Seq::empty()
            };
            assert(str_views(mid) =~= str_views(out0) + sep);
            assert(str_views(out@) =~= str_views(mid) + str_views(sub0));
            assert(render_chunks(cs, i as int, width) == sep + render_chunk(cs[i as int], width)
                + render_chunks(cs, i + 1, width));
            assert(str_views(out@) + render_chunks(cs, i + 1, width) =~= (str_views(out0) + (sep
                + render_chunk(cs[i as int], width) + render_chunks(cs, i + 1, width))));
        }
        i += 1;
    }
    proof {
        assert(render_chunks(cs, nch as int, width) =~= Seq::<Seq<char>>::empty());
        assert(str_views(out@) =~= head + render_chunks(cs, 0, width));
    }
    if doc.footers.len() > 0 {
        // exactly one blank line separates the body from the footers
        let ghost body0 = str_views(out@);
        while out.len() > 0 && out[out.len() - 1].as_str().is_empty()
            invariant
                strip_trailing_blanks(str_views(out@)) == strip_trailing_blanks(body0),
            decreases out@.len(),
        {
            proof {
                assert(str_views(out@.drop_last()) =~= str_views(out@).drop_last());
                assert(str_views(out@).last().len() == 0);
            }
            out.pop();
        }
        proof {
            if out@.len() > 0 {
                assert(str_views(out@).last() == out@[out@.len() - 1]@);
            }
            assert(strip_trailing_blanks(str_views(out@)) == str_views(out@));
        }
        let ghost stripped = str_views(out@);
        out.push(String::new());
        let mut f: usize = 0;
        while f < doc.footers.len()
            invariant
                f <= doc.footers@.len(),
                out@.len() == stripped.len() + 1 + f,
                str_views(out@) =~= stripped + seq![Seq::<char>::empty()] + verbatim_rtrim(
                    doc.footers@.take(f as int),
                ),
            decreases doc.footers@.len() - f,
        {
            let ghost outb = out@;
            out.push(rtrim_line(&doc.footers[f]));
            proof {
                assert(str_views(out@) =~= str_views(outb).push(
                    trim_end_spec(doc.footers@[f as int].text@),
                ));
                assert(verbatim_rtrim(doc.footers@.take(f + 1)) =~= verbatim_rtrim(
                    doc.footers@.take(f as int),
                ).push(trim_end_spec(doc.footers@[f as int].text@)));
                assert(str_views(out@) =~= stripped + seq![Seq::<char>::empty()] + verbatim_rtrim(
                    doc.footers@.take(f + 1),
                ));
            }
            f += 1;
        }
        proof {
            assert(doc.footers@.take(doc.footers@.len() as int) =~= doc.footers@);
            assert(str_views(out@) =~= render_doc(dv, width));
        }
    } else {
        proof {
            assert(str_views(out@) =~= render_doc(dv, width));
        }
    }
    // join with newlines, one trailing newline
    let ghost ls = str_views(out@);
    let mut acc = String::new();
    if out.len() == 0 {
        acc.append("\n");
        proof {
            reveal_strlit("\n");
            assert(acc@ =~= seq!['\n']);
        }
        return acc;
    }
    let mut j: usize = 0;
    while j < out.len()
        invariant
            j <= out@.len(),
            ls == str_views(out@),
            join_nl_from(acc@, ls, j as int) == join_nl_from(Seq::empty(), ls, 0),
        decreases out@.len() - j,
    {
        acc.append(out[j].as_str());
        acc.append("\n");
        proof {
            reveal_strlit("\n");
            assert("\n"@ =~= seq!['\n']);
            assert(ls[j as int] == out@[j as int]@);
        }
        j += 1;
    }
    acc
}

// ---------------------------------------------------------------------------
// Verbatim preservation
// ---------------------------------------------------------------------------

/// `xs` appears within `ys` in order (as a subsequence), matched greedily.
pub open spec fn is_subseq(xs: Seq<Seq<char>>, ys: Seq<Seq<char>>) -> bool
    decreases ys.len(),
{
    if xs.len() == 0 {
        true
    } else if ys.len() == 0 {
        false
    } else if xs[0] == ys[0] {
        is_subseq(xs.drop_first(), ys.drop_first())
    } else {
        is_subseq(xs, ys.drop_first())
    }
}

pub proof fn lemma_subseq_refl(xs: Seq<Seq<char>>)
    ensures
        is_subseq(xs, xs),
    decreases xs.len(),
{
    if xs.len() > 0 {
        lemma_subseq_refl(xs.drop_first());
    }
}

/// Weaken the target by one extra leading line.
proof fn lemma_subseq_cons(xs: Seq<Seq<char>>, ys: Seq<Seq<char>>)
    requires
        ys.len() > 0,
        is_subseq(xs, ys.drop_first()),
    ensures
        is_subseq(xs, ys),
    decreases ys.len(), 0int,
{
    if xs.len() > 0 {
        if xs[0] == ys[0] {
            lemma_subseq_tail(xs, ys.drop_first());
        }
    }
}

/// Drop the first matched line of the source.
proof fn lemma_subseq_tail(xs: Seq<Seq<char>>, ys: Seq<Seq<char>>)
    requires
        is_subseq(xs, ys),
        xs.len() > 0,
    ensures
        is_subseq(xs.drop_first(), ys),
    decreases ys.len(), 1int,
{
    if ys.len() > 0 {
        if xs[0] == ys[0] {
            lemma_subseq_cons(xs.drop_first(), ys);
        } else {
            lemma_subseq_tail(xs, ys.drop_first());
            lemma_subseq_cons(xs.drop_first(), ys);
        }
    }
}

/// Prepend arbitrary lines to the target.
proof fn lemma_subseq_prepend(xs: Seq<Seq<char>>, pre: Seq<Seq<char>>, ys: Seq<Seq<char>>)
    requires
        is_subseq(xs, ys),
    ensures
        is_subseq(xs, pre + ys),
    decreases pre.len(),
{
    if pre.len() == 0 {
        assert(pre + ys =~= ys);
    } else {
        lemma_subseq_prepend(xs, pre.drop_first(), ys);
        assert((pre + ys).drop_first() =~= pre.drop_first() + ys);
        lemma_subseq_cons(xs, pre + ys);
    }
}

/// Concatenation preserves the subsequence relation.
proof fn lemma_subseq_concat(
    a: Seq<Seq<char>>,
    b: Seq<Seq<char>>,
    x: Seq<Seq<char>>,
    y: Seq<Seq<char>>,
)
    requires
        is_subseq(a, x),
        is_subseq(b, y),
    ensures
        is_subseq(a + b, x + y),
    decreases x.len(),
{
    if a.len() == 0 {
        assert(a + b =~= b);
        lemma_subseq_prepend(b, x, y);
    } else {
        assert(x.len() > 0);
        assert((a + b)[0] == a[0]);
        assert((x + y)[0] == x[0]);
        assert((a + b).drop_first() =~= a.drop_first() + b);
        assert((x + y).drop_first() =~= x.drop_first() + y);
        if a[0] == x[0] {
            lemma_subseq_concat(a.drop_first(), b, x.drop_first(), y);
        } else {
            lemma_subseq_concat(a, b, x.drop_first(), y);
        }
    }
}

/// A source of nonempty lines still embeds after a trailing blank line of
/// the target is dropped.
proof fn lemma_subseq_drop_blank(xs: Seq<Seq<char>>, ys: Seq<Seq<char>>)
    requires
        is_subseq(xs, ys),
        ys.len() > 0,
        ys.last().len() == 0,
        forall|t: int| 0 <= t < xs.len() ==> #[trigger] xs[t].len() > 0,
    ensures
        is_subseq(xs, ys.drop_last()),
    decreases ys.len(),
{
    if xs.len() == 0 {
    } else if ys.len() == 1 {
        assert(xs[0].len() > 0);
        assert(xs[0] != ys[0]);
        assert(is_subseq(xs, ys.drop_first()));
        assert(ys.drop_first().len() == 0);
        assert(false);
    } else {
        if xs[0] == ys[0] {
            lemma_subseq_drop_blank(xs.drop_first(), ys.drop_first());
            assert(ys.drop_last()[0] == ys[0]);
            assert(ys.drop_last().drop_first() =~= ys.drop_first().drop_last());
        } else {
            lemma_subseq_drop_blank(xs, ys.drop_first());
            assert(ys.drop_last()[0] == ys[0]);
            assert(ys.drop_last().drop_first() =~= ys.drop_first().drop_last());
        }
    }
}

/// A source of nonempty lines still embeds after all trailing blank lines
/// of the target are stripped.
proof fn lemma_subseq_strip(xs: Seq<Seq<char>>, ys: Seq<Seq<char>>)
    requires
        is_subseq(xs, ys),
        forall|t: int| 0 <= t < xs.len() ==> #[trigger] xs[t].len() > 0,
    ensures
        is_subseq(xs, strip_trailing_blanks(ys)),
    decreases ys.len(),
{
    if ys.len() > 0 && ys.last().len() == 0 {
        lemma_subseq_drop_blank(xs, ys);
        lemma_subseq_strip(xs, ys.drop_last());
    }
}

/// The verbatim lines a chunk owes the output: the right-trimmed lines of
/// Comment, Table and Code chunks.
pub open spec fn chunk_verbatim(c: ChunkV) -> Seq<Seq<char>> {
    match c {
        ChunkV::Comment(ls) => verbatim_rtrim(ls),
        ChunkV::Table(ls) => verbatim_rtrim(ls),
        ChunkV::Code(ls) => verbatim_rtrim(ls),
        _ => Seq::empty(),
    }
}

pub open spec fn verbatim_of_chunks(cs: Seq<ChunkV>, i: int) -> Seq<Seq<char>>
    decreases cs.len() - i,
{
    if !(0 <= i < cs.len()) {
        Seq::empty()
    } else {
        chunk_verbatim(cs[i]) + verbatim_of_chunks(cs, i + 1)
    }
}

/// All verbatim lines a document owes the output, in order: the Comment,
/// Table and Code chunk lines, then the footers, all right-trimmed.
pub open spec fn doc_verbatim(doc: DocumentV) -> Seq<Seq<char>> {
    verbatim_of_chunks(doc.body_chunks, 0) + verbatim_rtrim(doc.footers)
}

/// Every Comment/Table/Code chunk line still holds text after trimming.
pub open spec fn chunks_nonblank(cs: Seq<ChunkV>) -> bool {
    forall|k: int|
        0 <= k < cs.len() ==> match #[trigger] cs[k] {
            ChunkV::Comment(ls) => forall|t: int|
                0 <= t < ls.len() ==> trim_end_spec(#[trigger] ls[t].text@).len() > 0,
            ChunkV::Table(ls) => forall|t: int|
                0 <= t < ls.len() ==> trim_end_spec(#[trigger] ls[t].text@).len() > 0,
            ChunkV::Code(ls) => forall|t: int|
                0 <= t < ls.len() ==> trim_end_spec(#[trigger] ls[t].text@).len() > 0,
            _ => true,
        }
}

proof fn lemma_verbatim_nonblank(cs: Seq<ChunkV>, i: int)
    requires
        chunks_nonblank(cs),
    ensures
        forall|t: int|
            0 <= t < verbatim_of_chunks(cs, i).len() ==> #[trigger] verbatim_of_chunks(cs, i)[t].len()
                > 0,
    decreases cs.len() - i,
{
    if 0 <= i < cs.len() {
        lemma_verbatim_nonblank(cs, i + 1);
        let cv = chunk_verbatim(cs[i]);
        assert forall|t: int|
            0 <= t < verbatim_of_chunks(cs, i).len() implies #[trigger] verbatim_of_chunks(
            cs,
            i,
        )[t].len() > 0 by {
            if t < cv.len() {
                match cs[i] {
                    ChunkV::Comment(ls) => {
                        assert(cv[t] == trim_end_spec(ls[t].text@));
                    },
                    ChunkV::Table(ls) => {
                        assert(cv[t] == trim_end_spec(ls[t].text@));
                    },
                    ChunkV::Code(ls) => {
                        assert(cv[t] == trim_end_spec(ls[t].text@));
                    },
                    _ => {},
                }
            } else {
                assert(verbatim_of_chunks(cs, i)[t] == verbatim_of_chunks(cs, i + 1)[t - cv.len()]);
            }
        }
    }
}

proof fn lemma_chunk_subseq(c: ChunkV, width: usize)
    ensures
        is_subseq(chunk_verbatim(c), render_chunk(c, width)),
{
    match c {
        ChunkV::Comment(ls) => lemma_subseq_refl(verbatim_rtrim(ls)),
        ChunkV::Table(ls) => lemma_subseq_refl(verbatim_rtrim(ls)),
        ChunkV::Code(ls) => lemma_subseq_refl(verbatim_rtrim(ls)),
        _ => {},
    }
}

proof fn lemma_chunks_subseq(cs: Seq<ChunkV>, i: int, width: usize)
    ensures
        is_subseq(verbatim_of_chunks(cs, i), render_chunks(cs, i, width)),
    decreases cs.len() - i,
{
    if 0 <= i < cs.len() {
        let sep: Seq<Seq<char>> = if i > 0 && !omit_sep(cs[i - 1], cs[i]) {
            seq![Seq::<char>::empty()]
        } else {
            Seq::empty()
        };
        lemma_chunk_subseq(cs[i], width);
        lemma_chunks_subseq(cs, i + 1, width);
        lemma_subseq_concat(
            chunk_verbatim(cs[i]),
            verbatim_of_chunks(cs, i + 1),
            render_chunk(cs[i], width),
            render_chunks(cs, i + 1, width),
        );
        lemma_subseq_prepend(
            verbatim_of_chunks(cs, i),
            sep,
            render_chunk(cs[i], width) + render_chunks(cs, i + 1, width),
        );
        assert(sep + (render_chunk(cs[i], width) + render_chunks(cs, i + 1, width)) =~= sep
            + render_chunk(cs[i], width) + render_chunks(cs, i + 1, width));
    }
}

/// Verbatim preservation: every Comment, Table and Code chunk line and
/// every footer appears, right-trimmed and in original relative order, in
/// the rendered output — provided the verbatim chunk lines are not blank
/// (which holds of every document the assembler builds from classified
/// lines).
pub proof fn lemma_render_preserves_verbatim(doc: DocumentV, width: usize)
    requires
        chunks_nonblank(doc.body_chunks),
    ensures
        is_subseq(doc_verbatim(doc), render_doc(doc, width)),
{
    let head: Seq<Seq<char>> = match doc.headline {
        Option::Some(h) => seq![trim_end_spec(h.text@)],
        Option::None => Seq::empty(),
    };
    let chunksv = verbatim_of_chunks(doc.body_chunks, 0);
    let body = head + render_chunks(doc.body_chunks, 0, width);
    lemma_chunks_subseq(doc.body_chunks, 0, width);
    lemma_subseq_prepend(chunksv, head, render_chunks(doc.body_chunks, 0, width));
    if doc.footers.len() == 0 {
        assert(verbatim_rtrim(doc.footers) =~= Seq::<Seq<char>>::empty());
        assert(doc_verbatim(doc) =~= chunksv);
    } else {
        lemma_verbatim_nonblank(doc.body_chunks, 0);
        lemma_subseq_strip(chunksv, body);
        let fv = verbatim_rtrim(doc.footers);
        lemma_subseq_refl(fv);
        lemma_subseq_prepend(fv, seq![Seq::<char>::empty()], fv);
        lemma_subseq_concat(
            chunksv,
            fv,
            strip_trailing_blanks(body),
            seq![Seq::<char>::empty()] + fv,
        );
        assert(strip_trailing_blanks(body) + (seq![Seq::<char>::empty()] + fv) =~= strip_trailing_blanks(
            body,
        ) + seq![Seq::<char>::empty()] + fv);
    }
}

// ---------------------------------------------------------------------------
// Width stability
// ---------------------------------------------------------------------------

/// Every line of a rewrapped paragraph fits the body width, unless it is a
/// single word that alone exceeds it (emitted unmodified). Verbatim-emitted
/// paragraph lines are never touched, so re-running the transform at the
/// same width never pushes a reflow-eligible paragraph line beyond the
/// body width.
pub proof fn lemma_paragraph_width(ls: Seq<CatLine>, width: usize)
    requires
        exists|t: int| 0 <= t < ls.len() && wclamp(ls[t].text@) > width,
        !(ls.len() == 1 && ls[0].final_category == Category::Empty),
    ensures
        forall|i: int|
            0 <= i < render_paragraph(ls, width).len() ==> str_width(
                #[trigger] render_paragraph(ls, width)[i],
            ) <= width || (exists|j: int|
                0 <= j < crate::utils::words_of(join_trimmed(ls)).len() && render_paragraph(
                    ls,
                    width,
                )[i] == crate::utils::words_of(join_trimmed(ls))[j] && str_width(
                    crate::utils::words_of(join_trimmed(ls))[j],
                ) > width),
{
    crate::utils::lemma_wrap_lines_width(join_trimmed(ls), width);
}

/// Every line of a rewrapped list item whose bullet prefix is narrower
/// than the body width fits the body width, unless its text after the
/// prefix is a single word that alone exceeds the remaining width.
pub proof fn lemma_item_width(item: ListItemV, width: usize)
    requires
        ({
            let text = item.bullet_line.text@;
            let pf = bullet_prefix_spec(text);
            let text_start = trim_start_spec(text.skip(bullet_prefix_len(text) as int));
            &&& wclamp(pf) < width
            &&& str_width(pf) == wclamp(pf)
            &&& (wclamp(pf + text_start) > width || (exists|t: int|
                0 <= t < item.continuation.len() && wclamp(item.continuation[t].text@) > width))
        }),
    ensures
        ({
            let text = item.bullet_line.text@;
            let pf = bullet_prefix_spec(text);
            let bw = wclamp(pf);
            let w2 = (width - bw) as usize;
            let text_start = trim_start_spec(text.skip(bullet_prefix_len(text) as int));
            let full = join_from(text_start, item.continuation, 0);
            let wrapped = wrap_lines(full, w2);
            forall|i: int|
                0 <= i < wrapped.len() ==> str_width(
                    #[trigger] prefix_first_pad_rest(wrapped, pf, bw)[i],
                ) <= width || (exists|j: int|
                    0 <= j < crate::utils::words_of(full).len() && wrapped[i]
                        == crate::utils::words_of(full)[j] && str_width(
                        crate::utils::words_of(full)[j],
                    ) > w2)
        }),
{
    let text = item.bullet_line.text@;
    let pf = bullet_prefix_spec(text);
    let bw = wclamp(pf);
    let w2 = (width - bw) as usize;
    let text_start = trim_start_spec(text.skip(bullet_prefix_len(text) as int));
    let full = join_from(text_start, item.continuation, 0);
    let wrapped = wrap_lines(full, w2);
    crate::utils::lemma_wrap_lines_width(full, w2);
    assert forall|i: int|
        0 <= i < wrapped.len() && str_width(wrapped[i]) <= w2 implies str_width(
        prefix_first_pad_rest(wrapped, pf, bw)[i],
    ) <= width by {
        if i == 0 {
            crate::utils::lemma_str_width_concat(pf, wrapped[0]);
            lemma_rtrim_width(pf + wrapped[0]);
        } else {
            crate::utils::lemma_str_width_concat(pad(bw), wrapped[i]);
            lemma_pad_width(bw);
            lemma_rtrim_width(pad(bw) + wrapped[i]);
        }
    }
}

/// Right-trimming never widens a line.
proof fn lemma_rtrim_width(s: Seq<char>)
    ensures
        str_width(trim_end_spec(s)) <= str_width(s),
{
    crate::chars::lemma_trim_end_props(s);
    let k = trim_end_spec(s).len() as int;
    assert(s.take(k) + s.skip(k) =~= s);
    crate::utils::lemma_str_width_concat(s.take(k), s.skip(k));
}

/// `n` spaces occupy `n` columns.
proof fn lemma_pad_width(n: usize)
    ensures
        str_width(pad(n)) == n,
    decreases n,
{
    if n > 0 {
        lemma_pad_width((n - 1) as usize);
        assert(pad(n).drop_first() =~= pad((n - 1) as usize));
        assert(pad(n)[0] == ' ');
        assert(crate::chars::char_width_fn()(' ') == 1);
    }
}

/// What trailing-blank stripping leaves never ends with a blank line.
proof fn lemma_strip_last_nonblank(ys: Seq<Seq<char>>)
    ensures
        strip_trailing_blanks(ys).len() > 0 ==> strip_trailing_blanks(ys).last().len() > 0,
    decreases ys.len(),
{
    if ys.len() > 0 && ys.last().len() == 0 {
        lemma_strip_last_nonblank(ys.drop_last());
    }
}

/// With footers present, exactly one blank line separates them from the
/// body: the line directly above the footer block is blank, and the line
/// above that one (when there is one) is not.
pub proof fn lemma_footer_separation(doc: DocumentV, width: usize)
    requires
        doc.footers.len() > 0,
    ensures
        ({
            let out = render_doc(doc, width);
            let fstart = out.len() - doc.footers.len();
            &&& out.len() >= doc.footers.len() + 1
            &&& out[fstart - 1].len() == 0
            &&& (fstart >= 2 ==> out[fstart - 2].len() > 0)
        }),
{
    let head: Seq<Seq<char>> = match doc.headline {
        Option::Some(h) => seq![trim_end_spec(h.text@)],
        Option::None => Seq::empty(),
    };
    let body = head + render_chunks(doc.body_chunks, 0, width);
    let stripped = strip_trailing_blanks(body);
    lemma_strip_last_nonblank(body);
    let out = render_doc(doc, width);
    assert(out =~= stripped + seq![Seq::<char>::empty()] + verbatim_rtrim(doc.footers));
    assert(out[stripped.len() as int].len() == 0);
}

} // verus!
