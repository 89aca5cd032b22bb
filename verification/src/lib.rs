//! `rule72` reformats a raw commit-message text blob into a canonically
//! wrapped version that preserves its semantic structure: headline,
//! paragraphs, lists (possibly nested), code blocks, tables, comments and
//! trailer/footer metadata, while rewrapping free prose to a configured
//! column width.
//!
//! The pipeline has four stages:
//! 1. lexing: each raw line gets an initial category score distribution;
//! 2. context refinement: scores are adjusted from a +/-2 neighbor window;
//! 3. document assembly: classified lines are grouped into a tree of chunks;
//! 4. rendering: the tree is printed back with per-kind formatting rules.

use vstd::prelude::*;

pub mod chars;
pub mod classifier;
pub mod lexer;
pub mod utils;
pub mod pretty_printer;
pub mod tree_builder;
pub mod types;
pub mod unicode;

pub use utils::count_indent;
pub use utils::count_special_chars;
pub use utils::display_width;
pub use utils::extract_bullet_prefix;
pub use utils::is_footer_line;
pub use utils::is_list_item;
pub use utils::wrap_text;

pub use classifier::classify_with_context;
pub use lexer::lex_lines;
pub use pretty_printer::pretty_print;
pub use pretty_printer::pretty_print_list;
pub use tree_builder::build_document;
pub use types::CatLine;
pub use types::Category;
pub use types::ContChunk;
pub use types::Document;
pub use types::ListItem;
pub use types::ListNode;
pub use types::Options;
pub use types::Scores;

verus! {

/// The relation between the raw input lines and the classified lines the
/// two classification stages produce: `ls` is the lexer's output for the
/// split lines, `rs` its refinement.
pub open spec fn pipeline_lines(input: Seq<char>, ls: Seq<CatLine>, rs: Seq<CatLine>) -> bool {
    let raw = crate::chars::split_lines(input);
    &&& ls.len() == raw.len()
    &&& (forall|i: int|
        0 <= i < ls.len() ==> crate::lexer::lexed_line(raw[i], i as nat, #[trigger] ls[i]))
    &&& rs.len() == ls.len()
    &&& (forall|i: int|
        0 <= i < rs.len() ==> crate::classifier::refined_line(ls, i, #[trigger] rs[i]))
}

/// What `reflow` returns: the input is split into lines, each line is
/// lexed, the classifications are refined in context, the lines are
/// assembled into a document, and the document is rendered at the body
/// width with a single trailing newline.
pub open spec fn reflow_post(input: Seq<char>, width: usize, out: Seq<char>) -> bool {
    exists|ls: Seq<CatLine>, rs: Seq<CatLine>|
        {
            &&& #[trigger] pipeline_lines(input, ls, rs)
            &&& out == crate::pretty_printer::rendered_text(
                crate::pretty_printer::render_doc(
                    crate::tree_builder::spec_build(rs),
                    width,
                ),
            )
        }
}

/// Reflow an entire commit message: headline, paragraphs, lists, code
/// blocks, tables, comments and footers are preserved as structure, and
/// free prose is rewrapped at `opts.width` columns.
pub fn reflow(input: &str, opts: &Options) -> (r: String)
    requires
        1 <= opts.width < usize::MAX,
    ensures
        reflow_post(input@, opts.width, r@),
{
    let lines = crate::chars::split_into_lines(input);
    let cat_lines = lexer::lex_lines(&lines, opts);
    let ghost lsg = cat_lines@;
    let classified_lines = classifier::classify_with_context(cat_lines);
    let ghost rsg = classified_lines@;
    let document = tree_builder::build_document(classified_lines);
    let out = pretty_printer::pretty_print(&document, opts);
    proof {
        let raw = crate::chars::split_lines(input@);
        assert forall|i: int|
            0 <= i < lsg.len() implies crate::lexer::lexed_line(
            raw[i],
            i as nat,
            #[trigger] lsg[i],
        ) by {
            assert(raw[i] == lines@[i]@);
        }
        assert(pipeline_lines(input@, lsg, rsg));
    }
    out
}

/// Verbatim preservation: for lines classified by the pipeline, every
/// Comment, Table and Code chunk line of the assembled document, and every
/// footer line, appears right-trimmed and in original relative order in
/// the rendered output.
pub proof fn lemma_verbatim_preservation(
    input: Seq<char>,
    ls: Seq<CatLine>,
    rs: Seq<CatLine>,
    width: usize,
)
    requires
        pipeline_lines(input, ls, rs),
    ensures
        crate::pretty_printer::is_subseq(
            crate::pretty_printer::doc_verbatim(crate::tree_builder::spec_build(rs)),
            crate::pretty_printer::render_doc(crate::tree_builder::spec_build(rs), width),
        ),
{
    let raw = crate::chars::split_lines(input);
    assert forall|t: int|
        0 <= t < rs.len() implies ((#[trigger] rs[t].final_category == Category::Comment
        || rs[t].final_category == Category::Table || rs[t].final_category
        == Category::Code) ==> crate::chars::trim_end_spec(rs[t].text@).len() > 0) by {
        classifier::lemma_refined_nonblank(raw[t], t as nat, ls, t, rs[t]);
    }
    crate::tree_builder::lemma_spec_build_nonblank(rs);
    crate::pretty_printer::lemma_render_preserves_verbatim(
        crate::tree_builder::spec_build(rs),
        width,
    );
}


} // verus!
