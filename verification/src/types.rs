//! Core data structures of the reflow pipeline: formatting options, line
//! categories with their score distributions, and the document tree.

use vstd::prelude::*;

verus! {

/// Formatting options for commit message reflow.
///
/// `width` is the wrap width for body prose; `headline_width` is advisory
/// only and never enforced. The two debug fields are consumed by callers
/// that drive the optional debug collaborators; the pipeline itself never
/// reads them.
#[derive(Debug, Clone)]
pub struct Options {
    pub width: usize,
    pub headline_width: usize,
    pub debug_svg: Option<String>,
    pub debug_trace: bool,
}

impl Default for Options {
    /// 72-column body, 50-column advisory headline, no debug output.
    fn default() -> (r: Self)
        ensures
            r.width == 72,
            r.headline_width == 50,
            r.debug_svg is None,
            r.debug_trace == false,
    {
        Options { width: 72, headline_width: 50, debug_svg: None, debug_trace: false }
    }
}

/// Line categories for classification.
#[derive(Debug, Clone, Copy, PartialEq, Eq, Hash, Structural)]
pub enum Category {
    ProseIntroduction,
    ProseGeneral,
    List,
    Code,
    Table,
    URL,
    Empty,
    Comment,
    Footer,
}

/// A score distribution over the nine categories.
///
/// Scores are non-negative integers (a score of 100 stands for certainty).
/// Integer scores make classification deterministic and keep the arg-max
/// exact; additions saturate at `u32::MAX`. Only the arg-max of a
/// distribution is ever consumed downstream, so no normalization step is
/// needed.
#[derive(Debug, Clone, Copy, PartialEq, Eq, Structural)]
pub struct Scores {
    pub intro: u32,
    pub prose: u32,
    pub list: u32,
    pub code: u32,
    pub table: u32,
    pub url: u32,
    pub empty: u32,
    pub comment: u32,
    pub footer: u32,
}

impl Scores {
    /// The all-zero distribution.
    pub open spec fn spec_zero() -> Scores {
        Scores {
            intro: 0,
            prose: 0,
            list: 0,
            code: 0,
            table: 0,
            url: 0,
            empty: 0,
            comment: 0,
            footer: 0,
        }
    }

    pub fn zero() -> (r: Scores)
        ensures
            r == Scores::spec_zero(),
    {
        Scores {
            intro: 0,
            prose: 0,
            list: 0,
            code: 0,
            table: 0,
            url: 0,
            empty: 0,
            comment: 0,
            footer: 0,
        }
    }

    /// The score of one category.
    pub open spec fn spec_get(self, c: Category) -> u32 {
        match c {
            Category::ProseIntroduction => self.intro,
            Category::ProseGeneral => self.prose,
            Category::List => self.list,
            Category::Code => self.code,
            Category::Table => self.table,
            Category::URL => self.url,
            Category::Empty => self.empty,
            Category::Comment => self.comment,
            Category::Footer => self.footer,
        }
    }

    pub fn get(&self, c: Category) -> (r: u32)
        ensures
            r == self.spec_get(c),
    {
        match c {
            Category::ProseIntroduction => self.intro,
            Category::ProseGeneral => self.prose,
            Category::List => self.list,
            Category::Code => self.code,
            Category::Table => self.table,
            Category::URL => self.url,
            Category::Empty => self.empty,
            Category::Comment => self.comment,
            Category::Footer => self.footer,
        }
    }

    /// `self` with category `c` raised by `amount`, saturating at `u32::MAX`.
    pub open spec fn spec_bump(self, c: Category, amount: u32) -> Scores {
        let cur = self.spec_get(c);
        let raised = if cur + amount <= u32::MAX { (cur + amount) as u32 } else { u32::MAX };
        match c {
            Category::ProseIntroduction => Scores { intro: raised, ..self },
            Category::ProseGeneral => Scores { prose: raised, ..self },
            Category::List => Scores { list: raised, ..self },
            Category::Code => Scores { code: raised, ..self },
            Category::Table => Scores { table: raised, ..self },
            Category::URL => Scores { url: raised, ..self },
            Category::Empty => Scores { empty: raised, ..self },
            Category::Comment => Scores { comment: raised, ..self },
            Category::Footer => Scores { footer: raised, ..self },
        }
    }

    pub fn bump(self, c: Category, amount: u32) -> (r: Scores)
        ensures
            r == self.spec_bump(c, amount),
    {
        let cur = self.get(c);
        let raised = if cur <= u32::MAX - amount {
            cur + amount
        } else {
            u32::MAX
        };
        match c {
            Category::ProseIntroduction => Scores { intro: raised, ..self },
            Category::ProseGeneral => Scores { prose: raised, ..self },
            Category::List => Scores { list: raised, ..self },
            Category::Code => Scores { code: raised, ..self },
            Category::Table => Scores { table: raised, ..self },
            Category::URL => Scores { url: raised, ..self },
            Category::Empty => Scores { empty: raised, ..self },
            Category::Comment => Scores { comment: raised, ..self },
            Category::Footer => Scores { footer: raised, ..self },
        }
    }

    /// The category with the highest score. Ties are broken by a fixed
    /// priority order (the order of the comparisons below), which replaces
    /// the tie-break ambiguity a probability map would have: on an exact
    /// tie the earlier category in that order wins.
    pub open spec fn spec_arg_max(self) -> Category {
        let c0 = Category::Empty;
        let c1 = if self.comment > self.spec_get(c0) { Category::Comment } else { c0 };
        let c2 = if self.table > self.spec_get(c1) { Category::Table } else { c1 };
        let c3 = if self.url > self.spec_get(c2) { Category::URL } else { c2 };
        let c4 = if self.footer > self.spec_get(c3) { Category::Footer } else { c3 };
        let c5 = if self.list > self.spec_get(c4) { Category::List } else { c4 };
        let c6 = if self.code > self.spec_get(c5) { Category::Code } else { c5 };
        let c7 = if self.prose > self.spec_get(c6) { Category::ProseGeneral } else { c6 };
        if self.intro > self.spec_get(c7) { Category::ProseIntroduction } else { c7 }
    }

    pub fn arg_max(&self) -> (c: Category)
        ensures
            c == self.spec_arg_max(),
    {
        let mut best = Category::Empty;
        if self.comment > self.get(best) {
            best = Category::Comment;
        }
        if self.table > self.get(best) {
            best = Category::Table;
        }
        if self.url > self.get(best) {
            best = Category::URL;
        }
        if self.footer > self.get(best) {
            best = Category::Footer;
        }
        if self.list > self.get(best) {
            best = Category::List;
        }
        if self.code > self.get(best) {
            best = Category::Code;
        }
        if self.prose > self.get(best) {
            best = Category::ProseGeneral;
        }
        if self.intro > self.get(best) {
            best = Category::ProseIntroduction;
        }
        best
    }

    /// The arg-max really is a maximizer.
    pub proof fn lemma_arg_max_is_max(self)
        ensures
            forall|c: Category| #[trigger] self.spec_get(c) <= self.spec_get(self.spec_arg_max()),
    {
        assert forall|c: Category| #[trigger] self.spec_get(c) <= self.spec_get(self.spec_arg_max()) by {
            match c {
                Category::ProseIntroduction => {},
                Category::ProseGeneral => {},
                Category::List => {},
                Category::Code => {},
                Category::Table => {},
                Category::URL => {},
                Category::Empty => {},
                Category::Comment => {},
                Category::Footer => {},
            }
        }
    }
}

/// A classified line: the raw text (original whitespace preserved), its
/// zero-based source index, its indentation width (tab counted as four
/// columns, any other leading whitespace as one), the score distribution,
/// and the resolved category.
///
/// Well-formed lines (see [`CatLine::wf`]) resolve to a maximizer of their
/// distribution; both pipeline stages that produce lines guarantee it.
#[derive(Debug)]
pub struct CatLine {
    pub text: String,
    pub line_number: usize,
    pub indent: usize,
    pub scores: Scores,
    pub final_category: Category,
}

impl Clone for CatLine {
    fn clone(&self) -> (r: Self)
        ensures
            r == *self,
    {
        CatLine {
            text: self.text.clone(),
            line_number: self.line_number,
            indent: self.indent,
            scores: self.scores,
            final_category: self.final_category,
        }
    }
}

impl CatLine {
    /// The resolved category carries the maximum score of the distribution.
    pub open spec fn wf(self) -> bool {
        forall|c: Category|
            #[trigger] self.scores.spec_get(c) <= self.scores.spec_get(self.final_category)
    }
}

/// Contiguous chunk kinds in the document tree.
#[derive(Debug)]
pub enum ContChunk {
    Table(Vec<CatLine>),
    Paragraph(Vec<CatLine>),
    List(ListNode),
    Code(Vec<CatLine>),
    Comment(Vec<CatLine>),
}

/// A list with its (possibly empty) introduction lines and ordered items.
#[derive(Debug)]
pub struct ListNode {
    pub introduction: Vec<CatLine>,
    pub items: Vec<ListItem>,
}

/// One list item: the bullet line, its continuation lines, and an optional
/// nested list owned exclusively by this item.
#[derive(Debug)]
pub struct ListItem {
    pub bullet_line: CatLine,
    pub continuation: Vec<CatLine>,
    pub nested: Option<Box<ListNode>>,
}

/// The assembled document: an optional headline, ordered body chunks, and
/// the verbatim footer lines.
#[derive(Debug)]
pub struct Document {
    pub headline: Option<CatLine>,
    pub body_chunks: Vec<ContChunk>,
    pub footers: Vec<CatLine>,
}


/// Spec-level picture of a list item.
pub struct ListItemV {
    pub bullet_line: CatLine,
    pub continuation: Seq<CatLine>,
    pub nested: Option<ListNodeV>,
}

/// Spec-level picture of a list.
pub struct ListNodeV {
    pub introduction: Seq<CatLine>,
    pub items: Seq<ListItemV>,
}

/// Spec-level picture of a chunk.
pub enum ChunkV {
    Table(Seq<CatLine>),
    Paragraph(Seq<CatLine>),
    List(ListNodeV),
    Code(Seq<CatLine>),
    Comment(Seq<CatLine>),
}

/// Spec-level picture of a document.
pub struct DocumentV {
    pub headline: Option<CatLine>,
    pub body_chunks: Seq<ChunkV>,
    pub footers: Seq<CatLine>,
}

impl ListItem {
    /// The spec value of this item, nested list included.
    pub open spec fn deep(self) -> ListItemV
        decreases self,
    {
        ListItemV {
            bullet_line: self.bullet_line,
            continuation: self.continuation@,
            nested: match self.nested {
                Option::Some(b) => Option::Some((*b).deep()),
                Option::None => Option::None,
            },
        }
    }
}

/// The spec values of a sequence of items.
pub open spec fn items_deep(s: Seq<ListItem>) -> Seq<ListItemV> {
    Seq::new(
        s.len(),
        |i: int|
            if 0 <= i < s.len() {
                s[i].deep()
            } else {
                vstd::pervasive::arbitrary()
            },
    )
}

/// The spec values of a sequence of chunks.
pub open spec fn chunks_deep(s: Seq<ContChunk>) -> Seq<ChunkV> {
    Seq::new(
        s.len(),
        |i: int|
            if 0 <= i < s.len() {
                s[i].deep()
            } else {
                vstd::pervasive::arbitrary()
            },
    )
}

impl ListNode {
    /// The spec value of this list.
    pub open spec fn deep(self) -> ListNodeV
        decreases self,
    {
        ListNodeV {
            introduction: self.introduction@,
            items: Seq::new(
                self.items@.len(),
                |i: int|
                    if 0 <= i < self.items@.len() {
                        self.items@[i].deep()
                    } else {
                        vstd::pervasive::arbitrary()
                    },
            ),
        }
    }

    /// The items of the spec value are the spec values of the items.
    pub proof fn lemma_deep_items(self)
        ensures
            self.deep().items == items_deep(self.items@),
            self.deep().introduction == self.introduction@,
    {
        assert(self.deep().items =~= items_deep(self.items@));
    }
}

impl ContChunk {
    /// The spec value of this chunk.
    pub open spec fn deep(self) -> ChunkV {
        match self {
            ContChunk::Table(v) => ChunkV::Table(v@),
            ContChunk::Paragraph(v) => ChunkV::Paragraph(v@),
            ContChunk::List(n) => ChunkV::List(n.deep()),
            ContChunk::Code(v) => ChunkV::Code(v@),
            ContChunk::Comment(v) => ChunkV::Comment(v@),
        }
    }
}

impl Document {
    /// The spec value of this document.
    pub open spec fn deep(self) -> DocumentV {
        DocumentV {
            headline: self.headline,
            body_chunks: chunks_deep(self.body_chunks@),
            footers: self.footers@,
        }
    }
}

} // verus!
