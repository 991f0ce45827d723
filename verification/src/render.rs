use vstd::prelude::*;
use vstd::string::StringExecFns;

use crate::highlight::{block_inner, code_block_inner, HighlightError};
pub use crate::highlight::HighlightState;
use crate::markdown::{
    blocks_of, collect_code_blocks, emits_of, rewrite, run_model, CodeBlock, CodeBlockModel,
    Emit, EmitModel, MdEvent, RewriteModelOut,
};
use crate::pulldown::{
    events_html, markdown_event_models, markdown_html, parse_events, ParsedMarkdown,
};
use crate::symbols::SymbolIndex;

pub use crate::paths::{get_namespace_path, get_path_for_name};

verus! {

/// A rendered documentation page.
pub struct Page {
    pub title: String,
    pub content: String,
    /// The path of the page's source file, relative to the project.
    pub path: String,
}

/// A parsed markdown document: its events, and what the rewriting reads of
/// each.
pub struct MarkdownDoc<'a> {
    parsed: ParsedMarkdown<'a>,
    models: Vec<MdEvent>,
}

/// The number of documentation tests among `blocks`.
pub open spec fn doctest_count(blocks: Seq<CodeBlockModel>) -> nat
    decreases blocks.len(),
{
    if blocks.len() == 0 {
        0
    } else {
        doctest_count(blocks.drop_last()) + if blocks.last().doctest is Some {
            1nat
        } else {
            0nat
        }
    }
}

/// The code each block shows: a documentation test shows its display code
/// (the `k`-th test the `k`-th entry of `display_codes`, or its own code when
/// there is no such entry), any other block its own code.
pub open spec fn shown_codes(blocks: Seq<CodeBlockModel>, display_codes: Seq<Seq<char>>) -> Seq<
    Seq<char>,
>
    decreases blocks.len(),
{
    if blocks.len() == 0 {
        seq![]
    } else {
        let b = blocks.last();
        let k = doctest_count(blocks.drop_last()) as int;
        shown_codes(blocks.drop_last(), display_codes).push(
            if b.doctest is Some && k < display_codes.len() {
                display_codes[k]
            } else {
                b.code
            },
        )
    }
}

/// Whether every one of `blocks`, showing the codes `shown`, highlights
/// (see [`block_inner`]).
pub open spec fn blocks_highlight(blocks: Seq<CodeBlockModel>, shown: Seq<Seq<char>>) -> bool {
    forall|j: int| 0 <= j < blocks.len() ==> (#[trigger] block_inner(blocks[j].lang, shown[j])) is Some
}

/// The inner HTML of each of `blocks`, showing the codes `shown` (see
/// [`block_inner`]).
pub open spec fn inner_htmls(blocks: Seq<CodeBlockModel>, shown: Seq<Seq<char>>) -> Seq<Seq<char>> {
    Seq::new(
        blocks.len(),
        |j: int|
            match block_inner(blocks[j].lang, shown[j]) {
                Some(h) => h,
                None => seq![],
            },
    )
}

proof fn lemma_doctest_count_le(blocks: Seq<CodeBlockModel>)
    ensures
        doctest_count(blocks) <= blocks.len(),
    decreases blocks.len(),
{
    if blocks.len() > 0 {
        lemma_doctest_count_le(blocks.drop_last());
    }
}

/// The code each of `blocks` shows (see [`shown_codes`]).
pub fn shown_codes_exec(blocks: &Vec<CodeBlock>, display_codes: &Vec<String>) -> (shown: Vec<
    String,
>)
    ensures
        shown@.map_values(|s: String| s@) == shown_codes(
            blocks@.map_values(|b: CodeBlock| b@),
            display_codes@.map_values(|s: String| s@),
        ),
{
    let ghost bm = blocks@.map_values(|b: CodeBlock| b@);
    let ghost dm = display_codes@.map_values(|s: String| s@);
    let mut shown: Vec<String> = Vec::new();
    let mut tests: usize = 0;
    let mut i: usize = 0;
    assert(bm.take(0) =~= Seq::<CodeBlockModel>::empty());
    while i < blocks.len()
        invariant
            bm == blocks@.map_values(|b: CodeBlock| b@),
            dm == display_codes@.map_values(|s: String| s@),
            i <= blocks@.len(),
            tests == doctest_count(bm.take(i as int)),
            shown@.map_values(|s: String| s@) == shown_codes(bm.take(i as int), dm),
        decreases blocks@.len() - i,
    {
        proof {
            lemma_doctest_count_le(bm.take(i as int));
        }
        let ghost before = shown@.map_values(|s: String| s@);
        assert(bm.take(i + 1).drop_last() =~= bm.take(i as int));
        assert(bm.take(i + 1).last() == blocks@[i as int]@);
        let b = &blocks[i];
        let code = if b.doctest.is_some() && tests < display_codes.len() {
            display_codes[tests].clone()
        } else {
            b.code.clone()
        };
        if b.doctest.is_some() {
            tests = tests + 1;
        }
        let ghost cv = code@;
        shown.push(code);
        assert(shown@.map_values(|s: String| s@) =~= before.push(cv));
        i += 1;
    }
    assert(bm.take(blocks@.len() as int) =~= bm);
    shown
}

proof fn lemma_shown_codes_len(blocks: Seq<CodeBlockModel>, display_codes: Seq<Seq<char>>)
    ensures
        shown_codes(blocks, display_codes).len() == blocks.len(),
    decreases blocks.len(),
{
    if blocks.len() > 0 {
        lemma_shown_codes_len(blocks.drop_last(), display_codes);
    }
}

proof fn lemma_emits_keep_in_range(outs: Seq<RewriteModelOut>, inner: Seq<Seq<char>>)
    ensures
        forall|k: int|
            0 <= k < emits_of(outs, inner).len() ==> (#[trigger] emits_of(outs, inner)[k] matches EmitModel::Keep(i)
                ==> 0 <= i < outs.len()),
    decreases outs.len(),
{
    if outs.len() > 0 {
        lemma_emits_keep_in_range(outs.drop_last(), inner);
    }
}

impl<'a> MarkdownDoc<'a> {
    #[verifier::type_invariant]
    spec fn well_formed(self) -> bool {
        &&& self.models@.len() == self.parsed.len()
        &&& self.models@ == markdown_event_models(self.parsed.source())
    }

    /// The markdown source of the document.
    pub closed spec fn source(&self) -> Seq<char> {
        self.parsed.source()
    }

    /// What the rewriting reads of each event of the document, in order.
    pub closed spec fn event_models(&self) -> Seq<MdEvent> {
        self.models@
    }

    /// Parses `input` as markdown.
    pub fn parse(input: &'a str) -> (doc: Self)
        ensures
            doc.source() == input@,
            doc.event_models() == markdown_event_models(input@),
    {
        let (parsed, models) = parse_events(input);
        MarkdownDoc { parsed, models }
    }

    /// What the rewriting reads of each event of the document.
    pub fn models(&self) -> (m: &Vec<MdEvent>)
        ensures
            m@ == self.event_models(),
    {
        &self.models
    }

    /// The code blocks of the document that the rewriting hands on to be
    /// highlighted, in order; those with `doctest` set are the documentation
    /// tests. Links to `::`-names resolve in `index`, under `base_url`.
    pub fn code_blocks(&self, index: &SymbolIndex, base_url: &str) -> (blocks: Vec<CodeBlock>)
        ensures
            blocks@.map_values(|b: CodeBlock| b@) == blocks_of(
                run_model(self.event_models(), index@, base_url@).1,
            ),
    {
        collect_code_blocks(&self.models, index, base_url)
    }

    /// Renders the document as a page, the `j`-th code block (see
    /// [`Self::code_blocks`]) shown with the inner HTML `inner[j]`: every event
    /// rewritten (see [`crate::markdown::step_model`]) and the result written
    /// as HTML. The page's title is the one the document's metadata gives; its
    /// path is empty.
    pub fn render_blocks(&self, index: &SymbolIndex, base_url: &str, inner: &Vec<String>) -> (page: Page)
        ensures
            page.title@ == run_model(self.event_models(), index@, base_url@).0.title,
            page.content@ == markdown_html(
                self.source(),
                emits_of(
                    run_model(self.event_models(), index@, base_url@).1,
                    inner@.map_values(|h: String| h@),
                ),
            ),
            page.path@ == Seq::<char>::empty(),
    {
        proof {
            use_type_invariant(self);
        }
        let rewritten = rewrite(&self.models, index, base_url, inner);
        let ghost outs = run_model(self.models@, index@, base_url@).1;
        proof {
            lemma_emits_keep_in_range(outs, inner@.map_values(|h: String| h@));
            crate::markdown::lemma_run_len(self.models@, index@, base_url@);
        }
        assert forall|k: int|
            0 <= k < rewritten.emits@.len() implies (#[trigger] rewritten.emits@[k]@ matches EmitModel::Keep(i)
                ==> 0 <= i < self.event_models().len()) by {
            assert(rewritten.emits@.map_values(|e: Emit| e@)[k] == rewritten.emits@[k]@);
        }
        let content = events_html(&self.parsed, &rewritten.emits);
        Page { title: rewritten.title, content, path: String::new() }
    }

    /// Renders the document as a page: each code block shown as its
    /// highlighted code (see [`block_inner`]), where a documentation test
    /// shows its display code, the `k`-th test the `k`-th entry of
    /// `display_codes`; otherwise as [`Self::render_blocks`] does. Fails
    /// exactly when a block's code does not parse with its language's syntax
    /// definition.
    pub fn render(&self, index: &SymbolIndex, base_url: &str, hs: &HighlightState, display_codes: &Vec<String>) -> (r: Result<Page, HighlightError>)
        ensures
            ({
                let outs = run_model(self.event_models(), index@, base_url@);
                let blocks = blocks_of(outs.1);
                let shown = shown_codes(blocks, display_codes@.map_values(|s: String| s@));
                &&& r is Ok == blocks_highlight(blocks, shown)
                &&& r matches Ok(page) ==> {
                    &&& page.title@ == outs.0.title
                    &&& page.path@ == Seq::<char>::empty()
                    &&& page.content@ == markdown_html(
                        self.source(),
                        emits_of(outs.1, inner_htmls(blocks, shown)),
                    )
                }
            }),
    {
        let blocks = collect_code_blocks(&self.models, index, base_url);
        let shown = shown_codes_exec(&blocks, display_codes);
        proof {
            lemma_shown_codes_len(
                blocks@.map_values(|b: CodeBlock| b@),
                display_codes@.map_values(|s: String| s@),
            );
        }
        let ghost bm = blocks@.map_values(|b: CodeBlock| b@);
        let ghost sm = shown_codes(bm, display_codes@.map_values(|s: String| s@));
        let ghost want = inner_htmls(bm, sm);
        let mut inner: Vec<String> = Vec::new();
        let mut j: usize = 0;
        while j < blocks.len()
            invariant
                j <= blocks@.len(),
                shown@.len() == blocks@.len(),
                bm == blocks@.map_values(|b: CodeBlock| b@),
                bm == blocks_of(run_model(self.event_models(), index@, base_url@).1),
                sm == shown_codes(bm, display_codes@.map_values(|s: String| s@)),
                shown@.map_values(|s: String| s@) == sm,
                want == inner_htmls(bm, sm),
                inner@.map_values(|h: String| h@) == want.take(j as int),
                forall|k: int| 0 <= k < j ==> (#[trigger] block_inner(bm[k].lang, sm[k])) is Some,
            decreases blocks@.len() - j,
        {
            assert(sm[j as int] == shown@[j as int]@);
            assert(bm[j as int] == blocks@[j as int]@);
            let ghost before = inner@.map_values(|h: String| h@);
            let h = match code_block_inner(hs, blocks[j].lang.as_str(), shown[j].as_str()) {
                Ok(h) => h,
                Err(e) => {
                    assert(!blocks_highlight(bm, sm)) by {
                        assert(block_inner(bm[j as int].lang, sm[j as int]) is None);
                    }
                    return Err(e);
                },
            };
            inner.push(h);
            assert(inner@.map_values(|h: String| h@) =~= before.push(h@));
            assert(want.take(j + 1) =~= want.take(j as int).push(want[j as int]));
            j += 1;
        }
        assert(want.take(blocks@.len() as int) =~= want);
        assert(blocks_highlight(bm, sm));
        let page = self.render_blocks(index, base_url, &inner);
        Ok(page)
    }
}


proof fn lemma_doctest_count_is_filter_len(blocks: Seq<CodeBlockModel>)
    ensures
        doctest_count(blocks) == blocks.filter(|b: CodeBlockModel| b.doctest is Some).len(),
    decreases blocks.len(),
{
    reveal(Seq::filter);
    if blocks.len() > 0 {
        lemma_doctest_count_is_filter_len(blocks.drop_last());
    }
}

/// Each code block shows the display code of its own documentation test:
/// a block that is the `k`-th documentation test of the document (counting
/// from 0, among the blocks before it) shows `display_codes[k]` when there is
/// such an entry; every other block shows its own code. There is one shown
/// code per block.
pub proof fn law_block_shows_its_own_display_code(
    blocks: Seq<CodeBlockModel>,
    display_codes: Seq<Seq<char>>,
    j: int,
)
    requires
        0 <= j < blocks.len(),
    ensures
        shown_codes(blocks, display_codes).len() == blocks.len(),
        ({
            let k = blocks.take(j).filter(|b: CodeBlockModel| b.doctest is Some).len();
            shown_codes(blocks, display_codes)[j] == if blocks[j].doctest is Some && k
                < display_codes.len() {
                display_codes[k as int]
            } else {
                blocks[j].code
            }
        }),
    decreases blocks.len(),
{
    lemma_shown_codes_len(blocks, display_codes);
    let prev = blocks.drop_last();
    if j == blocks.len() - 1 {
        assert(blocks.take(j) =~= prev);
        lemma_doctest_count_is_filter_len(prev);
    } else {
        law_block_shows_its_own_display_code(prev, display_codes, j);
        assert(prev.take(j) =~= blocks.take(j));
        lemma_shown_codes_len(prev, display_codes);
    }
}

} // verus!
