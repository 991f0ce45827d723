use vstd::prelude::*;
use vstd::string::StringExecFns;

use crate::paths::{get_path_for_name, path_for_name};
use crate::symbols::SymbolIndex;
use crate::text::{
    split, split_exec, split_from, starts_with, starts_with_exec, str_eq, trim, trim_exec,
    trim_start_matches, trim_start_matches_exec,
};

verus! {

// ---------------------------------------------------------------------------
// Markdown events, as far as the rewriting reads them.
// ---------------------------------------------------------------------------

/// One event of a parsed markdown document, reduced to what the rewriting
/// of documentation pages looks at. Every event the rewriting does not
/// single out is `Other`.
pub enum MdEvent {
    /// The start of a fenced code block, with its info string (the language).
    StartFencedCode(String),
    /// The end of a code block (fenced or indented).
    EndCodeBlock,
    /// A text node.
    Text(String),
    /// The start of a YAML-style metadata block.
    StartMetadata,
    /// The end of a metadata block.
    EndMetadata,
    /// The start of a link to `url`; `borrowed` tells whether the parser
    /// handed the URL out as a slice of the input (it does so for URLs that
    /// need no unescaping).
    StartLink { url: String, borrowed: bool },
    /// The end of a link.
    EndLink,
    /// Any other event.
    Other,
}

/// A code block that ended outside a mermaid diagram, as the rewriting
/// passes it on to be highlighted.
pub struct CodeBlock {
    /// The language to highlight the block as.
    pub lang: String,
    /// The code of the block.
    pub code: String,
    /// `Some(has_main)` when the block is a documentation test; `has_main`
    /// tells whether the test brings its own `main`.
    pub doctest: Option<bool>,
}

/// What the rewriting makes of one event.
pub enum Rewrite {
    /// The event is left out of the output.
    Drop,
    /// The event goes to the output unchanged.
    Keep,
    /// The event is replaced by this HTML.
    Html(String),
    /// A code block ended; it is replaced by the HTML of the highlighted block.
    Code(CodeBlock),
}

/// One event of the rewritten document.
pub enum Emit {
    /// The input event at this position, unchanged.
    Keep(usize),
    /// Raw HTML.
    Html(String),
}

// ---------------------------------------------------------------------------
// The model.
// ---------------------------------------------------------------------------

/// The state of the rewriting between two events.
pub struct RewriteModel {
    pub code: Seq<char>,
    pub in_code_block: bool,
    pub code_lang: Seq<char>,
    pub in_metadata: bool,
    pub metadata: Seq<char>,
    pub title: Seq<char>,
    pub in_doc_link: bool,
}

pub struct CodeBlockModel {
    pub lang: Seq<char>,
    pub code: Seq<char>,
    pub doctest: Option<bool>,
}

pub enum RewriteModelOut {
    Drop,
    Keep,
    Html(Seq<char>),
    Code(CodeBlockModel),
}

pub enum EmitModel {
    Keep(int),
    Html(Seq<char>),
}

impl View for CodeBlock {
    type V = CodeBlockModel;

    open spec fn view(&self) -> CodeBlockModel {
        CodeBlockModel { lang: self.lang@, code: self.code@, doctest: self.doctest }
    }
}

impl View for Rewrite {
    type V = RewriteModelOut;

    open spec fn view(&self) -> RewriteModelOut {
        match self {
            Rewrite::Drop => RewriteModelOut::Drop,
            Rewrite::Keep => RewriteModelOut::Keep,
            Rewrite::Html(h) => RewriteModelOut::Html(h@),
            Rewrite::Code(b) => RewriteModelOut::Code(b@),
        }
    }
}

impl View for Emit {
    type V = EmitModel;

    open spec fn view(&self) -> EmitModel {
        match self {
            Emit::Keep(i) => EmitModel::Keep(*i as int),
            Emit::Html(h) => EmitModel::Html(h@),
        }
    }
}

/// The state before the first event.
pub open spec fn initial_model() -> RewriteModel {
    RewriteModel {
        code: seq![],
        in_code_block: false,
        code_lang: seq![],
        in_metadata: false,
        metadata: seq![],
        title: seq![],
        in_doc_link: false,
    }
}

/// The HTML of a mermaid diagram.
pub open spec fn mermaid_html(code: Seq<char>) -> Seq<char> {
    "<div class=\"mermaid\">"@ + code + "</div>"@
}

/// The HTML of a highlighted code block whose inner HTML is `inner`.
pub open spec fn code_block_html(inner: Seq<char>) -> Seq<char> {
    "<div class=\"code highlight\"><pre>"@ + inner + "</pre></div>"@
}

/// The opening tag of a link to the documentation page at `path`.
pub open spec fn doc_link_html(base_url: Seq<char>, path: Seq<char>) -> Seq<char> {
    "<a href=\""@ + base_url + "/"@ + path + ".html\">"@
}

/// How a code block in language `lang` is treated: the language it is
/// highlighted as, and whether it is a documentation test (`Some(true)`
/// for C++ blocks, which are full programs, `Some(false)` for the
/// `nomain` variants, which are wrapped in a `main`).
pub open spec fn code_block_kind(lang: Seq<char>) -> (Seq<char>, Option<bool>) {
    if lang == "cpp"@ || lang == "c++"@ || lang.len() == 0 {
        ("cpp"@, Some(true))
    } else if lang == "nomain"@ || lang == "c++-nomain"@ || lang == "cpp-nomain"@ {
        ("cpp"@, Some(false))
    } else {
        (lang, None)
    }
}

/// The first of `lines` that begins with `p`.
pub open spec fn first_with_prefix(lines: Seq<Seq<char>>, p: Seq<char>) -> Option<Seq<char>>
    decreases lines.len(),
{
    if lines.len() == 0 {
        None
    } else if starts_with(lines[0], p) {
        Some(lines[0])
    } else {
        first_with_prefix(lines.drop_first(), p)
    }
}

/// The title a metadata block gives: the text after `title:` on its first
/// line that begins with `title:`, without surrounding whitespace, or
/// nothing. (A line's `\r` before its `\n` is whitespace, and goes too.)
pub open spec fn title_of(metadata: Seq<char>) -> Seq<char> {
    match first_with_prefix(split(metadata, "\n"@), "title:"@) {
        Some(line) => trim(trim_start_matches(line, "title:"@)),
        None => seq![],
    }
}

/// One step of the rewriting: the state after `ev` and what becomes of `ev`.
/// Links whose URL starts with `::` point to the documentation of the
/// symbol so named in `index`, under `base_url`.
pub open spec fn step_model(
    st: RewriteModel,
    ev: MdEvent,
    index: Map<Seq<char>, Seq<char>>,
    base_url: Seq<char>,
) -> (RewriteModel, RewriteModelOut) {
    match ev {
        MdEvent::StartFencedCode(lang) => (
            RewriteModel { code_lang: lang@, in_code_block: true, ..st },
            RewriteModelOut::Drop,
        ),
        MdEvent::EndCodeBlock => {
            if st.code_lang == "mermaid"@ {
                (
                    RewriteModel { in_code_block: false, code: seq![], ..st },
                    RewriteModelOut::Html(mermaid_html(st.code)),
                )
            } else {
                let kind = code_block_kind(st.code_lang);
                (
                    RewriteModel { code_lang: kind.0, in_code_block: false, code: seq![], ..st },
                    RewriteModelOut::Code(
                        CodeBlockModel { lang: kind.0, code: st.code, doctest: kind.1 },
                    ),
                )
            }
        },
        MdEvent::Text(t) => {
            if st.in_code_block {
                (RewriteModel { code: st.code + t@, ..st }, RewriteModelOut::Drop)
            } else if st.in_metadata {
                (RewriteModel { metadata: st.metadata + t@, ..st }, RewriteModelOut::Drop)
            } else {
                (st, RewriteModelOut::Keep)
            }
        },
        MdEvent::StartMetadata => (
            RewriteModel { in_metadata: true, ..st },
            RewriteModelOut::Drop,
        ),
        MdEvent::EndMetadata => (
            RewriteModel {
                in_metadata: false,
                title: title_of(st.metadata),
                metadata: seq![],
                ..st
            },
            RewriteModelOut::Drop,
        ),
        MdEvent::StartLink { url, borrowed } => {
            if borrowed && starts_with(url@, "::"@) {
                match path_for_name(trim_start_matches(url@, "::"@), index, None) {
                    Some(target) => (
                        RewriteModel { in_doc_link: true, ..st },
                        RewriteModelOut::Html(doc_link_html(base_url, target)),
                    ),
                    None => (st, RewriteModelOut::Keep),
                }
            } else {
                (st, RewriteModelOut::Keep)
            }
        },
        MdEvent::EndLink => {
            if st.in_doc_link {
                (RewriteModel { in_doc_link: false, ..st }, RewriteModelOut::Html("</a>"@))
            } else {
                (st, RewriteModelOut::Keep)
            }
        },
        MdEvent::Other => (st, RewriteModelOut::Keep),
    }
}

/// The rewriting of a whole event sequence: the final state and what
/// becomes of each event, in order.
pub open spec fn run_model(
    evs: Seq<MdEvent>,
    index: Map<Seq<char>, Seq<char>>,
    base_url: Seq<char>,
) -> (RewriteModel, Seq<RewriteModelOut>)
    decreases evs.len(),
{
    if evs.len() == 0 {
        (initial_model(), seq![])
    } else {
        let prev = run_model(evs.drop_last(), index, base_url);
        let next = step_model(prev.0, evs.last(), index, base_url);
        (next.0, prev.1.push(next.1))
    }
}

/// The code blocks among the outcomes, in order.
pub open spec fn blocks_of(outs: Seq<RewriteModelOut>) -> Seq<CodeBlockModel>
    decreases outs.len(),
{
    if outs.len() == 0 {
        seq![]
    } else {
        match outs.last() {
            RewriteModelOut::Code(b) => blocks_of(outs.drop_last()).push(b),
            _ => blocks_of(outs.drop_last()),
        }
    }
}

/// The `j`-th inner block HTML, or nothing when there is none.
pub open spec fn inner_at(inner: Seq<Seq<char>>, j: int) -> Seq<char> {
    if 0 <= j < inner.len() {
        inner[j]
    } else {
        seq![]
    }
}

/// The output events for the outcomes, the `j`-th code block being shown
/// with the inner HTML `inner[j]`.
pub open spec fn emits_of(outs: Seq<RewriteModelOut>, inner: Seq<Seq<char>>) -> Seq<EmitModel>
    decreases outs.len(),
{
    if outs.len() == 0 {
        seq![]
    } else {
        let prev = emits_of(outs.drop_last(), inner);
        match outs.last() {
            RewriteModelOut::Drop => prev,
            RewriteModelOut::Keep => prev.push(EmitModel::Keep(outs.len() - 1)),
            RewriteModelOut::Html(h) => prev.push(EmitModel::Html(h)),
            RewriteModelOut::Code(_) => prev.push(
                EmitModel::Html(
                    code_block_html(inner_at(inner, blocks_of(outs.drop_last()).len() as int)),
                ),
            ),
        }
    }
}

// ---------------------------------------------------------------------------
// The implementation.
// ---------------------------------------------------------------------------

/// The state of the rewriting between two events.
pub struct RewriteState {
    code: String,
    in_code_block: bool,
    code_lang: String,
    in_metadata: bool,
    metadata: String,
    title: String,
    in_doc_link: bool,
}

impl View for RewriteState {
    type V = RewriteModel;

    closed spec fn view(&self) -> RewriteModel {
        RewriteModel {
            code: self.code@,
            in_code_block: self.in_code_block,
            code_lang: self.code_lang@,
            in_metadata: self.in_metadata,
            metadata: self.metadata@,
            title: self.title@,
            in_doc_link: self.in_doc_link,
        }
    }
}

/// The title that the metadata block `metadata` gives.
pub fn title_of_exec(metadata: &str) -> (title: String)
    ensures
        title@ == title_of(metadata@),
{
    proof {
        reveal_strlit("\n");
        reveal_strlit("title:");
    }
    let lines = split_exec(metadata, "\n");
    let ghost model = lines@.map_values(|x: String| x@);
    let mut i: usize = 0;
    assert(model.skip(0) =~= model);
    while i < lines.len()
        invariant
            model == lines@.map_values(|x: String| x@),
            model == split(metadata@, "\n"@),
            i <= lines@.len(),
            first_with_prefix(model, "title:"@) == first_with_prefix(model.skip(i as int), "title:"@),
        decreases lines@.len() - i,
    {
        proof {
            reveal_strlit("title:");
        }
        assert(model.skip(i as int).drop_first() =~= model.skip(i + 1));
        assert(model.skip(i as int)[0] == lines@[i as int]@);
        if starts_with_exec(lines[i].as_str(), "title:") {
            let rest = trim_start_matches_exec(lines[i].as_str(), "title:");
            return String::from_str(trim_exec(rest));
        }
        i += 1;
    }
    String::new()
}

/// Whether `a` names one of `b`, `c` and `d`.
fn one_of(a: &str, b: &str, c: &str, d: &str) -> (r: bool)
    ensures
        r == (a@ == b@ || a@ == c@ || a@ == d@),
{
    str_eq(a, b) || str_eq(a, c) || str_eq(a, d)
}

/// How a code block in language `lang` is treated (see [`code_block_kind`]).
pub fn code_block_kind_exec(lang: &str) -> (r: (String, Option<bool>))
    ensures
        (r.0@, r.1) == code_block_kind(lang@),
{
    proof {
        reveal_strlit("");
        if lang@.len() == 0 {
            assert(lang@ =~= ""@);
        }
    }
    if one_of(lang, "cpp", "c++", "") {
        (String::from_str("cpp"), Some(true))
    } else if one_of(lang, "nomain", "c++-nomain", "cpp-nomain") {
        (String::from_str("cpp"), Some(false))
    } else {
        (String::from_str(lang), None)
    }
}

/// The HTML of a mermaid diagram.
pub fn mermaid_html_exec(code: &str) -> (h: String)
    ensures
        h@ == mermaid_html(code@),
{
    let mut h = String::from_str("<div class=\"mermaid\">");
    h.append(code);
    h.append("</div>");
    h
}

/// The HTML of a highlighted code block whose inner HTML is `inner`.
pub fn code_block_html_exec(inner: &str) -> (h: String)
    ensures
        h@ == code_block_html(inner@),
{
    let mut h = String::from_str("<div class=\"code highlight\"><pre>");
    h.append(inner);
    h.append("</pre></div>");
    h
}

/// The opening tag of a link to the documentation page at `path`.
pub fn doc_link_html_exec(base_url: &str, path: &str) -> (h: String)
    ensures
        h@ == doc_link_html(base_url@, path@),
{
    let mut h = String::from_str("<a href=\"");
    h.append(base_url);
    h.append("/");
    h.append(path);
    h.append(".html\">");
    h
}

impl RewriteState {
    /// The state before the first event.
    pub fn new() -> (st: Self)
        ensures
            st@ == initial_model(),
    {
        RewriteState {
            code: String::new(),
            in_code_block: false,
            code_lang: String::new(),
            in_metadata: false,
            metadata: String::new(),
            title: String::new(),
            in_doc_link: false,
        }
    }

    /// The title gathered so far.
    pub fn title(&self) -> (t: &String)
        ensures
            t@ == self@.title,
    {
        &self.title
    }

    /// Rewrites one event (see [`step_model`]).
    pub fn step(&mut self, ev: &MdEvent, index: &SymbolIndex, base_url: &str) -> (out: Rewrite)
        ensures
            (final(self)@, out@) == step_model(old(self)@, *ev, index@, base_url@),
    {
        proof {
            reveal_strlit("::");
            reveal_strlit("mermaid");
        }
        match ev {
            MdEvent::StartFencedCode(lang) => {
                self.code_lang = lang.clone();
                self.in_code_block = true;
                Rewrite::Drop
            },
            MdEvent::EndCodeBlock => {
                if str_eq(self.code_lang.as_str(), "mermaid") {
                    let html = mermaid_html_exec(self.code.as_str());
                    self.code = String::new();
                    self.in_code_block = false;
                    Rewrite::Html(html)
                } else {
                    let (lang, doctest) = code_block_kind_exec(self.code_lang.as_str());
                    let mut code = String::new();
                    std::mem::swap(&mut code, &mut self.code);
                    self.code_lang = lang.clone();
                    self.in_code_block = false;
                    Rewrite::Code(CodeBlock { lang, code, doctest })
                }
            },
            MdEvent::Text(t) => {
                if self.in_code_block {
                    self.code.append(t.as_str());
                    Rewrite::Drop
                } else if self.in_metadata {
                    self.metadata.append(t.as_str());
                    Rewrite::Drop
                } else {
                    Rewrite::Keep
                }
            },
            MdEvent::StartMetadata => {
                self.in_metadata = true;
                Rewrite::Drop
            },
            MdEvent::EndMetadata => {
                self.in_metadata = false;
                self.title = title_of_exec(self.metadata.as_str());
                self.metadata = String::new();
                Rewrite::Drop
            },
            MdEvent::StartLink { url, borrowed } => {
                if *borrowed && starts_with_exec(url.as_str(), "::") {
                    let name = trim_start_matches_exec(url.as_str(), "::");
                    match get_path_for_name(name, index, None) {
                        Some(target) => {
                            self.in_doc_link = true;
                            Rewrite::Html(doc_link_html_exec(base_url, target.as_str()))
                        },
                        None => Rewrite::Keep,
                    }
                } else {
                    Rewrite::Keep
                }
            },
            MdEvent::EndLink => {
                if self.in_doc_link {
                    self.in_doc_link = false;
                    Rewrite::Html(String::from_str("</a>"))
                } else {
                    Rewrite::Keep
                }
            },
            MdEvent::Other => Rewrite::Keep,
        }
    }
}


/// A rewritten document: its output events and its title.
pub struct Rewritten {
    pub emits: Vec<Emit>,
    pub title: String,
}

pub proof fn lemma_run_len(evs: Seq<MdEvent>, index: Map<Seq<char>, Seq<char>>, base_url: Seq<char>)
    ensures
        run_model(evs, index, base_url).1.len() == evs.len(),
    decreases evs.len(),
{
    if evs.len() > 0 {
        lemma_run_len(evs.drop_last(), index, base_url);
    }
}

proof fn lemma_blocks_len(outs: Seq<RewriteModelOut>)
    ensures
        blocks_of(outs).len() <= outs.len(),
    decreases outs.len(),
{
    if outs.len() > 0 {
        lemma_blocks_len(outs.drop_last());
    }
}

/// The code blocks of `evs` that the rewriting hands on to be highlighted,
/// in order.
pub fn collect_code_blocks(evs: &Vec<MdEvent>, index: &SymbolIndex, base_url: &str) -> (blocks:
    Vec<CodeBlock>)
    ensures
        blocks@.map_values(|b: CodeBlock| b@) == blocks_of(run_model(evs@, index@, base_url@).1),
{
    let mut st = RewriteState::new();
    let mut blocks: Vec<CodeBlock> = Vec::new();
    let mut i: usize = 0;
    assert(evs@.take(0) =~= Seq::<MdEvent>::empty());
    while i < evs.len()
        invariant
            i <= evs@.len(),
            st@ == run_model(evs@.take(i as int), index@, base_url@).0,
            blocks@.map_values(|b: CodeBlock| b@) == blocks_of(
                run_model(evs@.take(i as int), index@, base_url@).1,
            ),
        decreases evs@.len() - i,
    {
        let ghost before = blocks@.map_values(|b: CodeBlock| b@);
        assert(evs@.take(i + 1).drop_last() =~= evs@.take(i as int));
        let ghost prev = run_model(evs@.take(i as int), index@, base_url@);
        let ghost next = run_model(evs@.take(i + 1), index@, base_url@);
        let out = st.step(&evs[i], index, base_url);
        assert(next.1 == prev.1.push(out@));
        assert(next.1.drop_last() =~= prev.1);
        match out {
            Rewrite::Code(b) => {
                blocks.push(b);
                assert(blocks@.map_values(|b: CodeBlock| b@) =~= before.push(blocks@.last()@));
            },
            _ => {},
        }
        i += 1;
    }
    assert(evs@.take(evs@.len() as int) =~= evs@);
    blocks
}

/// Rewrites the events `evs`: the output events, the `j`-th code block being
/// shown with the inner HTML `inner[j]` (nothing when `inner` has no such
/// entry), and the title that the document's metadata gives.
pub fn rewrite(evs: &Vec<MdEvent>, index: &SymbolIndex, base_url: &str, inner: &Vec<String>) -> (r:
    Rewritten)
    ensures
        r.emits@.map_values(|e: Emit| e@) == emits_of(
            run_model(evs@, index@, base_url@).1,
            inner@.map_values(|h: String| h@),
        ),
        r.title@ == run_model(evs@, index@, base_url@).0.title,
{
    let ghost inner_model = inner@.map_values(|h: String| h@);
    let mut st = RewriteState::new();
    let mut emits: Vec<Emit> = Vec::new();
    let mut blocks: usize = 0;
    let mut i: usize = 0;
    assert(evs@.take(0) =~= Seq::<MdEvent>::empty());
    while i < evs.len()
        invariant
            i <= evs@.len(),
            inner_model == inner@.map_values(|h: String| h@),
            st@ == run_model(evs@.take(i as int), index@, base_url@).0,
            blocks == blocks_of(run_model(evs@.take(i as int), index@, base_url@).1).len(),
            emits@.map_values(|e: Emit| e@) == emits_of(
                run_model(evs@.take(i as int), index@, base_url@).1,
                inner_model,
            ),
        decreases evs@.len() - i,
    {
        let ghost before = emits@.map_values(|e: Emit| e@);
        assert(evs@.take(i + 1).drop_last() =~= evs@.take(i as int));
        proof {
            lemma_run_len(evs@.take(i + 1), index@, base_url@);
            lemma_run_len(evs@.take(i as int), index@, base_url@);
        }
        let ghost prev = run_model(evs@.take(i as int), index@, base_url@);
        let ghost next = run_model(evs@.take(i + 1), index@, base_url@);
        proof {
            lemma_blocks_len(prev.1);
        }
        let out = st.step(&evs[i], index, base_url);
        assert(next.1 == prev.1.push(out@));
        assert(next.1.drop_last() =~= prev.1);
        match out {
            Rewrite::Drop => {},
            Rewrite::Keep => {
                emits.push(Emit::Keep(i));
                assert(emits@.map_values(|e: Emit| e@) =~= before.push(EmitModel::Keep(i as int)));
            },
            Rewrite::Html(h) => {
                let ghost hv = h@;
                emits.push(Emit::Html(h));
                assert(emits@.map_values(|e: Emit| e@) =~= before.push(EmitModel::Html(hv)));
            },
            Rewrite::Code(_) => {
                let h = if blocks < inner.len() {
                    code_block_html_exec(inner[blocks].as_str())
                } else {
                    code_block_html_exec("")
                };
                proof {
                    reveal_strlit("");
                    assert(""@ =~= Seq::<char>::empty());
                }
                let ghost hv = h@;
                emits.push(Emit::Html(h));
                assert(emits@.map_values(|e: Emit| e@) =~= before.push(EmitModel::Html(hv)));
                blocks = blocks + 1;
            },
        }
        i += 1;
    }
    assert(evs@.take(evs@.len() as int) =~= evs@);
    let title = st.title().clone();
    Rewritten { emits, title }
}


proof fn lemma_emits_order(outs: Seq<RewriteModelOut>, inner: Seq<Seq<char>>)
    ensures
        emits_of(outs, inner).len() <= outs.len(),
        forall|a: int|
            0 <= a < emits_of(outs, inner).len() ==> (#[trigger] emits_of(outs, inner)[a] matches EmitModel::Keep(i)
                ==> 0 <= i < outs.len() && outs[i] is Keep),
        forall|a: int, b: int|
            0 <= a < b < emits_of(outs, inner).len() ==> (#[trigger] emits_of(outs, inner)[a] matches EmitModel::Keep(i)
                ==> (#[trigger] emits_of(outs, inner)[b] matches EmitModel::Keep(j) ==> i < j)),
    decreases outs.len(),
{
    if outs.len() > 0 {
        let prev = outs.drop_last();
        lemma_emits_order(prev, inner);
        let e = emits_of(outs, inner);
        let pe = emits_of(prev, inner);
        assert forall|a: int|
            0 <= a < e.len() implies (#[trigger] e[a] matches EmitModel::Keep(i) ==> 0 <= i
                < outs.len() && outs[i] is Keep) by {
            if a < pe.len() {
                assert(e[a] == pe[a]);
                if let EmitModel::Keep(i) = pe[a] {
                    assert(outs[i] == prev[i]);
                }
            }
        }
        assert forall|a: int, b: int|
            0 <= a < b < e.len() implies (#[trigger] e[a] matches EmitModel::Keep(i) ==> (
            #[trigger] e[b] matches EmitModel::Keep(j) ==> i < j)) by {
            assert(e[a] == pe[a]);
            if b < pe.len() {
                assert(e[b] == pe[b]);
            }
        }
    }
}

/// The rewriting only leaves out events or replaces them, in order: the
/// output has at most as many events as the input, an event passed on
/// unchanged is one the rewriting keeps, and events passed on unchanged
/// keep their order.
pub proof fn law_rewrite_preserves_order(
    evs: Seq<MdEvent>,
    index: Map<Seq<char>, Seq<char>>,
    base_url: Seq<char>,
    inner: Seq<Seq<char>>,
)
    ensures
        ({
            let outs = run_model(evs, index, base_url).1;
            let e = emits_of(outs, inner);
            &&& e.len() <= evs.len()
            &&& forall|a: int|
                0 <= a < e.len() ==> (#[trigger] e[a] matches EmitModel::Keep(i) ==> 0 <= i
                    < evs.len() && outs[i] is Keep)
            &&& forall|a: int, b: int|
                0 <= a < b < e.len() ==> (#[trigger] e[a] matches EmitModel::Keep(i) ==> (
                #[trigger] e[b] matches EmitModel::Keep(j) ==> i < j))
        }),
{
    lemma_run_len(evs, index, base_url);
    lemma_emits_order(run_model(evs, index, base_url).1, inner);
}

/// A document without a metadata block has an empty title.
pub proof fn law_title_needs_metadata(
    evs: Seq<MdEvent>,
    index: Map<Seq<char>, Seq<char>>,
    base_url: Seq<char>,
)
    requires
        forall|i: int| 0 <= i < evs.len() ==> !(#[trigger] evs[i] is EndMetadata),
    ensures
        run_model(evs, index, base_url).0.title == Seq::<char>::empty(),
    decreases evs.len(),
{
    if evs.len() > 0 {
        let prev = evs.drop_last();
        assert forall|i: int| 0 <= i < prev.len() implies !(#[trigger] prev[i] is EndMetadata) by {
            assert(prev[i] == evs[i]);
        }
        law_title_needs_metadata(prev, index, base_url);
        assert(!(evs[evs.len() - 1] is EndMetadata));
    }
}

proof fn lemma_doctests_are_cpp(
    evs: Seq<MdEvent>,
    index: Map<Seq<char>, Seq<char>>,
    base_url: Seq<char>,
)
    ensures
        forall|k: int|
            0 <= k < blocks_of(run_model(evs, index, base_url).1).len() ==> (#[trigger] blocks_of(
                run_model(evs, index, base_url).1,
            )[k].doctest is Some ==> blocks_of(run_model(evs, index, base_url).1)[k].lang
                == "cpp"@),
    decreases evs.len(),
{
    if evs.len() > 0 {
        let prev = evs.drop_last();
        lemma_doctests_are_cpp(prev, index, base_url);
        let po = run_model(prev, index, base_url);
        let outs = run_model(evs, index, base_url).1;
        assert(outs.drop_last() =~= po.1);
        let pb = blocks_of(po.1);
        let b = blocks_of(outs);
        assert forall|k: int| 0 <= k < b.len() implies (#[trigger] b[k].doctest is Some ==> b[k].lang
            == "cpp"@) by {
            if k < pb.len() {
                assert(b[k] == pb[k]);
            }
        }
    }
}

/// Every documentation test is highlighted as C++.
pub proof fn law_doctests_are_cpp(
    evs: Seq<MdEvent>,
    index: Map<Seq<char>, Seq<char>>,
    base_url: Seq<char>,
    k: int,
)
    requires
        0 <= k < blocks_of(run_model(evs, index, base_url).1).len(),
        blocks_of(run_model(evs, index, base_url).1)[k].doctest is Some,
    ensures
        blocks_of(run_model(evs, index, base_url).1)[k].lang == "cpp"@,
{
    lemma_doctests_are_cpp(evs, index, base_url);
}


/// Text that follows the end of a code block (outside a metadata block) is
/// passed on unchanged: every code block, a mermaid diagram too, is closed
/// by its end.
pub proof fn law_text_after_code_block_is_kept(
    st: RewriteModel,
    t: String,
    index: Map<Seq<char>, Seq<char>>,
    base_url: Seq<char>,
)
    requires
        !st.in_metadata,
    ensures
        step_model(step_model(st, MdEvent::EndCodeBlock, index, base_url).0, MdEvent::Text(t), index, base_url).1 is Keep,
{
}


/// A link to `::n`, for a name `n` that the index knows, becomes a link to
/// the documentation page of `n` under `base_url`: the start of the link
/// becomes the opening anchor, its text is kept, and its end becomes the
/// closing anchor. (Every leading `::` is trimmed before the lookup, so this
/// is stated for names that do not themselves begin with `::`.)
pub proof fn law_doc_link_becomes_anchor(
    st: RewriteModel,
    url: String,
    n: Seq<char>,
    t: String,
    index: Map<Seq<char>, Seq<char>>,
    base_url: Seq<char>,
)
    requires
        url@ == "::"@ + n,
        !starts_with(n, "::"@),
        path_for_name(n, index, None) is Some,
        !st.in_code_block,
        !st.in_metadata,
    ensures
        ({
            let s1 = step_model(st, MdEvent::StartLink { url, borrowed: true }, index, base_url);
            let s2 = step_model(s1.0, MdEvent::Text(t), index, base_url);
            let s3 = step_model(s2.0, MdEvent::EndLink, index, base_url);
            &&& s1.1 == RewriteModelOut::Html(
                doc_link_html(base_url, path_for_name(n, index, None)->0),
            )
            &&& s2.1 is Keep
            &&& s3.1 == RewriteModelOut::Html("</a>"@)
        }),
{
    reveal_strlit("::");
    let u = "::"@ + n;
    assert(u.subrange(0, 2) =~= "::"@);
    assert(starts_with(u, "::"@));
    assert(u.skip(2) =~= n);
    assert(trim_start_matches(u, "::"@) == trim_start_matches(n, "::"@));
    assert(trim_start_matches(n, "::"@) == n);
}

/// Whether the rewriting would touch `ev`: a code block's start or end, a
/// metadata block's start or end, or the start of a link to a `::`-name.
pub open spec fn touched_by_rewriting(ev: MdEvent) -> bool {
    ||| ev is StartFencedCode
    ||| ev is EndCodeBlock
    ||| ev is StartMetadata
    ||| ev is EndMetadata
    ||| (ev matches MdEvent::StartLink { url, .. } && starts_with(url@, "::"@))
}

/// A document with no code block, no metadata block and no link to a
/// `::`-name passes through the rewriting unchanged: every event is kept, in
/// order, and the title stays empty.
pub proof fn law_plain_document_is_unchanged(
    evs: Seq<MdEvent>,
    index: Map<Seq<char>, Seq<char>>,
    base_url: Seq<char>,
    inner: Seq<Seq<char>>,
)
    requires
        forall|i: int| 0 <= i < evs.len() ==> !touched_by_rewriting(#[trigger] evs[i]),
    ensures
        run_model(evs, index, base_url).0 == initial_model(),
        emits_of(run_model(evs, index, base_url).1, inner) == Seq::new(
            evs.len(),
            |i: int| EmitModel::Keep(i),
        ),
    decreases evs.len(),
{
    if evs.len() > 0 {
        let prev = evs.drop_last();
        assert forall|i: int| 0 <= i < prev.len() implies !touched_by_rewriting(#[trigger] prev[i]) by {
            assert(prev[i] == evs[i]);
        }
        law_plain_document_is_unchanged(prev, index, base_url, inner);
        lemma_run_len(prev, index, base_url);
        assert(!touched_by_rewriting(evs[evs.len() - 1]));
        let outs = run_model(evs, index, base_url).1;
        assert(outs.drop_last() =~= run_model(prev, index, base_url).1);
        assert(emits_of(outs, inner) =~= Seq::new(evs.len(), |i: int| EmitModel::Keep(i)));
    }
}


/// Only blocks in `cpp`, `c++` or no language (full programs) and in
/// `nomain`, `c++-nomain` or `cpp-nomain` (wrapped in a `main`) are
/// documentation tests, and those are highlighted as C++; a block in any
/// other language is highlighted in its own language and is no test.
pub proof fn law_only_cpp_blocks_are_doctests(lang: Seq<char>)
    ensures
        (lang == "cpp"@ || lang == "c++"@ || lang.len() == 0) ==> code_block_kind(lang) == (
            "cpp"@,
            Some(true),
        ),
        (lang == "nomain"@ || lang == "c++-nomain"@ || lang == "cpp-nomain"@) ==> code_block_kind(
            lang,
        ) == ("cpp"@, Some(false)),
        !(lang == "cpp"@ || lang == "c++"@ || lang.len() == 0 || lang == "nomain"@ || lang
            == "c++-nomain"@ || lang == "cpp-nomain"@) ==> code_block_kind(lang) == (
            lang,
            Option::<bool>::None,
        ),
{
    reveal_strlit("cpp");
    reveal_strlit("c++");
    reveal_strlit("");
    reveal_strlit("nomain");
    reveal_strlit("c++-nomain");
    reveal_strlit("cpp-nomain");
    if lang == "nomain"@ || lang == "c++-nomain"@ || lang == "cpp-nomain"@ {
        assert(lang.len() == 6 || lang.len() == 10);
        assert(lang != "cpp"@ && lang != "c++"@ && lang.len() != 0);
    }
}

proof fn lemma_split_one_line(w: Seq<char>, cur: Seq<char>)
    requires
        forall|i: int| 0 <= i < w.len() ==> w[i] != '\n',
    ensures
        split_from(w + "\n"@, "\n"@, cur) == seq![cur + w, Seq::<char>::empty()],
    decreases w.len(),
{
    reveal_strlit("\n");
    let s = w + "\n"@;
    if w.len() == 0 {
        assert(s =~= "\n"@);
        assert(s.subrange(0, 1) =~= "\n"@);
        assert(s.skip(1) =~= Seq::<char>::empty());
        assert(cur + w =~= cur);
        assert(split_from(Seq::<char>::empty(), "\n"@, seq![]) =~= seq![Seq::<char>::empty()]);
    } else {
        assert(s[0] == w[0]);
        assert(!starts_with(s, "\n"@)) by {
            if starts_with(s, "\n"@) {
                assert(s.subrange(0, 1)[0] == '\n');
            }
        }
        let rest = w.skip(1);
        assert(s.skip(1) =~= rest + "\n"@);
        lemma_split_one_line(rest, cur.push(w[0]));
        assert(cur.push(w[0]) + rest =~= cur + w);
    }
}

/// A metadata block whose only line is `title: v` gives the title `v`
/// without its surrounding whitespace: everything after the `title:` prefix
/// is kept, colons included.
pub proof fn law_title_is_text_after_prefix(v: Seq<char>)
    requires
        !starts_with(v, "title:"@),
        forall|i: int| 0 <= i < v.len() ==> v[i] != '\n',
    ensures
        title_of("title:"@ + v + "\n"@) == trim(v),
{
    reveal_strlit("title:");
    let w = "title:"@ + v;
    assert forall|i: int| 0 <= i < w.len() implies w[i] != '\n' by {
        if i >= 6 {
            assert(w[i] == v[i - 6]);
        }
    }
    lemma_split_one_line(w, seq![]);
    assert(Seq::<char>::empty() + w =~= w);
    assert("title:"@ + v + "\n"@ =~= w + "\n"@);
    assert(w.subrange(0, 6) =~= "title:"@);
    assert(starts_with(w, "title:"@));
    let lines = split(w + "\n"@, "\n"@);
    assert(lines[0] == w);
    assert(first_with_prefix(lines, "title:"@) == Some(w));
    assert(w.skip(6) =~= v);
    assert(trim_start_matches(w, "title:"@) == trim_start_matches(v, "title:"@));
}

} // verus!
