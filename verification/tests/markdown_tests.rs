use duck::markdown::{
    code_block_html_exec, code_block_kind_exec, collect_code_blocks, doc_link_html_exec,
    mermaid_html_exec, rewrite, Emit, MdEvent, Rewrite, RewriteState,
};
use duck::symbols::SymbolIndex;

fn index() -> SymbolIndex {
    let mut idx = SymbolIndex::new();
    idx.insert("ns".to_string(), "namespace".to_string());
    idx.insert("ns::Rec".to_string(), "record".to_string());
    idx
}

fn text(s: &str) -> MdEvent {
    MdEvent::Text(s.to_string())
}

fn fenced(lang: &str) -> MdEvent {
    MdEvent::StartFencedCode(lang.to_string())
}

fn html_of(r: &Rewrite) -> Option<String> {
    match r {
        Rewrite::Html(h) => Some(h.clone()),
        _ => None,
    }
}

#[test]
fn code_block_kinds() {
    assert_eq!(code_block_kind_exec("cpp"), ("cpp".to_string(), Some(true)));
    assert_eq!(code_block_kind_exec("c++"), ("cpp".to_string(), Some(true)));
    assert_eq!(code_block_kind_exec(""), ("cpp".to_string(), Some(true)));
    assert_eq!(code_block_kind_exec("nomain"), ("cpp".to_string(), Some(false)));
    assert_eq!(code_block_kind_exec("c++-nomain"), ("cpp".to_string(), Some(false)));
    assert_eq!(code_block_kind_exec("cpp-nomain"), ("cpp".to_string(), Some(false)));
    assert_eq!(code_block_kind_exec("python"), ("python".to_string(), None));
    assert_eq!(code_block_kind_exec("C++"), ("C++".to_string(), None));
}

#[test]
fn html_snippets() {
    assert_eq!(mermaid_html_exec("graph TD"), "<div class=\"mermaid\">graph TD</div>");
    assert_eq!(code_block_html_exec("x"), "<div class=\"code highlight\"><pre>x</pre></div>");
    assert_eq!(doc_link_html_exec("/duck", "ns/record.Rec"), "<a href=\"/duck/ns/record.Rec.html\">");
    assert_eq!(doc_link_html_exec("", "function.f"), "<a href=\"/function.f.html\">");
}

#[test]
fn code_block_text_is_gathered_and_dropped() {
    let idx = index();
    let mut st = RewriteState::new();
    assert!(matches!(st.step(&fenced("cpp"), &idx, ""), Rewrite::Drop));
    assert!(matches!(st.step(&text("int x;\n"), &idx, ""), Rewrite::Drop));
    assert!(matches!(st.step(&text("int y;\n"), &idx, ""), Rewrite::Drop));
    match st.step(&MdEvent::EndCodeBlock, &idx, "") {
        Rewrite::Code(b) => {
            assert_eq!(b.lang, "cpp");
            assert_eq!(b.code, "int x;\nint y;\n");
            assert_eq!(b.doctest, Some(true));
        }
        _ => panic!("expected a code block"),
    }
    assert!(matches!(st.step(&text("after"), &idx, ""), Rewrite::Keep));
}

#[test]
fn mermaid_block_becomes_diagram() {
    let idx = index();
    let mut st = RewriteState::new();
    st.step(&fenced("mermaid"), &idx, "");
    st.step(&text("graph TD;\n"), &idx, "");
    let out = st.step(&MdEvent::EndCodeBlock, &idx, "");
    assert_eq!(html_of(&out), Some("<div class=\"mermaid\">graph TD;\n</div>".to_string()));
    // The diagram closes like any code block: later text is shown.
    assert!(matches!(st.step(&text("later"), &idx, ""), Rewrite::Keep));
}

#[test]
fn metadata_sets_title_and_is_dropped() {
    let idx = index();
    let mut st = RewriteState::new();
    assert!(matches!(st.step(&MdEvent::StartMetadata, &idx, ""), Rewrite::Drop));
    assert!(matches!(st.step(&text("title: My Page\n"), &idx, ""), Rewrite::Drop));
    assert!(matches!(st.step(&MdEvent::EndMetadata, &idx, ""), Rewrite::Drop));
    assert_eq!(st.title(), "My Page");
}

#[test]
fn doc_links_resolve_through_the_index() {
    let idx = index();
    let mut st = RewriteState::new();
    let link = MdEvent::StartLink { url: "::ns::Rec".to_string(), borrowed: true };
    assert_eq!(
        html_of(&st.step(&link, &idx, "/base")),
        Some("<a href=\"/base/ns/record.Rec.html\">".to_string())
    );
    assert!(matches!(st.step(&text("Rec"), &idx, "/base"), Rewrite::Keep));
    assert_eq!(html_of(&st.step(&MdEvent::EndLink, &idx, "/base")), Some("</a>".to_string()));
    // A second end of link belongs to an ordinary link.
    assert!(matches!(st.step(&MdEvent::EndLink, &idx, "/base"), Rewrite::Keep));
}

#[test]
fn other_links_pass_through() {
    let idx = index();
    let mut st = RewriteState::new();
    let unknown = MdEvent::StartLink { url: "::nope".to_string(), borrowed: true };
    assert!(matches!(st.step(&unknown, &idx, ""), Rewrite::Keep));
    let web = MdEvent::StartLink { url: "https://x".to_string(), borrowed: true };
    assert!(matches!(st.step(&web, &idx, ""), Rewrite::Keep));
    let owned = MdEvent::StartLink { url: "::ns".to_string(), borrowed: false };
    assert!(matches!(st.step(&owned, &idx, ""), Rewrite::Keep));
    assert!(matches!(st.step(&MdEvent::EndLink, &idx, ""), Rewrite::Keep));
}

#[test]
fn whole_document_rewrite() {
    let idx = index();
    let evs = vec![
        MdEvent::Other,
        text("hello"),
        fenced("nomain"),
        text("f();\n"),
        MdEvent::EndCodeBlock,
        fenced("python"),
        text("print(1)\n"),
        MdEvent::EndCodeBlock,
        MdEvent::Other,
    ];
    let blocks = collect_code_blocks(&evs, &idx, "");
    assert_eq!(blocks.len(), 2);
    assert_eq!(blocks[0].doctest, Some(false));
    assert_eq!(blocks[0].lang, "cpp");
    assert_eq!(blocks[1].doctest, None);
    assert_eq!(blocks[1].lang, "python");
    let inner = vec!["A".to_string()];
    let r = rewrite(&evs, &idx, "", &inner);
    assert_eq!(r.title, "");
    let emitted: Vec<String> = r
        .emits
        .iter()
        .map(|e| match e {
            Emit::Keep(i) => format!("keep {}", i),
            Emit::Html(h) => format!("html {}", h),
        })
        .collect();
    assert_eq!(
        emitted,
        vec![
            "keep 0".to_string(),
            "keep 1".to_string(),
            "html <div class=\"code highlight\"><pre>A</pre></div>".to_string(),
            "html <div class=\"code highlight\"><pre></pre></div>".to_string(),
            "keep 8".to_string(),
        ]
    );
}

#[test]
fn indented_block_end_reuses_last_language() {
    let idx = index();
    // An indented block's start is passed on, and its end is treated like the
    // end of a block in the language last seen.
    let evs = vec![MdEvent::Other, text("code\n"), MdEvent::EndCodeBlock];
    let blocks = collect_code_blocks(&evs, &idx, "");
    assert_eq!(blocks.len(), 1);
    assert_eq!(blocks[0].code, "");
    assert_eq!(blocks[0].doctest, Some(true));
}
