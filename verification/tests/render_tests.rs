use duck::highlight::{code_block_inner, highlight_code, inner_html, HighlightState};
use duck::markdown::MdEvent;
use duck::render::{MarkdownDoc, Page};
use duck::search::{build_search_index, escape_quotes_exec, search_link};
use duck::symbols::SymbolIndex;
use syntect::highlighting::ThemeSet;

fn state() -> HighlightState {
    HighlightState::new(ThemeSet::new())
}

fn index() -> SymbolIndex {
    let mut idx = SymbolIndex::new();
    idx.insert("ns".to_string(), "namespace".to_string());
    idx.insert("ns::Rec".to_string(), "record".to_string());
    idx.insert("say\"hi\"".to_string(), "function".to_string());
    idx
}

fn render(input: &str, displays: &Vec<String>) -> Page {
    let doc = MarkdownDoc::parse(input);
    match doc.render(&index(), "/base", &state(), displays) {
        Ok(p) => p,
        Err(_) => panic!("highlighting failed"),
    }
}

#[test]
fn title_comes_from_metadata() {
    let page = render("---\ntitle: Hello\n---\n\nSome text.\n", &vec![]);
    assert_eq!(page.title, "Hello");
    assert!(page.content.contains("Some text."));
    assert!(!page.content.contains("title:"));
    assert_eq!(page.path, "");
}

#[test]
fn plain_document_has_empty_title() {
    let page = render("# Heading\n\ntext\n", &vec![]);
    assert_eq!(page.title, "");
    assert!(page.content.contains("<h1>Heading</h1>"));
}

#[test]
fn doc_link_points_into_documentation() {
    let page = render("See [the record](::ns::Rec).\n", &vec![]);
    assert!(page.content.contains("<a href=\"/base/ns/record.Rec.html\">the record</a>"));
}

#[test]
fn web_link_is_untouched() {
    let page = render("[x](https://example.com)\n", &vec![]);
    assert!(page.content.contains("<a href=\"https://example.com\">x</a>"));
}

#[test]
fn mermaid_diagram() {
    let page = render("```mermaid\ngraph TD;\n```\n", &vec![]);
    assert!(page.content.contains("<div class=\"mermaid\">graph TD;\n</div>"));
}

#[test]
fn unknown_language_is_shown_raw() {
    let page = render("```zzzz\na<b\n```\n", &vec![]);
    assert!(page.content.contains("<div class=\"code highlight\"><pre>a<b\n</pre></div>"));
}

#[test]
fn doctest_blocks_are_listed_and_show_display_code() {
    let input = "```cpp\nint main() {}\n```\n\n```nomain\nfoo();\n```\n\n```python\nx = 1\n```\n";
    let doc = MarkdownDoc::parse(input);
    let blocks = doc.code_blocks(&index(), "/base");
    assert_eq!(blocks.len(), 3);
    assert_eq!(blocks[0].doctest, Some(true));
    assert_eq!(blocks[0].code, "int main() {}\n");
    assert_eq!(blocks[1].doctest, Some(false));
    assert_eq!(blocks[1].code, "foo();\n");
    assert_eq!(blocks[2].doctest, None);
    let displays = vec!["shown_first\n".to_string(), "shown_second\n".to_string()];
    let page = match doc.render(&index(), "/base", &state(), &displays) {
        Ok(p) => p,
        Err(_) => panic!("highlighting failed"),
    };
    assert!(page.content.contains("shown_first"));
    assert!(page.content.contains("shown_second"));
    assert!(!page.content.contains("main"));
    assert!(page.content.contains("<div class=\"code highlight\"><pre><span class=\"source"));
}

#[test]
fn highlighting_known_and_unknown_languages() {
    let hs = state();
    match highlight_code(&hs, "cpp", "int x;\n") {
        Ok(Some(h)) => {
            assert!(h.contains("<span"));
            assert!(h.contains("int"));
            assert_ne!(h, "int x;\n");
        }
        _ => panic!("expected highlighted code"),
    }
    assert!(matches!(highlight_code(&hs, "no-such-language", "x"), Ok(None)));
    match code_block_inner(&hs, "no-such-language", "a<b") {
        Ok(h) => assert_eq!(h, "a<b"),
        Err(_) => panic!("unexpected failure"),
    }
    assert_eq!(inner_html(Some("H".to_string()), "c"), "H");
    assert_eq!(inner_html(None, "c"), "c");
}

#[test]
fn search_links_and_entries() {
    let idx = index();
    assert_eq!(search_link("ns", "namespace", &idx), "ns/index");
    assert_eq!(search_link("ns::Rec", "record", &idx), "ns/record.Rec");
    assert_eq!(search_link("missing", "record", &idx), "");
    assert_eq!(search_link("say\"hi\"", "function", &idx), "function.say&quot;hi&quot;");
    assert_eq!(escape_quotes_exec("a\"b"), "a&quot;b");
    let pages = vec![Page {
        title: "Guide".to_string(),
        content: String::new(),
        path: "pages/guide.md".to_string(),
    }];
    let entries = build_search_index(&idx, &pages);
    assert_eq!(entries.len(), 4);
    for (k, e) in entries.iter().enumerate() {
        assert_eq!(e.id, k as i32);
    }
    assert_eq!(entries[0].name, "ns");
    assert_eq!(entries[0].link, "ns/index");
    assert_eq!(entries[0].kind, "namespace");
    assert_eq!(entries[2].name, "say&quot;hi&quot;");
    assert_eq!(entries[3].name, "Guide");
    assert_eq!(entries[3].link, "pages/guide.md");
    assert_eq!(entries[3].kind, "page");
}

#[test]
fn parse_reads_links_code_blocks_and_text() {
    let doc = MarkdownDoc::parse("[a](::x)\n\n```c\nint\n```\n");
    let m = doc.models();
    assert_eq!(m.len(), 8);
    assert!(matches!(&m[0], MdEvent::Other));
    assert!(matches!(&m[1], MdEvent::StartLink { url, borrowed: true } if url == "::x"));
    assert!(matches!(&m[2], MdEvent::Text(t) if t == "a"));
    assert!(matches!(&m[3], MdEvent::EndLink));
    assert!(matches!(&m[4], MdEvent::Other));
    assert!(matches!(&m[5], MdEvent::StartFencedCode(l) if l == "c"));
    assert!(matches!(&m[6], MdEvent::Text(t) if t == "int\n"));
    assert!(matches!(&m[7], MdEvent::EndCodeBlock));
}

#[test]
fn parse_reads_metadata_blocks() {
    let doc = MarkdownDoc::parse("---\ntitle: T\n---\n");
    let m = doc.models();
    assert_eq!(m.len(), 3);
    assert!(matches!(&m[0], MdEvent::StartMetadata));
    assert!(matches!(&m[1], MdEvent::Text(t) if t == "title: T\n"));
    assert!(matches!(&m[2], MdEvent::EndMetadata));
}

#[test]
fn render_blocks_shows_the_given_inner_html() {
    let doc = MarkdownDoc::parse("Intro\n\n```zzzz\nx\n```\n\n```cpp\ny\n```\n");
    let inner = vec!["FIRST".to_string(), "SECOND".to_string()];
    let page = doc.render_blocks(&index(), "", &inner);
    assert_eq!(
        page.content,
        "<p>Intro</p>\n<div class=\"code highlight\"><pre>FIRST</pre></div><div class=\"code highlight\"><pre>SECOND</pre></div>"
    );
    assert_eq!(page.title, "");
    assert_eq!(page.path, "");
}

#[test]
fn render_blocks_without_inner_html_shows_empty_blocks() {
    let doc = MarkdownDoc::parse("```zzzz\nx\n```\n");
    let page = doc.render_blocks(&index(), "", &vec![]);
    assert_eq!(page.content, "<div class=\"code highlight\"><pre></pre></div>");
}

#[test]
fn empty_code_is_always_highlighted() {
    assert!(code_block_inner(&state(), "cpp", "").is_ok());
    assert!(highlight_code(&state(), "zzzz", "").is_ok());
}

#[test]
fn mermaid_diagram_closes_like_any_block() {
    let page = render("```mermaid\nA\n```\n\nHello\n\n```zzz\nB\n```\n", &vec![]);
    assert!(page.content.contains("<div class=\"mermaid\">A\n</div>"));
    assert!(page.content.contains("<p>Hello</p>"));
    assert!(page.content.contains("<div class=\"code highlight\"><pre>B\n</pre></div>"));
}

#[test]
fn block_without_syntax_shows_its_code() {
    assert_eq!(code_block_inner(&state(), "zzz", "plain\n").ok(), Some("plain\n".to_string()));
    assert!(matches!(highlight_code(&state(), "zzz", "plain\n"), Ok(None)));
}

#[test]
fn known_language_is_highlighted_with_classes() {
    let h = code_block_inner(&state(), "cpp", "int x;\n").ok().unwrap();
    assert!(h.contains("<span class=\""));
    assert!(h.contains("int"));
    assert_ne!(h, "int x;\n");
}

#[test]
fn plain_document_renders_as_parsed() {
    let page = render("# T\n\nSome *text* and [a link](https://x.org).\n", &vec![]);
    assert_eq!(
        page.content,
        "<h1>T</h1>\n<p>Some <em>text</em> and <a href=\"https://x.org\">a link</a>.</p>\n"
    );
    assert_eq!(page.title, "");
}
