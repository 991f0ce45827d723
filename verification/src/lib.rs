//! The verified core of `duck`, a documentation generator for C and C++:
//! where the page of each documented symbol lives, how the Markdown of
//! comments and pages is rewritten (documentation links, mermaid diagrams,
//! highlighted code blocks, documentation tests, titles), and the search
//! index.

pub mod text;
pub mod symbols;
pub mod paths;
pub mod markdown;
pub mod syntaxes;
pub mod highlight;
pub mod pulldown;
pub mod render;
pub mod search;
