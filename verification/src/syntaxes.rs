//! syntect's default syntax definitions and its classed-HTML generator,
//! each opaque value held together with its model. Only the items of this
//! module build or change these values, so a model cannot drift from the
//! value it describes.

use vstd::prelude::*;

use syntect::highlighting::ThemeSet;
use syntect::html::ClassedHTMLGenerator;
use syntect::parsing::{SyntaxReference, SyntaxSet};

verus! {

#[verifier::external_type_specification]
#[verifier::external_body]
pub struct ExSyntaxSet(SyntaxSet);

#[verifier::external_type_specification]
#[verifier::external_body]
pub struct ExThemeSet(ThemeSet);

#[verifier::external_type_specification]
#[verifier::external_body]
pub struct ExSyntaxReference(SyntaxReference);

#[verifier::external_type_specification]
#[verifier::external_body]
pub struct ExClassedHTMLGenerator<'a>(ClassedHTMLGenerator<'a>);

#[verifier::external_type_specification]
#[verifier::external_body]
pub struct ExSyntectError(syntect::Error);

/// Whether syntect's default syntax set (see [`default_syntax_set`]) holds a
/// definition for the file extension `ext`.
pub uninterp spec fn has_syntax(ext: Seq<char>) -> bool;

/// Whether syntect fails to parse `line` with the default syntax definition
/// for `ext`, after the lines `fed` were parsed.
pub uninterp spec fn line_fails(ext: Seq<char>, fed: Seq<Seq<char>>, line: Seq<char>) -> bool;

/// The classed HTML that syntect generates for `lines` with the default
/// syntax definition for `ext`, each line having parsed.
pub uninterp spec fn classed_html(ext: Seq<char>, lines: Seq<Seq<char>>) -> Seq<char>;

/// The syntax definitions and themes used to highlight code blocks. The
/// syntax definitions are always syntect's default set: the field is
/// private, and only [`HighlightState::new`] fills it.
pub struct HighlightState {
    syntax_set: SyntaxSet,
    pub theme_set: ThemeSet,
}

/// `SyntaxSet::load_defaults_newlines`: syntect's default syntax definitions
/// (the variant for lines that keep their line ending), loaded from the dump
/// that syntect embeds. The set is opaque; what is read of it is named by
/// [`has_syntax`], [`line_fails`] and [`classed_html`].
#[verifier::external_body]
fn default_syntax_set() -> SyntaxSet {
    SyntaxSet::load_defaults_newlines()
}

impl HighlightState {
    /// The themes of the state.
    pub closed spec fn themes(&self) -> ThemeSet {
        self.theme_set
    }

    /// A state with syntect's default syntax definitions and the themes
    /// `theme_set`.
    pub fn new(theme_set: ThemeSet) -> (hs: Self)
        ensures
            hs.themes() == theme_set,
    {
        HighlightState { syntax_set: default_syntax_set(), theme_set }
    }
}

/// A syntax definition of the default set, with the extension it was found
/// for.
pub struct Syntax<'a> {
    reference: &'a SyntaxReference,
    ext: String,
}

impl<'a> Syntax<'a> {
    /// The extension the definition was found for.
    pub closed spec fn ext(&self) -> Seq<char> {
        self.ext@
    }
}

/// A generator of classed HTML for one code block, with the extension whose
/// definition it was made for and the lines it has parsed so far.
pub struct Highlighter<'a> {
    generator: ClassedHTMLGenerator<'a>,
    ext: String,
    fed: Vec<String>,
}

impl<'a> Highlighter<'a> {
    /// The extension whose definition the generator was made for.
    pub closed spec fn ext(&self) -> Seq<char> {
        self.ext@
    }

    /// The lines the generator has parsed so far, in order.
    pub closed spec fn lines(&self) -> Seq<Seq<char>> {
        self.fed@.map_values(|l: String| l@)
    }
}

/// `SyntaxSet::find_syntax_by_extension` on the syntax set of `hs` (syntect's
/// default set): a definition exactly when the default set has one for
/// `ext`, held with `ext`.
#[verifier::external_body]
pub(crate) fn find_syntax<'a>(hs: &'a HighlightState, ext: &str) -> (r: Option<Syntax<'a>>)
    ensures
        r is Some == has_syntax(ext@),
        r matches Some(s) ==> s.ext() == ext@,
{
    hs.syntax_set.find_syntax_by_extension(ext).map(|reference| Syntax { reference, ext: ext.to_string() })
}

/// `ClassedHTMLGenerator::new_with_class_style` with `ClassStyle::Spaced`: a
/// generator of classed HTML for the definition `syntax`, which has parsed
/// no line yet. Every definition loaded from syntect's dump has the start
/// context that the generator needs.
#[verifier::external_body]
pub(crate) fn new_highlighter<'a>(hs: &'a HighlightState, syntax: Syntax<'a>) -> (h: Highlighter<'a>)
    ensures
        h.ext() == syntax.ext(),
        h.lines() == Seq::<Seq<char>>::empty(),
{
    let generator = ClassedHTMLGenerator::new_with_class_style(syntax.reference, &hs.syntax_set, syntect::html::ClassStyle::Spaced);
    Highlighter { generator, ext: syntax.ext, fed: Vec::new() }
}

/// `ClassedHTMLGenerator::parse_html_for_line_which_includes_newline`: feeds
/// one line (with its line ending) to the generator of `h`. It fails exactly
/// when [`line_fails`] says so, and the highlighter is then given up; on
/// success the line is added to the lines `h` has parsed. The patterns of the
/// default definitions were tested when syntect built its dump, so compiling
/// them does not panic.
#[verifier::external_body]
pub(crate) fn feed_line<'a>(h: Highlighter<'a>, line: &str) -> (r: Result<Highlighter<'a>, syntect::Error>)
    ensures
        r is Err == line_fails(h.ext(), h.lines(), line@),
        r matches Ok(next) ==> next.ext() == h.ext() && next.lines() == h.lines().push(line@),
{
    let mut h = h;
    match h.generator.parse_html_for_line_which_includes_newline(line) {
        Ok(()) => {
            h.fed.push(line.to_string());
            Ok(h)
        },
        Err(e) => Err(e),
    }
}

/// `ClassedHTMLGenerator::finalize`: the HTML generated for the lines `h`
/// has parsed, with every open span closed.
#[verifier::external_body]
pub(crate) fn finish_html(h: Highlighter) -> (html: String)
    ensures
        html@ == classed_html(h.ext(), h.lines()),
{
    h.generator.finalize()
}

} // verus!
