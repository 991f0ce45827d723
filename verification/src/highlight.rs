use vstd::prelude::*;
use vstd::string::StringExecFns;
use vstd::string::StrSliceExecFns;

use crate::syntaxes::{
    classed_html, feed_line, find_syntax, finish_html, has_syntax, line_fails, new_highlighter,
};
pub use crate::syntaxes::HighlightState;
use crate::text::chars_of;

verus! {

/// Highlighting a code block failed.
pub enum HighlightError {
    /// A line could not be parsed with the block's syntax definition.
    Parsing,
}

/// Whether every one of `lines` parses with the default syntax definition
/// for `ext`, each after the lines before it.
pub open spec fn lines_parse(ext: Seq<char>, lines: Seq<Seq<char>>) -> bool {
    forall|i: int| 0 <= i < lines.len() ==> !line_fails(ext, lines.take(i), #[trigger] lines[i])
}

/// The lines of `cur + s`, each with its line ending `\n` (the last line
/// may have none); `cur` is the part of the current line gathered so far.
/// This is how `syntect::util::LinesWithEndings` splits a text.
pub open spec fn lines_with_endings_from(s: Seq<char>, cur: Seq<char>) -> Seq<Seq<char>>
    decreases s.len(),
{
    if s.len() == 0 {
        if cur.len() == 0 {
            seq![]
        } else {
            seq![cur]
        }
    } else if s[0] == '\n' {
        seq![cur.push('\n')] + lines_with_endings_from(s.skip(1), seq![])
    } else {
        lines_with_endings_from(s.skip(1), cur.push(s[0]))
    }
}

/// The lines of `s`, each with its line ending.
pub open spec fn lines_with_endings(s: Seq<char>) -> Seq<Seq<char>> {
    lines_with_endings_from(s, seq![])
}

/// The lines of `s`, each with its line ending (see [`lines_with_endings`]).
pub fn lines_with_endings_exec(s: &str) -> (lines: Vec<String>)
    ensures
        lines@.map_values(|l: String| l@) == lines_with_endings(s@),
{
    let sv = chars_of(s);
    let n = sv.len();
    let mut lines: Vec<String> = Vec::new();
    let mut start: usize = 0;
    let mut i: usize = 0;
    assert(s@.skip(0) =~= s@);
    assert(s@.subrange(0, 0) =~= Seq::<char>::empty());
    while i < n
        invariant
            sv@ == s@,
            n == s@.len(),
            start <= i <= n,
            lines_with_endings(s@) == lines@.map_values(|l: String| l@)
                + lines_with_endings_from(s@.skip(i as int), s@.subrange(start as int, i as int)),
        decreases n - i,
    {
        let ghost before = lines@.map_values(|l: String| l@);
        assert(s@.skip(i as int).skip(1) =~= s@.skip(i + 1));
        assert(s@.skip(i as int)[0] == s@[i as int]);
        assert(s@.subrange(start as int, i + 1) =~= s@.subrange(start as int, i as int).push(
            s@[i as int],
        ));
        if sv[i] == '\n' {
            let line = String::from_str(s.substring_char(start, i + 1));
            lines.push(line);
            assert(lines@.map_values(|l: String| l@) =~= before.push(line@));
            i += 1;
            start = i;
            assert(s@.subrange(start as int, i as int) =~= Seq::<char>::empty());
            assert(before + (seq![line@] + lines_with_endings_from(s@.skip(i as int), seq![]))
                =~= before.push(line@) + lines_with_endings_from(s@.skip(i as int), seq![]));
        } else {
            i += 1;
        }
    }
    let ghost before = lines@.map_values(|l: String| l@);
    if start < n {
        let line = String::from_str(s.substring_char(start, n));
        lines.push(line);
        assert(lines@.map_values(|l: String| l@) =~= before.push(line@));
        assert(before + seq![line@] =~= before.push(line@));
    } else {
        assert(before + Seq::<Seq<char>>::empty() =~= before);
    }
    lines
}

/// The inner HTML of a code block: the highlighted HTML when there is
/// some, the code itself (as it is, unescaped) otherwise.
pub fn inner_html(highlighted: Option<String>, code: &str) -> (h: String)
    ensures
        h@ == match highlighted {
            Some(x) => x@,
            None => code@,
        },
{
    match highlighted {
        Some(x) => x,
        None => String::from_str(code),
    }
}

/// The inner HTML of a code block in language `lang` showing `code`: the
/// classed HTML of its lines when the default syntax set has a definition
/// for `lang`, the code as it is when it has none, and nothing when a line
/// does not parse.
pub open spec fn block_inner(lang: Seq<char>, code: Seq<char>) -> Option<Seq<char>> {
    if !has_syntax(lang) {
        Some(code)
    } else if lines_parse(lang, lines_with_endings(code)) {
        Some(classed_html(lang, lines_with_endings(code)))
    } else {
        None
    }
}

/// Highlights `code` as the language with file extension `lang`: nothing
/// when no syntax definition is known for `lang`, otherwise the classed
/// HTML of its lines (see [`lines_with_endings`]), each given to the
/// highlighter in order; fails when a line does not parse.
pub fn highlight_code(hs: &HighlightState, lang: &str, code: &str) -> (r: Result<
    Option<String>,
    HighlightError,
>)
    ensures
        match r {
            Ok(None) => !has_syntax(lang@),
            Ok(Some(h)) => has_syntax(lang@) && lines_parse(lang@, lines_with_endings(code@))
                && h@ == classed_html(lang@, lines_with_endings(code@)),
            Err(_) => has_syntax(lang@) && !lines_parse(lang@, lines_with_endings(code@)),
        },
{
    let syntax = match find_syntax(hs, lang) {
        Some(s) => s,
        None => {
            return Ok(None);
        },
    };
    let mut h = new_highlighter(hs, syntax);
    let lines = lines_with_endings_exec(code);
    let ghost all = lines_with_endings(code@);
    assert(h.lines() =~= all.take(0));
    let mut i: usize = 0;
    while i < lines.len()
        invariant
            i <= lines@.len(),
            all == lines_with_endings(code@),
            lines@.map_values(|l: String| l@) == all,
            has_syntax(lang@),
            h.ext() == lang@,
            h.lines() == all.take(i as int),
            lines_parse(lang@, all.take(i as int)),
        decreases lines@.len() - i,
    {
        assert(all[i as int] == lines@[i as int]@);
        let ghost before = all.take(i as int);
        h = match feed_line(h, lines[i].as_str()) {
            Ok(next) => next,
            Err(_) => {
                assert(!lines_parse(lang@, all)) by {
                    assert(line_fails(lang@, all.take(i as int), all[i as int]));
                }
                return Err(HighlightError::Parsing);
            },
        };
        assert(all.take(i + 1) =~= before.push(all[i as int]));
        assert forall|k: int| 0 <= k < all.take(i + 1).len() implies !line_fails(
            lang@,
            all.take(i + 1).take(k),
            #[trigger] all.take(i + 1)[k],
        ) by {
            assert(all.take(i + 1).take(k) =~= all.take(k));
            if k < i {
                assert(before.take(k) =~= all.take(k));
                assert(before[k] == all.take(i + 1)[k]);
            }
        }
        i += 1;
    }
    assert(all.take(lines@.len() as int) =~= all);
    Ok(Some(finish_html(h)))
}

/// The inner HTML of a code block in language `lang` showing `code` (see
/// [`block_inner`]); fails when a line does not parse.
pub fn code_block_inner(hs: &HighlightState, lang: &str, code: &str) -> (r: Result<
    String,
    HighlightError,
>)
    ensures
        match r {
            Ok(h) => block_inner(lang@, code@) == Some(h@),
            Err(_) => block_inner(lang@, code@) is None,
        },
{
    match highlight_code(hs, lang, code) {
        Ok(h) => Ok(inner_html(h, code)),
        Err(e) => Err(e),
    }
}

} // verus!
