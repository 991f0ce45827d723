use vstd::prelude::*;
use vstd::string::StringExecFns;

use crate::paths::{get_path_for_name, path_for_name};
use crate::render::Page;
use crate::symbols::SymbolIndex;
use crate::text::{replace_all, replace_exec, str_eq};

verus! {

/// One entry of the search index that the documentation's search page loads.
pub struct SearchEntry {
    pub id: i32,
    pub name: String,
    pub link: String,
    pub kind: String,
}

pub struct SearchEntryModel {
    pub id: int,
    pub name: Seq<char>,
    pub link: Seq<char>,
    pub kind: Seq<char>,
}

impl View for SearchEntry {
    type V = SearchEntryModel;

    open spec fn view(&self) -> SearchEntryModel {
        SearchEntryModel { id: self.id as int, name: self.name@, link: self.link@, kind: self.kind@ }
    }
}

/// `s` with every `"` written as `&quot;`, fit to stand in an HTML attribute.
pub open spec fn escape_quotes(s: Seq<char>) -> Seq<char> {
    replace_all(s, "\""@, "&quot;"@)
}

/// The link of the symbol `name` of kind `kind` in the search index: the
/// path of its page (nothing when `name` is not indexed), under which a
/// namespace has its `index` page, quotes escaped.
pub open spec fn symbol_link(
    name: Seq<char>,
    kind: Seq<char>,
    index: Map<Seq<char>, Seq<char>>,
) -> Seq<char> {
    let path = match path_for_name(name, index, None) {
        Some(p) => p,
        None => seq![],
    };
    escape_quotes(
        if kind == "namespace"@ {
            path + "/index"@
        } else {
            path
        },
    )
}

/// The search index entry of the `id`-th symbol `(name, kind)`.
pub open spec fn symbol_entry(
    id: int,
    name: Seq<char>,
    kind: Seq<char>,
    index: Map<Seq<char>, Seq<char>>,
) -> SearchEntryModel {
    SearchEntryModel {
        id,
        name: escape_quotes(name),
        link: symbol_link(name, kind, index),
        kind,
    }
}

/// The search index entry of the page `(title, path)`, numbered `id`.
pub open spec fn page_entry(id: int, title: Seq<char>, path: Seq<char>) -> SearchEntryModel {
    SearchEntryModel { id, name: title, link: path, kind: "page"@ }
}

/// `s` with every `"` written as `&quot;`.
pub fn escape_quotes_exec(s: &str) -> (r: String)
    ensures
        r@ == escape_quotes(s@),
{
    proof {
        reveal_strlit("\"");
    }
    replace_exec(s, "\"", "&quot;")
}

/// The link of the symbol `name` of kind `kind` in the search index (see
/// [`symbol_link`]).
pub fn search_link(name: &str, kind: &str, index: &SymbolIndex) -> (r: String)
    ensures
        r@ == symbol_link(name@, kind@, index@),
{
    let path = match get_path_for_name(name, index, None) {
        Some(p) => p,
        None => String::new(),
    };
    if str_eq(kind, "namespace") {
        let mut p = path;
        p.append("/index");
        escape_quotes_exec(p.as_str())
    } else {
        escape_quotes_exec(path.as_str())
    }
}

/// The search index: one entry for each symbol of `index`, in order, then
/// one for each of the `pages`, numbered from 0 on.
pub fn build_search_index(index: &SymbolIndex, pages: &Vec<Page>) -> (entries: Vec<SearchEntry>)
    requires
        index.entry_seq().len() + pages@.len() <= i32::MAX,
    ensures
        entries@.len() == index.entry_seq().len() + pages@.len(),
        forall|k: int|
            0 <= k < index.entry_seq().len() ==> #[trigger] entries@[k]@ == symbol_entry(
                k,
                index.entry_seq()[k].0,
                index.entry_seq()[k].1,
                index@,
            ),
        forall|j: int|
            0 <= j < pages@.len() ==> #[trigger] entries@[index.entry_seq().len() + j]@
                == page_entry(
                index.entry_seq().len() + j,
                pages@[j].title@,
                pages@[j].path@,
            ),
{
    let mut entries: Vec<SearchEntry> = Vec::new();
    let n = index.len();
    let mut id: i32 = 0;
    let mut k: usize = 0;
    while k < n
        invariant
            n == index.entry_seq().len(),
            n + pages@.len() <= i32::MAX,
            k <= n,
            id == k,
            entries@.len() == k,
            forall|x: int|
                0 <= x < k ==> #[trigger] entries@[x]@ == symbol_entry(
                    x,
                    index.entry_seq()[x].0,
                    index.entry_seq()[x].1,
                    index@,
                ),
        decreases n - k,
    {
        let (name, kind) = index.entry(k);
        let entry = SearchEntry {
            id,
            name: escape_quotes_exec(name.as_str()),
            link: search_link(name.as_str(), kind.as_str(), index),
            kind: kind.clone(),
        };
        entries.push(entry);
        id += 1;
        k += 1;
    }
    let mut j: usize = 0;
    while j < pages.len()
        invariant
            n == index.entry_seq().len(),
            n + pages@.len() <= i32::MAX,
            j <= pages@.len(),
            id == n + j,
            entries@.len() == n + j,
            forall|x: int|
                0 <= x < n ==> #[trigger] entries@[x]@ == symbol_entry(
                    x,
                    index.entry_seq()[x].0,
                    index.entry_seq()[x].1,
                    index@,
                ),
            forall|y: int|
                0 <= y < j ==> #[trigger] entries@[n + y]@ == page_entry(
                    n + y,
                    pages@[y].title@,
                    pages@[y].path@,
                ),
        decreases pages@.len() - j,
    {
        let page = &pages[j];
        let entry = SearchEntry {
            id,
            name: page.title.clone(),
            link: page.path.clone(),
            kind: String::from_str("page"),
        };
        entries.push(entry);
        assert(entries@[n + j]@ == page_entry(n + j, pages@[j as int].title@, pages@[j as int].path@));
        id += 1;
        j += 1;
    }
    entries
}


/// A symbol's search entry carries its number, its name with quotes escaped,
/// its kind, and as link the path of its page with quotes escaped (nothing
/// when it has none); only a namespace's link points to the namespace's
/// `index` page.
pub proof fn law_symbol_entry_link(
    id: int,
    name: Seq<char>,
    kind: Seq<char>,
    index: Map<Seq<char>, Seq<char>>,
)
    ensures
        ({
            let e = symbol_entry(id, name, kind, index);
            let path = match path_for_name(name, index, None) {
                Some(p) => p,
                None => Seq::<char>::empty(),
            };
            &&& e.id == id
            &&& e.name == replace_all(name, "\""@, "&quot;"@)
            &&& e.kind == kind
            &&& kind != "namespace"@ ==> e.link == replace_all(path, "\""@, "&quot;"@)
            &&& kind == "namespace"@ ==> e.link == replace_all(path + "/index"@, "\""@, "&quot;"@)
        }),
{
}

} // verus!
