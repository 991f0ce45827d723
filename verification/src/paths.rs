use vstd::prelude::*;
use vstd::string::StringExecFns;

use crate::symbols::SymbolIndex;
use crate::text::{
    contains, contains_exec, join, join_exec, matches_at, replace_all, replace_exec, split, split_exec,
    split_from, starts_with, str_eq, trim_start_matches, trim_start_matches_exec,
};

verus! {

/// The relative path of a namespace's directory: its qualified name with
/// every `::` turned into `/` (so `a::b` lives in `a/b`).
pub open spec fn namespace_path(name: Seq<char>) -> Seq<char> {
    replace_all(name, "::"@, "/"@)
}

/// A symbol's base name with `/` (which would start a directory) spelled
/// `slash`, as operator names such as `operator/` need.
pub open spec fn escaped_basename(name: Seq<char>) -> Seq<char> {
    replace_all(name, "/"@, "slash"@)
}

/// The relative path (without extension) of the page that documents `name`,
/// which `index` maps to its kind; `expected_kind`, when given, is used in
/// place of the recorded kind. No path exists for a name that is not indexed.
///
/// A namespace lives in the directory of its path. Any other symbol
/// `a::b::c` of kind `k` lives in `a/b/k.c`; a leading `::` on its name is
/// ignored, and a name without `::` lives in `k.name`.
pub open spec fn path_for_name(
    name: Seq<char>,
    index: Map<Seq<char>, Seq<char>>,
    expected_kind: Option<Seq<char>>,
) -> Option<Seq<char>> {
    if !index.contains_key(name) {
        None
    } else {
        let kind = match expected_kind {
            Some(k) => k,
            None => index[name],
        };
        if kind == "namespace"@ {
            Some(namespace_path(name))
        } else {
            let n = trim_start_matches(name, "::"@);
            if contains(n, "::"@) {
                let parts = split(n, "::"@);
                Some(
                    join(parts.drop_last(), "/"@) + "/"@ + kind + "."@ + escaped_basename(
                        parts.last(),
                    ),
                )
            } else {
                Some(kind + "."@ + escaped_basename(n))
            }
        }
    }
}

/// The characters of an optional string.
pub open spec fn str_option_view(o: Option<&str>) -> Option<Seq<char>> {
    match o {
        Some(s) => Some(s@),
        None => None,
    }
}

proof fn lemma_split_from_nonempty(s: Seq<char>, sep: Seq<char>, cur: Seq<char>)
    ensures
        split_from(s, sep, cur).len() >= 1,
    decreases s.len(),
{
    if sep.len() == 0 || s.len() < sep.len() {
    } else if starts_with(s, sep) {
        lemma_split_from_nonempty(s.skip(sep.len() as int), sep, seq![]);
    } else {
        lemma_split_from_nonempty(s.skip(1), sep, cur.push(s[0]));
    }
}

/// The relative path of the page documenting `name` (see [`path_for_name`]).
pub fn get_path_for_name(name: &str, index: &SymbolIndex, expected_kind: Option<&str>) -> (res:
    Option<String>)
    ensures
        match res {
            Some(p) => path_for_name(name@, index@, str_option_view(expected_kind)) == Some(p@),
            None => path_for_name(name@, index@, str_option_view(expected_kind)) is None,
        },
{
    proof {
        reveal_strlit("::");
        reveal_strlit("/");
    }
    let index_kind = match index.get(name) {
        Some(k) => k,
        None => {
            return None;
        },
    };
    let kind: &str = match expected_kind {
        Some(k) => k,
        None => index_kind.as_str(),
    };
    if str_eq(kind, "namespace") {
        return Some(replace_exec(name, "::", "/"));
    }
    let name = trim_start_matches_exec(name, "::");
    if contains_exec(name, "::") {
        let parts = split_exec(name, "::");
        let ghost model = parts@.map_values(|x: String| x@);
        proof {
            lemma_split_from_nonempty(name@, "::"@, seq![]);
        }
        let count = parts.len() - 1;
        let basename = replace_exec(parts[count].as_str(), "/", "slash");
        let path = join_exec(&parts, count, "/");
        assert(model.take(count as int) =~= model.drop_last());
        let mut res = path;
        res.append("/");
        res.append(kind);
        res.append(".");
        res.append(basename.as_str());
        return Some(res);
    }
    let mut res = String::from_str(kind);
    res.append(".");
    let base = replace_exec(name, "/", "slash");
    res.append(base.as_str());
    Some(res)
}

/// The relative path of the directory of the namespace `name`.
pub fn get_namespace_path(name: &str) -> (res: String)
    ensures
        res@ == namespace_path(name@),
{
    proof {
        reveal_strlit("::");
    }
    replace_exec(name, "::", "/")
}


/// A namespace's page is found in the directory that [`get_namespace_path`]
/// gives the namespace: asked for as a namespace, or recorded as one.
pub proof fn law_namespace_page_in_namespace_dir(
    name: Seq<char>,
    index: Map<Seq<char>, Seq<char>>,
)
    requires
        index.contains_key(name),
    ensures
        path_for_name(name, index, Some("namespace"@)) == Some(namespace_path(name)),
        index[name] == "namespace"@ ==> path_for_name(name, index, None) == Some(
            namespace_path(name),
        ),
{
}

/// No two consecutive characters of `s` are both `:`.
pub open spec fn no_double_colon(s: Seq<char>) -> bool {
    forall|i: int| 0 <= i && i + 1 < s.len() ==> !(#[trigger] s[i] == ':' && s[i + 1] == ':')
}

proof fn lemma_contains_double_colon(s: Seq<char>)
    ensures
        contains(s, "::"@) ==> !no_double_colon(s),
{
    reveal_strlit("::");
    if contains(s, "::"@) {
        let i = choose|i: int| #[trigger] matches_at(s, "::"@, i);
        assert(s.subrange(i, i + 2)[0] == s[i]);
        assert(s.subrange(i, i + 2)[1] == s[i + 1]);
    }
}

proof fn lemma_namespace_path_colons(s: Seq<char>)
    ensures
        no_double_colon(namespace_path(s)),
        namespace_path(s).len() > 0 && namespace_path(s)[0] == ':' ==> s.len() > 0 && s[0]
            == ':' && !(s.len() >= 2 && s[1] == ':'),
    decreases s.len(),
{
    reveal_strlit("::");
    reveal_strlit("/");
    let p = "::"@;
    let r = "/"@;
    let out = namespace_path(s);
    if s.len() < 2 {
    } else if starts_with(s, p) {
        let rest = s.skip(2);
        lemma_namespace_path_colons(rest);
        let tail = namespace_path(rest);
        assert(out == r + tail);
        assert forall|i: int| 0 <= i && i + 1 < out.len() implies !(#[trigger] out[i] == ':' && out[i
            + 1] == ':') by {
            if i == 0 {
                assert(out[0] == '/');
            } else {
                assert(out[i] == tail[i - 1]);
                assert(out[i + 1] == tail[i]);
            }
        }
        assert(out[0] == '/');
    } else {
        let rest = s.skip(1);
        lemma_namespace_path_colons(rest);
        let tail = namespace_path(rest);
        assert(out == seq![s[0]] + tail);
        assert(!(s[0] == ':' && s[1] == ':')) by {
            if s[0] == ':' && s[1] == ':' {
                assert(s.subrange(0, 2) =~= p);
            }
        }
        assert forall|i: int| 0 <= i && i + 1 < out.len() implies !(#[trigger] out[i] == ':' && out[i
            + 1] == ':') by {
            if i == 0 {
                assert(out[1] == tail[0]);
            } else {
                assert(out[i] == tail[i - 1]);
                assert(out[i + 1] == tail[i]);
            }
        }
    }
}

/// A namespace's directory path holds no `::`: every separator has become
/// a `/`.
pub proof fn law_namespace_path_has_no_separator(name: Seq<char>)
    ensures
        !contains(namespace_path(name), "::"@),
{
    lemma_namespace_path_colons(name);
    lemma_contains_double_colon(namespace_path(name));
}

/// A symbol's escaped base name holds no `/`, so its page never lands in a
/// directory of its own (as it would for `operator/`).
pub proof fn law_escaped_basename_has_no_slash(name: Seq<char>)
    ensures
        forall|i: int| 0 <= i < escaped_basename(name).len() ==> #[trigger] escaped_basename(name)[i] != '/',
    decreases name.len(),
{
    reveal_strlit("/");
    reveal_strlit("slash");
    let out = escaped_basename(name);
    if name.len() < 1 {
    } else if starts_with(name, "/"@) {
        let rest = name.skip(1);
        law_escaped_basename_has_no_slash(rest);
        assert(out == "slash"@ + escaped_basename(rest));
        assert forall|i: int| 0 <= i < out.len() implies #[trigger] out[i] != '/' by {
            if i >= 5 {
                assert(out[i] == escaped_basename(rest)[i - 5]);
            }
        }
    } else {
        let rest = name.skip(1);
        law_escaped_basename_has_no_slash(rest);
        assert(out == seq![name[0]] + escaped_basename(rest));
        assert(name[0] != '/') by {
            if name[0] == '/' {
                assert(name.subrange(0, 1) =~= "/"@);
            }
        }
        assert forall|i: int| 0 <= i < out.len() implies #[trigger] out[i] != '/' by {
            if i >= 1 {
                assert(out[i] == escaped_basename(rest)[i - 1]);
            }
        }
    }
}


/// An expected kind stands in for the recorded one: the path of an indexed
/// name with expected kind `k` is the path it would have, with no expected
/// kind, in an index that records it as `k`. Nested names are no exception.
pub proof fn law_expected_kind_replaces_recorded(
    name: Seq<char>,
    index: Map<Seq<char>, Seq<char>>,
    k: Seq<char>,
)
    requires
        index.contains_key(name),
    ensures
        path_for_name(name, index, Some(k)) == path_for_name(name, index.insert(name, k), None),
{
}

} // verus!
