use vstd::prelude::*;
use vstd::string::StringExecFns;
use vstd::string::StrSliceExecFns;

verus! {

// ---------------------------------------------------------------------------
// Mathematical model of the string operations the library relies on.
// A string is modelled by its sequence of characters.
// ---------------------------------------------------------------------------

/// `p` occurs in `s` starting at position `i`.
pub open spec fn matches_at(s: Seq<char>, p: Seq<char>, i: int) -> bool {
    &&& 0 <= i
    &&& i + p.len() <= s.len()
    &&& s.subrange(i, i + p.len()) == p
}

/// `s` begins with `p` (as `str::starts_with`).
pub open spec fn starts_with(s: Seq<char>, p: Seq<char>) -> bool {
    matches_at(s, p, 0)
}

/// `s` holds `p` somewhere (as `str::contains`).
pub open spec fn contains(s: Seq<char>, p: Seq<char>) -> bool {
    exists|i: int| #[trigger] matches_at(s, p, i)
}

/// Every occurrence of `p` in `s` replaced by `r`, occurrences being found
/// left to right without overlap (as `str::replace`, for a non-empty `p`).
pub open spec fn replace_all(s: Seq<char>, p: Seq<char>, r: Seq<char>) -> Seq<char>
    decreases s.len(),
{
    if p.len() == 0 || s.len() < p.len() {
        s
    } else if starts_with(s, p) {
        r + replace_all(s.skip(p.len() as int), p, r)
    } else {
        seq![s[0]] + replace_all(s.skip(1), p, r)
    }
}

/// `s` with every leading repetition of `p` removed (as `str::trim_start_matches`).
pub open spec fn trim_start_matches(s: Seq<char>, p: Seq<char>) -> Seq<char>
    decreases s.len(),
{
    if p.len() == 0 || !starts_with(s, p) {
        s
    } else {
        trim_start_matches(s.skip(p.len() as int), p)
    }
}

/// The pieces of `cur + s` between the occurrences of `sep`, found left to
/// right without overlap; `cur` is the piece gathered so far.
pub open spec fn split_from(s: Seq<char>, sep: Seq<char>, cur: Seq<char>) -> Seq<Seq<char>>
    decreases s.len(),
{
    if sep.len() == 0 || s.len() < sep.len() {
        seq![cur + s]
    } else if starts_with(s, sep) {
        seq![cur] + split_from(s.skip(sep.len() as int), sep, seq![])
    } else {
        split_from(s.skip(1), sep, cur.push(s[0]))
    }
}

/// The pieces of `s` between the occurrences of `sep` (as `str::split`, for
/// a non-empty `sep`).
pub open spec fn split(s: Seq<char>, sep: Seq<char>) -> Seq<Seq<char>> {
    split_from(s, sep, seq![])
}

/// The pieces joined with `sep` between consecutive pieces (as `[&str]::join`).
pub open spec fn join(parts: Seq<Seq<char>>, sep: Seq<char>) -> Seq<char>
    decreases parts.len(),
{
    if parts.len() == 0 {
        seq![]
    } else if parts.len() == 1 {
        parts[0]
    } else {
        join(parts.drop_last(), sep) + sep + parts.last()
    }
}

/// The characters that `char::is_whitespace` accepts: those with the Unicode
/// `White_Space` property.
pub open spec fn is_whitespace(c: char) -> bool {
    ||| c == '\t'
    ||| c == '\n'
    ||| c == '\u{0B}'
    ||| c == '\u{0C}'
    ||| c == '\r'
    ||| c == ' '
    ||| c == '\u{85}'
    ||| c == '\u{A0}'
    ||| c == '\u{1680}'
    ||| ('\u{2000}' <= c && c <= '\u{200A}')
    ||| c == '\u{2028}'
    ||| c == '\u{2029}'
    ||| c == '\u{202F}'
    ||| c == '\u{205F}'
    ||| c == '\u{3000}'
}

/// `s` without its leading whitespace.
pub open spec fn trim_start_ws(s: Seq<char>) -> Seq<char>
    decreases s.len(),
{
    if s.len() > 0 && is_whitespace(s[0]) {
        trim_start_ws(s.skip(1))
    } else {
        s
    }
}

/// `s` without its trailing whitespace.
pub open spec fn trim_end_ws(s: Seq<char>) -> Seq<char>
    decreases s.len(),
{
    if s.len() > 0 && is_whitespace(s.last()) {
        trim_end_ws(s.drop_last())
    } else {
        s
    }
}

/// `s` without leading and trailing whitespace (as `str::trim`).
pub open spec fn trim(s: Seq<char>) -> Seq<char> {
    trim_end_ws(trim_start_ws(s))
}

// ---------------------------------------------------------------------------
// Lemmas unfolding the definitions one step at a position of a string.
// ---------------------------------------------------------------------------

proof fn lemma_skip_skip(s: Seq<char>, i: int, j: int)
    requires
        0 <= i,
        0 <= j,
        i + j <= s.len(),
    ensures
        s.skip(i).skip(j) == s.skip(i + j),
{
    assert(s.skip(i).skip(j) =~= s.skip(i + j));
}

proof fn lemma_matches_skip(s: Seq<char>, p: Seq<char>, i: int)
    requires
        0 <= i <= s.len(),
    ensures
        starts_with(s.skip(i), p) == matches_at(s, p, i),
{
    if i + p.len() <= s.len() {
        assert(s.skip(i).subrange(0, p.len() as int) =~= s.subrange(i, i + p.len()));
    }
}

// ---------------------------------------------------------------------------
// Executable operations, each proved to compute its model.
// ---------------------------------------------------------------------------

/// The characters of `s`, in order.
pub fn chars_of(s: &str) -> (v: Vec<char>)
    ensures
        v@ == s@,
{
    let mut v: Vec<char> = Vec::new();
    for c in it: s.chars()
        invariant
            v@ == it.seq().take(it.index() as int),
    {
        v.push(c);
    }
    v
}

/// Whether `a` and `b` hold the same characters.
pub fn str_eq(a: &str, b: &str) -> (r: bool)
    ensures
        r == (a@ == b@),
{
    let x = String::from_str(a);
    let y = String::from_str(b);
    x == y
}

/// Whether `p` occurs in `s` at position `i`.
pub fn matches_at_exec(s: &Vec<char>, p: &Vec<char>, i: usize) -> (r: bool)
    ensures
        r == matches_at(s@, p@, i as int),
{
    if i > s.len() || p.len() > s.len() - i {
        return false;
    }
    let mut j: usize = 0;
    while j < p.len()
        invariant
            i + p@.len() <= s@.len(),
            i + p@.len() <= s.len(),
            j <= p@.len(),
            forall|k: int| 0 <= k < j ==> s@[i + k] == p@[k],
        decreases p@.len() - j,
    {
        if s[i + j] != p[j] {
            assert(s@.subrange(i as int, i + p@.len())[j as int] != p@[j as int]);
            return false;
        }
        j += 1;
    }
    assert(s@.subrange(i as int, i + p@.len()) =~= p@);
    true
}

/// Whether `s` begins with `p`.
pub fn starts_with_exec(s: &str, p: &str) -> (r: bool)
    ensures
        r == starts_with(s@, p@),
{
    let sv = chars_of(s);
    let pv = chars_of(p);
    matches_at_exec(&sv, &pv, 0)
}

/// Whether `p` occurs anywhere in `s`.
pub fn contains_exec(s: &str, p: &str) -> (r: bool)
    ensures
        r == contains(s@, p@),
{
    let sv = chars_of(s);
    let pv = chars_of(p);
    let n = sv.len();
    let m = pv.len();
    if m > n {
        return false;
    }
    let mut i: usize = 0;
    while i < n - m
        invariant
            sv@ == s@,
            pv@ == p@,
            n == s@.len(),
            m == p@.len(),
            m <= n,
            i <= n - m,
            forall|k: int| 0 <= k < i ==> !matches_at(s@, p@, k),
        decreases n - m - i,
    {
        if matches_at_exec(&sv, &pv, i) {
            return true;
        }
        i += 1;
    }
    if matches_at_exec(&sv, &pv, n - m) {
        return true;
    }
    assert forall|k: int| !matches_at(s@, p@, k) by {
        if 0 <= k && k <= n - m {
        }
    }
    false
}

proof fn lemma_replace_step(s: Seq<char>, p: Seq<char>, r: Seq<char>, i: int)
    requires
        p.len() > 0,
        0 <= i,
        i + p.len() <= s.len(),
    ensures
        matches_at(s, p, i) ==> replace_all(s.skip(i), p, r) == r + replace_all(
            s.skip(i + p.len()),
            p,
            r,
        ),
        !matches_at(s, p, i) ==> replace_all(s.skip(i), p, r) == seq![s[i]] + replace_all(
            s.skip(i + 1),
            p,
            r,
        ),
{
    lemma_matches_skip(s, p, i);
    lemma_skip_skip(s, i, p.len() as int);
    lemma_skip_skip(s, i, 1);
}

/// `s` with every occurrence of the non-empty pattern `p` replaced by `r`.
pub fn replace_exec(s: &str, p: &str, r: &str) -> (res: String)
    requires
        p@.len() > 0,
    ensures
        res@ == replace_all(s@, p@, r@),
{
    let sv = chars_of(s);
    let pv = chars_of(p);
    let n = sv.len();
    let m = pv.len();
    let mut res = String::new();
    let mut start: usize = 0;
    let mut i: usize = 0;
    assert(s@.skip(0) =~= s@);
    while m <= n && i <= n - m
        invariant
            sv@ == s@,
            pv@ == p@,
            n == s@.len(),
            m == p@.len(),
            m > 0,
            start <= i <= n,
            replace_all(s@, p@, r@) == res@ + s@.subrange(start as int, i as int) + replace_all(
                s@.skip(i as int),
                p@,
                r@,
            ),
        decreases n - i,
    {
        proof {
            lemma_replace_step(s@, p@, r@, i as int);
        }
        if matches_at_exec(&sv, &pv, i) {
            let chunk = s.substring_char(start, i);
            let ghost old_res = res@;
            res.append(chunk);
            res.append(r);
            assert(res@ == old_res + s@.subrange(start as int, i as int) + r@);
            i = i + m;
            start = i;
            assert(s@.subrange(start as int, i as int) =~= Seq::<char>::empty());
        } else {
            assert(s@.subrange(start as int, i + 1) =~= s@.subrange(start as int, i as int).push(
                s@[i as int],
            ));
            i = i + 1;
        }
    }
    assert(replace_all(s@.skip(i as int), p@, r@) == s@.skip(i as int));
    let rest = s.substring_char(start, n);
    res.append(rest);
    assert(s@.subrange(start as int, i as int) + s@.skip(i as int) =~= s@.subrange(
        start as int,
        n as int,
    ));
    res
}

proof fn lemma_trim_matches_step(s: Seq<char>, p: Seq<char>, i: int)
    requires
        p.len() > 0,
        0 <= i,
        i + p.len() <= s.len(),
        matches_at(s, p, i),
    ensures
        trim_start_matches(s.skip(i), p) == trim_start_matches(s.skip(i + p.len()), p),
{
    lemma_matches_skip(s, p, i);
    lemma_skip_skip(s, i, p.len() as int);
}

/// `s` with every leading repetition of the non-empty pattern `p` removed.
pub fn trim_start_matches_exec<'a>(s: &'a str, p: &str) -> (res: &'a str)
    requires
        p@.len() > 0,
    ensures
        res@ == trim_start_matches(s@, p@),
{
    let sv = chars_of(s);
    let pv = chars_of(p);
    let n = sv.len();
    let m = pv.len();
    let mut i: usize = 0;
    assert(s@.skip(0) =~= s@);
    while i <= n && m <= n - i && matches_at_exec(&sv, &pv, i)
        invariant
            sv@ == s@,
            pv@ == p@,
            n == s@.len(),
            m == p@.len(),
            m > 0,
            i <= n,
            trim_start_matches(s@, p@) == trim_start_matches(s@.skip(i as int), p@),
        decreases n - i,
    {
        proof {
            lemma_trim_matches_step(s@, p@, i as int);
        }
        i = i + m;
    }
    proof {
        lemma_matches_skip(s@, p@, i as int);
    }
    let res = s.substring_char(i, n);
    assert(res@ =~= s@.skip(i as int));
    res
}

proof fn lemma_split_step(s: Seq<char>, sep: Seq<char>, cur: Seq<char>, i: int)
    requires
        sep.len() > 0,
        0 <= i,
        i + sep.len() <= s.len(),
    ensures
        matches_at(s, sep, i) ==> split_from(s.skip(i), sep, cur) == seq![cur] + split_from(
            s.skip(i + sep.len()),
            sep,
            seq![],
        ),
        !matches_at(s, sep, i) ==> split_from(s.skip(i), sep, cur) == split_from(
            s.skip(i + 1),
            sep,
            cur.push(s[i]),
        ),
{
    lemma_matches_skip(s, sep, i);
    lemma_skip_skip(s, i, sep.len() as int);
    lemma_skip_skip(s, i, 1);
}

/// The pieces of `s` between the occurrences of the non-empty `sep`.
pub fn split_exec(s: &str, sep: &str) -> (parts: Vec<String>)
    requires
        sep@.len() > 0,
    ensures
        parts@.map_values(|x: String| x@) == split(s@, sep@),
{
    let sv = chars_of(s);
    let pv = chars_of(sep);
    let n = sv.len();
    let m = pv.len();
    let mut parts: Vec<String> = Vec::new();
    let mut start: usize = 0;
    let mut i: usize = 0;
    assert(s@.skip(0) =~= s@);
    assert(s@.subrange(0, 0) =~= Seq::<char>::empty());
    while m <= n && i <= n - m
        invariant
            sv@ == s@,
            pv@ == sep@,
            n == s@.len(),
            m == sep@.len(),
            m > 0,
            start <= i <= n,
            split(s@, sep@) == parts@.map_values(|x: String| x@) + split_from(
                s@.skip(i as int),
                sep@,
                s@.subrange(start as int, i as int),
            ),
        decreases n - i,
    {
        proof {
            lemma_split_step(s@, sep@, s@.subrange(start as int, i as int), i as int);
        }
        if matches_at_exec(&sv, &pv, i) {
            let piece = String::from_str(s.substring_char(start, i));
            let ghost old_parts = parts@.map_values(|x: String| x@);
            parts.push(piece);
            assert(parts@.map_values(|x: String| x@) =~= old_parts.push(piece@));
            i = i + m;
            start = i;
            assert(s@.subrange(start as int, i as int) =~= Seq::<char>::empty());
            assert(old_parts + (seq![piece@] + split_from(s@.skip(i as int), sep@, seq![]))
                =~= old_parts.push(piece@) + split_from(s@.skip(i as int), sep@, seq![]));
        } else {
            assert(s@.subrange(start as int, i + 1) =~= s@.subrange(start as int, i as int).push(
                s@[i as int],
            ));
            i = i + 1;
        }
    }
    let piece = String::from_str(s.substring_char(start, n));
    let ghost old_parts = parts@.map_values(|x: String| x@);
    assert(split_from(s@.skip(i as int), sep@, s@.subrange(start as int, i as int)) == seq![
        s@.subrange(start as int, i as int) + s@.skip(i as int),
    ]);
    assert(s@.subrange(start as int, i as int) + s@.skip(i as int) =~= s@.subrange(
        start as int,
        n as int,
    ));
    parts.push(piece);
    assert(parts@.map_values(|x: String| x@) =~= old_parts.push(piece@));
    assert(old_parts + seq![piece@] =~= old_parts.push(piece@));
    parts
}

/// The first `count` pieces joined with `sep` between consecutive pieces.
pub fn join_exec(parts: &Vec<String>, count: usize, sep: &str) -> (res: String)
    requires
        count <= parts@.len(),
    ensures
        res@ == join(parts@.map_values(|x: String| x@).take(count as int), sep@),
{
    let ghost model = parts@.map_values(|x: String| x@);
    let mut res = String::new();
    let mut i: usize = 0;
    assert(model.take(0) =~= Seq::<Seq<char>>::empty());
    while i < count
        invariant
            model == parts@.map_values(|x: String| x@),
            count <= parts@.len(),
            i <= count,
            res@ == join(model.take(i as int), sep@),
        decreases count - i,
    {
        let ghost old_res = res@;
        if i > 0 {
            res.append(sep);
        }
        res.append(parts[i].as_str());
        assert(model.take(i + 1).drop_last() =~= model.take(i as int));
        if i == 0 {
            assert(old_res =~= Seq::<char>::empty());
            assert(res@ =~= model.take(1)[0]);
        }
        i += 1;
    }
    res
}

/// Whether `c` is a whitespace character.
pub fn is_whitespace_exec(c: char) -> (r: bool)
    ensures
        r == is_whitespace(c),
{
    c == '\t' || c == '\n' || c == '\u{0B}' || c == '\u{0C}' || c == '\r' || c == ' ' || c
        == '\u{85}' || c == '\u{A0}' || c == '\u{1680}' || ('\u{2000}' <= c && c <= '\u{200A}')
        || c == '\u{2028}' || c == '\u{2029}' || c == '\u{202F}' || c == '\u{205F}' || c
        == '\u{3000}'
}

/// `s` without leading and trailing whitespace.
pub fn trim_exec<'a>(s: &'a str) -> (res: &'a str)
    ensures
        res@ == trim(s@),
{
    let sv = chars_of(s);
    let n = sv.len();
    let mut a: usize = 0;
    assert(s@.skip(0) =~= s@);
    while a < n && is_whitespace_exec(sv[a])
        invariant
            sv@ == s@,
            n == s@.len(),
            a <= n,
            trim_start_ws(s@) == trim_start_ws(s@.skip(a as int)),
        decreases n - a,
    {
        assert(s@.skip(a as int).skip(1) =~= s@.skip(a + 1));
        a += 1;
    }
    let ghost t = s@.skip(a as int);
    assert(trim_start_ws(s@) == t);
    let mut b: usize = n;
    assert(t.take(t.len() as int) =~= t);
    while b > a && is_whitespace_exec(sv[b - 1])
        invariant
            sv@ == s@,
            n == s@.len(),
            a <= b <= n,
            t == s@.skip(a as int),
            trim_end_ws(t) == trim_end_ws(t.take(b - a)),
        decreases b,
    {
        assert(t.take(b - a).drop_last() =~= t.take(b - a - 1));
        b -= 1;
    }
    let res = s.substring_char(a, b);
    assert(res@ =~= t.take(b - a));
    res
}

} // verus!
