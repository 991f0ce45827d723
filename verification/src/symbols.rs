use vstd::prelude::*;
use vstd::string::StringExecFns;

use std::collections::HashMap;

verus! {

broadcast use vstd::std_specs::hash::group_hash_axioms;

/// The map from symbol names to their kinds that a list of distinct
/// `(name, kind)` entries describes.
pub open spec fn entries_map(entries: Seq<(Seq<char>, Seq<char>)>) -> Map<Seq<char>, Seq<char>> {
    Map::new(
        |name: Seq<char>| exists|i: int| 0 <= i < entries.len() && #[trigger] entries[i].0 == name,
        |name: Seq<char>|
            entries[choose|i: int| 0 <= i < entries.len() && #[trigger] entries[i].0 == name].1,
    )
}

/// A hash of a symbol name, used to find a name's entry quickly.
pub open spec fn name_hash(name: Seq<char>) -> u64
    decreases name.len(),
{
    if name.len() == 0 {
        0
    } else {
        name_hash(name.drop_last()).wrapping_mul(31).wrapping_add(name.last() as u64)
    }
}

/// The hash of `name` (see [`name_hash`]).
pub fn name_hash_exec(name: &str) -> (h: u64)
    ensures
        h == name_hash(name@),
{
    let chars = crate::text::chars_of(name);
    let mut h: u64 = 0;
    let mut i: usize = 0;
    assert(name@.take(0) =~= Seq::<char>::empty());
    while i < chars.len()
        invariant
            chars@ == name@,
            i <= chars@.len(),
            h == name_hash(name@.take(i as int)),
        decreases chars@.len() - i,
    {
        assert(name@.take(i + 1).drop_last() =~= name@.take(i as int));
        h = h.wrapping_mul(31).wrapping_add(chars[i] as u64);
        i += 1;
    }
    assert(name@.take(i as int) =~= name@);
    h
}

/// The index of documented symbols: each fully qualified name (such as
/// `ns::Record`) mapped to the kind of the symbol (such as `record` or
/// `namespace`). Names are distinct; entries keep the order in which the
/// names were first inserted. The positions of the entries are also filed
/// under the hash of their names, so that a name is found without a scan.
pub struct SymbolIndex {
    entries: Vec<(String, String)>,
    buckets: HashMap<u64, Vec<usize>>,
}

impl SymbolIndex {
    #[verifier::type_invariant]
    spec fn well_formed(self) -> bool {
        &&& forall|i: int, j: int|
            0 <= i < j < self.entries@.len() ==> #[trigger] self.entries@[i].0@
                != #[trigger] self.entries@[j].0@
        &&& forall|i: int|
            0 <= i < self.entries@.len() ==> {
                let h = name_hash(#[trigger] self.entries@[i].0@);
                &&& self.buckets@.contains_key(h)
                &&& self.buckets@[h]@.contains(i as usize)
            }
        &&& forall|h: u64, j: int|
            #![trigger self.buckets@[h]@[j]]
            self.buckets@.contains_key(h) && 0 <= j < self.buckets@[h]@.len()
                ==> self.buckets@[h]@[j] < self.entries@.len()
    }

    /// The entries, in order, as `(name, kind)` pairs.
    pub closed spec fn entry_seq(&self) -> Seq<(Seq<char>, Seq<char>)> {
        self.entries@.map_values(|e: (String, String)| (e.0@, e.1@))
    }

    /// An empty index.
    pub fn new() -> (idx: Self)
        ensures
            idx@ == Map::<Seq<char>, Seq<char>>::empty(),
            idx.entry_seq() == Seq::<(Seq<char>, Seq<char>)>::empty(),
    {
        let buckets: HashMap<u64, Vec<usize>> = HashMap::new();
        let idx = SymbolIndex { entries: Vec::new(), buckets };
        assert(idx.entry_seq() =~= Seq::<(Seq<char>, Seq<char>)>::empty());
        assert(idx@ =~= Map::<Seq<char>, Seq<char>>::empty());
        idx
    }

    /// The number of symbols.
    pub fn len(&self) -> (n: usize)
        ensures
            n == self.entry_seq().len(),
    {
        self.entries.len()
    }

    /// The `i`-th entry, as `(name, kind)`.
    pub fn entry(&self, i: usize) -> (e: (&String, &String))
        requires
            i < self.entry_seq().len(),
        ensures
            (e.0@, e.1@) == self.entry_seq()[i as int],
    {
        let e = &self.entries[i];
        (&e.0, &e.1)
    }

    /// The position of the entry of `name`, if there is one.
    fn position(&self, name: &str) -> (pos: Option<usize>)
        ensures
            match pos {
                Some(i) => i < self.entries@.len() && self.entries@[i as int].0@ == name@,
                None => forall|i: int| 0 <= i < self.entries@.len() ==> self.entries@[i].0@ != name@,
            },
    {
        proof {
            use_type_invariant(self);
        }
        let key = String::from_str(name);
        let h = name_hash_exec(name);
        let bucket = match self.buckets.get(&h) {
            Some(b) => b,
            None => {
                assert forall|i: int| 0 <= i < self.entries@.len() implies self.entries@[i].0@ != name@ by {
                    if self.entries@[i].0@ == name@ {
                        assert(self.buckets@.contains_key(name_hash(self.entries@[i].0@)));
                    }
                }
                return None;
            },
        };
        let mut j: usize = 0;
        while j < bucket.len()
            invariant
                key@ == name@,
                h == name_hash(name@),
                self.buckets@.contains_key(h),
                self.buckets@[h] == *bucket,
                j <= bucket@.len(),
                forall|b: int| 0 <= b < bucket@.len() ==> #[trigger] bucket@[b] < self.entries@.len(),
                forall|b: int| 0 <= b < j ==> self.entries@[#[trigger] bucket@[b] as int].0@ != name@,
            decreases bucket@.len() - j,
        {
            let i = bucket[j];
            if self.entries[i].0 == key {
                return Some(i);
            }
            j += 1;
        }
        proof {
            use_type_invariant(self);
        }
        assert forall|i: int| 0 <= i < self.entries@.len() implies self.entries@[i].0@ != name@ by {
            if self.entries@[i].0@ == name@ {
                assert(bucket@.contains(i as usize));
                assert(i < self.entries.len());
                let b = choose|b: int| 0 <= b < bucket@.len() && bucket@[b] == i as usize;
                assert(self.entries@[bucket@[b] as int].0@ != name@);
            }
        }
        None
    }

    /// The kind recorded for `name`, if any.
    pub fn get(&self, name: &str) -> (kind: Option<&String>)
        ensures
            match kind {
                Some(k) => self@.contains_key(name@) && self@[name@] == k@,
                None => !self@.contains_key(name@),
            },
    {
        proof {
            use_type_invariant(self);
        }
        let ghost es = self.entry_seq();
        match self.position(name) {
            Some(i) => {
                assert(es[i as int].0 == name@);
                let ghost c = choose|j: int| 0 <= j < es.len() && #[trigger] es[j].0 == name@;
                assert(c == i) by {
                    if c != i {
                        if c < i {
                            assert(self.entries@[c].0@ != self.entries@[i as int].0@);
                        } else {
                            assert(self.entries@[i as int].0@ != self.entries@[c].0@);
                        }
                    }
                }
                Some(&self.entries[i].1)
            },
            None => {
                assert(!self@.contains_key(name@)) by {
                    if self@.contains_key(name@) {
                        let c = choose|j: int| 0 <= j < es.len() && #[trigger] es[j].0 == name@;
                        assert(self.entries@[c].0@ == name@);
                    }
                }
                None
            },
        }
    }

    /// Records `kind` for `name`, replacing any kind recorded for it before.
    pub fn insert(&mut self, name: String, kind: String)
        ensures
            final(self)@ == old(self)@.insert(name@, kind@),
    {
        proof {
            use_type_invariant(&*self);
        }
        let ghost old_es = self.entry_seq();
        let ghost new_key = name@;
        let ghost new_kind = kind@;
        match self.position(name.as_str()) {
            Some(i) => {
                let mut taken = SymbolIndex::new();
                std::mem::swap(&mut taken, self);
                let SymbolIndex { mut entries, buckets } = taken;
                let ghost before = entries@;
                entries.set(i, (name, kind));
                let ghost new_es = entries@.map_values(|e: (String, String)| (e.0@, e.1@));
                assert(new_es =~= old_es.update(i as int, (new_key, new_kind)));
                assert(forall|a: int| 0 <= a < entries@.len() ==> #[trigger] entries@[a].0@ == before[a].0@);
                assert forall|a: int, b: int| 0 <= a < b < entries@.len() implies #[trigger] entries@[a].0@ != #[trigger] entries@[b].0@ by {
                    assert(entries@[a].0@ == before[a].0@);
                    assert(entries@[b].0@ == before[b].0@);
                }
                assert forall|a: int| 0 <= a < entries@.len() implies {
                    let hh = name_hash(#[trigger] entries@[a].0@);
                    &&& buckets@.contains_key(hh)
                    &&& buckets@[hh]@.contains(a as usize)
                } by {
                    assert(entries@[a].0@ == before[a].0@);
                }
                *self = SymbolIndex { entries, buckets };
                assert(self@ =~= old(self)@.insert(new_key, new_kind)) by {
                    assert forall|k: Seq<char>| #[trigger] self@.contains_key(k) implies old(self)@.insert(new_key, new_kind).contains_key(k) by {
                        let j = choose|j: int| 0 <= j < new_es.len() && #[trigger] new_es[j].0 == k;
                        if j != i {
                            assert(old_es[j].0 == k);
                        }
                    }
                    assert forall|k: Seq<char>| #[trigger] old(self)@.insert(new_key, new_kind).contains_key(k) implies self@.contains_key(k) && self@[k] == old(self)@.insert(new_key, new_kind)[k] by {
                        if k == new_key {
                            assert(new_es[i as int].0 == k);
                            let c = choose|j: int| 0 <= j < new_es.len() && #[trigger] new_es[j].0 == k;
                            if c != i as int {
                                if c < i { assert(self.entries@[c].0@ != self.entries@[i as int].0@); }
                                else { assert(self.entries@[i as int].0@ != self.entries@[c].0@); }
                            }
                        } else {
                            let j = choose|j: int| 0 <= j < old_es.len() && #[trigger] old_es[j].0 == k;
                            assert(new_es[j].0 == k);
                            let c = choose|j: int| 0 <= j < new_es.len() && #[trigger] new_es[j].0 == k;
                            if c != j {
                                if c < j { assert(self.entries@[c].0@ != self.entries@[j].0@); }
                                else { assert(self.entries@[j].0@ != self.entries@[c].0@); }
                            }
                        }
                    }
                }
            },
            None => {
                let h = name_hash_exec(name.as_str());
                let mut taken = SymbolIndex::new();
                std::mem::swap(&mut taken, self);
                let SymbolIndex { mut entries, mut buckets } = taken;
                let ghost before = entries@;
                let ghost old_buckets = buckets@;
                let n = entries.len();
                let mut bucket = match buckets.remove(&h) {
                    Some(b) => b,
                    None => Vec::new(),
                };
                let ghost old_bucket = bucket@;
                assert(old_buckets.contains_key(h) ==> old_bucket == old_buckets[h]@);
                assert(!old_buckets.contains_key(h) ==> old_bucket == Seq::<usize>::empty());
                bucket.push(n);
                buckets.insert(h, bucket);
                entries.push((name, kind));
                let ghost new_es = entries@.map_values(|e: (String, String)| (e.0@, e.1@));
                assert(new_es =~= old_es.push((new_key, new_kind)));
                assert forall|a: int, b: int| 0 <= a < b < entries@.len() implies #[trigger] entries@[a].0@ != #[trigger] entries@[b].0@ by {
                    if b == before.len() {
                        assert(before[a] == old(self).entries@[a]);
                    } else {
                        assert(before[a] == old(self).entries@[a]);
                        assert(before[b] == old(self).entries@[b]);
                    }
                }
                assert forall|a: int| 0 <= a < entries@.len() implies {
                    let hh = name_hash(#[trigger] entries@[a].0@);
                    &&& buckets@.contains_key(hh)
                    &&& buckets@[hh]@.contains(a as usize)
                } by {
                    if a == n {
                        assert(buckets@[h]@[old_bucket.len() as int] == n);
                    } else {
                        assert(entries@[a] == old(self).entries@[a]);
                        let hh = name_hash(entries@[a].0@);
                        assert(old_buckets.contains_key(hh) && old_buckets[hh]@.contains(a as usize));
                        if hh == h {
                            let w = choose|w: int| 0 <= w < old_bucket.len() && old_bucket[w] == a as usize;
                            assert(buckets@[h]@[w] == a as usize);
                        }
                    }
                }
                assert forall|hh: u64, j: int|
                    #![trigger buckets@[hh]@[j]]
                    buckets@.contains_key(hh) && 0 <= j < buckets@[hh]@.len() implies buckets@[hh]@[j] < entries@.len() by {
                    if hh == h {
                        if j < old_bucket.len() {
                            assert(old_buckets[h]@[j] < n);
                        }
                    } else {
                        assert(old_buckets[hh]@[j] < n);
                    }
                }
                *self = SymbolIndex { entries, buckets };
                assert(self@ =~= old(self)@.insert(new_key, new_kind)) by {
                    let n = old_es.len() as int;
                    assert forall|k: Seq<char>| #[trigger] self@.contains_key(k) implies old(self)@.insert(new_key, new_kind).contains_key(k) by {
                        let j = choose|j: int| 0 <= j < new_es.len() && #[trigger] new_es[j].0 == k;
                        if j != n {
                            assert(old_es[j].0 == k);
                        }
                    }
                    assert forall|k: Seq<char>| #[trigger] old(self)@.insert(new_key, new_kind).contains_key(k) implies self@.contains_key(k) && self@[k] == old(self)@.insert(new_key, new_kind)[k] by {
                        if k == new_key {
                            assert(new_es[n].0 == k);
                            let c = choose|j: int| 0 <= j < new_es.len() && #[trigger] new_es[j].0 == k;
                            if c != n {
                                assert(old_es[c].0 == k);
                            }
                        } else {
                            let j = choose|j: int| 0 <= j < old_es.len() && #[trigger] old_es[j].0 == k;
                            assert(new_es[j].0 == k);
                            let c = choose|j: int| 0 <= j < new_es.len() && #[trigger] new_es[j].0 == k;
                            if c != j {
                                if c == n {
                                } else if c < j { assert(self.entries@[c].0@ != self.entries@[j].0@); }
                                else { assert(self.entries@[j].0@ != self.entries@[c].0@); }
                            }
                        }
                    }
                }
            },
        }
    }
}

impl View for SymbolIndex {
    type V = Map<Seq<char>, Seq<char>>;

    open spec fn view(&self) -> Map<Seq<char>, Seq<char>> {
        entries_map(self.entry_seq())
    }
}


/// What [`SymbolIndex::get`] reads back after [`SymbolIndex::insert`]: the
/// kind just recorded for the inserted name, and for every other name what
/// was there before.
pub proof fn law_get_after_insert(
    before: Map<Seq<char>, Seq<char>>,
    name: Seq<char>,
    kind: Seq<char>,
    other: Seq<char>,
)
    ensures
        before.insert(name, kind).contains_key(name),
        before.insert(name, kind)[name] == kind,
        other != name ==> (before.insert(name, kind).contains_key(other) == before.contains_key(
            other,
        ) && (before.contains_key(other) ==> before.insert(name, kind)[other] == before[other])),
{
}

} // verus!
