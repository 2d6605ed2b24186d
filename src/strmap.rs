//! A string-to-string map kept sorted by key, the shape in which secrets
//! travel between a backend and the engine.
use vstd::prelude::*;

use crate::text::{lemma_seq_lt_asymmetric, lemma_seq_lt_irreflexive, lemma_seq_lt_total, lemma_seq_lt_transitive, seq_lt, str_lt};

verus! {

/// Entries as plain character sequences.
pub type Entries = Seq<(Seq<char>, Seq<char>)>;

/// Keys strictly increase along the sequence.
pub open spec fn sorted_keys(s: Entries) -> bool {
    forall|i: int, j: int| 0 <= i < j < s.len() ==> seq_lt(s[i].0, s[j].0)
}

/// Some entry has key `k`.
pub open spec fn has_key(s: Entries, k: Seq<char>) -> bool {
    exists|i: int| 0 <= i < s.len() && s[i].0 == k
}

/// The dictionary that the entries describe.
pub open spec fn to_map(s: Entries) -> Map<Seq<char>, Seq<char>> {
    Map::new(|k: Seq<char>| has_key(s, k), |k: Seq<char>| s[key_index(s, k)].1)
}

/// An index at which key `k` stands, where there is one.
pub open spec fn key_index(s: Entries, k: Seq<char>) -> int {
    choose|i: int| 0 <= i < s.len() && s[i].0 == k
}

pub proof fn lemma_sorted_unique(s: Entries, i: int, j: int)
    requires
        sorted_keys(s),
        0 <= i < s.len(),
        0 <= j < s.len(),
        s[i].0 == s[j].0,
    ensures
        i == j,
{
    if i < j || j < i {
        lemma_seq_lt_irreflexive(s[i].0);
    }
}

/// In sorted entries, the dictionary holds each entry's key with its value.
pub proof fn lemma_to_map_index(s: Entries, i: int)
    requires
        sorted_keys(s),
        0 <= i < s.len(),
    ensures
        to_map(s).contains_key(s[i].0),
        to_map(s)[s[i].0] == s[i].1,
{
    let k = s[i].0;
    assert(has_key(s, k));
    let j = key_index(s, k);
    lemma_sorted_unique(s, i, j);
}

pub proof fn lemma_to_map_empty(s: Entries)
    requires
        s.len() == 0,
    ensures
        to_map(s) == Map::<Seq<char>, Seq<char>>::empty(),
{
    assert(to_map(s) =~= Map::<Seq<char>, Seq<char>>::empty());
}

/// A map from string keys to string values, iterated in key order.
#[derive(Debug)]
pub struct StrMap {
    entries: Vec<(String, String)>,
}

impl View for StrMap {
    type V = Entries;

    closed spec fn view(&self) -> Entries {
        entries_view(self.entries@)
    }
}

/// The entries of a list of string pairs.
pub open spec fn entries_view(v: Seq<(String, String)>) -> Entries {
    v.map_values(|e: (String, String)| (e.0@, e.1@))
}

impl StrMap {
    #[verifier::type_invariant]
    spec fn inv(&self) -> bool {
        sorted_keys(self@)
    }

    /// An empty map.
    pub fn new() -> (r: StrMap)
        ensures
            r@.len() == 0,
    {
        let r = StrMap { entries: Vec::new() };
        assert(r@ =~= Seq::<(Seq<char>, Seq<char>)>::empty());
        r
    }

    /// Number of entries; the entries are sorted by key.
    pub fn len(&self) -> (r: usize)
        ensures
            r == self@.len(),
            sorted_keys(self@),
    {
        proof {
            use_type_invariant(self);
        }
        self.entries.len()
    }

    /// Whether the map has no entries.
    pub fn is_empty(&self) -> (r: bool)
        ensures
            r == (self@.len() == 0),
    {
        self.entries.len() == 0
    }

    /// The entries in key order.
    pub fn pairs(&self) -> (r: &Vec<(String, String)>)
        ensures
            entries_view(r@) == self@,
    {
        &self.entries
    }

    /// The key of the `i`-th entry in key order.
    pub fn key_at(&self, i: usize) -> (r: &String)
        requires
            i < self@.len(),
        ensures
            r@ == self@[i as int].0,
    {
        &self.entries[i].0
    }

    /// The value of the `i`-th entry in key order.
    pub fn value_at(&self, i: usize) -> (r: &String)
        requires
            i < self@.len(),
        ensures
            r@ == self@[i as int].1,
    {
        &self.entries[i].1
    }

    /// Appends copies of the entries with index in `lo..hi` to `out`.
    fn copy_range(&self, lo: usize, hi: usize, out: &mut Vec<(String, String)>)
        requires
            lo <= hi <= self@.len(),
        ensures
            entries_view(final(out)@) == entries_view(old(out)@) + self@.subrange(lo as int, hi as int),
    {
        let ghost start = entries_view(out@);
        let mut i: usize = lo;
        while i < hi
            invariant
                lo <= i <= hi,
                hi <= self.entries.len(),
                entries_view(out@) =~= start + self@.subrange(lo as int, i as int),
            decreases hi - i,
        {
            let k = self.entries[i].0.clone();
            let v = self.entries[i].1.clone();
            let ghost before = out@;
            out.push((k, v));
            assert(out@ == before.push((k, v)));
            assert(entries_view(out@) =~= entries_view(before).push((k@, v@)));
            assert(self@.subrange(lo as int, i + 1) =~= self@.subrange(lo as int, i as int).push(self@[i as int]));
            i = i + 1;
        }
    }

    /// The map with the same keys and the `i`-th value replaced by `values[i]`.
    pub fn with_values(&self, values: Vec<String>) -> (r: StrMap)
        requires
            values@.len() == self@.len(),
        ensures
            r@.len() == self@.len(),
            forall|i: int| 0 <= i < r@.len() ==> (#[trigger] r@[i]).0 == self@[i].0 && r@[i].1 == values@[i]@,
    {
        proof {
            use_type_invariant(self);
        }
        let mut out: Vec<(String, String)> = Vec::new();
        let mut i: usize = 0;
        while i < self.entries.len()
            invariant
                i <= self.entries@.len(),
                values@.len() == self@.len(),
                self@.len() == self.entries@.len(),
                entries_view(out@).len() == i,
                forall|j: int| 0 <= j < i ==> (#[trigger] entries_view(out@)[j]).0 == self@[j].0 && entries_view(out@)[j].1 == values@[j]@,
            decreases self.entries.len() - i,
        {
            let ghost before = out@;
            out.push((self.entries[i].0.clone(), values[i].clone()));
            assert(entries_view(out@) =~= entries_view(before).push((self@[i as int].0, values@[i as int]@)));
            i = i + 1;
        }
        proof {
            let t = entries_view(out@);
            assert forall|a: int, b: int| 0 <= a < b < t.len() implies seq_lt(t[a].0, t[b].0) by {
                assert(t[a].0 == self@[a].0);
                assert(t[b].0 == self@[b].0);
            }
        }
        StrMap { entries: out }
    }

    /// A copy with the same entries.
    pub fn duplicate(&self) -> (r: StrMap)
        ensures
            r@ == self@,
    {
        proof {
            use_type_invariant(self);
        }
        let mut out: Vec<(String, String)> = Vec::new();
        self.copy_range(0, self.entries.len(), &mut out);
        assert(entries_view(out@) =~= self@);
        StrMap { entries: out }
    }

    /// Index of the first entry whose key does not sort before `k`.
    fn position(&self, k: &str) -> (r: usize)
        ensures
            r <= self@.len(),
            forall|i: int| 0 <= i < r ==> seq_lt(#[trigger] self@[i].0, k@),
            r < self@.len() ==> !seq_lt(self@[r as int].0, k@),
    {
        let mut i: usize = 0;
        while i < self.entries.len()
            invariant
                i <= self@.len(),
                forall|j: int| 0 <= j < i ==> seq_lt(#[trigger] self@[j].0, k@),
            decreases self.entries.len() - i,
        {
            if !str_lt(self.entries[i].0.as_str(), k) {
                return i;
            }
            i = i + 1;
        }
        i
    }

    /// The index of the entry with key `k`, if any.
    pub fn find(&self, k: &str) -> (r: Option<usize>)
        ensures
            r.is_some() == has_key(self@, k@),
            r.is_some() ==> r.unwrap() < self@.len() && self@[r.unwrap() as int].0 == k@,
    {
        proof {
            use_type_invariant(self);
        }
        let i = self.position(k);
        if i < self.entries.len() && self.entries[i].0 == k.to_owned() {
            return Some(i);
        }
        proof {
            assert forall|j: int| 0 <= j < self@.len() implies self@[j].0 != k@ by {
                if j < i {
                    lemma_seq_lt_irreflexive(k@);
                } else if self@[j].0 == k@ {
                    if j > i {
                        lemma_seq_lt_total(self@[i as int].0, k@);
                        lemma_seq_lt_asymmetric(self@[i as int].0, self@[j].0);
                    }
                }
            }
        }
        None
    }

    /// The value stored under `k`.
    pub fn get(&self, k: &str) -> (r: Option<&String>)
        ensures
            r.is_some() == to_map(self@).contains_key(k@),
            r.is_some() ==> r.unwrap()@ == to_map(self@)[k@],
    {
        proof {
            use_type_invariant(self);
        }
        match self.find(k) {
            Some(i) => {
                proof {
                    lemma_to_map_index(self@, i as int);
                }
                Some(&self.entries[i].1)
            },
            None => None,
        }
    }

    /// Whether some entry has key `k`.
    pub fn contains_key(&self, k: &str) -> (r: bool)
        ensures
            r == to_map(self@).contains_key(k@),
    {
        self.find(k).is_some()
    }

    /// Sets `k` to `v`, replacing an earlier value of `k`.
    pub fn insert(&mut self, k: String, v: String)
        ensures
            to_map(final(self)@) == to_map(old(self)@).insert(k@, v@),
            has_key(old(self)@, k@) ==> final(self)@.len() == old(self)@.len(),
            !has_key(old(self)@, k@) ==> final(self)@.len() == old(self)@.len() + 1,
    {
        proof {
            use_type_invariant(&*self);
        }
        let ghost s = self@;
        let i = self.position(k.as_str());
        let ghost kv = k@;
        let ghost vv = v@;
        if i < self.entries.len() && self.entries[i].0 == k {
            let ghost old_entries = self.entries@;
            let mut out: Vec<(String, String)> = Vec::new();
            self.copy_range(0, i, &mut out);
            let ghost before = out@;
            out.push((k, v));
            assert(entries_view(out@) =~= entries_view(before).push((kv, vv)));
            self.copy_range(i + 1, self.entries.len(), &mut out);
            assert(entries_view(out@) =~= s.update(i as int, (kv, vv)));
            proof {
                let t = entries_view(out@);
                assert(t =~= s.update(i as int, (kv, vv)));
                assert(has_key(s, kv));
                assert(sorted_keys(t)) by {
                    assert forall|a: int, b: int| 0 <= a < b < t.len() implies seq_lt(t[a].0, t[b].0) by {
                        assert(t[a].0 == s[a].0);
                        assert(t[b].0 == s[b].0);
                    }
                }
                assert forall|x: Seq<char>| to_map(t).contains_key(x) == to_map(s).insert(kv, vv).contains_key(x) by {
                    if has_key(s, x) {
                        let j = choose|j: int| 0 <= j < s.len() && s[j].0 == x;
                        assert(t[j].0 == x);
                    }
                    if has_key(t, x) {
                        let j = choose|j: int| 0 <= j < t.len() && t[j].0 == x;
                        assert(s[j].0 == x);
                    }
                }
                assert forall|x: Seq<char>| #[trigger] to_map(t).contains_key(x) implies to_map(t)[x] == to_map(s).insert(kv, vv)[x] by {
                    let j = choose|j: int| 0 <= j < t.len() && t[j].0 == x;
                    lemma_to_map_index(t, j);
                    if j != i {
                        lemma_to_map_index(s, j);
                        if x == kv {
                            assert(t[i as int].0 == kv);
                            lemma_sorted_unique(t, i as int, j);
                        }
                    }
                }
                assert(to_map(t) =~= to_map(s).insert(kv, vv));
            }
            *self = StrMap { entries: out };
        } else {
            let mut out: Vec<(String, String)> = Vec::new();
            self.copy_range(0, i, &mut out);
            let ghost before = out@;
            out.push((k, v));
            assert(entries_view(out@) =~= entries_view(before).push((kv, vv)));
            self.copy_range(i, self.entries.len(), &mut out);
            assert(entries_view(out@) =~= s.insert(i as int, (kv, vv)));
            proof {
                let t = entries_view(out@);
                assert(t =~= s.insert(i as int, (kv, vv)));
                assert(!has_key(s, kv)) by {
                    if has_key(s, kv) {
                        let j = choose|j: int| 0 <= j < s.len() && s[j].0 == kv;
                        if j < i {
                            lemma_seq_lt_irreflexive(kv);
                        } else if j > i {
                            lemma_seq_lt_total(s[i as int].0, kv);
                            lemma_seq_lt_asymmetric(s[i as int].0, s[j].0);
                        }
                    }
                }
                assert(i < s.len() ==> seq_lt(kv, s[i as int].0)) by {
                    if i < s.len() {
                        lemma_seq_lt_total(s[i as int].0, kv);
                    }
                }
                assert(sorted_keys(t)) by {
                    assert forall|a: int, b: int| 0 <= a < b < t.len() implies seq_lt(t[a].0, t[b].0) by {
                        if a < i && b == i {
                        } else if a < i && b > i {
                            assert(t[b] == s[b - 1]);
                        } else if a == i && b > i {
                            assert(t[b] == s[b - 1]);
                            if b - 1 > i {
                                lemma_seq_lt_transitive(kv, s[i as int].0, s[b - 1].0);
                            }
                        } else if a > i {
                            assert(t[a] == s[a - 1]);
                            assert(t[b] == s[b - 1]);
                        }
                    }
                }
                assert forall|x: Seq<char>| to_map(t).contains_key(x) == to_map(s).insert(kv, vv).contains_key(x) by {
                    if has_key(s, x) {
                        let j = choose|j: int| 0 <= j < s.len() && s[j].0 == x;
                        if j < i {
                            assert(t[j].0 == x);
                        } else {
                            assert(t[j + 1].0 == x);
                        }
                    }
                    if x == kv {
                        assert(t[i as int].0 == x);
                    }
                    if has_key(t, x) {
                        let j = choose|j: int| 0 <= j < t.len() && t[j].0 == x;
                        if j < i {
                            assert(s[j].0 == x);
                        } else if j > i {
                            assert(s[j - 1].0 == x);
                        }
                    }
                }
                assert forall|x: Seq<char>| #[trigger] to_map(t).contains_key(x) implies to_map(t)[x] == to_map(s).insert(kv, vv)[x] by {
                    let j = choose|j: int| 0 <= j < t.len() && t[j].0 == x;
                    lemma_to_map_index(t, j);
                    if j < i {
                        lemma_to_map_index(s, j);
                    } else if j > i {
                        lemma_to_map_index(s, j - 1);
                    }
                }
                assert(to_map(t) =~= to_map(s).insert(kv, vv));
            }
            *self = StrMap { entries: out };
        }
    }

    /// Drops the entry with key `k`, if any.
    pub fn remove(&mut self, k: &str)
        ensures
            to_map(final(self)@) == to_map(old(self)@).remove(k@),
    {
        proof {
            use_type_invariant(&*self);
        }
        let ghost s = self@;
        match self.find(k) {
            Some(i) => {
                assert(self@.len() == self.entries@.len());
                assert(i < self.entries.len());
                let mut out: Vec<(String, String)> = Vec::new();
                self.copy_range(0, i, &mut out);
                self.copy_range(i + 1, self.entries.len(), &mut out);
                assert(entries_view(out@) =~= s.remove(i as int));
                proof {
                    let t = entries_view(out@);
                    assert(t =~= s.remove(i as int));
                    assert(sorted_keys(t)) by {
                        assert forall|a: int, b: int| 0 <= a < b < t.len() implies seq_lt(t[a].0, t[b].0) by {
                            if a < i && b >= i {
                                assert(t[b] == s[b + 1]);
                            } else if a >= i {
                                assert(t[a] == s[a + 1]);
                                assert(t[b] == s[b + 1]);
                            }
                        }
                    }
                    assert forall|x: Seq<char>| to_map(t).contains_key(x) == to_map(s).remove(k@).contains_key(x) by {
                        if has_key(s, x) && x != k@ {
                            let j = choose|j: int| 0 <= j < s.len() && s[j].0 == x;
                            if j < i {
                                assert(t[j].0 == x);
                            } else {
                                assert(t[j - 1].0 == x);
                            }
                        }
                        if has_key(t, x) {
                            let j = choose|j: int| 0 <= j < t.len() && t[j].0 == x;
                            if j < i {
                                assert(s[j].0 == x);
                                if x == k@ {
                                    lemma_sorted_unique(s, i as int, j);
                                }
                            } else {
                                assert(s[j + 1].0 == x);
                                if x == k@ {
                                    lemma_sorted_unique(s, i as int, j + 1);
                                }
                            }
                        }
                    }
                    assert forall|x: Seq<char>| #[trigger] to_map(t).contains_key(x) implies to_map(t)[x] == to_map(s).remove(k@)[x] by {
                        let j = choose|j: int| 0 <= j < t.len() && t[j].0 == x;
                        lemma_to_map_index(t, j);
                        if j < i {
                            lemma_to_map_index(s, j);
                        } else {
                            lemma_to_map_index(s, j + 1);
                        }
                    }
                    assert(to_map(t) =~= to_map(s).remove(k@));
                }
                *self = StrMap { entries: out };
            },
            None => {
                assert(!to_map(s).contains_key(k@));
                assert(to_map(s) =~= to_map(s).remove(k@));
            },
        }
    }

    /// Drops every entry.
    pub fn clear(&mut self)
        ensures
            final(self)@.len() == 0,
    {
        *self = StrMap::new();
    }
}

impl Clone for StrMap {
    fn clone(&self) -> (r: StrMap)
        ensures
            r@ == self@,
    {
        self.duplicate()
    }
}

} // verus!
