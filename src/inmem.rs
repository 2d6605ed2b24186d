//! The in-memory provider: a map from path to key/value map, owned by the
//! provider. Sharing it between tasks is the caller's part.
use vstd::prelude::*;

use crate::blob::{get_returns, is_last_write, lemma_overlay_then_get, overlay, remove_keys, untouched};
use crate::config::{is_mapped_kv, overlay_map, projection, PathMap, ProviderInfo, ProviderKind, KV};
use crate::error::Error;
use crate::strmap::{lemma_to_map_empty, sorted_keys, to_map, Entries, StrMap};

verus! {

/// The stored data as plain values: path and entries, first entry of a path wins.
pub type Store = Seq<(Seq<char>, Entries)>;

/// The entries stored at `path`.
pub open spec fn lookup(s: Store, path: Seq<char>) -> Option<Entries>
    decreases s.len(),
{
    if s.len() == 0 {
        None
    } else if s[0].0 == path {
        Some(s[0].1)
    } else {
        lookup(s.drop_first(), path)
    }
}

/// The dictionary stored at `path`, empty where nothing is.
pub open spec fn data_at(s: Store, path: Seq<char>) -> Map<Seq<char>, Seq<char>> {
    match lookup(s, path) {
        Some(e) => to_map(e),
        None => Map::empty(),
    }
}

/// An in-memory provider.
#[derive(Debug, Clone)]
pub struct Inmem {
    pub store: Vec<(String, StrMap)>,
    pub name: String,
}

impl View for Inmem {
    type V = Store;

    open spec fn view(&self) -> Store {
        self.store@.map_values(|e: (String, StrMap)| (e.0@, e.1@))
    }
}

proof fn lemma_lookup_index(s: Store, path: Seq<char>, i: int)
    requires
        0 <= i < s.len(),
        s[i].0 == path,
        forall|j: int| 0 <= j < i ==> (#[trigger] s[j]).0 != path,
    ensures
        lookup(s, path) == Some(s[i].1),
    decreases i,
{
    if i > 0 {
        assert forall|j: int| 0 <= j < i - 1 implies (#[trigger] s.drop_first()[j]).0 != path by {
            assert(s.drop_first()[j] == s[j + 1]);
        }
        lemma_lookup_index(s.drop_first(), path, i - 1);
    }
}

proof fn lemma_lookup_none(s: Store, path: Seq<char>)
    requires
        forall|j: int| 0 <= j < s.len() ==> (#[trigger] s[j]).0 != path,
    ensures
        lookup(s, path) == None::<Entries>,
    decreases s.len(),
{
    if s.len() > 0 {
        assert forall|j: int| 0 <= j < s.len() - 1 implies (#[trigger] s.drop_first()[j]).0 != path by {
            assert(s.drop_first()[j] == s[j + 1]);
        }
        lemma_lookup_none(s.drop_first(), path);
    }
}

proof fn lemma_lookup_update(s: Store, i: int, path: Seq<char>, e: Entries, other: Seq<char>)
    requires
        0 <= i < s.len(),
        s[i].0 == path,
        forall|j: int| 0 <= j < i ==> (#[trigger] s[j]).0 != path,
    ensures
        lookup(s.update(i, (path, e)), path) == Some(e),
        other != path ==> lookup(s.update(i, (path, e)), other) == lookup(s, other),
    decreases i,
{
    let t = s.update(i, (path, e));
    if i == 0 {
        assert(t.drop_first() =~= s.drop_first());
    } else {
        assert(t.drop_first() =~= s.drop_first().update(i - 1, (path, e)));
        assert forall|j: int| 0 <= j < i - 1 implies (#[trigger] s.drop_first()[j]).0 != path by {
            assert(s.drop_first()[j] == s[j + 1]);
        }
        lemma_lookup_update(s.drop_first(), i - 1, path, e, other);
    }
}

proof fn lemma_lookup_push(s: Store, x: (Seq<char>, Entries), q: Seq<char>)
    ensures
        lookup(s.push(x), q) == match lookup(s, q) {
            Some(e) => Some(e),
            None => if x.0 == q {
                Some(x.1)
            } else {
                None
            },
        },
    decreases s.len(),
{
    let t = s.push(x);
    if s.len() == 0 {
        assert(t[0] == x);
        assert(t.drop_first() =~= Seq::<(Seq<char>, Entries)>::empty());
        assert(lookup(t.drop_first(), q) is None);
        assert(lookup(s, q) is None);
    } else {
        assert(t.drop_first() =~= s.drop_first().push(x));
        assert(t[0] == s[0]);
        lemma_lookup_push(s.drop_first(), x, q);
    }
}

/// After a `put` to a path and then a `del` there that selects no keys, a
/// `get` at the path finds nothing (`get` fails exactly where `lookup` is
/// `None`), while every other path keeps what it held before the `put`.
pub proof fn lemma_full_delete(before: Store, mid: Store, after: Store, path: Seq<char>)
    requires
        lookup(mid, path) is Some,
        forall|q: Seq<char>| q != path ==> lookup(mid, q) == lookup(before, q),
        lookup(after, path) is None,
        forall|q: Seq<char>| q != path ==> lookup(after, q) == lookup(mid, q),
    ensures
        lookup(after, path) is None,
        forall|q: Seq<char>| q != path ==> #[trigger] lookup(after, q) == lookup(before, q),
{
}

/// After a `put` of `kvs` at a path, a `get` of every key there returns
/// each written value under its key (the last one where a key repeats) and
/// every key the path held before that the put did not touch, with its value.
pub proof fn lemma_inmem_put_then_get(before: Store, after: Store, path: Seq<char>, kvs: Seq<KV>)
    requires
        lookup(after, path) is Some,
        sorted_keys(lookup(after, path)->Some_0),
        to_map(lookup(after, path)->Some_0) == overlay_map(data_at(before, path), kvs),
    ensures
        forall|i: int| #[trigger] is_last_write(kvs, i) ==> get_returns(lookup(after, path)->Some_0, kvs[i].key@, kvs[i].value@),
        forall|k: Seq<char>|
            data_at(before, path).contains_key(k) && #[trigger] untouched(kvs, k) ==> get_returns(
                lookup(after, path)->Some_0,
                k,
                data_at(before, path)[k],
            ),
{
    lemma_overlay_then_get(data_at(before, path), kvs, lookup(after, path)->Some_0);
}

impl Inmem {
    /// A provider named `name` holding `store` (path and key/value map; the
    /// first entry of a path counts).
    pub fn new(name: &str, store: Vec<(String, StrMap)>) -> (r: Inmem)
        ensures
            r.name@ == name@,
            r@ == store@.map_values(|e: (String, StrMap)| (e.0@, e.1@)),
    {
        Inmem { store, name: name.to_owned() }
    }

    /// The identity of this provider.
    pub fn kind(&self) -> (r: ProviderInfo)
        ensures
            r.kind == ProviderKind::Inmem,
            r.name == self.name,
    {
        ProviderInfo { kind: ProviderKind::Inmem, name: self.name.clone() }
    }

    /// Index of the first entry stored at `path`.
    fn position(&self, path: &str) -> (r: Option<usize>)
        ensures
            r is None ==> lookup(self@, path@) is None,
            r is Some ==> r->Some_0 < self@.len() && self@[r->Some_0 as int].0 == path@ && lookup(
                self@,
                path@,
            ) == Some(self@[r->Some_0 as int].1) && forall|j: int|
                0 <= j < r->Some_0 ==> (#[trigger] self@[j]).0 != path@,
    {
        let mut i: usize = 0;
        while i < self.store.len()
            invariant
                i <= self@.len(),
                self@.len() == self.store@.len(),
                forall|j: int| 0 <= j < i ==> (#[trigger] self@[j]).0 != path@,
            decreases self.store.len() - i,
        {
            if self.store[i].0 == path.to_owned() {
                proof {
                    lemma_lookup_index(self@, path@, i as int);
                }
                return Some(i);
            }
            i = i + 1;
        }
        proof {
            lemma_lookup_none(self@, path@);
        }
        None
    }

    /// A copy of everything stored.
    pub fn get_state(&self) -> (r: Vec<(String, StrMap)>)
        ensures
            r@.map_values(|e: (String, StrMap)| (e.0@, e.1@)) == self@,
    {
        let mut out: Vec<(String, StrMap)> = Vec::new();
        let mut i: usize = 0;
        while i < self.store.len()
            invariant
                i <= self.store@.len(),
                out@.map_values(|e: (String, StrMap)| (e.0@, e.1@)) =~= self@.subrange(0, i as int),
            decreases self.store.len() - i,
        {
            let ghost before = out@;
            let entry = (self.store[i].0.clone(), self.store[i].1.duplicate());
            out.push(entry);
            assert(out@.map_values(|e: (String, StrMap)| (e.0@, e.1@)) =~= before.map_values(
                |e: (String, StrMap)| (e.0@, e.1@),
            ).push(self@[i as int]));
            i = i + 1;
        }
        assert(self@.subrange(0, self@.len() as int) =~= self@);
        out
    }

    /// The values that `pm` draws from the map at its path; `NotFound` when
    /// nothing is stored there.
    pub fn get(&self, pm: &PathMap) -> (r: Result<Vec<KV>, Error>)
        ensures
            lookup(self@, pm.path@) is None <==> r is Err,
            r is Err ==> (r matches Err(Error::NotFound { path: p, msg: m }) && p == pm.path && m@
                == "not found"@),
            r is Ok ==> {
                let d = lookup(self@, pm.path@)->Some_0;
                &&& r->Ok_0@.len() == projection(d, pm.keys@).len()
                &&& forall|i: int|
                    0 <= i < r->Ok_0@.len() ==> #[trigger] is_mapped_kv(
                        r->Ok_0@[i],
                        projection(d, pm.keys@)[i].2,
                        projection(d, pm.keys@)[i].0,
                        projection(d, pm.keys@)[i].1,
                        pm,
                        (ProviderInfo { kind: ProviderKind::Inmem, name: self.name }),
                    )
            },
    {
        match self.position(pm.path.as_str()) {
            Some(i) => {
                let info = self.kind();
                Ok(KV::from_data(&self.store[i].1, pm, &info))
            },
            None => Err(Error::NotFound { path: pm.path.clone(), msg: "not found".to_owned() }),
        }
    }

    /// Writes `kvs` over the map at `pm`'s path (an empty map where there was none).
    pub fn put(&mut self, pm: &PathMap, kvs: &[KV])
        ensures
            lookup(final(self)@, pm.path@) is Some,
            sorted_keys(lookup(final(self)@, pm.path@)->Some_0),
            to_map(lookup(final(self)@, pm.path@)->Some_0) == overlay_map(data_at(old(self)@, pm.path@), kvs@),
            forall|q: Seq<char>| q != pm.path@ ==> lookup(final(self)@, q) == lookup(old(self)@, q),
            final(self).name == old(self).name,
    {
        let ghost s = self@;
        match self.position(pm.path.as_str()) {
            Some(i) => {
                let mut data = self.store[i].1.duplicate();
                overlay(&mut data, kvs);
                let _n = data.len();
                let ghost e = data@;
                self.store.set(i, (pm.path.clone(), data));
                proof {
                    assert(self@ =~= s.update(i as int, (pm.path@, e)));
                    assert forall|q: Seq<char>| q != pm.path@ implies lookup(self@, q) == lookup(s, q) by {
                        lemma_lookup_update(s, i as int, pm.path@, e, q);
                    }
                    lemma_lookup_update(s, i as int, pm.path@, e, pm.path@);
                }
            },
            None => {
                let mut data = StrMap::new();
                proof {
                    lemma_to_map_empty(data@);
                }
                overlay(&mut data, kvs);
                let _n = data.len();
                let ghost e = data@;
                self.store.push((pm.path.clone(), data));
                proof {
                    assert(self@ =~= s.push((pm.path@, e)));
                    assert forall|q: Seq<char>| q != pm.path@ implies lookup(self@, q) == lookup(s, q) by {
                        lemma_lookup_push(s, (pm.path@, e), q);
                    }
                    lemma_lookup_push(s, (pm.path@, e), pm.path@);
                }
            },
        }
    }

    /// Deletes the whole map at `pm`'s path when `pm` selects no keys, else
    /// only the selected keys of it.
    pub fn del(&mut self, pm: &PathMap)
        ensures
            pm.keys@.len() == 0 ==> lookup(final(self)@, pm.path@) is None,
            pm.keys@.len() > 0 ==> lookup(final(self)@, pm.path@) is Some && sorted_keys(
                lookup(final(self)@, pm.path@)->Some_0,
            ) && to_map(
                lookup(final(self)@, pm.path@)->Some_0,
            ) == data_at(old(self)@, pm.path@).remove_keys(to_map(pm.keys@).dom()),
            forall|q: Seq<char>| q != pm.path@ ==> lookup(final(self)@, q) == lookup(old(self)@, q),
            final(self).name == old(self).name,
    {
        let ghost s = self@;
        if pm.keys.is_empty() {
            let mut kept: Vec<(String, StrMap)> = Vec::new();
            let mut i: usize = 0;
            while i < self.store.len()
                invariant
                    i <= self.store@.len(),
                    s == self@,
                    lookup(kept@.map_values(|e: (String, StrMap)| (e.0@, e.1@)), pm.path@) is None,
                    forall|q: Seq<char>|
                        q != pm.path@ ==> lookup(kept@.map_values(|e: (String, StrMap)| (e.0@, e.1@)), q)
                            == lookup(s.subrange(0, i as int), q),
                decreases self.store.len() - i,
            {
                let ghost kv_before = kept@.map_values(|e: (String, StrMap)| (e.0@, e.1@));
                let keep = self.store[i].0 != pm.path;
                if keep {
                    kept.push((self.store[i].0.clone(), self.store[i].1.duplicate()));
                }
                proof {
                    let kv_after = kept@.map_values(|e: (String, StrMap)| (e.0@, e.1@));
                    if keep {
                        assert(kv_after =~= kv_before.push(s[i as int]));
                        lemma_lookup_push(kv_before, s[i as int], pm.path@);
                    } else {
                        assert(kv_after =~= kv_before);
                    }
                    assert(s.subrange(0, i + 1) =~= s.subrange(0, i as int).push(s[i as int]));
                    assert forall|q: Seq<char>| q != pm.path@ implies #[trigger] lookup(kv_after, q) == lookup(
                        s.subrange(0, i + 1),
                        q,
                    ) by {
                        lemma_lookup_push(s.subrange(0, i as int), s[i as int], q);
                        if keep {
                            lemma_lookup_push(kv_before, s[i as int], q);
                        }
                    }
                }
                i = i + 1;
            }
            self.store = kept;
            proof {
                assert(s.subrange(0, s.len() as int) =~= s);
            }
        } else {
            match self.position(pm.path.as_str()) {
                Some(i) => {
                    let mut data = self.store[i].1.duplicate();
                    remove_keys(&mut data, &pm.keys);
                    let _n = data.len();
                    let ghost e = data@;
                    self.store.set(i, (pm.path.clone(), data));
                    proof {
                        assert(self@ =~= s.update(i as int, (pm.path@, e)));
                        assert forall|q: Seq<char>| q != pm.path@ implies lookup(self@, q) == lookup(s, q) by {
                            lemma_lookup_update(s, i as int, pm.path@, e, q);
                        }
                        lemma_lookup_update(s, i as int, pm.path@, e, pm.path@);
                    }
                },
                None => {
                    let mut data = StrMap::new();
                    proof {
                        lemma_to_map_empty(data@);
                    }
                    remove_keys(&mut data, &pm.keys);
                    let _n = data.len();
                    let ghost e = data@;
                    self.store.push((pm.path.clone(), data));
                    proof {
                        assert(self@ =~= s.push((pm.path@, e)));
                        assert forall|q: Seq<char>| q != pm.path@ implies lookup(self@, q) == lookup(s, q) by {
                            lemma_lookup_push(s, (pm.path@, e), q);
                        }
                        lemma_lookup_push(s, (pm.path@, e), pm.path@);
                    }
                },
            }
        }
    }
}

} // verus!
