//! Read-modify-write on backends that keep one key/value blob per path, and
//! the laws that `put`, `del` and `get` obey there.
use vstd::prelude::*;

use crate::config::{overlay_map, projection, selection, KV, PathMap};
use crate::error::Error;
use crate::strmap::{has_key, key_index, lemma_to_map_index, sorted_keys, to_map, Entries, StrMap};

verus! {

/// Writes each of `kvs` into `data`, later values of a key overriding earlier ones.
pub fn overlay(data: &mut StrMap, kvs: &[KV])
    ensures
        to_map(final(data)@) == overlay_map(to_map(old(data)@), kvs@),
{
    let ghost m0 = to_map(data@);
    let mut i: usize = 0;
    while i < kvs.len()
        invariant
            i <= kvs@.len(),
            to_map(data@) == overlay_map(m0, kvs@.subrange(0, i as int)),
        decreases kvs.len() - i,
    {
        data.insert(kvs[i].key.clone(), kvs[i].value.clone());
        assert(kvs@.subrange(0, i + 1).drop_last() =~= kvs@.subrange(0, i as int));
        i = i + 1;
    }
    assert(kvs@.subrange(0, kvs@.len() as int) =~= kvs@);
}

/// Drops from `data` every key that `keys` selects.
pub fn remove_keys(data: &mut StrMap, keys: &StrMap)
    ensures
        to_map(final(data)@) == to_map(old(data)@).remove_keys(to_map(keys@).dom()),
{
    let ghost m0 = to_map(data@);
    let n = keys.len();
    let mut i: usize = 0;
    while i < n
        invariant
            n == keys@.len(),
            sorted_keys(keys@),
            i <= n,
            to_map(data@) == m0.remove_keys(to_map(keys@.subrange(0, i as int)).dom()),
        decreases n - i,
    {
        let ghost before = to_map(data@);
        data.remove(keys.key_at(i).as_str());
        proof {
            let a = keys@.subrange(0, i as int);
            let b = keys@.subrange(0, i + 1);
            assert forall|x: Seq<char>| has_key(b, x) == (has_key(a, x) || x == keys@[i as int].0) by {
                if has_key(a, x) {
                    let j = choose|j: int| 0 <= j < a.len() && a[j].0 == x;
                    assert(b[j].0 == x);
                }
                if x == keys@[i as int].0 {
                    assert(b[i as int].0 == x);
                }
                if has_key(b, x) {
                    let j = choose|j: int| 0 <= j < b.len() && b[j].0 == x;
                    if j < i {
                        assert(a[j].0 == x);
                    }
                }
            }
            assert(to_map(b).dom() =~= to_map(a).dom().insert(keys@[i as int].0));
            assert(to_map(data@) =~= m0.remove_keys(to_map(b).dom()));
        }
        i = i + 1;
    }
    assert(keys@.subrange(0, n as int) =~= keys@);
}

/// A missing blob reads as an empty one; other outcomes pass through.
pub fn or_empty(r: Result<StrMap, Error>) -> (out: Result<StrMap, Error>)
    ensures
        r is Ok ==> out is Ok && out->Ok_0@ == r->Ok_0@,
        r is Err && r->Err_0 is NotFound ==> out is Ok && out->Ok_0@.len() == 0,
        r is Err && !(r->Err_0 is NotFound) ==> out == r,
{
    match r {
        Ok(d) => Ok(d),
        Err(Error::NotFound { .. }) => Ok(StrMap::new()),
        Err(e) => Err(e),
    }
}

/// The blob to write back for a `put` of `kvs` over what was read at the path
/// (a missing blob counts as empty).
pub fn put_blob(existing: Result<StrMap, Error>, kvs: &[KV]) -> (out: Result<StrMap, Error>)
    ensures
        existing is Ok ==> out is Ok && to_map(out->Ok_0@) == overlay_map(
            to_map(existing->Ok_0@),
            kvs@,
        ),
        existing is Err && existing->Err_0 is NotFound ==> out is Ok && to_map(out->Ok_0@)
            == overlay_map(Map::empty(), kvs@),
        existing is Err && !(existing->Err_0 is NotFound) ==> out == existing,
{
    match or_empty(existing) {
        Ok(mut d) => {
            proof {
                if d@.len() == 0 {
                    crate::strmap::lemma_to_map_empty(d@);
                }
            }
            overlay(&mut d, kvs);
            Ok(d)
        },
        Err(e) => Err(e),
    }
}

/// What a `del` through `pm` does to the blob read at its path: `None` when
/// the whole path goes (no keys selected), else the blob without the
/// selected keys (a missing blob counts as empty).
pub fn del_blob(existing: Result<StrMap, Error>, pm: &PathMap) -> (out: Result<Option<StrMap>, Error>)
    ensures
        pm.keys@.len() == 0 ==> out == Ok::<Option<StrMap>, Error>(None),
        pm.keys@.len() > 0 && existing is Ok ==> out is Ok && out->Ok_0 is Some && to_map(
            out->Ok_0->Some_0@,
        ) == to_map(existing->Ok_0@).remove_keys(to_map(pm.keys@).dom()),
        pm.keys@.len() > 0 && existing is Err && existing->Err_0 is NotFound ==> out is Ok
            && out->Ok_0 is Some && out->Ok_0->Some_0@.len() == 0,
        pm.keys@.len() > 0 && existing is Err && !(existing->Err_0 is NotFound) ==> out is Err
            && out->Err_0 == existing->Err_0,
{
    if pm.keys.is_empty() {
        return Ok(None);
    }
    match or_empty(existing) {
        Ok(mut d) => {
            let ghost was_empty = d@.len() == 0;
            proof {
                if was_empty {
                    crate::strmap::lemma_to_map_empty(d@);
                }
            }
            remove_keys(&mut d, &pm.keys);
            let _n = d.len();
            proof {
                if was_empty {
                    assert(to_map(d@) =~= Map::<Seq<char>, Seq<char>>::empty());
                    if d@.len() > 0 {
                        lemma_to_map_index(d@, 0);
                    }
                }
            }
            Ok(Some(d))
        },
        Err(e) => Err(e),
    }
}

proof fn lemma_overlay_last_write(m: Map<Seq<char>, Seq<char>>, kvs: Seq<KV>, i: int)
    requires
        0 <= i < kvs.len(),
        forall|j: int| i < j < kvs.len() ==> (#[trigger] kvs[j]).key@ != kvs[i].key@,
    ensures
        overlay_map(m, kvs).contains_key(kvs[i].key@),
        overlay_map(m, kvs)[kvs[i].key@] == kvs[i].value@,
    decreases kvs.len(),
{
    if i < kvs.len() - 1 {
        assert forall|j: int| i < j < kvs.drop_last().len() implies (#[trigger] kvs.drop_last()[j]).key@
            != kvs.drop_last()[i].key@ by {
            assert(kvs.drop_last()[j] == kvs[j]);
        }
        lemma_overlay_last_write(m, kvs.drop_last(), i);
        assert(kvs.drop_last()[i] == kvs[i]);
        assert(kvs.last() == kvs[kvs.len() - 1]);
    }
}

proof fn lemma_overlay_untouched(m: Map<Seq<char>, Seq<char>>, kvs: Seq<KV>, k: Seq<char>)
    requires
        m.contains_key(k),
        forall|j: int| 0 <= j < kvs.len() ==> (#[trigger] kvs[j]).key@ != k,
    ensures
        overlay_map(m, kvs).contains_key(k),
        overlay_map(m, kvs)[k] == m[k],
    decreases kvs.len(),
{
    if kvs.len() > 0 {
        assert forall|j: int| 0 <= j < kvs.drop_last().len() implies (#[trigger] kvs.drop_last()[j]).key@
            != k by {
            assert(kvs.drop_last()[j] == kvs[j]);
        }
        lemma_overlay_untouched(m, kvs.drop_last(), k);
        assert(kvs.last() == kvs[kvs.len() - 1]);
    }
}

proof fn lemma_whole_projection_has(data: Entries, k: Seq<char>)
    requires
        sorted_keys(data),
        to_map(data).contains_key(k),
    ensures
        exists|i: int|
            0 <= i < projection(data, Seq::empty()).len() && #[trigger] projection(data, Seq::empty())[i]
                == (k, k, to_map(data)[k]),
{
    let i = key_index(data, k);
    lemma_to_map_index(data, i);
    assert(projection(data, Seq::empty())[i] == (k, k, to_map(data)[k]));
}

/// `kvs[i]` is the last value written to its key.
pub open spec fn is_last_write(kvs: Seq<KV>, i: int) -> bool {
    0 <= i < kvs.len() && forall|j: int| i < j < kvs.len() ==> (#[trigger] kvs[j]).key@ != kvs[i].key@
}

/// No value of `kvs` is written to key `k`.
pub open spec fn untouched(kvs: Seq<KV>, k: Seq<char>) -> bool {
    forall|j: int| 0 <= j < kvs.len() ==> (#[trigger] kvs[j]).key@ != k
}

/// A `get` of every key of the blob `data` returns `v` under key `k`.
pub open spec fn get_returns(data: Entries, k: Seq<char>, v: Seq<char>) -> bool {
    exists|t: int|
        0 <= t < projection(data, Seq::empty()).len() && #[trigger] projection(data, Seq::empty())[t]
            == (k, k, v)
}

/// After writing `kvs` over the dictionary `m`, a `get` of every key of
/// the result returns each written value under its key (the last one where a
/// key repeats) and keeps every key of `m` that the write did not touch.
pub proof fn lemma_overlay_then_get(m: Map<Seq<char>, Seq<char>>, kvs: Seq<KV>, after: Entries)
    requires
        sorted_keys(after),
        to_map(after) == overlay_map(m, kvs),
    ensures
        forall|i: int| #[trigger] is_last_write(kvs, i) ==> get_returns(after, kvs[i].key@, kvs[i].value@),
        forall|k: Seq<char>| m.contains_key(k) && #[trigger] untouched(kvs, k) ==> get_returns(after, k, m[k]),
{
    assert forall|i: int| #[trigger] is_last_write(kvs, i) implies get_returns(
        after,
        kvs[i].key@,
        kvs[i].value@,
    ) by {
        lemma_overlay_last_write(m, kvs, i);
        lemma_whole_projection_has(after, kvs[i].key@);
    }
    assert forall|k: Seq<char>| m.contains_key(k) && #[trigger] untouched(kvs, k) implies get_returns(after, k, m[k]) by {
        lemma_overlay_untouched(m, kvs, k);
        lemma_whole_projection_has(after, k);
    }
}

/// After a `put` of `kvs` on a blob, a `get` of every key under the path
/// returns each written value under its key (the last one where a key repeats)
/// and keeps every earlier key that the put did not touch.
pub proof fn lemma_put_then_get(before: Entries, kvs: Seq<KV>, after: Entries)
    requires
        sorted_keys(after),
        to_map(after) == overlay_map(to_map(before), kvs),
    ensures
        forall|i: int| #[trigger] is_last_write(kvs, i) ==> get_returns(after, kvs[i].key@, kvs[i].value@),
        forall|k: Seq<char>|
            to_map(before).contains_key(k) && #[trigger] untouched(kvs, k) ==> get_returns(
                after,
                k,
                to_map(before)[k],
            ),
{
    lemma_overlay_then_get(to_map(before), kvs, after);
}

/// Deleting a subset of keys from a blob leaves every other key with its value.
pub proof fn lemma_subset_delete(before: Entries, keys: Entries, after: Entries)
    requires
        to_map(after) == to_map(before).remove_keys(to_map(keys).dom()),
    ensures
        forall|k: Seq<char>|
            to_map(before).contains_key(k) && !to_map(keys).contains_key(k) ==> #[trigger] to_map(after).contains_key(k)
                && to_map(after)[k] == to_map(before)[k],
        forall|k: Seq<char>| to_map(keys).contains_key(k) ==> !(#[trigger] to_map(after).contains_key(k)),
{
}

/// Each value drawn through a mapping that selects keys carries a selected
/// backend key as `from_key`, the name it maps to as `key`, and the value
/// stored under that backend key.
pub proof fn lemma_rename(data: Entries, keys: Entries)
    requires
        keys.len() > 0,
        sorted_keys(keys),
    ensures
        forall|i: int|
            0 <= i < projection(data, keys).len() ==> to_map(keys).contains_key(
                (#[trigger] projection(data, keys)[i]).0,
            ) && to_map(keys)[projection(data, keys)[i].0] == projection(data, keys)[i].1
                && to_map(data).contains_key(projection(data, keys)[i].0) && to_map(data)[projection(
                data,
                keys,
            )[i].0] == projection(data, keys)[i].2,
{
    lemma_selection_renames(to_map(data), keys);
}

proof fn lemma_selection_renames(m: Map<Seq<char>, Seq<char>>, keys: Entries)
    requires
        sorted_keys(keys),
    ensures
        forall|i: int|
            0 <= i < selection(m, keys).len() ==> exists|j: int|
                0 <= j < keys.len() && keys[j].0 == (#[trigger] selection(m, keys)[i]).0 && keys[j].1
                    == selection(m, keys)[i].1,
        forall|i: int|
            0 <= i < selection(m, keys).len() ==> to_map(keys).contains_key(
                (#[trigger] selection(m, keys)[i]).0,
            ) && to_map(keys)[selection(m, keys)[i].0] == selection(m, keys)[i].1 && m.contains_key(
                selection(m, keys)[i].0,
            ) && m[selection(m, keys)[i].0] == selection(m, keys)[i].2,
    decreases keys.len(),
{
    if keys.len() > 0 {
        let ks = keys.drop_last();
        assert(sorted_keys(ks));
        lemma_selection_renames(m, ks);
        assert forall|i: int| 0 <= i < selection(m, keys).len() implies exists|j: int|
            0 <= j < keys.len() && keys[j].0 == (#[trigger] selection(m, keys)[i]).0 && keys[j].1
                == selection(m, keys)[i].1 by {
            if i < selection(m, ks).len() {
                let j = choose|j: int|
                    0 <= j < ks.len() && ks[j].0 == (#[trigger] selection(m, ks)[i]).0 && ks[j].1
                        == selection(m, ks)[i].1;
                assert(keys[j] == ks[j]);
            } else {
                assert(keys[keys.len() - 1] == keys.last());
            }
        }
        assert forall|i: int| 0 <= i < selection(m, keys).len() implies to_map(keys).contains_key(
            (#[trigger] selection(m, keys)[i]).0,
        ) && to_map(keys)[selection(m, keys)[i].0] == selection(m, keys)[i].1 && m.contains_key(
            selection(m, keys)[i].0,
        ) && m[selection(m, keys)[i].0] == selection(m, keys)[i].2 by {
            let j = choose|j: int|
                0 <= j < keys.len() && keys[j].0 == (#[trigger] selection(m, keys)[i]).0 && keys[j].1
                    == selection(m, keys)[i].1;
            lemma_to_map_index(keys, j);
            if i < selection(m, ks).len() {
            } else {
            }
        }
    }
}

} // verus!
