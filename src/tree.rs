//! Backends that keep one value per key under a path prefix (and the
//! per-secret cloud stores): resource names, listings and point reads.
use vstd::prelude::*;

use crate::config::{is_mapped_kv, Mode, PathMap, ProviderInfo, KV};
use crate::paths::trim_start;
use crate::strmap::{to_map, Entries};
use crate::error::Error;
use crate::text::{chars_of, contains, contains_exec, occurs_at, occurs_at_exec, string_of};
use vstd::utf8::encode_utf8;

verus! {

/// The text after the last `/` of `s`, if `s` holds a `/`.
pub open spec fn after_last_slash(s: Seq<char>) -> Option<Seq<char>>
    decreases s.len(),
{
    if s.len() == 0 {
        None
    } else if s.last() == '/' {
        Some(Seq::empty())
    } else {
        match after_last_slash(s.drop_last()) {
            Some(t) => Some(t.push(s.last())),
            None => None,
        }
    }
}

/// The name of an entry: the text after the last `/` of its key, or the key.
pub open spec fn segment_name(key: Seq<char>) -> Seq<char> {
    match after_last_slash(key) {
        Some(t) => t,
        None => key,
    }
}

proof fn lemma_after_last_slash(s: Seq<char>, i: int)
    requires
        0 <= i <= s.len(),
        forall|j: int| i <= j < s.len() ==> s[j] != '/',
    ensures
        i > 0 && s[i - 1] == '/' ==> after_last_slash(s) == Some(s.subrange(i, s.len() as int)),
        i == 0 ==> after_last_slash(s) is None,
    decreases s.len(),
{
    if s.len() > 0 {
        if i == s.len() {
            if i > 0 && s[i - 1] == '/' {
                assert(s.subrange(i, s.len() as int) =~= Seq::<char>::empty());
            }
        } else {
            let d = s.drop_last();
            assert forall|j: int| i <= j < d.len() implies d[j] != '/' by {
                assert(d[j] == s[j]);
            }
            lemma_after_last_slash(d, i);
            if i > 0 && s[i - 1] == '/' {
                assert(d[i - 1] == s[i - 1]);
                assert(d.subrange(i, d.len() as int).push(s.last()) =~= s.subrange(i, s.len() as int));
            }
        }
    }
}

/// The text after the last `/` of a resource name.
pub fn last_segment(resource: &str) -> (r: Option<String>)
    ensures
        r is None <==> after_last_slash(resource@) is None,
        r is Some ==> r->Some_0@ == after_last_slash(resource@)->Some_0,
{
    let v = chars_of(resource);
    let mut i: usize = v.len();
    while i > 0 && v[i - 1] != '/'
        invariant
            v@ == resource@,
            i <= v@.len(),
            forall|j: int| i <= j < v@.len() ==> v@[j] != '/',
        decreases i,
    {
        i = i - 1;
    }
    proof {
        lemma_after_last_slash(v@, i as int);
    }
    if i == 0 {
        return None;
    }
    Some(string_of(&v.as_slice()[i..v.len()]))
}

/// The resource name of secret `key` under project path `path`.
pub fn secret_resource(path: &str, key: &str) -> (r: String)
    ensures
        r@ == path@ + "/secrets/"@ + key@,
{
    let mut out = path.to_owned();
    out.append("/secrets/");
    out.append(key);
    out
}

/// The version to read of a secret resource: the name itself where it
/// names a version, else its latest version.
pub fn version_resource(name: &str) -> (r: String)
    ensures
        contains(name@, "/versions"@) ==> r@ == name@,
        !contains(name@, "/versions"@) ==> r@ == name@ + "/versions/latest"@,
{
    let v = chars_of(name);
    let needle = chars_of("/versions");
    if contains_exec(&v, &needle) {
        name.to_owned()
    } else {
        let mut out = name.to_owned();
        out.append("/versions/latest");
        out
    }
}

/// `(name, value)` of each listed `(resource name, value)` whose name holds
/// a `/`, the name being the text after the last `/`, in listing order.
pub open spec fn listing_pick(listed: Seq<(String, String)>) -> Seq<(Seq<char>, Seq<char>)>
    decreases listed.len(),
{
    if listed.len() == 0 {
        Seq::empty()
    } else {
        let rest = listing_pick(listed.drop_last());
        match after_last_slash(listed.last().0@) {
            Some(t) => rest.push((t, listed.last().1@)),
            None => rest,
        }
    }
}

/// The values of a listing of `(resource name, value)` pairs under `pm`'s
/// path, each under its resource's last segment (names without `/` are
/// skipped), in listing order; an empty outcome is `NotFound`.
pub fn listed_values(pm: &PathMap, listed: &[(String, String)], provider: &ProviderInfo) -> (r: Result<Vec<KV>, Error>)
    ensures
        r is Ok <==> listing_pick(listed@).len() > 0,
        r is Ok ==> r->Ok_0@.len() == listing_pick(listed@).len() && forall|i: int|
            0 <= i < r->Ok_0@.len() ==> #[trigger] is_mapped_kv(
                r->Ok_0@[i],
                listing_pick(listed@)[i].1,
                listing_pick(listed@)[i].0,
                listing_pick(listed@)[i].0,
                pm,
                *provider,
            ),
        r is Err ==> (r matches Err(Error::NotFound { path: p, .. }) && p == pm.path),
{
    let mut out: Vec<KV> = Vec::new();
    let mut i: usize = 0;
    while i < listed.len()
        invariant
            i <= listed@.len(),
            out@.len() == listing_pick(listed@.subrange(0, i as int)).len(),
            forall|a: int|
                0 <= a < out@.len() ==> #[trigger] is_mapped_kv(
                    out@[a],
                    listing_pick(listed@.subrange(0, i as int))[a].1,
                    listing_pick(listed@.subrange(0, i as int))[a].0,
                    listing_pick(listed@.subrange(0, i as int))[a].0,
                    pm,
                    *provider,
                ),
        decreases listed.len() - i,
    {
        assert(listed@.subrange(0, i + 1).drop_last() =~= listed@.subrange(0, i as int));
        assert(listed@.subrange(0, i + 1).last() == listed@[i as int]);
        match last_segment(listed[i].0.as_str()) {
            Some(key) => {
                let kv = KV::from_value(listed[i].1.as_str(), key.as_str(), key.as_str(), pm, provider.duplicate());
                out.push(kv);
            },
            None => {},
        }
        i = i + 1;
    }
    assert(listed@.subrange(0, listed@.len() as int) =~= listed@);
    if out.len() == 0 {
        return Err(Error::NotFound { path: pm.path.clone(), msg: "path not found".to_owned() });
    }
    Ok(out)
}

/// `(from_key, to_key, value)` of each selected key whose read found a value
/// (`answers[i]` for the `i`-th key), in key order, over the first `n` keys.
pub open spec fn read_pick(answers: Seq<Option<String>>, keys: Entries, n: int) -> Seq<(Seq<char>, Seq<char>, Seq<char>)>
    decreases n,
{
    if n <= 0 {
        Seq::empty()
    } else {
        let rest = read_pick(answers, keys, n - 1);
        match answers[n - 1] {
            Some(v) => rest.push((keys[n - 1].0, keys[n - 1].1, v@)),
            None => rest,
        }
    }
}

/// The values of point reads of `pm`'s selected keys: `answers[i]` is what
/// the read of the `i`-th key found, if anything; found values come in key
/// order under their target names, and finding none is `NotFound` when
/// `empty_is_missing`.
pub fn read_values(pm: &PathMap, answers: &[Option<String>], provider: &ProviderInfo, empty_is_missing: bool) -> (r: Result<Vec<KV>, Error>)
    requires
        answers@.len() == pm.keys@.len(),
    ensures
        r is Err <==> empty_is_missing && read_pick(answers@, pm.keys@, answers@.len() as int).len() == 0,
        r is Err ==> (r matches Err(Error::NotFound { path: p, .. }) && p == pm.path),
        r is Ok ==> r->Ok_0@.len() == read_pick(answers@, pm.keys@, answers@.len() as int).len() && forall|a: int|
            0 <= a < r->Ok_0@.len() ==> #[trigger] is_mapped_kv(
                r->Ok_0@[a],
                read_pick(answers@, pm.keys@, answers@.len() as int)[a].2,
                read_pick(answers@, pm.keys@, answers@.len() as int)[a].0,
                read_pick(answers@, pm.keys@, answers@.len() as int)[a].1,
                pm,
                *provider,
            ),
{
    let mut out: Vec<KV> = Vec::new();
    let n = pm.keys.len();
    let mut i: usize = 0;
    while i < n
        invariant
            n == pm.keys@.len(),
            answers@.len() == n,
            i <= n,
            out@.len() == read_pick(answers@, pm.keys@, i as int).len(),
            forall|a: int|
                0 <= a < out@.len() ==> #[trigger] is_mapped_kv(
                    out@[a],
                    read_pick(answers@, pm.keys@, i as int)[a].2,
                    read_pick(answers@, pm.keys@, i as int)[a].0,
                    read_pick(answers@, pm.keys@, i as int)[a].1,
                    pm,
                    *provider,
                ),
        decreases n - i,
    {
        match &answers[i] {
            Some(v) => {
                let kv = KV::from_value(v.as_str(), pm.keys.key_at(i).as_str(), pm.keys.value_at(i).as_str(), pm, provider.duplicate());
                out.push(kv);
            },
            None => {},
        }
        i = i + 1;
    }
    if empty_is_missing && out.len() == 0 {
        return Err(Error::NotFound { path: pm.path.clone(), msg: "path not found".to_owned() });
    }
    Ok(out)
}

/// The key `key` of a tree entry, relative to `path`: without the prefix
/// `path` and any leading `/` when it has that prefix, unchanged otherwise.
pub open spec fn strip_key(path: Seq<char>, key: Seq<char>) -> Seq<char> {
    if key.len() >= path.len() && key.subrange(0, path.len() as int) == path {
        trim_start(key.subrange(path.len() as int, key.len() as int), '/')
    } else {
        key
    }
}

/// The key of an entry relative to `path`.
pub fn strip_key_exec(path: &str, key: &str) -> (r: String)
    ensures
        r@ == strip_key(path@, key@),
{
    match crate::paths::relative_key(path, key) {
        Ok(k) => k,
        Err(_) => key.to_owned(),
    }
}

/// The values of the entries that a prefix listing of `pm`'s path fetched
/// (a mapping without selected keys), each under its key relative to the
/// path; nothing fetched is `NotFound`. Point reads of selected keys go
/// through `read_values`, which gives each value its target name.
pub fn prefix_values(pm: &PathMap, fetched: &[(String, String)], provider: &ProviderInfo) -> (r: Result<Vec<KV>, Error>)
    ensures
        r is Err <==> fetched@.len() == 0,
        r is Err ==> (r matches Err(Error::NotFound { path: p, .. }) && p == pm.path),
        r is Ok ==> r->Ok_0@.len() == fetched@.len() && forall|i: int|
            0 <= i < fetched@.len() ==> #[trigger] is_mapped_kv(
                r->Ok_0@[i],
                fetched@[i].1@,
                strip_key(pm.path@, fetched@[i].0@),
                strip_key(pm.path@, fetched@[i].0@),
                pm,
                *provider,
            ),
{
    if fetched.len() == 0 {
        return Err(Error::NotFound { path: pm.path.clone(), msg: "not found".to_owned() });
    }
    let mut out: Vec<KV> = Vec::new();
    let mut i: usize = 0;
    while i < fetched.len()
        invariant
            i <= fetched@.len(),
            out@.len() == i,
            forall|k: int|
                0 <= k < i ==> #[trigger] is_mapped_kv(
                    out@[k],
                    fetched@[k].1@,
                    strip_key(pm.path@, fetched@[k].0@),
                    strip_key(pm.path@, fetched@[k].0@),
                    pm,
                    *provider,
                ),
        decreases fetched.len() - i,
    {
        let key = strip_key_exec(pm.path.as_str(), fetched[i].0.as_str());
        out.push(KV::from_value(fetched[i].1.as_str(), key.as_str(), key.as_str(), pm, provider.duplicate()));
        i = i + 1;
    }
    Ok(out)
}

/// `(name, value)` of each read pair whose name (the key's last segment)
/// `keys` selects (every pair when `keys` is empty), in pair order.
pub open spec fn named_pick(pairs: Seq<(String, Option<String>)>, keys: Entries) -> Seq<(Seq<char>, Seq<char>)>
    decreases pairs.len(),
{
    if pairs.len() == 0 {
        Seq::empty()
    } else {
        let rest = named_pick(pairs.drop_last(), keys);
        let n = segment_name(pairs.last().0@);
        if keys.len() == 0 || to_map(keys).contains_key(n) {
            rest.push((n, pairs.last().1->Some_0@))
        } else {
            rest
        }
    }
}

/// The values of the key-value pairs read at `pm`'s path, each under the
/// last segment of its key, keeping only selected names when `pm` selects
/// keys, in pair order; a pair without a value is `NotFound`.
pub fn named_values(pm: &PathMap, pairs: &[(String, Option<String>)], provider: &ProviderInfo) -> (r: Result<Vec<KV>, Error>)
    ensures
        r is Err <==> exists|i: int| 0 <= i < pairs@.len() && (#[trigger] pairs@[i]).1 is None,
        r is Err ==> (r matches Err(Error::NotFound { path: p, .. }) && p == pm.path),
        r is Ok ==> r->Ok_0@.len() == named_pick(pairs@, pm.keys@).len() && forall|a: int|
            0 <= a < r->Ok_0@.len() ==> #[trigger] is_mapped_kv(
                r->Ok_0@[a],
                named_pick(pairs@, pm.keys@)[a].1,
                named_pick(pairs@, pm.keys@)[a].0,
                named_pick(pairs@, pm.keys@)[a].0,
                pm,
                *provider,
            ),
{
    let mut out: Vec<KV> = Vec::new();
    let mut i: usize = 0;
    while i < pairs.len()
        invariant
            i <= pairs@.len(),
            forall|k: int| 0 <= k < i ==> (#[trigger] pairs@[k]).1 is Some,
            out@.len() == named_pick(pairs@.subrange(0, i as int), pm.keys@).len(),
            forall|a: int|
                0 <= a < out@.len() ==> #[trigger] is_mapped_kv(
                    out@[a],
                    named_pick(pairs@.subrange(0, i as int), pm.keys@)[a].1,
                    named_pick(pairs@.subrange(0, i as int), pm.keys@)[a].0,
                    named_pick(pairs@.subrange(0, i as int), pm.keys@)[a].0,
                    pm,
                    *provider,
                ),
        decreases pairs.len() - i,
    {
        assert(pairs@.subrange(0, i + 1).drop_last() =~= pairs@.subrange(0, i as int));
        assert(pairs@.subrange(0, i + 1).last() == pairs@[i as int]);
        match &pairs[i].1 {
            None => {
                return Err(Error::NotFound { path: pm.path.clone(), msg: "value not found".to_owned() });
            },
            Some(val) => {
                let name = match last_segment(pairs[i].0.as_str()) {
                    Some(n) => n,
                    None => pairs[i].0.clone(),
                };
                if pm.keys.is_empty() || pm.keys.contains_key(name.as_str()) {
                    let kv = KV::from_value(val.as_str(), name.as_str(), name.as_str(), pm, provider.duplicate());
                    out.push(kv);
                }
            },
        }
        i = i + 1;
    }
    assert(pairs@.subrange(0, pairs@.len() as int) =~= pairs@);
    Ok(out)
}

/// `full` lies under `root`: it starts with `root`.
pub open spec fn under(root: Seq<char>, full: Seq<char>) -> bool {
    full.len() >= root.len() && full.subrange(0, root.len() as int) == root
}

/// The values of a paginated parameter listing under `pm`'s path: the page
/// sizes decide `NotFound` (no page, or an empty first page); then each
/// listed `(name, value)` in order, under its name relative to the path. A
/// name outside the path is a `GetError`.
pub fn paged_values(pm: &PathMap, page_sizes: &[Option<usize>], params: &[(String, String)], provider: &ProviderInfo) -> (r: Result<Vec<KV>, Error>)
    ensures
        crate::paths::listing_is_empty(page_sizes@) ==> (r matches Err(Error::NotFound { path: p, .. }) && p == pm.path),
        !crate::paths::listing_is_empty(page_sizes@) && (exists|i: int| 0 <= i < params@.len() && !under(pm.path@, (#[trigger] params@[i]).0@))
            ==> (r matches Err(Error::GetError { path: p, .. }) && p@ == pm.path@),
        !crate::paths::listing_is_empty(page_sizes@) && (forall|i: int| 0 <= i < params@.len() ==> under(pm.path@, (#[trigger] params@[i]).0@))
            ==> r is Ok,
        r is Ok ==> r->Ok_0@.len() == params@.len() && forall|i: int|
            0 <= i < params@.len() ==> #[trigger] is_mapped_kv(
                r->Ok_0@[i],
                params@[i].1@,
                trim_start(params@[i].0@.subrange(pm.path@.len() as int, params@[i].0@.len() as int), '/'),
                trim_start(params@[i].0@.subrange(pm.path@.len() as int, params@[i].0@.len() as int), '/'),
                pm,
                *provider,
            ),
{
    if crate::paths::listing_not_found(page_sizes) {
        return Err(Error::NotFound { path: pm.path.clone(), msg: "not found".to_owned() });
    }
    let mut out: Vec<KV> = Vec::new();
    let mut i: usize = 0;
    while i < params.len()
        invariant
            !crate::paths::listing_is_empty(page_sizes@),
            i <= params@.len(),
            out@.len() == i,
            forall|k: int| 0 <= k < i ==> under(pm.path@, (#[trigger] params@[k]).0@),
            forall|k: int|
                0 <= k < i ==> #[trigger] is_mapped_kv(
                    out@[k],
                    params@[k].1@,
                    trim_start(params@[k].0@.subrange(pm.path@.len() as int, params@[k].0@.len() as int), '/'),
                    trim_start(params@[k].0@.subrange(pm.path@.len() as int, params@[k].0@.len() as int), '/'),
                    pm,
                    *provider,
                ),
        decreases params.len() - i,
    {
        let key = match crate::paths::relative_key(pm.path.as_str(), params[i].0.as_str()) {
            Ok(k) => k,
            Err(e) => {
                return Err(e);
            },
        };
        out.push(KV::from_value(params[i].1.as_str(), key.as_str(), key.as_str(), pm, provider.duplicate()));
        i = i + 1;
    }
    Ok(out)
}

/// `path/key`.
pub fn child_path(path: &str, key: &str) -> (r: String)
    ensures
        r@ == path@ + "/"@ + key@,
{
    let mut out = path.to_owned();
    out.append("/");
    out.append(key);
    out
}

/// The entry path of each key that `pm` selects, in key order.
pub fn key_paths(pm: &PathMap) -> (r: Vec<String>)
    ensures
        r@.len() == pm.keys@.len(),
        forall|i: int| 0 <= i < r@.len() ==> (#[trigger] r@[i])@ == pm.path@ + "/"@ + pm.keys@[i].0,
{
    let n = pm.keys.len();
    let mut out: Vec<String> = Vec::new();
    let mut i: usize = 0;
    while i < n
        invariant
            n == pm.keys@.len(),
            i <= n,
            out@.len() == i,
            forall|k: int| 0 <= k < i ==> (#[trigger] out@[k])@ == pm.path@ + "/"@ + pm.keys@[k].0,
        decreases n - i,
    {
        out.push(child_path(pm.path.as_str(), pm.keys.key_at(i).as_str()));
        i = i + 1;
    }
    out
}

/// Where a secret that a write found missing is created: when the failed
/// lookup's text reports `"NOT_FOUND"` and `name` reads
/// `<project>/secrets/<id>` (split at the first `/secrets/`), the project and id.
pub fn create_target(name: &str, failure: &str) -> (r: Option<(String, String)>)
    ensures
        !contains(failure@, "\"NOT_FOUND\""@) ==> r is None,
        contains(failure@, "\"NOT_FOUND\""@) && (exists|i: int| occurs_at(name@, "/secrets/"@, i)) ==> r is Some,
        contains(failure@, "\"NOT_FOUND\""@) && (forall|i: int| !occurs_at(name@, "/secrets/"@, i)) ==> r is None,
        r is Some ==> exists|i: int|
            occurs_at(name@, "/secrets/"@, i) && (forall|j: int| 0 <= j < i ==> !occurs_at(name@, "/secrets/"@, j))
                && r->Some_0.0@ == name@.subrange(0, i) && r->Some_0.1@ == name@.subrange(i + 9, name@.len() as int),
        r is Some ==> contains(failure@, "\"NOT_FOUND\""@),
{
    let fv = chars_of(failure);
    let marker = chars_of("\"NOT_FOUND\"");
    if !contains_exec(&fv, &marker) {
        return None;
    }
    let nv = chars_of(name);
    let sep = chars_of("/secrets/");
    proof {
        reveal_strlit("/secrets/");
    }
    let mut i: usize = 0;
    while i < nv.len() && !occurs_at_exec(&nv, &sep, i)
        invariant
            nv@ == name@,
            sep@ == "/secrets/"@,
            i <= nv@.len(),
            forall|j: int| 0 <= j < i ==> !occurs_at(name@, "/secrets/"@, j),
        decreases nv.len() - i,
    {
        i = i + 1;
    }
    if i == nv.len() {
        proof {
            assert forall|j: int| !occurs_at(name@, "/secrets/"@, j) by {
                if 0 <= j < i {
                } else if j >= i {
                    assert(j + 9 > name@.len());
                }
            }
        }
        return None;
    }
    let project = string_of(&nv.as_slice()[0..i]);
    let id = string_of(&nv.as_slice()[i + 9..nv.len()]);
    Some((project, id))
}

/// The CRC-32C checksum of the bytes.
pub uninterp spec fn crc32c_of(data: Seq<u8>) -> u32;

/// Relies on `crc32c::crc32c`: the CRC-32C (Castagnoli) checksum of the
/// bytes, which depends on the bytes alone.
#[verifier::external_body]
fn checksum(data: &[u8]) -> (r: u32)
    ensures
        r == crc32c_of(data@),
{
    crc32c::crc32c(data)
}

/// The payload of a new secret version: the value's UTF-8 bytes and their
/// CRC-32C checksum.
pub fn version_payload(value: &str) -> (r: (Vec<u8>, i64))
    ensures
        r.0@ == encode_utf8(value@),
        r.1 == crc32c_of(encode_utf8(value@)) as i64,
{
    let bytes = value.as_bytes();
    let mut data: Vec<u8> = Vec::new();
    let mut i: usize = 0;
    while i < bytes.len()
        invariant
            i <= bytes@.len(),
            data@ == bytes@.subrange(0, i as int),
        decreases bytes.len() - i,
    {
        data.push(bytes[i]);
        assert(bytes@.subrange(0, i + 1) =~= bytes@.subrange(0, i as int).push(bytes@[i as int]));
        i = i + 1;
    }
    assert(bytes@.subrange(0, bytes@.len() as int) =~= bytes@);
    let sum = checksum(bytes);
    (data, sum as i64)
}

/// How a failed secret read is handled: a missing secret is `NotFound` for
/// a `get` and an empty blob otherwise (`Ok`); a failure whose text tells of
/// a secret marked deleted is `NotFound`; anything else is a `GetError`.
pub fn secret_read_failure(pm: &PathMap, mode: Mode, resource_not_found: bool, text: String) -> (r: Result<(), Error>)
    ensures
        resource_not_found && mode != Mode::Get ==> r is Ok,
        resource_not_found && mode == Mode::Get ==> (r matches Err(Error::NotFound { path: p, .. }) && p == pm.path),
        !resource_not_found && contains(text@, "marked deleted"@) ==> (r matches Err(Error::NotFound { path: p, .. })
            && p == pm.path),
        !resource_not_found && !contains(text@, "marked deleted"@) ==> r == Err::<(), Error>(
            Error::GetError { path: pm.path, msg: text },
        ),
{
    if resource_not_found {
        if mode == Mode::Get {
            return Err(Error::NotFound { path: pm.path.clone(), msg: "not found".to_owned() });
        }
        return Ok(());
    }
    let tv = chars_of(text.as_str());
    let needle = chars_of("marked deleted");
    if contains_exec(&tv, &needle) {
        Err(Error::NotFound { path: pm.path.clone(), msg: "not found".to_owned() })
    } else {
        Err(Error::GetError { path: pm.path.clone(), msg: text })
    }
}

} // verus!
