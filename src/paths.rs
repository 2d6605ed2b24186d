//! Path and key handling of the tree- and blob-mapped backends.
use vstd::prelude::*;

use crate::config::PathMap;
use crate::error::Error;
use crate::text::{chars_of, string_of};

verus! {

/// The index of the first `c` in `s`, if any.
pub open spec fn first_index(s: Seq<char>, c: char) -> Option<int> {
    if exists|i: int| 0 <= i < s.len() && s[i] == c {
        Some(choose|i: int| 0 <= i < s.len() && s[i] == c && forall|j: int| 0 <= j < i ==> s[j] != c)
    } else {
        None
    }
}

/// `s` split around its first `c`: the text before and the text after.
pub fn split_once(s: &str, c: char) -> (r: Option<(String, String)>)
    ensures
        r is None <==> forall|i: int| 0 <= i < s@.len() ==> s@[i] != c,
        r is Some ==> exists|i: int|
            0 <= i < s@.len() && s@[i] == c && (forall|j: int| 0 <= j < i ==> s@[j] != c) && r->Some_0.0@
                == s@.subrange(0, i) && r->Some_0.1@ == s@.subrange(i + 1, s@.len() as int),
{
    let v = chars_of(s);
    let mut i: usize = 0;
    while i < v.len() && v[i] != c
        invariant
            v@ == s@,
            i <= v@.len(),
            forall|j: int| 0 <= j < i ==> v@[j] != c,
        decreases v.len() - i,
    {
        i = i + 1;
    }
    if i == v.len() {
        return None;
    }
    let head = string_of(&v.as_slice()[0..i]);
    let tail = string_of(&v.as_slice()[i + 1..v.len()]);
    assert(v@.subrange(0, i as int) == s@.subrange(0, i as int));
    Some((head, tail))
}

/// `s` without trailing `c`s.
pub open spec fn trim_end(s: Seq<char>, c: char) -> Seq<char>
    decreases s.len(),
{
    if s.len() > 0 && s.last() == c {
        trim_end(s.drop_last(), c)
    } else {
        s
    }
}

/// `s` without leading `c`s.
pub open spec fn trim_start(s: Seq<char>, c: char) -> Seq<char>
    decreases s.len(),
{
    if s.len() > 0 && s[0] == c {
        trim_start(s.drop_first(), c)
    } else {
        s
    }
}

fn trim_end_exec(v: &Vec<char>, c: char) -> (r: usize)
    ensures
        r <= v@.len(),
        v@.subrange(0, r as int) == trim_end(v@, c),
{
    let mut n: usize = v.len();
    assert(v@.subrange(0, n as int) =~= v@);
    while n > 0 && v[n - 1] == c
        invariant
            n <= v@.len(),
            trim_end(v@.subrange(0, n as int), c) == trim_end(v@, c),
        decreases n,
    {
        assert(v@.subrange(0, n as int).drop_last() =~= v@.subrange(0, n - 1));
        n = n - 1;
    }
    n
}

fn trim_start_exec(v: &Vec<char>, c: char) -> (r: usize)
    ensures
        r <= v@.len(),
        v@.subrange(r as int, v@.len() as int) == trim_start(v@, c),
{
    let mut n: usize = 0;
    assert(v@.subrange(0, v@.len() as int) =~= v@);
    while n < v.len() && v[n] == c
        invariant
            n <= v@.len(),
            trim_start(v@.subrange(n as int, v@.len() as int), c) == trim_start(v@, c),
        decreases v.len() - n,
    {
        assert(v@.subrange(n as int, v@.len() as int).drop_first() =~= v@.subrange(n + 1, v@.len() as int));
        n = n + 1;
    }
    n
}

/// `left` and `right` joined by exactly one `/`.
pub fn join_path(left: &str, right: &str) -> (r: String)
    ensures
        r@ == trim_end(left@, '/') + seq!['/'] + trim_start(right@, '/'),
{
    let l = chars_of(left);
    let rr = chars_of(right);
    let a = trim_end_exec(&l, '/');
    let b = trim_start_exec(&rr, '/');
    let mut out: Vec<char> = Vec::new();
    let mut i: usize = 0;
    while i < a
        invariant
            a <= l@.len(),
            i <= a,
            out@ == l@.subrange(0, i as int),
        decreases a - i,
    {
        out.push(l[i]);
        assert(l@.subrange(0, i + 1) =~= l@.subrange(0, i as int).push(l@[i as int]));
        i = i + 1;
    }
    out.push('/');
    let ghost mid = out@;
    let mut j: usize = b;
    while j < rr.len()
        invariant
            b <= j <= rr@.len(),
            out@ == mid + rr@.subrange(b as int, j as int),
        decreases rr.len() - j,
    {
        out.push(rr[j]);
        assert(rr@.subrange(b as int, j + 1) =~= rr@.subrange(b as int, j as int).push(rr@[j as int]));
        j = j + 1;
    }
    assert(out@ =~= trim_end(left@, '/') + seq!['/'] + trim_start(right@, '/'));
    string_of(out.as_slice())
}

/// The key of a tree-mapped entry named `full` under `root`: `full` without
/// the `root` prefix and any leading `/`. An entry outside `root` is a `GetError`.
pub fn relative_key(root: &str, full: &str) -> (r: Result<String, Error>)
    ensures
        full@.len() >= root@.len() && full@.subrange(0, root@.len() as int) == root@ ==> r is Ok && r->Ok_0@
            == trim_start(full@.subrange(root@.len() as int, full@.len() as int), '/'),
        !(full@.len() >= root@.len() && full@.subrange(0, root@.len() as int) == root@) ==> (r matches Err(
            Error::GetError { path: p, .. },
        ) && p@ == root@),
{
    let rv = chars_of(root);
    let fv = chars_of(full);
    if fv.len() < rv.len() || !crate::text::occurs_at_exec(&fv, &rv, 0) {
        let mut msg = full.to_owned();
        msg.append(" is not contained in root path");
        return Err(Error::GetError { path: root.to_owned(), msg });
    }
    let mut rest_v: Vec<char> = Vec::new();
    let mut i: usize = rv.len();
    while i < fv.len()
        invariant
            rv@.len() <= i <= fv@.len(),
            rest_v@ == fv@.subrange(rv@.len() as int, i as int),
        decreases fv.len() - i,
    {
        rest_v.push(fv[i]);
        assert(fv@.subrange(rv@.len() as int, i + 1) =~= fv@.subrange(rv@.len() as int, i as int).push(fv@[i as int]));
        i = i + 1;
    }
    let b = trim_start_exec(&rest_v, '/');
    Ok(string_of(&rest_v.as_slice()[b..rest_v.len()]))
}

/// The engine, mount and path within the mount that a Vault mapping
/// addresses: the protocol (default `kv2`), then `pm.path` split at its first `/`.
pub fn parse_vault_path(pm: &PathMap) -> (r: Result<(String, String, String), Error>)
    ensures
        r is Ok <==> exists|i: int| 0 <= i < pm.path@.len() && pm.path@[i] == '/',
        r is Ok ==> r->Ok_0.0@ == match pm.protocol {
            Some(p) => p@,
            None => "kv2"@,
        },
        r is Ok ==> r->Ok_0.1@ + seq!['/'] + r->Ok_0.2@ == pm.path@ && forall|j: int|
            0 <= j < r->Ok_0.1@.len() ==> r->Ok_0.1@[j] != '/',
        r is Err ==> r->Err_0 is Message,
{
    let engine = match &pm.protocol {
        Some(p) => p.clone(),
        None => "kv2".to_owned(),
    };
    match split_once(pm.path.as_str(), '/') {
        Some((mount, path)) => {
            assert(mount@ + seq!['/'] + path@ =~= pm.path@);
            Ok((engine, mount, path))
        },
        None => Err(
            Error::Message("path must have initial mount seperated by '/', e.g. `secret/foo`".to_owned()),
        ),
    }
}

/// A Vault failure, as plain values.
#[derive(Debug, Clone)]
pub enum VaultFailure {
    /// The server answered with an error status, and possibly a body.
    Response { code: u16, content: Option<String> },
    /// The API reported an error status.
    Api { code: u16 },
    /// Anything else, described.
    Other(String),
}

/// Whether the body tells of a path that the versioned engine does not serve.
pub open spec fn versioned_mismatch(content: Seq<char>) -> bool {
    crate::text::contains(content, "Invalid path for a versioned K/V secrets"@)
}

/// The error that a Vault failure at `pm`'s path reports: a 404 whose body
/// names a versioned-path mismatch is a `PathError`, any other 404 is
/// `NotFound`, anything else is described.
pub fn vault_error(pm: &PathMap, f: VaultFailure, described: String) -> (r: Error)
    ensures
        (f matches VaultFailure::Response { code: 404, content: Some(c) } && versioned_mismatch(c@))
            ==> (r matches Error::PathError(p, m) && p == pm.path && m@ == "missing or incompatible protocol version"@),
        (f matches VaultFailure::Response { code: 404, content: Some(c) } && !versioned_mismatch(c@))
            ==> (r matches Error::NotFound { path: p, .. } && p == pm.path),
        (f matches VaultFailure::Response { code: 404, content: None }) ==> (r matches Error::NotFound { path: p, .. }
            && p == pm.path),
        (f matches VaultFailure::Api { code: 404 }) ==> (r matches Error::NotFound { path: p, .. } && p == pm.path),
        (f matches VaultFailure::Response { code: c, .. } && c != 404) ==> r == Error::Message(described),
        (f matches VaultFailure::Api { code: c } && c != 404) ==> r == Error::Any(described),
        (f is Other) ==> r == Error::Any(described),
{
    match f {
        VaultFailure::Response { code, content } => {
            if code == 404 {
                match content {
                    Some(c) => {
                        let cv = chars_of(c.as_str());
                        let needle = chars_of("Invalid path for a versioned K/V secrets");
                        if crate::text::contains_exec(&cv, &needle) {
                            return Error::PathError(pm.path.clone(), "missing or incompatible protocol version".to_owned());
                        }
                        Error::NotFound { path: pm.path.clone(), msg: "not found".to_owned() }
                    },
                    None => Error::NotFound { path: pm.path.clone(), msg: "not found".to_owned() },
                }
            } else {
                Error::Message(described)
            }
        },
        VaultFailure::Api { code } => {
            if code == 404 {
                Error::NotFound { path: pm.path.clone(), msg: "not found".to_owned() }
            } else {
                Error::Any(described)
            }
        },
        VaultFailure::Other(_) => Error::Any(described),
    }
}

/// How a parameter delete's failure is reported: a parameter that is
/// already gone is no failure; anything else is a `DeleteError` at `pm`'s path.
pub fn handle_delete(pm: &PathMap, parameter_not_found: bool, msg: String) -> (r: Result<(), Error>)
    ensures
        parameter_not_found ==> r is Ok,
        !parameter_not_found ==> r == Err::<(), Error>(Error::DeleteError { path: pm.path, msg }),
{
    if parameter_not_found {
        Ok(())
    } else {
        Err(Error::DeleteError { path: pm.path.clone(), msg })
    }
}

/// No page at all, or a first page that lists no entries.
pub open spec fn listing_is_empty(page_sizes: Seq<Option<usize>>) -> bool {
    page_sizes.len() == 0 || page_sizes[0] == Some(0usize)
}

/// Whether a paginated listing found nothing: no page at all, or a first
/// page that lists no entries (`None` is a page without an entry list). A
/// later empty page only ends the listing.
pub fn listing_not_found(page_sizes: &[Option<usize>]) -> (r: bool)
    ensures
        r == listing_is_empty(page_sizes@),
{
    page_sizes.len() == 0 || match page_sizes[0] {
        Some(n) => n == 0,
        None => false,
    }
}

/// How a `get` reports a backend error: `NotFound` as it is, anything else
/// as a `GetError` at `pm`'s path with the error's text.
pub fn as_get_error(pm: &PathMap, e: Error, text: String) -> (r: Error)
    ensures
        e is NotFound ==> r == e,
        !(e is NotFound) ==> r == (Error::GetError { path: pm.path, msg: text }),
{
    match e {
        Error::NotFound { path, msg } => Error::NotFound { path, msg },
        _ => Error::GetError { path: pm.path.clone(), msg: text },
    }
}

} // verus!
