//! The dotenv provider: a file of `KEY=value` lines. This module computes on
//! file text; reading and writing the file is the caller's part.
use vstd::prelude::*;

use crate::blob::{overlay, remove_keys};
pub use crate::config::Mode;
use crate::config::{overlay_map, projection, is_mapped_kv, ProviderInfo, ProviderKind, PathMap, KV};
use crate::error::Error;
use crate::strmap::{lemma_to_map_empty, sorted_keys, to_map, Entries, StrMap};
use crate::text::{chars_of, push_char};

verus! {

/// Settings of a dotenv provider.
#[derive(Debug, Clone, Copy, PartialEq, Eq, Structural)]
pub struct DotEnvOptions {
    /// Create the file (and its directories) when a `put` finds none.
    pub create_on_put: bool,
}

impl Default for DotEnvOptions {
    fn default() -> (r: DotEnvOptions)
        ensures
            !r.create_on_put,
    {
        DotEnvOptions { create_on_put: false }
    }
}

/// A dotenv provider instance.
#[derive(Debug, Clone)]
pub struct Dotenv {
    pub name: String,
    pub opts: DotEnvOptions,
}

/// Whether dotenv text parses.
pub uninterp spec fn dotenv_parses(text: Seq<char>) -> bool;

/// The keys of the entries of dotenv text, in order.
pub uninterp spec fn dotenv_keys(text: Seq<char>) -> Seq<Seq<char>>;

/// The keys of a list of pairs, in order.
pub open spec fn pair_keys(p: Seq<(String, String)>) -> Seq<Seq<char>> {
    p.map_values(|e: (String, String)| e.0@)
}

/// Relies on `dotenvy::Iter`: the `(key, value)` pairs of the file text in
/// order, or the parse error's message. Whether the text parses and which
/// keys it holds depend on the text alone; values may substitute variables
/// of the process environment, so nothing is stated of them. Text without
/// lines holds no entries.
#[verifier::external_body]
fn parse_entries(text: &str) -> (r: Result<Vec<(String, String)>, String>)
    ensures
        r is Ok <==> dotenv_parses(text@),
        r is Ok ==> pair_keys(r->Ok_0@) == dotenv_keys(text@),
        text@.len() == 0 ==> r is Ok && r->Ok_0@.len() == 0,
{
    dotenvy::Iter::new(text.as_bytes()).collect::<Result<Vec<_>, _>>().map_err(|e| e.to_string())
}

/// Whether the text parses as a JSON object.
pub uninterp spec fn is_json_object_text(v: Seq<char>) -> bool;

/// The JSON string literal of a text.
pub uninterp spec fn json_string_text(v: Seq<char>) -> Seq<char>;

/// Relies on `serde_json::from_str` into a map of JSON values: whether the
/// text is a JSON object depends on the text alone.
#[verifier::external_body]
fn is_json_object(v: &str) -> (r: bool)
    ensures
        r == is_json_object_text(v@),
{
    serde_json::from_str::<std::collections::HashMap<String, serde_json::Value>>(v).is_ok()
}

/// Relies on `serde_json::to_string` of a string: its quoted, escaped JSON
/// form (serialising a string does not fail; the text itself stands in were it to).
#[verifier::external_body]
fn json_string(v: &str) -> (r: String)
    ensures
        r@ == json_string_text(v@),
{
    serde_json::to_string(v).unwrap_or_else(|_| v.to_owned())
}

/// Unicode `White_Space`, the set that `char::is_whitespace` tests.
pub open spec fn is_white(c: char) -> bool {
    ('\u{9}' <= c && c <= '\u{d}') || c == ' ' || c == '\u{85}' || c == '\u{a0}' || c == '\u{1680}'
        || ('\u{2000}' <= c && c <= '\u{200a}') || c == '\u{2028}' || c == '\u{2029}' || c == '\u{202f}'
        || c == '\u{205f}' || c == '\u{3000}'
}

/// Whether `c` is Unicode white space.
pub fn is_white_exec(c: char) -> (r: bool)
    ensures
        r == is_white(c),
{
    ('\u{9}' <= c && c <= '\u{d}') || c == ' ' || c == '\u{85}' || c == '\u{a0}' || c == '\u{1680}'
        || ('\u{2000}' <= c && c <= '\u{200a}') || c == '\u{2028}' || c == '\u{2029}' || c == '\u{202f}'
        || c == '\u{205f}' || c == '\u{3000}'
}

/// Some character of `s` is white space.
pub open spec fn has_white(s: Seq<char>) -> bool {
    exists|i: int| 0 <= i < s.len() && is_white(#[trigger] s[i])
}

/// How a value is written to the file: a JSON object as a JSON string, any
/// other text as it is.
pub open spec fn stored_value(v: Seq<char>) -> Seq<char> {
    if is_json_object_text(v) {
        json_string_text(v)
    } else {
        v
    }
}

/// The file line of one entry; values with white space are double-quoted.
pub open spec fn dotenv_line(k: Seq<char>, v: Seq<char>) -> Seq<char> {
    let s = stored_value(v);
    if has_white(s) {
        k + "=\""@ + s + "\"\n"@
    } else {
        k + "="@ + s + "\n"@
    }
}

/// The file text of the entries, one line each, in order.
pub open spec fn dotenv_text(d: Entries) -> Seq<char>
    decreases d.len(),
{
    if d.len() == 0 {
        Seq::empty()
    } else {
        dotenv_text(d.drop_last()) + dotenv_line(d.last().0, d.last().1)
    }
}

/// The key/value map of a list of pairs, later keys overriding.
pub open spec fn pairs_map(p: Seq<(String, String)>) -> Map<Seq<char>, Seq<char>>
    decreases p.len(),
{
    if p.len() == 0 {
        Map::empty()
    } else {
        pairs_map(p.drop_last()).insert(p.last().0@, p.last().1@)
    }
}

fn contains_white(s: &str) -> (r: bool)
    ensures
        r == has_white(s@),
{
    let v = chars_of(s);
    let mut i: usize = 0;
    while i < v.len()
        invariant
            v@ == s@,
            i <= v@.len(),
            forall|j: int| 0 <= j < i ==> !is_white(#[trigger] v@[j]),
        decreases v.len() - i,
    {
        if is_white_exec(v[i]) {
            return true;
        }
        i = i + 1;
    }
    false
}

/// The file line of one entry.
pub fn render_line(k: &str, v: &str) -> (r: String)
    ensures
        r@ == dotenv_line(k@, v@),
{
    let stored = if is_json_object(v) {
        json_string(v)
    } else {
        v.to_owned()
    };
    let mut out = k.to_owned();
    if contains_white(stored.as_str()) {
        out.append("=\"");
        out.append(stored.as_str());
        out.append("\"\n");
    } else {
        out.append("=");
        out.append(stored.as_str());
        out.append("\n");
    }
    out
}

/// The file text of a key/value map, keys in order.
pub fn render(data: &StrMap) -> (r: String)
    ensures
        r@ == dotenv_text(data@),
{
    let mut out = String::new();
    let mut i: usize = 0;
    while i < data.len()
        invariant
            i <= data@.len(),
            out@ == dotenv_text(data@.subrange(0, i as int)),
        decreases data@.len() - i,
    {
        assert(data@.subrange(0, i + 1).drop_last() =~= data@.subrange(0, i as int));
        assert(data@.subrange(0, i + 1).last() == data@[i as int]);
        let line = render_line(data.key_at(i).as_str(), data.value_at(i).as_str());
        out.append(line.as_str());
        i = i + 1;
    }
    assert(data@.subrange(0, data@.len() as int) =~= data@);
    out
}

/// The map of parsed pairs, later keys overriding earlier ones.
pub fn entries_to_map(pairs: Vec<(String, String)>) -> (r: StrMap)
    ensures
        to_map(r@) == pairs_map(pairs@),
{
    let mut data = StrMap::new();
    proof {
        lemma_to_map_empty(data@);
    }
    let mut i: usize = 0;
    while i < pairs.len()
        invariant
            i <= pairs@.len(),
            to_map(data@) == pairs_map(pairs@.subrange(0, i as int)),
        decreases pairs.len() - i,
    {
        assert(pairs@.subrange(0, i + 1).drop_last() =~= pairs@.subrange(0, i as int));
        assert(pairs@.subrange(0, i + 1).last() == pairs@[i as int]);
        data.insert(pairs[i].0.clone(), pairs[i].1.clone());
        i = i + 1;
    }
    assert(pairs@.subrange(0, pairs@.len() as int) =~= pairs@);
    data
}

/// The name under which errors report the file at `path`.
pub open spec fn quoted(path: Seq<char>) -> Seq<char> {
    "\""@ + path + "\""@
}

fn quote(path: &str) -> (r: String)
    ensures
        r@ == quoted(path@),
{
    let mut out = String::new();
    push_char(&mut out, '"');
    out.append(path);
    push_char(&mut out, '"');
    proof {
        reveal_strlit("\"");
        assert(out@ =~= quoted(path@));
    }
    out
}

impl Dotenv {
    /// A provider named `name`; absent options mean the defaults.
    pub fn new(name: &str, opts: Option<DotEnvOptions>) -> (r: Result<Dotenv, Error>)
        ensures
            r is Ok,
            r->Ok_0.name@ == name@,
            r->Ok_0.opts == match opts {
                Some(o) => o,
                None => DotEnvOptions { create_on_put: false },
            },
    {
        let opts = match opts {
            Some(o) => o,
            None => DotEnvOptions::default(),
        };
        Ok(Dotenv { name: name.to_owned(), opts })
    }

    /// The identity of this provider.
    pub fn kind(&self) -> (r: ProviderInfo)
        ensures
            r.kind == ProviderKind::Dotenv,
            r.name == self.name,
    {
        ProviderInfo { kind: ProviderKind::Dotenv, name: self.name.clone() }
    }

    /// The key/value map in the text of the file at `path`. An empty file
    /// read for a `get` is `NotFound`; a parse failure is a `GetError`.
    pub fn load_text(path: &str, text: &str, mode: Mode) -> (r: Result<StrMap, Error>)
        ensures
            mode == Mode::Get && text@.len() == 0 ==> (r matches Err(Error::NotFound { path: p, .. }) && p@
                == quoted(path@)),
            r is Err && !(mode == Mode::Get && text@.len() == 0) ==> (r matches Err(Error::GetError { path: p, .. }) && p@
                == quoted(path@)),
            r is Ok ==> exists|pairs: Seq<(String, String)>| to_map(r->Ok_0@) == pairs_map(pairs),
    {
        if mode == Mode::Get && text.is_empty() {
            return Err(Error::NotFound { path: quote(path), msg: "file is empty".to_owned() });
        }
        match parse_entries(text) {
            Ok(pairs) => Ok(entries_to_map(pairs)),
            Err(msg) => Err(Error::GetError { path: quote(path), msg }),
        }
    }

    /// The values that `pm` draws from the parsed entries of its file.
    pub fn get_entries(&self, pm: &PathMap, entries: Vec<(String, String)>) -> (r: Vec<KV>)
        ensures
            exists|d: StrMap|
                {
                    &&& sorted_keys(d@)
                    &&& to_map(d@) == pairs_map(entries@)
                    &&& r@.len() == projection(d@, pm.keys@).len()
                    &&& forall|i: int|
                        0 <= i < r@.len() ==> #[trigger] is_mapped_kv(
                            r@[i],
                            projection(d@, pm.keys@)[i].2,
                            projection(d@, pm.keys@)[i].0,
                            projection(d@, pm.keys@)[i].1,
                            pm,
                            (ProviderInfo { kind: ProviderKind::Dotenv, name: self.name }),
                        )
                },
    {
        let data = entries_to_map(entries);
        let _n = data.len();
        let info = self.kind();
        KV::from_data(&data, pm, &info)
    }

    /// The file text after writing `kvs` over the parsed entries.
    pub fn put_entries(&self, entries: Vec<(String, String)>, kvs: &[KV]) -> (r: String)
        ensures
            exists|after: StrMap|
                sorted_keys(after@) && to_map(after@) == overlay_map(pairs_map(entries@), kvs@) && r@ == dotenv_text(
                    after@,
                ),
    {
        let mut data = entries_to_map(entries);
        overlay(&mut data, kvs);
        let _n = data.len();
        render(&data)
    }

    /// The file text after a `del` through `pm` on the parsed entries:
    /// without the selected keys, or empty when `pm` selects none.
    pub fn del_entries(&self, pm: &PathMap, entries: Vec<(String, String)>) -> (r: String)
        ensures
            pm.keys@.len() == 0 ==> r@.len() == 0,
            pm.keys@.len() > 0 ==> exists|after: StrMap|
                sorted_keys(after@) && to_map(after@) == pairs_map(entries@).remove_keys(to_map(pm.keys@).dom()) && r@
                    == dotenv_text(after@),
    {
        let mut data = entries_to_map(entries);
        if pm.keys.is_empty() {
            data.clear();
        } else {
            remove_keys(&mut data, &pm.keys);
        }
        let _n = data.len();
        let out = render(&data);
        proof {
            if pm.keys@.len() == 0 {
                assert(data@ =~= Seq::<(Seq<char>, Seq<char>)>::empty());
            }
        }
        out
    }

    /// The values that `pm` draws from the file text: `NotFound` for an
    /// empty file, a `GetError` where the text does not parse.
    pub fn get(&self, pm: &PathMap, text: &str) -> (r: Result<Vec<KV>, Error>)
        ensures
            text@.len() == 0 ==> r matches Err(Error::NotFound { .. }),
            text@.len() > 0 ==> (r is Ok <==> dotenv_parses(text@)),
            r is Err && text@.len() > 0 ==> (r matches Err(Error::GetError { path: p, .. }) && p@ == quoted(pm.path@)),
            r is Ok ==> exists|d: StrMap, entries: Seq<(String, String)>|
                {
                    &&& pair_keys(entries) == dotenv_keys(text@)
                    &&& sorted_keys(d@)
                    &&& to_map(d@) == pairs_map(entries)
                    &&& r->Ok_0@.len() == projection(d@, pm.keys@).len()
                    &&& forall|i: int|
                        0 <= i < r->Ok_0@.len() ==> #[trigger] is_mapped_kv(
                            r->Ok_0@[i],
                            projection(d@, pm.keys@)[i].2,
                            projection(d@, pm.keys@)[i].0,
                            projection(d@, pm.keys@)[i].1,
                            pm,
                            (ProviderInfo { kind: ProviderKind::Dotenv, name: self.name }),
                        )
                },
    {
        if text.is_empty() {
            return Err(Error::NotFound { path: quote(pm.path.as_str()), msg: "file is empty".to_owned() });
        }
        match parse_entries(text) {
            Ok(entries) => Ok(self.get_entries(pm, entries)),
            Err(msg) => Err(Error::GetError { path: quote(pm.path.as_str()), msg }),
        }
    }

    /// The file text after writing `kvs` over the entries of `text`; a
    /// `GetError` where the text does not parse.
    pub fn put(&self, pm: &PathMap, text: &str, kvs: &[KV]) -> (r: Result<String, Error>)
        ensures
            r is Ok <==> dotenv_parses(text@),
            r is Err ==> (r matches Err(Error::GetError { path: p, .. }) && p@ == quoted(pm.path@)),
            r is Ok ==> exists|entries: Seq<(String, String)>, after: StrMap|
                pair_keys(entries) == dotenv_keys(text@) && sorted_keys(after@) && to_map(after@) == overlay_map(
                    pairs_map(entries),
                    kvs@,
                ) && r->Ok_0@ == dotenv_text(after@),
            text@.len() == 0 ==> r is Ok && exists|after: StrMap|
                sorted_keys(after@) && to_map(after@) == overlay_map(Map::empty(), kvs@) && r->Ok_0@ == dotenv_text(
                    after@,
                ),
    {
        match parse_entries(text) {
            Ok(entries) => {
                proof {
                    if text@.len() == 0 {
                        assert(pairs_map(entries@) == Map::<Seq<char>, Seq<char>>::empty());
                    }
                }
                Ok(self.put_entries(entries, kvs))
            },
            Err(msg) => Err(Error::GetError { path: quote(pm.path.as_str()), msg }),
        }
    }

    /// The file text after a `del` through `pm`: without the selected keys,
    /// or empty when `pm` selects none; a `GetError` where the text does not parse.
    pub fn del(&self, pm: &PathMap, text: &str) -> (r: Result<String, Error>)
        ensures
            r is Ok <==> dotenv_parses(text@),
            r is Err ==> (r matches Err(Error::GetError { path: p, .. }) && p@ == quoted(pm.path@)),
            r is Ok && pm.keys@.len() == 0 ==> r->Ok_0@.len() == 0,
            r is Ok && pm.keys@.len() > 0 ==> exists|entries: Seq<(String, String)>, after: StrMap|
                pair_keys(entries) == dotenv_keys(text@) && sorted_keys(after@) && to_map(after@) == pairs_map(entries).remove_keys(to_map(pm.keys@).dom()) && r->Ok_0@ == dotenv_text(
                    after@,
                ),
    {
        match parse_entries(text) {
            Ok(entries) => Ok(self.del_entries(pm, entries)),
            Err(msg) => Err(Error::GetError { path: quote(pm.path.as_str()), msg }),
        }
    }
}

} // verus!
