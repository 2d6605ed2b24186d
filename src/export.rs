//! Rendering collected values as CSV, YAML, JSON, env lines or a shell script.
use vstd::prelude::*;

use crate::config::{str_eq, KV};
use crate::error::Error;
use crate::strmap::{Entries, StrMap};

verus! {

/// The output formats.
#[derive(Debug, Clone, Copy, PartialEq, Eq, Structural)]
pub enum Format {
    CSV,
    YAML,
    JSON,
    ENV,
    Shell,
}

/// The name of a format.
pub open spec fn format_name(f: Format) -> Seq<char> {
    match f {
        Format::CSV => "csv"@,
        Format::YAML => "yaml"@,
        Format::JSON => "json"@,
        Format::ENV => "env"@,
        Format::Shell => "shell"@,
    }
}

/// One `KEY=value` line per value.
pub open spec fn env_text(kvs: Seq<KV>) -> Seq<char>
    decreases kvs.len(),
{
    if kvs.len() == 0 {
        Seq::empty()
    } else {
        env_text(kvs.drop_last()) + kvs.last().key@ + "="@ + kvs.last().value@ + "\n"@
    }
}

/// One `export KEY='value'` line per value.
pub open spec fn export_lines(kvs: Seq<KV>) -> Seq<char>
    decreases kvs.len(),
{
    if kvs.len() == 0 {
        Seq::empty()
    } else {
        export_lines(kvs.drop_last()) + "export "@ + kvs.last().key@ + "='"@ + kvs.last().value@ + "'\n"@
    }
}

/// A shell script that exports every value.
pub open spec fn shell_text(kvs: Seq<KV>) -> Seq<char> {
    "#!/bin/sh\n"@ + export_lines(kvs)
}

/// The CSV record of one key and value.
pub uninterp spec fn csv_record_text(key: Seq<char>, value: Seq<char>) -> Seq<char>;

/// The CSV records of every value, in order.
pub open spec fn csv_text(kvs: Seq<KV>) -> Seq<char>
    decreases kvs.len(),
{
    if kvs.len() == 0 {
        Seq::empty()
    } else {
        csv_text(kvs.drop_last()) + csv_record_text(kvs.last().key@, kvs.last().value@)
    }
}

/// The JSON object of a key/value map.
pub uninterp spec fn json_text(data: Entries) -> Seq<char>;

/// The YAML mapping of a key/value map.
pub uninterp spec fn yaml_text(data: Entries) -> Seq<char>;

/// Relies on `csv::Writer::write_record` with default settings: one record
/// of two fields, quoted where needed; the text depends on the fields alone.
/// Writing one record into a `Vec` and taking the bytes back does not fail,
/// and the record of two strings is UTF-8.
#[verifier::external_body]
fn csv_record(key: &str, value: &str) -> (r: Result<String, String>)
    ensures
        r is Ok,
        r is Ok ==> r->Ok_0@ == csv_record_text(key@, value@),
{
    let mut w = csv::WriterBuilder::new().from_writer(vec![]);
    w.write_record([key, value]).map_err(|e| e.to_string())?;
    let bytes = w.into_inner().map_err(|e| e.to_string())?;
    String::from_utf8(bytes).map_err(|e| e.to_string())
}

/// Relies on `serde_json::to_string` of a `BTreeMap<String, String>`: the
/// text depends on the entries alone; a map with string keys and values
/// serialises without error.
#[verifier::external_body]
fn json_of(data: &StrMap) -> (r: Result<String, String>)
    ensures
        r is Ok,
        r is Ok ==> r->Ok_0@ == json_text(data@),
{
    let m: std::collections::BTreeMap<&str, &str> = data.pairs().iter().map(|(k, v)| (k.as_str(), v.as_str())).collect();
    serde_json::to_string(&m).map_err(|e| e.to_string())
}

/// Relies on `serde_yaml::to_string` of a `BTreeMap<String, String>`: the
/// text depends on the entries alone; a map with string keys and values
/// serialises without error.
#[verifier::external_body]
fn yaml_of(data: &StrMap) -> (r: Result<String, String>)
    ensures
        r is Ok,
        r is Ok ==> r->Ok_0@ == yaml_text(data@),
{
    let m: std::collections::BTreeMap<&str, &str> = data.pairs().iter().map(|(k, v)| (k.as_str(), v.as_str())).collect();
    serde_yaml::to_string(&m).map_err(|e| e.to_string())
}

impl Format {
    /// Every format.
    pub fn all() -> (r: Vec<Format>)
        ensures
            r@ == seq![Format::CSV, Format::YAML, Format::JSON, Format::ENV, Format::Shell],
    {
        vec![Format::CSV, Format::YAML, Format::JSON, Format::ENV, Format::Shell]
    }

    /// The name of this format.
    pub fn name(&self) -> (r: &'static str)
        ensures
            r@ == format_name(*self),
    {
        match self {
            Format::CSV => "csv",
            Format::YAML => "yaml",
            Format::JSON => "json",
            Format::ENV => "env",
            Format::Shell => "shell",
        }
    }

    /// The format named `s`.
    pub fn parse(s: &str) -> (r: Option<Format>)
        ensures
            r.is_some() ==> format_name(r.unwrap()) == s@,
            r.is_none() ==> forall|f: Format| format_name(f) != s@,
    {
        let all = Format::all();
        let mut i: usize = 0;
        while i < all.len()
            invariant
                all@ == seq![Format::CSV, Format::YAML, Format::JSON, Format::ENV, Format::Shell],
                i <= all@.len(),
                forall|j: int| 0 <= j < i ==> format_name(#[trigger] all@[j]) != s@,
            decreases all.len() - i,
        {
            if str_eq(all[i].name(), s) {
                return Some(all[i]);
            }
            i = i + 1;
        }
        assert forall|f: Format| format_name(f) != s@ by {
            match f {
                Format::CSV => assert(all@[0] == f),
                Format::YAML => assert(all@[1] == f),
                Format::JSON => assert(all@[2] == f),
                Format::ENV => assert(all@[3] == f),
                Format::Shell => assert(all@[4] == f),
            }
        }
        None
    }

    /// Renders `kvs` in this format. CSV, env and shell keep the order of
    /// `kvs`; YAML and JSON render the key/value map, later keys overriding.
    pub fn export(&self, kvs: &[KV]) -> (r: Result<String, Error>)
        ensures
            *self == Format::ENV ==> r is Ok && r->Ok_0@ == env_text(kvs@),
            *self == Format::Shell ==> r is Ok && r->Ok_0@ == shell_text(kvs@),
            r is Ok,
            *self == Format::CSV ==> r->Ok_0@ == csv_text(kvs@),
            *self == Format::JSON ==> exists|d: StrMap|
                crate::strmap::sorted_keys(d@) && crate::strmap::to_map(d@) == crate::config::data_of(kvs@)
                    && r->Ok_0@ == json_text(d@),
            *self == Format::YAML ==> exists|d: StrMap|
                crate::strmap::sorted_keys(d@) && crate::strmap::to_map(d@) == crate::config::data_of(kvs@)
                    && r->Ok_0@ == yaml_text(d@),
    {
        match self {
            Format::YAML => {
                let d = KV::to_data(kvs);
                let _n = d.len();
                match yaml_of(&d) {
                    Ok(s) => Ok(s),
                    Err(e) => Err(Error::YAML(e)),
                }
            },
            Format::JSON => {
                let d = KV::to_data(kvs);
                let _n = d.len();
                match json_of(&d) {
                    Ok(s) => Ok(s),
                    Err(e) => Err(Error::Json(e)),
                }
            },
            Format::CSV => Format::export_csv(kvs),
            Format::ENV => Ok(Format::export_env(kvs)),
            Format::Shell => Ok(Format::export_shell(kvs)),
        }
    }

    /// A shell script exporting every value.
    pub fn export_shell(kvs: &[KV]) -> (r: String)
        ensures
            r@ == shell_text(kvs@),
    {
        let mut out = String::new();
        out.append("#!/bin/sh\n");
        let ghost head = out@;
        let mut i: usize = 0;
        while i < kvs.len()
            invariant
                i <= kvs@.len(),
                head == "#!/bin/sh\n"@,
                out@ == head + export_lines(kvs@.subrange(0, i as int)),
            decreases kvs.len() - i,
        {
            assert(kvs@.subrange(0, i + 1).drop_last() =~= kvs@.subrange(0, i as int));
            assert(kvs@.subrange(0, i + 1).last() == kvs@[i as int]);
            out.append("export ");
            out.append(kvs[i].key.as_str());
            out.append("='");
            out.append(kvs[i].value.as_str());
            out.append("'\n");
            assert(out@ =~= head + export_lines(kvs@.subrange(0, i + 1)));
            i = i + 1;
        }
        assert(kvs@.subrange(0, kvs@.len() as int) =~= kvs@);
        out
    }

    /// One `KEY=value` line per value.
    pub fn export_env(kvs: &[KV]) -> (r: String)
        ensures
            r@ == env_text(kvs@),
    {
        let mut out = String::new();
        let mut i: usize = 0;
        while i < kvs.len()
            invariant
                i <= kvs@.len(),
                out@ == env_text(kvs@.subrange(0, i as int)),
            decreases kvs.len() - i,
        {
            assert(kvs@.subrange(0, i + 1).drop_last() =~= kvs@.subrange(0, i as int));
            assert(kvs@.subrange(0, i + 1).last() == kvs@[i as int]);
            out.append(kvs[i].key.as_str());
            out.append("=");
            out.append(kvs[i].value.as_str());
            out.append("\n");
            assert(out@ =~= env_text(kvs@.subrange(0, i + 1)));
            i = i + 1;
        }
        assert(kvs@.subrange(0, kvs@.len() as int) =~= kvs@);
        out
    }

    /// The CSV records `key,value` of every value, in order.
    pub fn export_csv(kvs: &[KV]) -> (r: Result<String, Error>)
        ensures
            r is Ok,
            r->Ok_0@ == csv_text(kvs@),
    {
        let mut out = String::new();
        let mut i: usize = 0;
        while i < kvs.len()
            invariant
                i <= kvs@.len(),
                out@ == csv_text(kvs@.subrange(0, i as int)),
            decreases kvs.len() - i,
        {
            assert(kvs@.subrange(0, i + 1).drop_last() =~= kvs@.subrange(0, i as int));
            assert(kvs@.subrange(0, i + 1).last() == kvs@[i as int]);
            match csv_record(kvs[i].key.as_str(), kvs[i].value.as_str()) {
                Ok(rec) => out.append(rec.as_str()),
                Err(e) => {
                    return Err(Error::Message(e));
                },
            }
            i = i + 1;
        }
        assert(kvs@.subrange(0, kvs@.len() as int) =~= kvs@);
        Ok(out)
    }
}

} // verus!
