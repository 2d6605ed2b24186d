//! Argument handling of the command line that is pure computation.
use vstd::prelude::*;

use crate::config::ProviderKind;
use crate::export;
use crate::paths::split_once;
use crate::text::{chars_of, string_of};

verus! {

/// The command line: an optional configuration path, verbosity and a command.
#[derive(Debug, Clone)]
pub struct Cli {
    pub config: Option<String>,
    pub verbose: bool,
    pub command: Commands,
}

/// The commands.
#[derive(Debug, Clone)]
pub enum Commands {
    /// Run a command with the secrets in its environment.
    Run { reset: bool, shell: bool, command: Vec<String> },
    /// Look for secret values in files.
    Scan(ScanArgs),
    /// Print the secrets in a format.
    Export { format: Format },
    /// Replace secret values in a stream.
    Redact { in_file: Option<String>, out: Option<String> },
    /// Render a template that looks secrets up by key.
    Template { in_file: Option<String>, out: Option<String> },
    /// Print the secrets as env lines.
    Env {},
    /// Print every secret, hidden.
    Show {},
    /// Print the secrets as a shell script.
    Sh {},
    /// Write a new configuration.
    New(NewArgs),
    /// Write values to a mapping of several providers.
    Put { map_id: String, providers: Vec<String>, kvs: Vec<(String, String)> },
    /// Delete keys, or whole mappings, of several providers.
    Delete { map_id: String, providers: Vec<String>, keys: Vec<String> },
    /// Copy a mapping's values to mappings of other providers.
    Copy { from: String, to: Vec<String>, replace: bool },
}

/// The formats of the `export` command.
#[derive(Debug, Clone, Copy, PartialEq, Eq, Structural)]
pub enum Format {
    CSV,
    YAML,
    JSON,
    ENV,
}

impl Format {
    /// The export format of the same name.
    pub fn to_export(&self) -> (r: export::Format)
        ensures
            *self == Format::CSV ==> r == export::Format::CSV,
            *self == Format::YAML ==> r == export::Format::YAML,
            *self == Format::JSON ==> r == export::Format::JSON,
            *self == Format::ENV ==> r == export::Format::ENV,
    {
        match self {
            Format::CSV => export::Format::CSV,
            Format::YAML => export::Format::YAML,
            Format::JSON => export::Format::JSON,
            Format::ENV => export::Format::ENV,
        }
    }
}

/// Arguments of `scan`.
#[derive(Debug, Clone)]
pub struct ScanArgs {
    pub root: String,
    /// Include hidden and ignored files.
    pub all: bool,
    pub error_if_found: bool,
    /// Include binary files.
    pub binary: bool,
    pub json: bool,
}

/// Arguments of `new`.
#[derive(Debug, Clone)]
pub struct NewArgs {
    pub filename: String,
    /// Print the configuration instead of writing it.
    pub std: bool,
    pub force: bool,
    pub providers: Vec<ProviderKind>,
}

/// `KEY=value` split at the first `=`; an argument without `=` is refused
/// with a message that quotes it.
pub fn parse_key_val(s: &str) -> (r: Result<(String, String), String>)
    ensures
        r is Err <==> forall|i: int| 0 <= i < s@.len() ==> s@[i] != '=',
        r is Ok ==> exists|i: int|
            0 <= i < s@.len() && s@[i] == '=' && (forall|j: int| 0 <= j < i ==> s@[j] != '=') && r->Ok_0.0@
                == s@.subrange(0, i) && r->Ok_0.1@ == s@.subrange(i + 1, s@.len() as int),
        r is Err ==> r->Err_0@ == "invalid KEY=value: no `=` found in `"@ + s@ + "`"@,
{
    match split_once(s, '=') {
        Some(kv) => Ok(kv),
        None => {
            let mut msg = "invalid KEY=value: no `=` found in `".to_owned();
            msg.append(s);
            msg.append("`");
            Err(msg)
        },
    }
}

/// `provider/map-id` split at the first `/`.
pub fn parse_location(s: &str) -> (r: Option<(String, String)>)
    ensures
        r is None <==> forall|i: int| 0 <= i < s@.len() ==> s@[i] != '/',
        r is Some ==> exists|i: int|
            0 <= i < s@.len() && s@[i] == '/' && (forall|j: int| 0 <= j < i ==> s@[j] != '/') && r->Some_0.0@
                == s@.subrange(0, i) && r->Some_0.1@ == s@.subrange(i + 1, s@.len() as int),
{
    split_once(s, '/')
}

/// The first two characters of a secret, then `***`.
pub fn hide_chars(s: &str) -> (r: String)
    ensures
        r@ == s@.subrange(0, if s@.len() < 2 { s@.len() as int } else { 2 }) + "***"@,
{
    let v = chars_of(s);
    let n: usize = if v.len() < 2 { v.len() } else { 2 };
    let mut out = string_of(&v.as_slice()[0..n]);
    out.append("***");
    out
}

} // verus!
