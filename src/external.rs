//! The external provider: a user-supplied program `teller-provider-<extension>`
//! that answers `get`, `put` and `del`. Running it is the caller's part.
use vstd::prelude::*;

use crate::config::{is_mapped_kv, PathMap, ProviderInfo, ProviderKind, KV};
use crate::error::Error;

verus! {

/// Settings of an external provider.
#[derive(Debug, Clone, PartialEq, Eq)]
pub struct ExternalOptions {
    /// The program is `teller-provider-<extension>`.
    pub extension: Option<String>,
    /// Arguments appended after the standard ones.
    pub extra_arguments: Option<Vec<String>>,
}

/// An external provider instance.
#[derive(Debug, Clone)]
pub struct External {
    pub name: String,
    pub bin_path: String,
    pub opts: ExternalOptions,
}

/// The program name for an extension.
pub open spec fn program_name_of(extension: Seq<char>) -> Seq<char> {
    "teller-provider-"@ + extension
}

impl External {
    /// The program that serves the configured extension; the extension is required.
    pub fn program_name(opts: &ExternalOptions) -> (r: Result<String, Error>)
        ensures
            opts.extension is Some <==> r is Ok,
            r is Ok ==> r->Ok_0@ == program_name_of(opts.extension->Some_0@),
            r is Err ==> r->Err_0 is Message,
    {
        match &opts.extension {
            Some(ext) => {
                let mut name = "teller-provider-".to_owned();
                name.append(ext.as_str());
                Ok(name)
            },
            None => Err(Error::Message("option 'extension' is required".to_owned())),
        }
    }

    /// A provider named `name` running the program found at `bin_path`
    /// (`None` when it is not on the search path).
    pub fn new(name: &str, opts: ExternalOptions, bin_path: Option<String>) -> (r: Result<External, Error>)
        ensures
            r is Ok <==> opts.extension is Some && bin_path is Some,
            r is Ok ==> r->Ok_0.name@ == name@ && r->Ok_0.bin_path == bin_path->Some_0 && r->Ok_0.opts == opts,
            r is Err ==> r->Err_0 is Message,
    {
        let program = External::program_name(&opts)?;
        match bin_path {
            Some(p) => Ok(External { name: name.to_owned(), bin_path: p, opts }),
            None => {
                let mut msg = "external provider '".to_owned();
                msg.append(program.as_str());
                msg.append("' not on path");
                Err(Error::Message(msg))
            },
        }
    }

    /// The identity of this provider.
    pub fn kind(&self) -> (r: ProviderInfo)
        ensures
            r.kind == ProviderKind::External,
            r.name == self.name,
    {
        ProviderInfo { kind: ProviderKind::External, name: self.name.clone() }
    }

    /// The program's arguments: the action, its arguments, then the extra arguments.
    pub fn prepare_args(&self, action: &str, args: &[String]) -> (r: Vec<String>)
        ensures
            r@.len() == 1 + args@.len() + match self.opts.extra_arguments {
                Some(e) => e@.len(),
                None => 0,
            },
            r@[0]@ == action@,
            forall|i: int| 0 <= i < args@.len() ==> r@[1 + i] == #[trigger] args@[i],
            self.opts.extra_arguments is Some ==> forall|i: int|
                0 <= i < self.opts.extra_arguments->Some_0@.len() ==> r@[1 + args@.len() + i]
                    == #[trigger] self.opts.extra_arguments->Some_0@[i],
    {
        let mut out: Vec<String> = Vec::new();
        out.push(action.to_owned());
        let mut i: usize = 0;
        while i < args.len()
            invariant
                i <= args@.len(),
                out@.len() == 1 + i,
                out@[0]@ == action@,
                forall|k: int| 0 <= k < i ==> out@[1 + k] == #[trigger] args@[k],
            decreases args.len() - i,
        {
            out.push(args[i].clone());
            i = i + 1;
        }
        match &self.opts.extra_arguments {
            Some(extra) => {
                let mut j: usize = 0;
                while j < extra.len()
                    invariant
                        j <= extra@.len(),
                        out@.len() == 1 + args@.len() + j,
                        out@[0]@ == action@,
                        forall|k: int| 0 <= k < args@.len() ==> out@[1 + k] == #[trigger] args@[k],
                        forall|k: int| 0 <= k < j ==> out@[1 + args@.len() + k] == #[trigger] extra@[k],
                    decreases extra.len() - j,
                {
                    out.push(extra[j].clone());
                    j = j + 1;
                }
            },
            None => {},
        }
        out
    }

    /// The values of a `get`: `answers[i]` is what the program printed for
    /// the `i`-th selected key; no selected keys is `NotFound`.
    pub fn values_of(&self, pm: &PathMap, answers: &[String]) -> (r: Result<Vec<KV>, Error>)
        requires
            answers@.len() == pm.keys@.len(),
        ensures
            pm.keys@.len() == 0 <==> r is Err,
            r is Err ==> (r matches Err(Error::NotFound { path: p, .. }) && p == pm.path),
            r is Ok ==> r->Ok_0@.len() == pm.keys@.len() && forall|i: int|
                0 <= i < pm.keys@.len() ==> #[trigger] is_mapped_kv(
                    r->Ok_0@[i],
                    answers@[i]@,
                    pm.keys@[i].0,
                    pm.keys@[i].1,
                    pm,
                    (ProviderInfo { kind: ProviderKind::External, name: self.name }),
                ),
    {
        let mut out: Vec<KV> = Vec::new();
        let n = pm.keys.len();
        let mut i: usize = 0;
        while i < n
            invariant
                n == pm.keys@.len(),
                answers@.len() == n,
                i <= n,
                out@.len() == i,
                forall|k: int|
                    0 <= k < i ==> #[trigger] is_mapped_kv(
                        out@[k],
                        answers@[k]@,
                        pm.keys@[k].0,
                        pm.keys@[k].1,
                        pm,
                        (ProviderInfo { kind: ProviderKind::External, name: self.name }),
                    ),
            decreases n - i,
        {
            let kv = KV::from_value(answers[i].as_str(), pm.keys.key_at(i).as_str(), pm.keys.value_at(i).as_str(), pm, self.kind());
            out.push(kv);
            i = i + 1;
        }
        if out.len() == 0 {
            return Err(Error::NotFound { path: pm.path.clone(), msg: "not found".to_owned() });
        }
        Ok(out)
    }
}

} // verus!
