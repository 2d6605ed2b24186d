//! The decisions of the interactive `new` flow. Prompting is the caller's part.
use vstd::prelude::*;

use crate::config::ProviderKind;

verus! {

/// Why the flow stopped.
#[derive(Debug, Clone, PartialEq, Eq)]
pub enum Error {
    ProviderNotFound(String),
    Prompt(String),
    ConfigurationAlreadyExists,
    InvalidSelection,
}

/// Settings of the flow.
#[derive(Debug, Clone)]
pub struct AppConfig {
    pub file_path: Option<String>,
    pub providers: Option<Vec<ProviderKind>>,
    pub override_file: bool,
}

/// What the flow produced.
#[derive(Debug, Clone)]
pub struct Results {
    pub providers: Vec<ProviderKind>,
}

impl AppConfig {
    /// A flow with no file to check and no providers chosen yet.
    pub fn new(override_file: bool) -> (r: AppConfig)
        ensures
            r.file_path is None,
            r.providers is None,
            r.override_file == override_file,
    {
        AppConfig { file_path: None, providers: None, override_file }
    }

    /// Checks `file_path` before writing to it.
    pub fn with_file_validation(&mut self, file_path: &str)
        ensures
            final(self).file_path is Some && final(self).file_path->Some_0@ == file_path@,
            final(self).providers == old(self).providers,
            final(self).override_file == old(self).override_file,
    {
        self.file_path = Some(file_path.to_owned());
    }

    /// Uses `providers` instead of asking for them.
    pub fn with_providers(&mut self, providers: Vec<ProviderKind>)
        ensures
            final(self).providers == Some(providers),
            final(self).file_path == old(self).file_path,
            final(self).override_file == old(self).override_file,
    {
        self.providers = Some(providers);
    }

    /// Whether the user must confirm overwriting: a file to check exists and
    /// overriding was not asked for.
    pub fn needs_confirmation(&self, file_exists: bool) -> (r: bool)
        ensures
            r == (self.file_path is Some && file_exists && !self.override_file),
    {
        self.file_path.is_some() && file_exists && !self.override_file
    }

    /// Whether the user must pick providers.
    pub fn needs_selection(&self) -> (r: bool)
        ensures
            r == (self.providers is None),
    {
        self.providers.is_none()
    }

    /// The outcome of the flow, given whether the file exists, the user's
    /// answer to the overwrite question and the providers they picked (both
    /// consulted only where needed).
    pub fn start(&self, file_exists: bool, confirmed: bool, selected: Vec<ProviderKind>) -> (r: Result<Results, Error>)
        ensures
            self.file_path is Some && file_exists && !self.override_file && !confirmed ==> r
                == Err::<Results, Error>(Error::ConfigurationAlreadyExists),
            !(self.file_path is Some && file_exists && !self.override_file && !confirmed) ==> r is Ok
                && r->Ok_0.providers@ == match self.providers {
                Some(p) => p@,
                None => selected@,
            },
    {
        if self.needs_confirmation(file_exists) && !confirmed {
            return Err(Error::ConfigurationAlreadyExists);
        }
        let providers = match &self.providers {
            Some(p) => p.clone(),
            None => selected,
        };
        Ok(Results { providers })
    }
}

/// The kinds at the picked positions of `names`, in pick order; a position
/// outside `names` is an `InvalidSelection`.
pub fn pick_providers(names: &[ProviderKind], picks: &[usize]) -> (r: Result<Vec<ProviderKind>, Error>)
    ensures
        r is Ok <==> forall|i: int| 0 <= i < picks@.len() ==> (#[trigger] picks@[i]) < names@.len(),
        r is Ok ==> r->Ok_0@.len() == picks@.len() && forall|i: int|
            0 <= i < picks@.len() ==> r->Ok_0@[i] == names@[#[trigger] picks@[i] as int],
        r is Err ==> r->Err_0 == Error::InvalidSelection,
{
    let mut out: Vec<ProviderKind> = Vec::new();
    let mut i: usize = 0;
    while i < picks.len()
        invariant
            i <= picks@.len(),
            out@.len() == i,
            forall|j: int| 0 <= j < i ==> (#[trigger] picks@[j]) < names@.len() && out@[j] == names@[picks@[j] as int],
        decreases picks.len() - i,
    {
        if picks[i] >= names.len() {
            return Err(Error::InvalidSelection);
        }
        out.push(names[picks[i]]);
        i = i + 1;
    }
    Ok(out)
}

} // verus!
