//! The error taxonomy shared by providers and the engine.
use vstd::prelude::*;

verus! {

/// What went wrong, with the path concerned where there is one.
#[derive(Debug, Clone, PartialEq, Eq)]
pub enum Error {
    Message(String),
    /// A structural or protocol mismatch at a path.
    PathError(String, String),
    IO(String),
    Env(String),
    Json(String),
    YAML(String),
    Any(String),
    NotFound { path: String, msg: String },
    GetError { path: String, msg: String },
    DeleteError { path: String, msg: String },
    PutError { path: String, msg: String },
    ListError { path: String, msg: String },
    CreateProviderError(String),
}

/// The one-line text of an error.
pub open spec fn error_text(e: Error) -> Seq<char> {
    match e {
        Error::Message(m) => m@,
        Error::PathError(p, m) => p@ + ": "@ + m@,
        Error::IO(m) => m@,
        Error::Env(m) => m@,
        Error::Json(m) => m@,
        Error::YAML(m) => m@,
        Error::Any(m) => m@,
        Error::NotFound { path, msg } => "NOT FOUND "@ + path@ + ": "@ + msg@,
        Error::GetError { path, msg } => "GET "@ + path@ + ": "@ + msg@,
        Error::DeleteError { path, msg } => "DEL "@ + path@ + ": "@ + msg@,
        Error::PutError { path, msg } => "PUT "@ + path@ + ": "@ + msg@,
        Error::ListError { path, msg } => "LIST "@ + path@ + ": "@ + msg@,
        Error::CreateProviderError(m) => m@,
    }
}

fn labelled(label: &str, path: &str, msg: &str) -> (r: String)
    ensures
        r@ == label@ + path@ + ": "@ + msg@,
{
    let mut out = label.to_owned();
    out.append(path);
    out.append(": ");
    out.append(msg);
    out
}

impl Error {
    /// The one-line text of this error.
    pub fn to_string(&self) -> (r: String)
        ensures
            r@ == error_text(*self),
    {
        match self {
            Error::Message(m) => m.clone(),
            Error::PathError(p, m) => {
                let mut out = p.clone();
                out.append(": ");
                out.append(m.as_str());
                out
            },
            Error::IO(m) => m.clone(),
            Error::Env(m) => m.clone(),
            Error::Json(m) => m.clone(),
            Error::YAML(m) => m.clone(),
            Error::Any(m) => m.clone(),
            Error::NotFound { path, msg } => labelled("NOT FOUND ", path.as_str(), msg.as_str()),
            Error::GetError { path, msg } => labelled("GET ", path.as_str(), msg.as_str()),
            Error::DeleteError { path, msg } => labelled("DEL ", path.as_str(), msg.as_str()),
            Error::PutError { path, msg } => labelled("PUT ", path.as_str(), msg.as_str()),
            Error::ListError { path, msg } => labelled("LIST ", path.as_str(), msg.as_str()),
            Error::CreateProviderError(m) => m.clone(),
        }
    }

    /// Whether this is a `NotFound`.
    pub fn is_not_found(&self) -> (r: bool)
        ensures
            r == (self is NotFound),
    {
        match self {
            Error::NotFound { .. } => true,
            _ => false,
        }
    }
}

} // verus!
