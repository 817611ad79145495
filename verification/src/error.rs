//! The library's error type.
use vstd::prelude::*;

use crate::text::joined;

verus! {

/// Which step of the work failed.
#[derive(Clone, Copy, Debug, PartialEq, Eq, Structural)]
pub enum ErrorKind {
    CatalogRead,
    CatalogParse,
    CatalogValidation,
    AgentRead,
    AgentValidation,
    ProfileValidation,
    PluginRead,
    PluginValidation,
    Sqlite,
    Serde,
    Url,
}

/// An error of the library, with the detail that explains it.
#[derive(Debug)]
pub enum TupiError {
    CatalogRead(String),
    CatalogParse(String),
    CatalogValidation(String),
    AgentRead(String),
    AgentValidation(String),
    ProfileValidation(String),
    PluginRead(String),
    PluginValidation(String),
    Sqlite(String),
    Serde(String),
    Url(String),
}

impl View for TupiError {
    type V = (ErrorKind, Seq<char>);

    open spec fn view(&self) -> (ErrorKind, Seq<char>) {
        match self {
            TupiError::CatalogRead(d) => (ErrorKind::CatalogRead, d@),
            TupiError::CatalogParse(d) => (ErrorKind::CatalogParse, d@),
            TupiError::CatalogValidation(d) => (ErrorKind::CatalogValidation, d@),
            TupiError::AgentRead(d) => (ErrorKind::AgentRead, d@),
            TupiError::AgentValidation(d) => (ErrorKind::AgentValidation, d@),
            TupiError::ProfileValidation(d) => (ErrorKind::ProfileValidation, d@),
            TupiError::PluginRead(d) => (ErrorKind::PluginRead, d@),
            TupiError::PluginValidation(d) => (ErrorKind::PluginValidation, d@),
            TupiError::Sqlite(d) => (ErrorKind::Sqlite, d@),
            TupiError::Serde(d) => (ErrorKind::Serde, d@),
            TupiError::Url(d) => (ErrorKind::Url, d@),
        }
    }
}

/// The words that open the message of an error of each kind.
pub open spec fn error_prefix(kind: ErrorKind) -> Seq<char> {
    match kind {
        ErrorKind::CatalogRead => "failed to read catalog: "@,
        ErrorKind::CatalogParse => "failed to parse catalog yaml: "@,
        ErrorKind::CatalogValidation => "catalog validation failed: "@,
        ErrorKind::AgentRead => "failed to read agent: "@,
        ErrorKind::AgentValidation => "agent validation failed: "@,
        ErrorKind::ProfileValidation => "profile validation failed: "@,
        ErrorKind::PluginRead => "failed to read plugin: "@,
        ErrorKind::PluginValidation => "plugin validation failed: "@,
        ErrorKind::Sqlite => "sqlite error: "@,
        ErrorKind::Serde => "serialization error: "@,
        ErrorKind::Url => "url error: "@,
    }
}

/// The error of the given kind with the given detail.
pub fn make_error(kind: ErrorKind, detail: String) -> (e: TupiError)
    ensures
        e@ == (kind, detail@),
{
    match kind {
        ErrorKind::CatalogRead => TupiError::CatalogRead(detail),
        ErrorKind::CatalogParse => TupiError::CatalogParse(detail),
        ErrorKind::CatalogValidation => TupiError::CatalogValidation(detail),
        ErrorKind::AgentRead => TupiError::AgentRead(detail),
        ErrorKind::AgentValidation => TupiError::AgentValidation(detail),
        ErrorKind::ProfileValidation => TupiError::ProfileValidation(detail),
        ErrorKind::PluginRead => TupiError::PluginRead(detail),
        ErrorKind::PluginValidation => TupiError::PluginValidation(detail),
        ErrorKind::Sqlite => TupiError::Sqlite(detail),
        ErrorKind::Serde => TupiError::Serde(detail),
        ErrorKind::Url => TupiError::Url(detail),
    }
}

impl TupiError {
    /// The kind of this error.
    pub fn kind(&self) -> (k: ErrorKind)
        ensures
            k == self@.0,
    {
        match self {
            TupiError::CatalogRead(_) => ErrorKind::CatalogRead,
            TupiError::CatalogParse(_) => ErrorKind::CatalogParse,
            TupiError::CatalogValidation(_) => ErrorKind::CatalogValidation,
            TupiError::AgentRead(_) => ErrorKind::AgentRead,
            TupiError::AgentValidation(_) => ErrorKind::AgentValidation,
            TupiError::ProfileValidation(_) => ErrorKind::ProfileValidation,
            TupiError::PluginRead(_) => ErrorKind::PluginRead,
            TupiError::PluginValidation(_) => ErrorKind::PluginValidation,
            TupiError::Sqlite(_) => ErrorKind::Sqlite,
            TupiError::Serde(_) => ErrorKind::Serde,
            TupiError::Url(_) => ErrorKind::Url,
        }
    }

    /// The detail of this error.
    pub fn detail(&self) -> (d: &String)
        ensures
            d@ == self@.1,
    {
        match self {
            TupiError::CatalogRead(d) => d,
            TupiError::CatalogParse(d) => d,
            TupiError::CatalogValidation(d) => d,
            TupiError::AgentRead(d) => d,
            TupiError::AgentValidation(d) => d,
            TupiError::ProfileValidation(d) => d,
            TupiError::PluginRead(d) => d,
            TupiError::PluginValidation(d) => d,
            TupiError::Sqlite(d) => d,
            TupiError::Serde(d) => d,
            TupiError::Url(d) => d,
        }
    }

    /// The message that describes this error to a user.
    pub fn message(&self) -> (m: String)
        ensures
            m@ == error_prefix(self@.0) + self@.1,
    {
        let prefix = match self.kind() {
            ErrorKind::CatalogRead => "failed to read catalog: ",
            ErrorKind::CatalogParse => "failed to parse catalog yaml: ",
            ErrorKind::CatalogValidation => "catalog validation failed: ",
            ErrorKind::AgentRead => "failed to read agent: ",
            ErrorKind::AgentValidation => "agent validation failed: ",
            ErrorKind::ProfileValidation => "profile validation failed: ",
            ErrorKind::PluginRead => "failed to read plugin: ",
            ErrorKind::PluginValidation => "plugin validation failed: ",
            ErrorKind::Sqlite => "sqlite error: ",
            ErrorKind::Serde => "serialization error: ",
            ErrorKind::Url => "url error: ",
        };
        joined(prefix, self.detail().as_str())
    }
}

} // verus!
