//! The messages that the validation of connector directives gives.

use std::ops::Range;
use vstd::prelude::*;

verus! {

/// A problem that was found in a schema.
#[derive(Debug)]
pub struct Message {
    /// What kind of problem it is; stable, for tools.
    pub code: Code,
    /// The problem in words; for people.
    pub message: String,
    /// Where in the schema's source the problem is.
    pub locations: Vec<Range<Location>>,
}

/// A place in a schema's source: line and column, both counted from zero.
#[derive(Clone, Copy, Debug)]
pub struct Location {
    pub line: usize,
    pub column: usize,
}

/// The kinds of problems.
#[derive(Clone, Copy, Debug, Eq, PartialEq)]
pub enum Code {
    /// A problem with GraphQL syntax or semantics.
    GraphQLError,
    DuplicateSourceName,
    InvalidSourceName,
    EmptySourceName,
    InvalidUrl,
    SourceScheme,
    SourceNameMismatch,
    SubscriptionInConnectors,
    QueryFieldMissingConnect,
    /// A connector names a source, but its URL is absolute.
    AbsoluteConnectUrlWithSource,
    /// A connector has a relative URL, but names no source.
    RelativeConnectUrlWithoutSource,
    /// A connector names a source, but no source is defined at all.
    NoSourcesDefined,
    /// The source directive is not imported.
    NoSourceImport,
    /// A connector has more than one HTTP method.
    MultipleHttpMethods,
    /// A connector has no HTTP method.
    MissingHttpMethod,
    /// An entity resolver that is not on a root query field.
    EntityNotOnRootQuery,
    /// An entity resolver whose type is a list or no object type.
    EntityTypeInvalid,
}

/// How much a message matters.
#[derive(Clone, Copy, Debug, Eq, PartialEq)]
pub enum Severity {
    /// Validation has failed.
    Error,
    /// Worth knowing, but validation goes on.
    Warning,
}

impl Code {
    /// How much a message of this kind matters: a source directive that is
    /// not imported is worth a warning, everything else is an error.
    pub fn severity(&self) -> (s: Severity)
        ensures
            s == if *self == Code::NoSourceImport {
                Severity::Warning
            } else {
                Severity::Error
            },
    {
        match self {
            Code::NoSourceImport => Severity::Warning,
            _ => Severity::Error,
        }
    }
}

} // verus!
