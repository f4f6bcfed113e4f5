use vstd::prelude::*;

verus! {

/// Errors a query or mutation can report to its caller.
///
/// A requery after a successful insert that finds no row is *not* an error:
/// the loader reports it as an absent value.
#[derive(Clone, Copy, Debug, PartialEq, Eq, Structural)]
pub enum WundergraphError {
    /// A mutation was invoked without its mandatory argument.
    MissingArgument,
    /// A lookup by primary key had no `primaryKey` argument, or the argument
    /// did not decode to a full key.
    NoPrimaryKeyArgumentFound,
    /// An argument literal was present but did not decode to the expected shape.
    MalformedArgument,
    /// A filter or order argument referenced a column the table does not declare.
    UnknownField,
    /// The backing store refused an operation; for the in-memory store this is
    /// a constraint violation such as a duplicate primary key.
    BackendExecutionError,
}

} // verus!
