//! The failure taxonomy that every operation of the library reports.

use vstd::prelude::*;

verus! {

/// Every way an operation of this library can fail.
///
/// The store itself never surfaces its own error type to callers: the
/// trusted layer maps any sqlite failure to `Storage`.
#[derive(Clone, Copy, Debug, PartialEq, Eq, Structural)]
pub enum Error {
    /// The persistent store could not be opened, or a statement on it failed.
    Storage,
    /// A lookup by id or by name returned zero rows.
    NotFound,
    /// A predicate-based operation matched zero rows.
    NoMatch,
    /// An update named a field outside the allowed set.
    InvalidField,
    /// A file could not be read or written during sync or add.
    Io,
    /// A command needs exactly one of several identifying parameters and
    /// none, or conflicting ones, were supplied.
    Ambiguous,
}

impl Error {
    /// The text that each variant shows to a human.
    pub open spec fn message_spec(self) -> Seq<char> {
        match self {
            Error::Storage => "storage failure"@,
            Error::NotFound => "no row with the given id or name"@,
            Error::NoMatch => "no row matches the given criteria"@,
            Error::InvalidField => "unknown field to update, options: path, version"@,
            Error::Io => "file read or write failed"@,
            Error::Ambiguous => "conflicting or missing identifying parameters"@,
        }
    }

    /// A human-readable description of the failure.
    pub fn message(&self) -> (r: &'static str)
        ensures
            r@ == self.message_spec(),
    {
        match self {
            Error::Storage => "storage failure",
            Error::NotFound => "no row with the given id or name",
            Error::NoMatch => "no row matches the given criteria",
            Error::InvalidField => "unknown field to update, options: path, version",
            Error::Io => "file read or write failed",
            Error::Ambiguous => "conflicting or missing identifying parameters",
        }
    }
}

} // verus!
