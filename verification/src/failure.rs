//! The one kind of failure that reaches a caller: a message that says which
//! step failed, followed by what the storage backend said of it.

use vstd::prelude::*;

verus! {

/// The step of a request that failed.
#[derive(Clone, Copy, Debug, PartialEq, Eq)]
pub enum Failure {
    /// The client could not be set up from its credentials and endpoint.
    CreateOperator,
    /// The listing of a directory could not be started.
    CreateLister,
    /// The entries of a listing could not be gathered.
    CollectEntries,
    /// An object could not be read.
    Read,
    /// An object could not be written.
    Write,
    /// An object could not be deleted.
    Delete,
    /// The metadata of an object could not be had.
    Stat,
    /// An object could not be renamed.
    Rename,
    /// A directory could not be created.
    CreateDir,
    /// A result could not be encoded for the caller.
    Serialization,
}

impl Failure {
    /// The words that a message on this failure starts with.
    pub open spec fn lead_text(self) -> Seq<char> {
        match self {
            Failure::CreateOperator => "Failed to create operator: "@,
            Failure::CreateLister => "Failed to create lister: "@,
            Failure::CollectEntries => "Failed to collect entries: "@,
            Failure::Read => "Failed to read: "@,
            Failure::Write => "Failed to write: "@,
            Failure::Delete => "Failed to delete: "@,
            Failure::Stat => "Failed to stat: "@,
            Failure::Rename => "Failed to rename: "@,
            Failure::CreateDir => "Failed to create directory: "@,
            Failure::Serialization => "Serialization error: "@,
        }
    }

    /// The words that a message on this failure starts with.
    pub fn lead(self) -> (text: &'static str)
        ensures
            text@ == self.lead_text(),
    {
        match self {
            Failure::CreateOperator => "Failed to create operator: ",
            Failure::CreateLister => "Failed to create lister: ",
            Failure::CollectEntries => "Failed to collect entries: ",
            Failure::Read => "Failed to read: ",
            Failure::Write => "Failed to write: ",
            Failure::Delete => "Failed to delete: ",
            Failure::Stat => "Failed to stat: ",
            Failure::Rename => "Failed to rename: ",
            Failure::CreateDir => "Failed to create directory: ",
            Failure::Serialization => "Serialization error: ",
        }
    }

    /// The message for this failure: its lead, then `detail` as it is.
    pub fn message(self, detail: &str) -> (message: String)
        ensures
            message@ == self.lead_text() + detail@,
    {
        self.lead().to_owned().concat(detail)
    }
}

} // verus!
