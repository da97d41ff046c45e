//! The closed set of failures the tool can report, each with its
//! one-line human-readable message.

use vstd::prelude::*;

verus! {

/// Everything that can go wrong during a run. The run aborts at the
/// first failure and reports exactly one of these kinds.
#[derive(Clone, Copy, Debug, PartialEq, Eq, Structural)]
pub enum ApplicationError {
    /// The user's home directory could not be determined.
    NoHomeDirectory,
    /// The input alias file could not be opened.
    OpeningFile,
    /// The input alias file could not be read.
    ReadingFile,
    /// An output function file could not be created.
    CreatingFile,
    /// An output function file could not be written.
    WritingFile,
    /// A line began with `alias` but did not carry a usable
    /// `name=command` pair.
    MalformedAliasLine,
}

impl ApplicationError {
    /// The message printed for this error kind.
    pub open spec fn spec_message(self) -> Seq<char> {
        match self {
            ApplicationError::NoHomeDirectory => "couldn't find home directory"@,
            ApplicationError::OpeningFile => "couldn't open file"@,
            ApplicationError::ReadingFile => "couldn't read file"@,
            ApplicationError::CreatingFile => "couldn't create file"@,
            ApplicationError::WritingFile => "couldn't write file"@,
            ApplicationError::MalformedAliasLine => "malformed alias line"@,
        }
    }

    /// Renders the one-line message for this error kind.
    pub fn message(&self) -> (r: String)
        ensures
            r@ == self.spec_message(),
    {
        match self {
            ApplicationError::NoHomeDirectory => String::from_str("couldn't find home directory"),
            ApplicationError::OpeningFile => String::from_str("couldn't open file"),
            ApplicationError::ReadingFile => String::from_str("couldn't read file"),
            ApplicationError::CreatingFile => String::from_str("couldn't create file"),
            ApplicationError::WritingFile => String::from_str("couldn't write file"),
            ApplicationError::MalformedAliasLine => String::from_str("malformed alias line"),
        }
    }
}

} // verus!
