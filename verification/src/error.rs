//! What can go wrong in a run.

use vstd::prelude::*;
use vstd::string::StringExecFns;

verus! {

/// What a lookup in a document did not find.
#[derive(Debug, Clone, Copy, PartialEq, Eq)]
pub enum Missing {
    /// The root of the document is no table.
    Root,
    /// The document has nothing under the table's name.
    Section,
    /// What stands under the table's name is no block table.
    Kind,
}

/// The errors of a run. Each ends the run.
#[derive(Debug, Clone, PartialEq, Eq)]
pub enum Error {
    /// The manifest at this path could not be read.
    Io(String),
    /// The manifest at this path is no valid document.
    Parse(String),
    /// A table was looked for and not found.
    NotFound(Missing),
    /// The entry of this name could not be had as a table to change.
    Mutation(String),
    /// This pattern for paths was refused.
    Pattern(String),
}

impl Missing {
    /// What was missed, in words.
    pub open spec fn words(self) -> Seq<char> {
        match self {
            Missing::Root => "document root"@,
            Missing::Section => "table"@,
            Missing::Kind => "block table"@,
        }
    }

    /// What was missed, in words.
    pub fn describe(self) -> (text: &'static str)
        ensures
            text@ == self.words(),
    {
        match self {
            Missing::Root => "document root",
            Missing::Section => "table",
            Missing::Kind => "block table",
        }
    }
}

impl Error {
    /// The error in words: what happened, then what it happened to.
    pub open spec fn words(self) -> Seq<char> {
        match self {
            Error::Io(path) => "Could not read "@ + path@,
            Error::Parse(path) => "Invalid manifest "@ + path@,
            Error::NotFound(missing) => "Not found "@ + missing.words(),
            Error::Mutation(name) => "Could not change "@ + name@,
            Error::Pattern(glob) => "Invalid pattern "@ + glob@,
        }
    }

    /// The error in words, for a person to read.
    pub fn message(&self) -> (text: String)
        ensures
            text@ == self.words(),
    {
        match self {
            Error::Io(path) => String::from_str("Could not read ").concat(path.as_str()),
            Error::Parse(path) => String::from_str("Invalid manifest ").concat(path.as_str()),
            Error::NotFound(missing) => String::from_str("Not found ").concat(missing.describe()),
            Error::Mutation(name) => String::from_str("Could not change ").concat(name.as_str()),
            Error::Pattern(glob) => String::from_str("Invalid pattern ").concat(glob.as_str()),
        }
    }
}

} // verus!
