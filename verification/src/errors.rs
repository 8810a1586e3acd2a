//! Error kinds of the file codecs.

use vstd::prelude::*;
use vstd::string::StringExecFns;

verus! {

/// What went wrong with one file: it could not be read, its bytes were
/// not a well-formed manifest, or it could not be written.
#[derive(Clone, Copy, PartialEq, Eq, Structural, Debug)]
pub enum FileError {
    Read,
    Parse,
    Write,
}

impl FileError {
    /// A short name of the kind, for reporting.
    pub fn label(&self) -> (r: String)
        ensures
            *self == FileError::Read ==> r@ == "read"@,
            *self == FileError::Parse ==> r@ == "parse"@,
            *self == FileError::Write ==> r@ == "write"@,
    {
        match self {
            FileError::Read => String::from_str("read"),
            FileError::Parse => String::from_str("parse"),
            FileError::Write => String::from_str("write"),
        }
    }
}

} // verus!
