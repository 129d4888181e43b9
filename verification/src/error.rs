//! The ways in which reading a metadata record, scanning a directory or
//! converting a file can fail.

use vstd::prelude::*;

verus! {

/// Why an operation was given up. A failure concerns one metadata record, one
/// scan or one file, never the program as a whole.
#[derive(Clone, Copy, Debug, PartialEq, Eq, Structural)]
pub enum Error {
    /// The origin field holds fewer than three components, or one that is no
    /// number.
    MalformedMetadata,
    /// The root of a scan, or a file, cannot be opened.
    PathUnreadable,
    /// A vertex line holds fewer than three fields, or one that is no number.
    MalformedVertexLine,
    /// Reading the source or writing the output failed.
    IoFailure,
}

impl Error {
    /// What the failure is, in words.
    pub open spec fn text(self) -> Seq<char> {
        match self {
            Error::MalformedMetadata => "the origin record is malformed"@,
            Error::PathUnreadable => "the path cannot be read"@,
            Error::MalformedVertexLine => "a vertex line is malformed"@,
            Error::IoFailure => "reading or writing failed"@,
        }
    }

    /// Says in words what the failure is.
    pub fn message(&self) -> (s: String)
        ensures
            s@ == self.text(),
    {
        match self {
            Error::MalformedMetadata => "the origin record is malformed".to_owned(),
            Error::PathUnreadable => "the path cannot be read".to_owned(),
            Error::MalformedVertexLine => "a vertex line is malformed".to_owned(),
            Error::IoFailure => "reading or writing failed".to_owned(),
        }
    }
}

} // verus!
