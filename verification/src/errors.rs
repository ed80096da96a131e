//! The normalized error vocabulary.
//!
//! Heterogeneous operating-system failures are classified at their point of
//! origin into a small, stable taxonomy. Every failure carries the path it
//! concerns and a description of the underlying cause, enough for a caller
//! to display; nothing is retried or recovered internally.

use vstd::prelude::*;
use vstd::string::StringExecFns;

verus! {

/// The classification of a failed operation.
///
/// - `Read`: the target was missing, of the wrong kind, unreadable, or its
///   bytes were malformed during a read.
/// - `Write`: permission was denied, a parent directory was missing, the
///   target was of the wrong kind, or a move crossed volumes.
/// - `Parse`: the read itself succeeded but the text was not a well-formed
///   structured document.
/// - `Serialize`: a structured value could not be rendered to text.
///
/// A missing target on an existence or kind query is not an error at all:
/// those queries answer `false` instead.
#[derive(Clone, Copy, Debug, PartialEq, Eq, Structural)]
pub enum ErrorKind {
    Read,
    Write,
    Parse,
    Serialize,
}

/// A classified operation failure: what kind of failure, on which path, and
/// a description of the underlying cause.
#[derive(Clone, Debug)]
pub struct OpError {
    pub kind: ErrorKind,
    pub path: String,
    pub cause: String,
}

/// The label under which each kind of failure is reported.
pub open spec fn kind_label(kind: ErrorKind) -> Seq<char> {
    match kind {
        ErrorKind::Read => "read failed at "@,
        ErrorKind::Write => "write failed at "@,
        ErrorKind::Parse => "parse failed at "@,
        ErrorKind::Serialize => "serialize failed at "@,
    }
}

impl OpError {
    /// The error that classifies a failure of the given kind on `path`,
    /// caused by `cause`.
    pub fn new(kind: ErrorKind, path: &str, cause: &str) -> (e: OpError)
        ensures
            e.kind == kind,
            e.path@ == path@,
            e.cause@ == cause@,
    {
        OpError { kind, path: path.to_owned(), cause: cause.to_owned() }
    }

    /// A read failure on `path`.
    pub fn read(path: &str, cause: &str) -> (e: OpError)
        ensures
            e.kind is Read,
            e.path@ == path@,
            e.cause@ == cause@,
    {
        OpError::new(ErrorKind::Read, path, cause)
    }

    /// A write failure on `path`.
    pub fn write(path: &str, cause: &str) -> (e: OpError)
        ensures
            e.kind is Write,
            e.path@ == path@,
            e.cause@ == cause@,
    {
        OpError::new(ErrorKind::Write, path, cause)
    }

    /// A parse failure on `path`.
    pub fn parse(path: &str, cause: &str) -> (e: OpError)
        ensures
            e.kind is Parse,
            e.path@ == path@,
            e.cause@ == cause@,
    {
        OpError::new(ErrorKind::Parse, path, cause)
    }

    /// A serialization failure on `path`.
    pub fn serialize(path: &str, cause: &str) -> (e: OpError)
        ensures
            e.kind is Serialize,
            e.path@ == path@,
            e.cause@ == cause@,
    {
        OpError::new(ErrorKind::Serialize, path, cause)
    }

    /// The single flattened message under which the failure crosses the
    /// boundary to callers: the kind's label, the path, and the cause.
    pub fn message(&self) -> (m: String)
        ensures
            m@ == kind_label(self.kind) + self.path@ + ": "@ + self.cause@,
    {
        let mut m = match self.kind {
            ErrorKind::Read => String::from_str("read failed at "),
            ErrorKind::Write => String::from_str("write failed at "),
            ErrorKind::Parse => String::from_str("parse failed at "),
            ErrorKind::Serialize => String::from_str("serialize failed at "),
        };
        m.append(self.path.as_str());
        m.append(": ");
        m.append(self.cause.as_str());
        m
    }
}

} // verus!
