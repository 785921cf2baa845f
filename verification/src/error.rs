//! Typed errors for all workspace operations.
//!
//! Every failure is one of these variants; each carries a human-readable
//! message part, and `message` renders the full user-visible text.

use vstd::prelude::*;

verus! {

/// Error type covering every failure the library reports.
#[derive(Debug)]
pub enum HibiscusError {
    /// File or directory was not found at the specified path.
    FileNotFound(String),
    /// Path exists but is not the expected type (file vs directory).
    InvalidPathType { path: String, expected: String, actual: String },
    /// Path validation failed (traversal attempt or depth overflow).
    PathValidation(String),
    /// Filesystem I/O operation failed; the message comes from the
    /// operating system.
    Io(String),
    /// Structured-data encode/decode failure.
    Serialization(String),
    /// Workspace-specific failure.
    Workspace(String),
    /// File watcher failure.
    Watcher(String),
}

impl HibiscusError {
    /// The full user-visible text of this error.
    pub open spec fn spec_message(self) -> Seq<char> {
        match self {
            HibiscusError::FileNotFound(s) => "File not found: "@ + s@,
            HibiscusError::InvalidPathType { path, expected, actual } => {
                "Invalid path type: expected "@ + expected@ + ", got "@ + actual@ + " at "@
                    + path@
            },
            HibiscusError::PathValidation(s) => "Path validation failed: "@ + s@,
            HibiscusError::Io(s) => "IO error: "@ + s@,
            HibiscusError::Serialization(s) => "Serialization error: "@ + s@,
            HibiscusError::Workspace(s) => "Workspace error: "@ + s@,
            HibiscusError::Watcher(s) => "Watcher error: "@ + s@,
        }
    }

    /// Renders the error as its user-visible message.
    pub fn message(&self) -> (r: String)
        ensures
            r@ == self.spec_message(),
    {
        match self {
            HibiscusError::FileNotFound(s) => {
                let mut m = String::from_str("File not found: ");
                m.append(s.as_str());
                m
            },
            HibiscusError::InvalidPathType { path, expected, actual } => {
                let mut m = String::from_str("Invalid path type: expected ");
                m.append(expected.as_str());
                m.append(", got ");
                m.append(actual.as_str());
                m.append(" at ");
                m.append(path.as_str());
                m
            },
            HibiscusError::PathValidation(s) => {
                let mut m = String::from_str("Path validation failed: ");
                m.append(s.as_str());
                m
            },
            HibiscusError::Io(s) => {
                let mut m = String::from_str("IO error: ");
                m.append(s.as_str());
                m
            },
            HibiscusError::Serialization(s) => {
                let mut m = String::from_str("Serialization error: ");
                m.append(s.as_str());
                m
            },
            HibiscusError::Workspace(s) => {
                let mut m = String::from_str("Workspace error: ");
                m.append(s.as_str());
                m
            },
            HibiscusError::Watcher(s) => {
                let mut m = String::from_str("Watcher error: ");
                m.append(s.as_str());
                m
            },
        }
    }
}

} // verus!
