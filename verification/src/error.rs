//! The errors of the program's own parts, and how they read.

use vstd::prelude::*;
use vstd::string::*;

verus! {

/// What went wrong, with the reason that was given.
#[derive(Debug)]
pub enum AppError {
    /// Logging could not be set up.
    Logging(String),
    /// The directory of the state database could not be prepared.
    StateDir { path: String, source: String },
    /// The state database failed.
    Sqlite(String),
    /// A log file could not be read or written.
    Io(String),
}

impl AppError {
    /// The message for people.
    pub open spec fn text(&self) -> Seq<char> {
        match self {
            AppError::Logging(reason) => "failed to initialize logging: "@ + reason@,
            AppError::StateDir { path, source } => "failed to prepare state directory "@ + path@
                + ": "@ + source@,
            AppError::Sqlite(reason) => "state database error: "@ + reason@,
            AppError::Io(reason) => "log I/O error: "@ + reason@,
        }
    }

    /// The message for people.
    pub fn message(&self) -> (r: String)
        ensures
            r@ == self.text(),
    {
        let mut r: String;
        match self {
            AppError::Logging(reason) => {
                r = "failed to initialize logging: ".to_owned();
                r.append(reason.as_str());
            },
            AppError::StateDir { path, source } => {
                r = "failed to prepare state directory ".to_owned();
                r.append(path.as_str());
                r.append(": ");
                r.append(source.as_str());
            },
            AppError::Sqlite(reason) => {
                r = "state database error: ".to_owned();
                r.append(reason.as_str());
            },
            AppError::Io(reason) => {
                r = "log I/O error: ".to_owned();
                r.append(reason.as_str());
            },
        }
        r
    }
}

} // verus!
