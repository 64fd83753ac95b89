//! Diagnostics: what parsing and validation report about a config.

use crate::text;
use crate::text::copy_opt;
use vstd::prelude::*;

verus! {

#[derive(Debug, Clone, Copy, PartialEq, Eq, Structural)]
pub enum Severity {
    Error,
    Warning,
}

/// One finding: how severe it is, a stable code, a message, and where it belongs.
#[derive(Debug, Clone)]
pub struct Diagnostic {
    pub severity: Severity,
    pub code: &'static str,
    pub message: String,
    pub job: Option<String>,
    pub path: String,
    pub line: Option<usize>,
    pub column: Option<usize>,
}

/// A [`Diagnostic`] with its texts taken as characters.
#[verifier::ext_equal]
pub struct DiagnosticView {
    pub severity: Severity,
    pub code: Seq<char>,
    pub message: Seq<char>,
    pub job: Option<Seq<char>>,
    pub path: Seq<char>,
    pub line: Option<usize>,
    pub column: Option<usize>,
}

impl View for Diagnostic {
    type V = DiagnosticView;

    open spec fn view(&self) -> DiagnosticView {
        DiagnosticView {
            severity: self.severity,
            code: self.code@,
            message: self.message@,
            job: text::opt_view(self.job),
            path: self.path@,
            line: self.line,
            column: self.column,
        }
    }
}

/// An error that names no job and no place in the file.
pub open spec fn error_view(
    code: Seq<char>,
    message: Seq<char>,
    path: Seq<char>,
) -> DiagnosticView {
    DiagnosticView {
        severity: Severity::Error,
        code,
        message,
        job: None,
        path,
        line: None,
        column: None,
    }
}

/// A warning that names no job and no place in the file.
pub open spec fn warning_view(
    code: Seq<char>,
    message: Seq<char>,
    path: Seq<char>,
) -> DiagnosticView {
    DiagnosticView { severity: Severity::Warning, ..error_view(code, message, path) }
}

/// The views of a list of diagnostics.
pub open spec fn diagnostic_views(v: Seq<Diagnostic>) -> Seq<DiagnosticView> {
    v.map_values(|d: Diagnostic| d@)
}

impl Diagnostic {
    pub fn error(code: &'static str, message: String, path: String) -> (d: Diagnostic)
        ensures
            d@ == error_view(code@, message@, path@),
    {
        Diagnostic {
            severity: Severity::Error,
            code,
            message,
            job: None,
            path,
            line: None,
            column: None,
        }
    }

    pub fn warning(code: &'static str, message: String, path: String) -> (d: Diagnostic)
        ensures
            d@ == warning_view(code@, message@, path@),
    {
        Diagnostic {
            severity: Severity::Warning,
            code,
            message,
            job: None,
            path,
            line: None,
            column: None,
        }
    }

    /// The same diagnostic, said of the job `job`.
    pub fn with_job(self, job: String) -> (d: Diagnostic)
        ensures
            d@ == (DiagnosticView { job: Some(job@), ..self@ }),
    {
        Diagnostic {
            severity: self.severity,
            code: self.code,
            message: self.message,
            job: Some(job),
            path: self.path,
            line: self.line,
            column: self.column,
        }
    }

    /// The same diagnostic, placed at a line and a column of the file.
    pub fn with_location(self, line: usize, column: usize) -> (d: Diagnostic)
        ensures
            d@ == (DiagnosticView { line: Some(line), column: Some(column), ..self@ }),
    {
        Diagnostic {
            severity: self.severity,
            code: self.code,
            message: self.message,
            job: self.job,
            path: self.path,
            line: Some(line),
            column: Some(column),
        }
    }

    /// The same diagnostic once more.
    pub fn duplicate(&self) -> (d: Diagnostic)
        ensures
            d@ == self@,
    {
        Diagnostic {
            severity: self.severity,
            code: self.code,
            message: self.message.clone(),
            job: copy_opt(&self.job),
            path: self.path.clone(),
            line: self.line,
            column: self.column,
        }
    }

    pub fn is_error(&self) -> (r: bool)
        ensures
            r == (self@.severity == Severity::Error),
    {
        self.severity == Severity::Error
    }
}

} // verus!
