//! Reading a config: what a failed decoding of the YAML text is reported as.

use crate::config::RawConfig;
use crate::diagnostics;
use crate::diagnostics::Diagnostic;
use crate::text;
use crate::text::contains;
use serde_saphyr::Error as YamlError;
use serde_saphyr::Error::{
    Eof, ExternalMessage, InvalidScalar, Message, SerdeInvalidType, SerdeInvalidValue,
    SerdeMissingField, SerdeUnknownField, Unexpected, UnexpectedMappingEnd, UnexpectedSequenceEnd,
};
use vstd::prelude::*;
use vstd::string::*;

verus! {

/// The error of the YAML decoder.
#[verifier::external_type_specification]
#[verifier::external_body]
pub struct ExYamlError(serde_saphyr::Error);

/// Why the YAML text could not be decoded: a variant for each of the decoder's that are told
/// apart, with the parts of it that are shown.
pub enum ParseFailure {
    /// A field that the schema does not have.
    UnknownField(String),
    /// A required field that is not there.
    MissingField(String),
    /// A message of the YAML parser.
    ExternalMessage(String),
    /// A message of the decoder.
    Message(String),
    /// The text ends early.
    Eof,
    /// A token stands where none of its kind may.
    Unexpected,
    UnexpectedSequenceEnd,
    UnexpectedMappingEnd,
    /// A scalar that does not read as the type named.
    InvalidScalar(String),
    /// A value of another type than the schema asks for: what it is, and what was expected.
    InvalidType(String, String),
    /// A value that the schema does not allow: what it is, and what was expected.
    InvalidValue(String, String),
    /// Anything else.
    Other,
}

/// A [`ParseFailure`] with its texts taken as characters.
pub enum ParseFailureView {
    UnknownField(Seq<char>),
    MissingField(Seq<char>),
    ExternalMessage(Seq<char>),
    Message(Seq<char>),
    Eof,
    Unexpected,
    UnexpectedSequenceEnd,
    UnexpectedMappingEnd,
    InvalidScalar(Seq<char>),
    InvalidType(Seq<char>, Seq<char>),
    InvalidValue(Seq<char>, Seq<char>),
    Other,
}

impl View for ParseFailure {
    type V = ParseFailureView;

    open spec fn view(&self) -> ParseFailureView {
        match *self {
            ParseFailure::UnknownField(f) => ParseFailureView::UnknownField(f@),
            ParseFailure::MissingField(f) => ParseFailureView::MissingField(f@),
            ParseFailure::ExternalMessage(m) => ParseFailureView::ExternalMessage(m@),
            ParseFailure::Message(m) => ParseFailureView::Message(m@),
            ParseFailure::Eof => ParseFailureView::Eof,
            ParseFailure::Unexpected => ParseFailureView::Unexpected,
            ParseFailure::UnexpectedSequenceEnd => ParseFailureView::UnexpectedSequenceEnd,
            ParseFailure::UnexpectedMappingEnd => ParseFailureView::UnexpectedMappingEnd,
            ParseFailure::InvalidScalar(t) => ParseFailureView::InvalidScalar(t@),
            ParseFailure::InvalidType(u, e) => ParseFailureView::InvalidType(u@, e@),
            ParseFailure::InvalidValue(u, e) => ParseFailureView::InvalidValue(u@, e@),
            ParseFailure::Other => ParseFailureView::Other,
        }
    }
}

/// The variant of a decoder error, without the snippet around it.
pub uninterp spec fn yaml_failure(err: YamlError) -> ParseFailureView;

/// The message that a decoder error renders as, without the snippet around it.
pub uninterp spec fn yaml_message(err: YamlError) -> Seq<char>;

/// The line and column of a decoder error, where it has them.
pub uninterp spec fn yaml_location(err: YamlError) -> Option<(usize, usize)>;

/// `serde_saphyr::Error::without_snippet`, told apart by variant: a function of the error.
#[verifier::external_body]
fn failure_of(err: &YamlError) -> (r: ParseFailure)
    ensures
        r@ == yaml_failure(*err),
{
    match err.without_snippet() {
        SerdeUnknownField { field, .. } => ParseFailure::UnknownField(field.into()),
        SerdeMissingField { field, .. } => ParseFailure::MissingField(field.to_string()),
        ExternalMessage { msg, .. } => ParseFailure::ExternalMessage(msg.into()),
        Message { msg, .. } => ParseFailure::Message(msg.into()),
        Eof { .. } => ParseFailure::Eof,
        Unexpected { .. } => ParseFailure::Unexpected,
        UnexpectedSequenceEnd { .. } => ParseFailure::UnexpectedSequenceEnd,
        UnexpectedMappingEnd { .. } => ParseFailure::UnexpectedMappingEnd,
        InvalidScalar { ty, .. } => ParseFailure::InvalidScalar(ty.to_string()),
        SerdeInvalidType { unexpected, expected, .. } => ParseFailure::InvalidType(unexpected.into(), expected.into()),
        SerdeInvalidValue { unexpected, expected, .. } => ParseFailure::InvalidValue(unexpected.into(), expected.into()),
        _ => ParseFailure::Other,
    }
}

/// The `Display` rendering of `serde_saphyr::Error::without_snippet`: a function of the error.
#[verifier::external_body]
fn message_of(err: &YamlError) -> (r: String)
    ensures
        r@ == yaml_message(*err),
{
    err.without_snippet().to_string()
}

/// `serde_saphyr::Error::location`, as line and column: a function of the error. The unknown
/// location is never among its results.
#[verifier::external_body]
fn location_of(err: &YamlError) -> (r: Option<(usize, usize)>)
    ensures
        r == yaml_location(*err),
{
    err.without_snippet().location().map(|loc| (loc.line() as usize, loc.column() as usize))
}

/// The code of an error that is known by its message alone, from the message in lower case.
pub open spec fn code_of_message(lower: Seq<char>) -> Seq<char> {
    if text::occurs(lower, "unknown field"@) {
        "field.unknown"@
    } else if text::occurs(lower, "missing field"@) {
        "field.missing"@
    } else if text::occurs(lower, "invalid type"@) || text::occurs(lower, "invalid value"@) {
        "field.type"@
    } else {
        "yaml.syntax"@
    }
}

/// The diagnostic for a failure, before it is placed in the file.
pub open spec fn unplaced(
    failure: ParseFailureView,
    message: Seq<char>,
) -> diagnostics::DiagnosticView {
    match failure {
        ParseFailureView::UnknownField(field) => diagnostics::error_view(
            "field.unknown"@,
            message,
            field,
        ),
        ParseFailureView::MissingField(field) => diagnostics::error_view(
            "field.missing"@,
            "missing field `"@ + field + "`"@,
            field,
        ),
        ParseFailureView::ExternalMessage(msg) | ParseFailureView::Message(msg) =>
            diagnostics::error_view("yaml.syntax"@, msg, "."@),
        ParseFailureView::Eof
        | ParseFailureView::Unexpected
        | ParseFailureView::UnexpectedSequenceEnd
        | ParseFailureView::UnexpectedMappingEnd => diagnostics::error_view(
            "yaml.syntax"@,
            message,
            "."@,
        ),
        ParseFailureView::InvalidScalar(ty) => diagnostics::error_view(
            "field.type"@,
            "invalid value: expected "@ + ty,
            "."@,
        ),
        ParseFailureView::InvalidType(unexpected, expected)
        | ParseFailureView::InvalidValue(unexpected, expected) => diagnostics::error_view(
            "field.type"@,
            "invalid type: expected "@ + expected + ", got "@ + unexpected,
            "."@,
        ),
        ParseFailureView::Other => diagnostics::error_view(
            code_of_message(text::lowercase(message)),
            message,
            "."@,
        ),
    }
}

/// The diagnostic for a failure: an error with a stable code, placed where the failure is.
pub open spec fn classified(
    failure: ParseFailureView,
    message: Seq<char>,
    location: Option<(usize, usize)>,
) -> diagnostics::DiagnosticView {
    let d = unplaced(failure, message);
    match location {
        Some((line, column)) => diagnostics::DiagnosticView {
            line: Some(line),
            column: Some(column),
            ..d
        },
        None => d,
    }
}

/// The code of an error that is known by its message alone; takes the message in lower case.
pub fn message_code(lower: &str) -> (r: &'static str)
    ensures
        r@ == code_of_message(lower@),
{
    if contains(lower, "unknown field") {
        "field.unknown"
    } else if contains(lower, "missing field") {
        "field.missing"
    } else if contains(lower, "invalid type") || contains(lower, "invalid value") {
        "field.type"
    } else {
        "yaml.syntax"
    }
}

/// Turns a failure, its message and its place into a diagnostic.
pub fn classify(
    failure: ParseFailure,
    message: String,
    location: Option<(usize, usize)>,
) -> (d: Diagnostic)
    ensures
        d@ == classified(failure@, message@, location),
{
    let root = ".".to_owned();
    let d = match failure {
        ParseFailure::UnknownField(field) => Diagnostic::error("field.unknown", message, field),
        ParseFailure::MissingField(field) => {
            let mut m = "missing field `".to_owned();
            m.append(field.as_str());
            m.append("`");
            Diagnostic::error("field.missing", m, field)
        },
        ParseFailure::ExternalMessage(msg) | ParseFailure::Message(msg) => Diagnostic::error(
            "yaml.syntax",
            msg,
            root,
        ),
        ParseFailure::Eof
        | ParseFailure::Unexpected
        | ParseFailure::UnexpectedSequenceEnd
        | ParseFailure::UnexpectedMappingEnd => Diagnostic::error("yaml.syntax", message, root),
        ParseFailure::InvalidScalar(ty) => {
            let mut m = "invalid value: expected ".to_owned();
            m.append(ty.as_str());
            Diagnostic::error("field.type", m, root)
        },
        ParseFailure::InvalidType(unexpected, expected)
        | ParseFailure::InvalidValue(unexpected, expected) => {
            let mut m = "invalid type: expected ".to_owned();
            m.append(expected.as_str());
            m.append(", got ");
            m.append(unexpected.as_str());
            Diagnostic::error("field.type", m, root)
        },
        ParseFailure::Other => {
            let lower = message.as_str().to_lowercase();
            Diagnostic::error(message_code(lower.as_str()), message, root)
        },
    };
    match location {
        Some((line, column)) => d.with_location(line, column),
        None => d,
    }
}

/// Turns an error of the YAML decoder into a diagnostic.
pub fn classify_parse_error(err: YamlError) -> (d: Diagnostic)
    ensures
        d@ == classified(yaml_failure(err), yaml_message(err), yaml_location(err)),
{
    let failure = failure_of(&err);
    let message = message_of(&err);
    let location = location_of(&err);
    classify(failure, message, location)
}

/// The config that the YAML text was decoded to, or the one diagnostic that says why it could
/// not be decoded.
pub fn parse(decoded: Result<RawConfig, YamlError>) -> (r: Result<RawConfig, Diagnostic>)
    ensures
        (match decoded {
            Ok(config) => r == Ok::<RawConfig, Diagnostic>(config),
            Err(err) => r matches Err(d) && d@ == classified(
                yaml_failure(err),
                yaml_message(err),
                yaml_location(err),
            ),
        }),
{
    match decoded {
        Ok(config) => Ok(config),
        Err(err) => Err(classify_parse_error(err)),
    }
}

} // verus!
