//! The ways in which building an engine or rendering a value fails.

use crate::text::{chars_of, push_range, string_of};
use vstd::prelude::*;

verus! {

/// A failure of the engine. Each variant carries the text that names what
/// was at fault.
#[derive(Debug)]
pub enum TemplateNestError {
    /// The template directory (carried) does not exist.
    TemplateDirNotFound(String),
    /// No template is known under the file name carried.
    TemplateFileNotFound(String),
    /// A template file exists but could not be read; the reason is carried.
    TemplateFileReadError(String),
    /// A keyed value has no entry under the name label (carried).
    NoNameLabel(String),
    /// The entry of a keyed value under the name label (carried) is no text.
    InvalidNameLabel(String),
    /// A keyed value has an entry (its key is carried) for which the template
    /// has no token.
    BadParams(String),
    /// The default of the token carried is needed while it is being rendered
    /// itself: the defaults refer to one another without end.
    RecursiveDefaults(String),
    /// Something that is no text, list or keyed value (carried, as text) was
    /// to be rendered. A `Value` is always one of the three, so rendering
    /// never fails in this way; the variant is for code that builds values
    /// from data of other kinds.
    UnsupportedValue(String),
}

/// The mathematical value of a `TemplateNestError`.
pub enum Failure {
    TemplateDirNotFound(Seq<char>),
    TemplateFileNotFound(Seq<char>),
    TemplateFileReadError(Seq<char>),
    NoNameLabel(Seq<char>),
    InvalidNameLabel(Seq<char>),
    BadParams(Seq<char>),
    RecursiveDefaults(Seq<char>),
    UnsupportedValue(Seq<char>),
}

impl View for TemplateNestError {
    type V = Failure;

    open spec fn view(&self) -> Failure {
        match self {
            TemplateNestError::TemplateDirNotFound(s) => Failure::TemplateDirNotFound(s@),
            TemplateNestError::TemplateFileNotFound(s) => Failure::TemplateFileNotFound(s@),
            TemplateNestError::TemplateFileReadError(s) => Failure::TemplateFileReadError(s@),
            TemplateNestError::NoNameLabel(s) => Failure::NoNameLabel(s@),
            TemplateNestError::InvalidNameLabel(s) => Failure::InvalidNameLabel(s@),
            TemplateNestError::BadParams(s) => Failure::BadParams(s@),
            TemplateNestError::RecursiveDefaults(s) => Failure::RecursiveDefaults(s@),
            TemplateNestError::UnsupportedValue(s) => Failure::UnsupportedValue(s@),
        }
    }
}

/// What is said of a failure: what went wrong, then the text that the
/// failure carries between two backticks.
pub open spec fn message_of(failure: Failure) -> Seq<char> {
    match failure {
        Failure::TemplateDirNotFound(s) => "expected template directory at `"@ + s + "`"@,
        Failure::TemplateFileNotFound(s) => "expected template file at `"@ + s + "`"@,
        Failure::TemplateFileReadError(s) => "error reading: `"@ + s + "`"@,
        Failure::NoNameLabel(s) => "encountered hash with no name label (name label: `"@ + s
            + "`)"@,
        Failure::InvalidNameLabel(s) =>
            "encountered hash with invalid name label type (name label: `"@ + s + "`)"@,
        Failure::BadParams(s) =>
            "bad params in template hash, variable not present in template file: `"@ + s + "`"@,
        Failure::RecursiveDefaults(s) => "the default of `"@ + s
            + "` needs itself to be rendered"@,
        Failure::UnsupportedValue(s) =>
            "a value that is no text, list or keyed value cannot be rendered: `"@ + s + "`"@,
    }
}

/// Puts `what` between two texts.
fn between(before: &str, what: &String, after: &str) -> (out: String)
    ensures
        out@ == before@ + what@ + after@,
{
    let mut out = chars_of(before);
    let what = chars_of(what.as_str());
    let after = chars_of(after);
    push_range(&mut out, &what, 0, what.len());
    push_range(&mut out, &after, 0, after.len());
    proof {
        assert(what@.subrange(0, what@.len() as int) =~= what@);
        assert(after@.subrange(0, after@.len() as int) =~= after@);
    }
    string_of(&out)
}

impl TemplateNestError {
    /// What is said of this failure.
    pub fn message(&self) -> (text: String)
        ensures
            text@ == message_of(self@),
    {
        match self {
            TemplateNestError::TemplateDirNotFound(s) => between(
                "expected template directory at `",
                s,
                "`",
            ),
            TemplateNestError::TemplateFileNotFound(s) => between(
                "expected template file at `",
                s,
                "`",
            ),
            TemplateNestError::TemplateFileReadError(s) => between("error reading: `", s, "`"),
            TemplateNestError::NoNameLabel(s) => between(
                "encountered hash with no name label (name label: `",
                s,
                "`)",
            ),
            TemplateNestError::InvalidNameLabel(s) => between(
                "encountered hash with invalid name label type (name label: `",
                s,
                "`)",
            ),
            TemplateNestError::BadParams(s) => between(
                "bad params in template hash, variable not present in template file: `",
                s,
                "`",
            ),
            TemplateNestError::RecursiveDefaults(s) => between(
                "the default of `",
                s,
                "` needs itself to be rendered",
            ),
            TemplateNestError::UnsupportedValue(s) => between(
                "a value that is no text, list or keyed value cannot be rendered: `",
                s,
                "`",
            ),
        }
    }
}

} // verus!
