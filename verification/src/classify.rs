//! Sorting the failures of the query service into the classes that the
//! controller tells apart.
//!
//! The status code decides where it can. Only the refusal of a geometry as
//! too large is told from other refusals by the text of its reason.

use vstd::prelude::*;
use regex::Regex;
use crate::controller::FailureClass;

verus! {

#[verifier::external_type_specification]
#[verifier::external_body]
pub struct ExRegex(regex::Regex);

#[verifier::external_type_specification]
#[verifier::external_body]
pub struct ExRegexError(regex::Error);

/// The status of a query that was answered with a document.
pub const STATUS_OK: u16 = 200;

/// The status of a request over quota.
pub const STATUS_QUOTA: u16 = 402;

/// The status of an overloaded service.
pub const STATUS_OVERLOAD: u16 = 501;

/// The status of a refused request: a geometry that is too large comes
/// under it, with a reason of a fixed form.
pub const STATUS_REFUSED: u16 = 403;

/// The form of the reason that the service gives for a geometry that is too
/// large, as a regular expression. The surface that it reports varies.
pub const OVERSIZE_PATTERN: &'static str =
    "\\{\"message\":\"Surface\\s+(.*?)\\s+du\\s+GeoJSON\\s+trop\\s+grande\"\\}";

/// What `Regex::new` makes of a pattern: the compiled expression, or `None`
/// where it refuses the pattern.
pub uninterp spec fn regex_compiled(pattern: Seq<char>) -> Option<Regex>;

/// Whether `Regex::is_match` finds a match of `re` anywhere in `text`.
pub uninterp spec fn regex_finds(re: Regex, text: Seq<char>) -> bool;

/// Calls `regex::Regex::new`. The contract claims that the result depends on
/// the pattern alone: the same pattern compiles to the same expression, or
/// is refused, every time.
#[verifier::external_body]
fn compile(pattern: &str) -> (r: Result<Regex, regex::Error>)
    ensures
        match r {
            Ok(re) => regex_compiled(pattern@) == Some(re),
            Err(_) => regex_compiled(pattern@) is None,
        },
{
    Regex::new(pattern)
}

/// Calls `regex::Regex::is_match`. The contract claims that the result
/// depends on the expression and the text alone.
#[verifier::external_body]
fn finds(re: &Regex, text: &str) -> (found: bool)
    ensures
        found == regex_finds(*re, text@),
{
    re.is_match(text)
}

/// The class of a failure with the status `status`, where `oversize_text`
/// says whether its reason has the form of `OVERSIZE_PATTERN`.
pub open spec fn failure_class(status: u16, oversize_text: bool) -> FailureClass {
    if status == STATUS_QUOTA || status == STATUS_OVERLOAD {
        FailureClass::Quota
    } else if status == STATUS_REFUSED && oversize_text {
        FailureClass::Oversized
    } else {
        FailureClass::Other
    }
}

/// Sorts a failure by its status and by whether the text of its reason has
/// the form that reports a geometry as too large.
pub fn classify(status: u16, oversize_text: bool) -> (class: FailureClass)
    ensures
        class == failure_class(status, oversize_text),
{
    if status == STATUS_QUOTA || status == STATUS_OVERLOAD {
        FailureClass::Quota
    } else if status == STATUS_REFUSED && oversize_text {
        FailureClass::Oversized
    } else {
        FailureClass::Other
    }
}

/// Compiles `OVERSIZE_PATTERN`.
pub fn oversize_pattern() -> (r: Option<Regex>)
    ensures
        r == regex_compiled(OVERSIZE_PATTERN@),
{
    match compile(OVERSIZE_PATTERN) {
        Ok(re) => Some(re),
        Err(_) => None,
    }
}

/// Sorts a failure by its status and the text of its reason, which is held
/// against the expression `oversize`.
pub fn classify_failure(status: u16, reason: &str, oversize: &Regex) -> (class: FailureClass)
    ensures
        class == failure_class(status, regex_finds(*oversize, reason@)),
{
    let oversize_text: bool = finds(oversize, reason);
    classify(status, oversize_text)
}

} // verus!
