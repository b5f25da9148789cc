//! The error kinds of the translation pipeline.
//!
//! Every error is terminal for the scrape that raised it and carries the
//! offending raw text verbatim, so that the serving layer can report a
//! useful diagnostic.

use vstd::prelude::*;

verus! {

/// An error of the stats-to-metrics pipeline.
#[derive(Debug, Clone)]
pub enum Error {
    /// A unit symbol that the unit table does not know; holds the symbol.
    UnknownUnit(String),
    /// A percentage field that does not match `<digits>[.<digits>]%`;
    /// holds the whole field.
    MalformedPercent(String),
    /// A size field that does not match `<digits>[.<digits>]<unit>`;
    /// holds the whole field.
    MalformedSize(String),
    /// A composite field without exactly one " / " separator; holds the
    /// whole field.
    MalformedPair(String),
    /// Two samples registered under one name with identical label sets;
    /// holds the name.
    DuplicateMetric(String),
}

/// The mathematical shape of an [`Error`]: the same variants over
/// character sequences.
pub enum ErrorSpec {
    UnknownUnit(Seq<char>),
    MalformedPercent(Seq<char>),
    MalformedSize(Seq<char>),
    MalformedPair(Seq<char>),
    DuplicateMetric(Seq<char>),
}

impl View for Error {
    type V = ErrorSpec;

    open spec fn view(&self) -> ErrorSpec {
        match self {
            Error::UnknownUnit(s) => ErrorSpec::UnknownUnit(s@),
            Error::MalformedPercent(s) => ErrorSpec::MalformedPercent(s@),
            Error::MalformedSize(s) => ErrorSpec::MalformedSize(s@),
            Error::MalformedPair(s) => ErrorSpec::MalformedPair(s@),
            Error::DuplicateMetric(s) => ErrorSpec::DuplicateMetric(s@),
        }
    }
}

/// Lifts a result with an executable error to one with its mathematical
/// shape, leaving the success value as it stands.
pub open spec fn res_view<T>(r: Result<T, Error>) -> Result<T, ErrorSpec> {
    match r {
        Ok(t) => Ok(t),
        Err(e) => Err(e@),
    }
}

} // verus!
