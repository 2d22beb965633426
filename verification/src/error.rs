//! The error taxonomy of the report engine.
//!
//! Only failures that compromise a whole request are represented here.
//! A single field that fails to coerce is absorbed locally (the field is
//! treated as absent) and never surfaces as an error.

use vstd::prelude::*;

verus! {

/// A fatal, request-level failure of the report pipeline.
#[derive(Clone, Copy, Debug, PartialEq, Eq, Structural)]
pub enum ReportError {
    /// The byte stream could not be interpreted as text under any attempted
    /// encoding.
    DecodeError,
    /// The tabular structure is unparsable (for example an unbalanced quote).
    MalformedInput,
    /// The requested report kind is not recognized by the factory.
    UnknownReportKind,
    /// A display label required at render time is missing from the
    /// field-label table (a configuration defect).
    MissingLabelConfiguration,
}

impl ReportError {
    /// A human-readable description of the failure.
    pub fn message(&self) -> (r: &'static str)
        ensures
            r@ == self.spec_message(),
    {
        match self {
            ReportError::DecodeError => "could not decode the input bytes as text",
            ReportError::MalformedInput => "the input is not well-formed tabular data",
            ReportError::UnknownReportKind => "the requested report kind is not recognized",
            ReportError::MissingLabelConfiguration => "a display label is missing from the label table",
        }
    }

    /// What `message` returns for each variant.
    pub open spec fn spec_message(self) -> Seq<char> {
        match self {
            ReportError::DecodeError => "could not decode the input bytes as text"@,
            ReportError::MalformedInput => "the input is not well-formed tabular data"@,
            ReportError::UnknownReportKind => "the requested report kind is not recognized"@,
            ReportError::MissingLabelConfiguration => "a display label is missing from the label table"@,
        }
    }
}

} // verus!
