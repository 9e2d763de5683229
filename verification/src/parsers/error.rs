//! Errors of parsing a report, and which of them a caller can pass over.

pub mod error_recovery;

use crate::error::AppError;
use crate::text::{decimal, decimal_string};
use vstd::prelude::*;
use vstd::string::*;

verus! {

/// Why a report could not be parsed.
#[derive(Debug, Clone, PartialEq, Eq)]
pub enum ParseError {
    DateParse { details: String },
    FieldFormat { position: usize, details: String },
    MissingSection { section: String },
    FileFormat { description: String },
    Io(String),
    Csv(String),
}

impl ParseError {
    /// The full description of the error.
    pub open spec fn message(self) -> Seq<char> {
        match self {
            ParseError::DateParse { details } => "Failed to parse date from content: "@ + details@,
            ParseError::FieldFormat { position, details } => "Invalid field format at position "@
                + decimal(position as nat) + ": "@ + details@,
            ParseError::MissingSection { section } => "Missing required section: "@ + section@,
            ParseError::FileFormat { description } => "File format error: "@ + description@,
            ParseError::Io(m) => "I/O error: "@ + m@,
            ParseError::Csv(m) => "CSV error: "@ + m@,
        }
    }

    /// The error as one of the application: a file-processing error that
    /// carries the full description.
    pub fn into_app_error(self) -> (r: AppError)
        ensures
            r is FileProcessing,
            r.detail() == self.message(),
    {
        AppError::FileProcessing(self.to_string())
    }

    /// The full description of the error.
    pub fn to_string(&self) -> (r: String)
        ensures
            r@ == self.message(),
    {
        match self {
            ParseError::DateParse { details } => {
                let mut out = "Failed to parse date from content: ".to_owned();
                out.append(details.as_str());
                out
            },
            ParseError::FieldFormat { position, details } => {
                let mut out = "Invalid field format at position ".to_owned();
                out.append(decimal_string(*position as u64).as_str());
                out.append(": ");
                out.append(details.as_str());
                out
            },
            ParseError::MissingSection { section } => {
                let mut out = "Missing required section: ".to_owned();
                out.append(section.as_str());
                out
            },
            ParseError::FileFormat { description } => {
                let mut out = "File format error: ".to_owned();
                out.append(description.as_str());
                out
            },
            ParseError::Io(m) => {
                let mut out = "I/O error: ".to_owned();
                out.append(m.as_str());
                out
            },
            ParseError::Csv(m) => {
                let mut out = "CSV error: ".to_owned();
                out.append(m.as_str());
                out
            },
        }
    }
}

} // verus!
