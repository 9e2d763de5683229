//! The interface of a report parser, the two report formats, and the errors
//! that an implementation reports.

use crate::date::ReportDate;
use crate::error::AppError;
use vstd::prelude::*;
use vstd::string::*;

verus! {

/// What a parser of one report format offers.
pub trait ReportParser {
    /// The record that the parser extracts.
    type Output;

    /// The records of the report with the given content.
    fn parse_file(&self, content: &str) -> Result<Vec<Self::Output>, ParseError>;

    /// The date of the report with the given content.
    fn extract_date(&self, content: &str) -> Result<ReportDate, ParseError>;

    /// The prefix of the CSV files written for this format.
    fn csv_prefix(&self) -> &'static str;
}

/// A report format together with the date of one report.
#[derive(Debug, Clone)]
pub struct ParsingContext {
    pub report_type: ReportType,
    pub date: ReportDate,
}

/// The two report formats.
#[derive(Debug, Clone, Copy, PartialEq, Eq, Structural)]
pub enum ReportType {
    St1,
    St49,
}

impl ReportType {
    /// The prefix of the CSV files written for this format.
    pub open spec fn prefix(self) -> Seq<char> {
        match self {
            ReportType::St1 => "WELLS"@,
            ReportType::St49 => "SPUD"@,
        }
    }

    /// The prefix of the CSV files written for this format.
    pub fn csv_prefix(&self) -> (r: &'static str)
        ensures
            r@ == self.prefix(),
    {
        match self {
            ReportType::St1 => "WELLS",
            ReportType::St49 => "SPUD",
        }
    }
}

/// Why a parser could not make sense of a report.
#[derive(Debug, Clone, PartialEq, Eq)]
pub enum ParseError {
    DateParse { details: String },
    FieldFormat { details: String },
    MissingSection { section: String },
    FileFormat { description: String },
    Io(String),
    Csv(String),
}

impl ParseError {
    /// The full description of the error.
    pub open spec fn message(self) -> Seq<char> {
        match self {
            ParseError::DateParse { details } => "Failed to parse date from content: "@ + details@,
            ParseError::FieldFormat { details } => "Invalid field format: "@ + details@,
            ParseError::MissingSection { section } => "Missing required section: "@ + section@,
            ParseError::FileFormat { description } => "File format error: "@ + description@,
            ParseError::Io(m) => "I/O error: "@ + m@,
            ParseError::Csv(m) => "CSV error: "@ + m@,
        }
    }

    /// The full description of the error.
    pub fn to_string(&self) -> (r: String)
        ensures
            r@ == self.message(),
    {
        let (label, detail) = match self {
            ParseError::DateParse { details } => ("Failed to parse date from content: ", details),
            ParseError::FieldFormat { details } => ("Invalid field format: ", details),
            ParseError::MissingSection { section } => ("Missing required section: ", section),
            ParseError::FileFormat { description } => ("File format error: ", description),
            ParseError::Io(m) => ("I/O error: ", m),
            ParseError::Csv(m) => ("CSV error: ", m),
        };
        let mut out = label.to_owned();
        out.append(detail.as_str());
        out
    }

    /// The error as one of the application: a file-processing error that
    /// carries the full description.
    pub fn into_app_error(self) -> (r: AppError)
        ensures
            r is FileProcessing,
            r.detail() == self.message(),
    {
        AppError::FileProcessing(self.to_string())
    }
}

} // verus!
