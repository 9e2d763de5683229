//! The error of the application: what went wrong, by origin, with its text.

use vstd::prelude::*;
use vstd::string::*;

verus! {

/// An error of reading, parsing, downloading or loading, with the text that
/// describes it.
#[derive(Debug, Clone, PartialEq, Eq)]
pub enum AppError {
    Io(String),
    Csv(String),
    Reqwest(String),
    ChronoParse(String),
    FileProcessing(String),
    Download(String),
    Cli(String),
    Join(String),
    Delta(String),
    Arrow(String),
    SerdeJson(String),
    Anyhow(String),
}

impl AppError {
    /// The words that introduce an error of this origin.
    pub open spec fn label(self) -> Seq<char> {
        match self {
            AppError::Io(_) => "I/O error: "@,
            AppError::Csv(_) => "CSV error: "@,
            AppError::Reqwest(_) => "Request error: "@,
            AppError::ChronoParse(_) => "Date parsing error: "@,
            AppError::FileProcessing(_) => "File processing error: "@,
            AppError::Download(_) => "Download error: "@,
            AppError::Cli(_) => "Invalid command line arguments: "@,
            AppError::Join(_) => "Task join error: "@,
            AppError::Delta(_) => "Delta lake error: "@,
            AppError::Arrow(_) => "Arrow error: "@,
            AppError::SerdeJson(_) => "Serde JSON error: "@,
            AppError::Anyhow(_) => "Anyhow error: "@,
        }
    }

    /// The text that the error carries.
    pub open spec fn detail(self) -> Seq<char> {
        match self {
            AppError::Io(m) => m@,
            AppError::Csv(m) => m@,
            AppError::Reqwest(m) => m@,
            AppError::ChronoParse(m) => m@,
            AppError::FileProcessing(m) => m@,
            AppError::Download(m) => m@,
            AppError::Cli(m) => m@,
            AppError::Join(m) => m@,
            AppError::Delta(m) => m@,
            AppError::Arrow(m) => m@,
            AppError::SerdeJson(m) => m@,
            AppError::Anyhow(m) => m@,
        }
    }

    /// The full description: label, then detail.
    pub open spec fn message(self) -> Seq<char> {
        self.label() + self.detail()
    }

    /// The full description of the error.
    pub fn to_string(&self) -> (r: String)
        ensures
            r@ == self.message(),
    {
        let (label, detail) = match self {
            AppError::Io(m) => ("I/O error: ", m),
            AppError::Csv(m) => ("CSV error: ", m),
            AppError::Reqwest(m) => ("Request error: ", m),
            AppError::ChronoParse(m) => ("Date parsing error: ", m),
            AppError::FileProcessing(m) => ("File processing error: ", m),
            AppError::Download(m) => ("Download error: ", m),
            AppError::Cli(m) => ("Invalid command line arguments: ", m),
            AppError::Join(m) => ("Task join error: ", m),
            AppError::Delta(m) => ("Delta lake error: ", m),
            AppError::Arrow(m) => ("Arrow error: ", m),
            AppError::SerdeJson(m) => ("Serde JSON error: ", m),
            AppError::Anyhow(m) => ("Anyhow error: ", m),
        };
        let mut out = label.to_owned();
        out.append(detail.as_str());
        out
    }
}

} // verus!
