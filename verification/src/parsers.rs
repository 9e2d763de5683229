//! What the two report parsers share: line normalisation, date extraction,
//! CSV rendering, and the errors of parsing.

pub mod common;
pub mod error;
pub mod traits;

pub use common::{trim_and_remove_empty_lines, write_csv_records};
pub use traits::{ParsingContext, ReportParser, ReportType};
