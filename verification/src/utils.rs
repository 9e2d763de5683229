//! Helpers of folder processing: the lines of a file read as bytes, and
//! which files of a folder are reports.

use crate::text::{contains, ends_with, has_substring, has_suffix, lines_of, split_lines, views};
use vstd::prelude::*;
use vstd::string::*;
use vstd::utf8::*;

verus! {

/// The text that the standard library makes of bytes that need not be valid
/// UTF-8: what cannot be decoded is replaced.
pub uninterp spec fn lossy_text(bytes: Seq<u8>) -> Seq<char>;

/// Calls `String::from_utf8_lossy`. Its result depends on the bytes alone
/// and is named `lossy_text`; valid UTF-8 is decoded as it stands.
#[verifier::external_body]
fn decode_lossy(bytes: &[u8]) -> (r: String)
    ensures
        r@ == lossy_text(bytes@),
        valid_utf8(bytes@) ==> r@ == decode_utf8(bytes@),
{
    String::from_utf8_lossy(bytes).into_owned()
}

/// The lines of a file, given its bytes: the bytes are decoded as text, what
/// is not valid being replaced, and the text is cut into lines.
pub fn open_file_lines(bytes: &[u8]) -> (r: Vec<String>)
    ensures
        views(r@) == lines_of(lossy_text(bytes@)),
        valid_utf8(bytes@) ==> views(r@) == lines_of(decode_utf8(bytes@)),
{
    let text = decode_lossy(bytes);
    split_lines(text.as_str())
}

/// The file is a report to process: its name holds the filter and ends with
/// `.TXT`.
pub open spec fn is_report_file(filename: Seq<char>, file_filter: Seq<char>) -> bool {
    has_substring(filename, file_filter) && has_suffix(filename, ".TXT"@)
}

/// Whether a file of the folder is a report to process.
pub fn is_report_file_name(filename: &str, file_filter: &str) -> (r: bool)
    ensures
        r == is_report_file(filename@, file_filter@),
{
    contains(filename, file_filter) && ends_with(filename, ".TXT")
}

} // verus!
