//! Parsing of daily well-licence and spud bulletins, and the bookkeeping of
//! an idempotent batch load of the extracted records.

pub mod date;
pub mod delta;
pub mod downloader;
pub mod error;
pub mod parsers;
pub mod paths;
pub mod st1;
pub mod st49;
pub mod text;
pub mod utils;

pub use error::AppError;

use crate::date::{day_month_year, parse_day_month_year, ReportDate};
use crate::parsers::common::date_utils::{st49_date_text, take_date_tokens};
use crate::parsers::common::ProcessedReport;
use crate::text::{
    decimal, decimal_string, digit_value, digits_value, join, lines_of, lowercase, lowercase_spec,
    remove_all, same_text, split_lines, split_whitespace, to_chars, trim, trimmed, unsigned_value,
    without,
};
use vstd::prelude::*;
use vstd::string::*;

verus! {

/// The two report formats.
#[derive(Clone, Copy, Debug, PartialEq, Eq, Structural)]
pub enum ReportType {
    St1,
    St49,
}

/// The report format that a lower-case name stands for.
pub open spec fn report_type_named(lower: Seq<char>) -> Option<ReportType> {
    if lower == "st1"@ {
        Some(ReportType::St1)
    } else if lower == "st49"@ {
        Some(ReportType::St49)
    } else {
        None
    }
}

/// The report format that the lower-case name `lower` stands for; where it
/// stands for none, the error names `given`, the name as it was written.
pub fn report_type_from_lower(lower: &str, given: &str) -> (r: Result<ReportType, AppError>)
    ensures
        match report_type_named(lower@) {
            Some(t) => r == Ok::<ReportType, AppError>(t),
            None => r matches Err(AppError::Cli(m)) && m@ == "Invalid report type: "@ + given@,
        },
{
    if same_text(lower, "st1") {
        Ok(ReportType::St1)
    } else if same_text(lower, "st49") {
        Ok(ReportType::St49)
    } else {
        let mut message = "Invalid report type: ".to_owned();
        message.append(given);
        Err(AppError::Cli(message))
    }
}

/// The report format that `s` names, letter case aside: `st1` or `st49`.
pub fn parse_report_type(s: &str) -> (r: Result<ReportType, AppError>)
    ensures
        match report_type_named(lowercase_spec(s@)) {
            Some(t) => r == Ok::<ReportType, AppError>(t),
            None => r matches Err(AppError::Cli(m)) && m@ == "Invalid report type: "@ + s@,
        },
{
    let lower = lowercase(s);
    report_type_from_lower(lower.as_str(), s)
}

impl std::str::FromStr for ReportType {
    type Err = AppError;

    /// The report format that `s` names, letter case aside: `st1` or `st49`;
    /// any other name is an error of the command line that quotes it.
    fn from_str(s: &str) -> (r: Result<ReportType, AppError>)
        ensures
            match report_type_named(lowercase_spec(s@)) {
                Some(t) => r == Ok::<ReportType, AppError>(t),
                None => r matches Err(AppError::Cli(m)) && m@ == "Invalid report type: "@ + s@,
            },
    {
        parse_report_type(s)
    }
}

/// The date lies outside the range that both bounds give; without both
/// bounds no date does.
pub open spec fn outside_range(
    date: ReportDate,
    start_date: Option<ReportDate>,
    end_date: Option<ReportDate>,
) -> bool {
    start_date is Some && end_date is Some && (date.before(start_date->0) || end_date->0.before(
        date,
    ))
}

/// The text that reports a date outside the range.
pub open spec fn range_message(
    date: ReportDate,
    start_date: ReportDate,
    end_date: ReportDate,
    filename: Seq<char>,
) -> Seq<char> {
    "Date in file content ("@ + date.iso_text() + ") is outside the specified range ("@
        + start_date.iso_text() + " - "@ + end_date.iso_text() + ") for file: "@ + filename
}

/// Checks the date of a report against the range, where both bounds are
/// given: a date before the start or after the end is an error that names
/// the date, the range and the file.
pub fn check_date_range(
    date: ReportDate,
    start_date: Option<ReportDate>,
    end_date: Option<ReportDate>,
    filename: &str,
) -> (r: Result<(), AppError>)
    ensures
        r is Ok <==> !outside_range(date, start_date, end_date),
        r is Err ==> (r->Err_0 matches AppError::FileProcessing(m) && m@ == range_message(
            date,
            start_date->0,
            end_date->0,
            filename@,
        )),
{
    match (start_date, end_date) {
        (Some(s), Some(e)) => {
            if date.is_before(&s) || date.is_after(&e) {
                let mut message = "Date in file content (".to_owned();
                message.append(date.to_string().as_str());
                message.append(") is outside the specified range (");
                message.append(s.to_string().as_str());
                message.append(" - ");
                message.append(e.to_string().as_str());
                message.append(") for file: ");
                message.append(filename);
                Err(AppError::FileProcessing(message))
            } else {
                Ok(())
            }
        },
        _ => Ok(()),
    }
}

/// What happened to the content of a report of the given format.
pub open spec fn processed_as(
    report_type: ReportType,
    content: Seq<char>,
    r: Result<ProcessedReport, AppError>,
) -> bool {
    match report_type {
        ReportType::St1 => crate::st1::processed(content, r),
        ReportType::St49 => crate::st49::processed(content, r),
    }
}

/// Processes the content of a report of the given format, then checks its
/// date against the range, where one is given. The result is what the format
/// makes of the content, unless that is a report whose date lies outside the
/// range: then it is the error of the range, and no file is handed out.
pub fn process_file(
    report_type: ReportType,
    content: &str,
    filename: &str,
    start_date: Option<ReportDate>,
    end_date: Option<ReportDate>,
) -> (r: Result<ProcessedReport, AppError>)
    ensures
        r matches Ok(p) ==> processed_as(report_type, content@, r) && !outside_range(
            p.date,
            start_date,
            end_date,
        ),
        r is Err ==> processed_as(report_type, content@, r) || exists|p: ProcessedReport|
            #![auto]
            processed_as(report_type, content@, Ok(p)) && outside_range(
                p.date,
                start_date,
                end_date,
            ) && (r->Err_0 matches AppError::FileProcessing(m) && m@ == range_message(
                p.date,
                start_date->0,
                end_date->0,
                filename@,
            )),
{
    let processed = match report_type {
        ReportType::St1 => crate::st1::process_file(content),
        ReportType::St49 => crate::st49::process_file(content),
    };
    match processed {
        Err(e) => Err(e),
        Ok(p) => {
            match check_date_range(p.date, start_date, end_date, filename) {
                Ok(()) => Ok(p),
                Err(e) => {
                    proof {
                        assert(processed_as(report_type, content@, Ok(p)));
                    }
                    Err(e)
                },
            }
        },
    }
}

/// The date that stands for a report whose date cannot be read at a glance.
pub open spec fn fallback_date() -> ReportDate {
    ReportDate { year: 1970, month: 1, day: 1 }
}

/// Line `k` of a text; the empty line where the text has no such line.
pub open spec fn line_or_empty(lines: Seq<Seq<char>>, k: int) -> Seq<char> {
    if 0 <= k < lines.len() {
        lines[k]
    } else {
        Seq::empty()
    }
}

/// The text of the date as a glance at a downloaded bulletin finds it: in a
/// well-licence bulletin the seventh line, trimmed, without the label
/// `DATE: `; in a spud bulletin the date tokens of the second line.
pub open spec fn glance_text(report_type: ReportType, content: Seq<char>) -> Seq<char> {
    match report_type {
        ReportType::St1 => without(trimmed(line_or_empty(lines_of(content), 6)), "DATE: "@),
        ReportType::St49 => st49_date_text(line_or_empty(lines_of(content), 1)),
    }
}

/// The date that a glance at a downloaded bulletin gives: the one that its
/// date text parses to, else the fallback date.
pub open spec fn glance_ymd(report_type: ReportType, content: Seq<char>) -> (int, int, int) {
    match day_month_year(glance_text(report_type, content)) {
        Ok(ymd) => ymd,
        Err(_) => fallback_date().ymd(),
    }
}

/// The date lies within the range, bounds included.
pub open spec fn within_range(date: ReportDate, start_date: ReportDate, end_date: ReportDate) -> bool {
    !date.before(start_date) && !end_date.before(date)
}

/// The date that a parse gives at a glance: the parsed one, else the
/// fallback date.
pub fn date_or_fallback(parsed: Result<ReportDate, String>) -> (r: ReportDate)
    ensures
        r == match parsed {
            Ok(d) => d,
            Err(_) => fallback_date(),
        },
{
    match parsed {
        Ok(d) => d,
        Err(_) => ReportDate { year: 1970, month: 1, day: 1 },
    }
}

/// The text of the date as a glance at a downloaded bulletin finds it.
pub fn date_text_at_a_glance(report_type: ReportType, content: &str) -> (r: String)
    ensures
        r@ == glance_text(report_type, content@),
{
    let lines = split_lines(content);
    match report_type {
        ReportType::St1 => {
            if lines.len() > 6 {
                remove_all(trim(lines[6].as_str()), "DATE: ")
            } else {
                proof {
                    crate::text::lemma_trimmed_empty();
                }
                remove_all(trim(crate::text::empty_str()), "DATE: ")
            }
        },
        ReportType::St49 => {
            let tokens = if lines.len() > 1 {
                split_whitespace(lines[1].as_str())
            } else {
                split_whitespace(crate::text::empty_str())
            };
            join(&take_date_tokens(&tokens), " ")
        },
    }
}

/// Whether a downloaded bulletin is to be processed: the date found at a
/// glance lies within the range, bounds included. A bulletin that is not is
/// set aside.
pub fn date_within_range(
    report_type: ReportType,
    content: &str,
    start_date: ReportDate,
    end_date: ReportDate,
) -> (r: bool)
    ensures
        r == within_range(
            crate::date::date_of(glance_ymd(report_type, content@)),
            start_date,
            end_date,
        ),
{
    let text = date_text_at_a_glance(report_type, content);
    let date = date_or_fallback(parse_day_month_year(text.as_str()));
    proof {
        assert(date.ymd() == glance_ymd(report_type, content@));
        assert(date == crate::date::date_of(date.ymd()));
    }
    !date.is_before(&start_date) && !date.is_after(&end_date)
}

/// The path of a downloaded bulletin: directory, prefix of the format, the
/// month and day, and the extension of the format.
pub fn downloaded_path(txt_output_dir: &str, report_type: ReportType, filename: &str) -> (r: String)
    ensures
        r@ == txt_output_dir@ + "/"@ + crate::downloader::file_prefix(report_type) + filename@
            + "."@ + crate::downloader::extension(report_type),
{
    let (prefix, ending) = match report_type {
        ReportType::St1 => ("WELLS", "TXT"),
        ReportType::St49 => ("SPUD", "txt"),
    };
    let mut out = txt_output_dir.to_owned();
    out.append("/");
    out.append(prefix);
    out.append(filename);
    out.append(".");
    out.append(ending);
    out
}

/// What an entry of an archive is, by its extension.
#[derive(Clone, Copy, Debug, PartialEq, Eq, Structural)]
pub enum ZipEntryKind {
    /// An archive inside the archive, to be opened in turn.
    Archive,
    /// A bulletin, to be extracted and processed.
    Report,
    /// Anything else, to be passed over.
    Other,
}

/// What an entry with the given extension is.
pub open spec fn entry_kind(extension: Seq<char>) -> ZipEntryKind {
    if extension == "zip"@ {
        ZipEntryKind::Archive
    } else if extension == "TXT"@ || extension == "txt"@ {
        ZipEntryKind::Report
    } else {
        ZipEntryKind::Other
    }
}

/// What an entry with the given extension is.
pub fn classify_zip_entry(extension: &str) -> (r: ZipEntryKind)
    ensures
        r == entry_kind(extension@),
{
    if same_text(extension, "zip") {
        ZipEntryKind::Archive
    } else if same_text(extension, "TXT") || same_text(extension, "txt") {
        ZipEntryKind::Report
    } else {
        ZipEntryKind::Other
    }
}

/// The first four characters of a text, or all of it where it is shorter.
pub open spec fn first_four(s: Seq<char>) -> Seq<char> {
    if s.len() <= 4 {
        s
    } else {
        s.take(4)
    }
}

/// The year that the name of an archive begins with: its first four
/// characters, read as an unsigned number.
pub open spec fn zip_year(stem: Seq<char>) -> Option<nat> {
    unsigned_value(first_four(stem))
}

/// The value of a decimal digit.
pub fn digit_of(c: char) -> (r: Option<u32>)
    ensures
        match r {
            Some(d) => digit_value(c) == Some(d as nat) && d <= 9,
            None => digit_value(c) is None,
        },
{
    if '0' <= c && c <= '9' {
        Some(c as u32 - '0' as u32)
    } else {
        None
    }
}

/// The year that the name of an archive begins with.
pub fn year_of_zip_stem(stem: &str) -> (r: Option<u32>)
    ensures
        match r {
            Some(y) => zip_year(stem@) == Some(y as nat),
            None => zip_year(stem@) is None,
        },
{
    let chars = to_chars(stem);
    let end: usize = if chars.len() <= 4 {
        chars.len()
    } else {
        4
    };
    let ghost head = first_four(stem@);
    let begin: usize = if end > 0 && chars[0] == '+' {
        1
    } else {
        0
    };
    let ghost body = if begin == 1 {
        head.drop_first()
    } else {
        head
    };
    proof {
        assert(body =~= stem@.subrange(begin as int, end as int));
        if end > 0 {
            assert(head[0] == chars@[0]);
        }
        assert(zip_year(stem@) == digits_value(body));
    }
    if begin == end {
        return None;
    }
    let mut value: u32 = 0;
    let mut i: usize = begin;
    while i < end
        invariant
            begin <= i <= end <= 4,
            end <= chars@.len(),
            chars@ == stem@,
            body == stem@.subrange(begin as int, end as int),
            zip_year(stem@) == digits_value(body),
            i > begin ==> digits_value(body.take(i - begin)) == Some(value as nat),
            i == begin ==> value == 0,
            value < 10000,
            (i - begin == 1) ==> value < 10,
            (i - begin == 2) ==> value < 100,
            (i - begin == 3) ==> value < 1000,
        decreases end - i,
    {
        let ghost now = body.take(i - begin + 1);
        proof {
            assert(now.drop_last() =~= body.take(i - begin));
            assert(now.last() == chars@[i as int]);
        }
        match digit_of(chars[i]) {
            None => {
                proof {
                    assert(now[now.len() - 1] == chars@[i as int]);
                    assert(digits_value(now) is None);
                    lemma_digits_prefix_none(body, i - begin + 1);
                }
                return None;
            },
            Some(d) => {
                proof {
                    if i == begin {
                        assert(now.len() == 1);
                        assert(now[0] == chars@[i as int]);
                    }
                }
                value = value * 10 + d;
            },
        }
        i += 1;
    }
    proof {
        assert(body.take(end - begin) =~= body);
    }
    Some(value)
}

/// A text whose beginning is no number is no number.
proof fn lemma_digits_prefix_none(s: Seq<char>, k: int)
    requires
        1 <= k <= s.len(),
        digits_value(s.take(k)) is None,
    ensures
        digits_value(s) is None,
    decreases s.len() - k,
{
    if k < s.len() {
        assert(s.take(k + 1).drop_last() =~= s.take(k));
        lemma_digits_prefix_none(s, k + 1);
    } else {
        assert(s.take(k) =~= s);
    }
}

/// The name under which an entry of an archive is extracted: its stem, the
/// year of the archive, a dot, its extension.
pub fn extracted_file_name(stem: &str, year: u32, extension: &str) -> (r: String)
    ensures
        r@ == stem@ + decimal(year as nat) + "."@ + extension@,
{
    let mut out = stem.to_owned();
    out.append(decimal_string(year as u64).as_str());
    out.append(".");
    out.append(extension);
    out
}

} // verus!
