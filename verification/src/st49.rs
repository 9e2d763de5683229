//! Spud bulletins: which lines hold data, the rule of dashes that gives the
//! columns, and how one line makes one spud record.

use crate::date::{iso_of, ReportDate};
use crate::error::AppError;
use crate::parsers::common::date_utils::{extract_st49_date, st49_date};
use crate::parsers::common::{
    csv_document, csv_file_name, normalized, rows_of, trim_and_remove_empty_lines,
    write_csv_records, CsvRecord, ParsedDocument, ProcessedReport,
};
use crate::parsers::error::ParseError;
use crate::text::{
    byte_len, cell, cell_of, char_offset, contains, has_substring, is_white_space, is_whitespace,
    lemma_char_offset_bounds, lemma_char_offset_step, lines_of, split_lines, tail_cell,
    tail_cell_of, to_chars, trim, trimmed, utf8_len, utf8_width, views,
};
use vstd::prelude::*;
use vstd::string::*;

verus! {

/// A spud record, every value as the text found in the bulletin.
#[derive(Debug, Clone, PartialEq, Eq)]
pub struct SpudData {
    /// Date of the bulletin.
    pub date: String,
    pub well_id: String,
    pub well_name: String,
    pub licence: String,
    pub contractor_ba_id: String,
    pub contractor_name: String,
    pub rig_number: String,
    pub activity_date: String,
    pub field_centre: String,
    pub ba_id: String,
    pub licensee: String,
    pub new_projected_total_depth: String,
    pub activity_type: String,
}

impl SpudData {
    /// The values of the record, in the order of its columns.
    pub open spec fn fields(self) -> Seq<Seq<char>> {
        seq![
            self.date@,
            self.well_id@,
            self.well_name@,
            self.licence@,
            self.contractor_ba_id@,
            self.contractor_name@,
            self.rig_number@,
            self.activity_date@,
            self.field_centre@,
            self.ba_id@,
            self.licensee@,
            self.new_projected_total_depth@,
            self.activity_type@,
        ]
    }
}

impl CsvRecord for SpudData {
    open spec fn columns() -> Seq<Seq<char>> {
        seq![
            "date"@,
            "well_id"@,
            "well_name"@,
            "licence"@,
            "contractor_ba_id"@,
            "contractor_name"@,
            "rig_number"@,
            "activity_date"@,
            "field_centre"@,
            "ba_id"@,
            "licensee"@,
            "new_projected_total_depth"@,
            "activity_type"@,
        ]
    }

    open spec fn values(&self) -> Seq<Seq<char>> {
        self.fields()
    }

    proof fn lemma_one_value_per_column(&self) {
    }

    fn column_names() -> (r: Vec<String>) {
        let mut out: Vec<String> = Vec::new();
        out.push("date".to_owned());
        out.push("well_id".to_owned());
        out.push("well_name".to_owned());
        out.push("licence".to_owned());
        out.push("contractor_ba_id".to_owned());
        out.push("contractor_name".to_owned());
        out.push("rig_number".to_owned());
        out.push("activity_date".to_owned());
        out.push("field_centre".to_owned());
        out.push("ba_id".to_owned());
        out.push("licensee".to_owned());
        out.push("new_projected_total_depth".to_owned());
        out.push("activity_type".to_owned());
        proof {
            assert(views(out@) =~= Self::columns());
        }
        out
    }

    fn to_row(&self) -> (r: Vec<String>) {
        let mut out: Vec<String> = Vec::new();
        out.push(self.date.clone());
        out.push(self.well_id.clone());
        out.push(self.well_name.clone());
        out.push(self.licence.clone());
        out.push(self.contractor_ba_id.clone());
        out.push(self.contractor_name.clone());
        out.push(self.rig_number.clone());
        out.push(self.activity_date.clone());
        out.push(self.field_centre.clone());
        out.push(self.ba_id.clone());
        out.push(self.licensee.clone());
        out.push(self.new_projected_total_depth.clone());
        out.push(self.activity_type.clone());
        proof {
            assert(views(out@) =~= self.fields());
        }
        out
    }
}

/// The line is a rule of dashes: it gives the columns and opens a block of
/// data.
pub open spec fn is_separator(line: Seq<char>) -> bool {
    has_substring(line, "------"@)
}

/// The line repeats the column names inside a block; it is passed over.
pub open spec fn is_column_header(line: Seq<char>) -> bool {
    has_substring(line, "BA ID"@) && has_substring(line, "NAME"@) && has_substring(
        line,
        "NUMBER"@,
    )
}

/// The line closes an open block: a footer, a summary, or the head of a page.
pub open spec fn closes_block(line: Seq<char>) -> bool {
    has_substring(line, "Report Number:"@) || has_substring(line, "Run Date:"@) || has_substring(
        line,
        "For the Notification Period"@,
    ) || has_substring(line, "TOTAL  -"@) || has_substring(line, "WELL ID"@) || has_substring(
        line,
        "PAGE"@,
    )
}

/// The line can hold a spud record: it is not blank, is not the banner of
/// the report and is longer than 10 bytes.
pub open spec fn is_spud_data(line: Seq<char>) -> bool {
    trimmed(line).len() > 0 && !has_substring(line, "AER DAILY SPUD REPORT"@) && byte_len(line)
        > 10
}

/// Whether a block of data is open after the given lines: the last rule of
/// dashes among them is followed by no line that closes a block.
pub open spec fn block_open(lines: Seq<Seq<char>>) -> bool
    decreases lines.len(),
{
    if lines.len() == 0 {
        false
    } else {
        let line = lines.last();
        let before = block_open(lines.drop_last());
        if is_separator(line) {
            true
        } else if before && !is_column_header(line) && closes_block(line) {
            false
        } else {
            before
        }
    }
}

/// Line `k` is a data line: it stands in an open block and is neither a
/// rule, a column header, a closing line, nor unfit for a record.
pub open spec fn retained(lines: Seq<Seq<char>>, k: int) -> bool {
    0 <= k < lines.len() && !is_separator(lines[k]) && block_open(lines.take(k))
        && !is_column_header(lines[k]) && !closes_block(lines[k]) && is_spud_data(lines[k])
}

/// The data lines among `lines`, in order.
pub open spec fn spud_lines(lines: Seq<Seq<char>>) -> Seq<Seq<char>>
    decreases lines.len(),
{
    if lines.len() == 0 {
        Seq::empty()
    } else {
        let before = spud_lines(lines.drop_last());
        if retained(lines, lines.len() - 1) {
            before.push(lines.last())
        } else {
            before
        }
    }
}

/// The last rule of dashes among `lines`.
pub open spec fn last_separator(lines: Seq<Seq<char>>) -> Option<Seq<char>>
    decreases lines.len(),
{
    if lines.len() == 0 {
        None
    } else if is_separator(lines.last()) {
        Some(lines.last())
    } else {
        last_separator(lines.drop_last())
    }
}

/// Byte offset at which the current run starts once the first `k`
/// characters of `s` are read: one past the offset of the last whitespace
/// character among them, 0 when there is none.
pub open spec fn run_start(s: Seq<char>, k: int) -> int
    decreases k,
{
    if k <= 0 {
        0
    } else if is_white_space(s[k - 1]) {
        char_offset(s, k - 1) + 1
    } else {
        run_start(s, k - 1)
    }
}

/// The runs that the whitespace among the first `k` characters of `s` has
/// closed: for each whitespace character, in order, the pair of the start of
/// the run before it and its own offset, unless that run is empty.
pub open spec fn closed_runs(s: Seq<char>, k: int) -> Seq<(int, int)>
    decreases k,
{
    if k <= 0 {
        Seq::empty()
    } else {
        let before = closed_runs(s, k - 1);
        let at = char_offset(s, k - 1);
        if is_white_space(s[k - 1]) && at > run_start(s, k - 1) {
            before.push((run_start(s, k - 1), at))
        } else {
            before
        }
    }
}

/// The columns that a rule of dashes gives: the byte ranges of its runs
/// between whitespace, and at the end the range from the start of the last
/// run to the end of the line, empty or not.
pub open spec fn field_boundaries(s: Seq<char>) -> Seq<(int, int)> {
    closed_runs(s, s.len() as int).push((run_start(s, s.len() as int), byte_len(s)))
}

/// Byte ranges as pairs of integers.
pub open spec fn ranges(v: Seq<(usize, usize)>) -> Seq<(int, int)> {
    v.map_values(|p: (usize, usize)| (p.0 as int, p.1 as int))
}

/// Column `k` of a line under the given columns: its cell, or the empty text
/// when there is no such column.
pub open spec fn column(line: Seq<char>, columns: Seq<(int, int)>, k: int) -> Seq<char> {
    if 0 <= k < columns.len() {
        cell(line, columns[k].0, columns[k].1)
    } else {
        Seq::empty()
    }
}

/// What follows the eleventh column of a line, trimmed; the empty text when
/// there are fewer columns.
pub open spec fn trailing_column(line: Seq<char>, columns: Seq<(int, int)>) -> Seq<char> {
    tail_cell(
        line,
        if columns.len() > 10 {
            columns[10].1
        } else {
            byte_len(line)
        },
    )
}

/// The values of the spud record that a line holds under the given columns,
/// in the order of the record's columns.
pub open spec fn spud_fields(date: Seq<char>, line: Seq<char>, columns: Seq<(int, int)>) -> Seq<
    Seq<char>,
> {
    seq![
        date,
        column(line, columns, 0),
        column(line, columns, 1),
        column(line, columns, 2),
        column(line, columns, 3),
        column(line, columns, 4),
        column(line, columns, 5),
        column(line, columns, 6),
        column(line, columns, 7),
        column(line, columns, 8),
        column(line, columns, 9),
        column(line, columns, 10),
        trailing_column(line, columns),
    ]
}

/// The rows of the spud records of the data lines under the columns that
/// `separator` gives: one for every line.
pub open spec fn spud_rows(date: Seq<char>, data: Seq<Seq<char>>, separator: Seq<char>) -> Seq<
    Seq<Seq<char>>,
> {
    Seq::new(data.len(), |k: int| spud_fields(date, data[k], field_boundaries(separator)))
}

/// What a spud bulletin with the given lines holds: its date, its data
/// lines and its last rule of dashes, or the description of what is
/// missing. The date is looked for first.
pub open spec fn st49_parse(lines: Seq<Seq<char>>) -> Result<
    ((int, int, int), Seq<Seq<char>>, Seq<char>),
    Seq<char>,
> {
    let norm = normalized(lines);
    match st49_date(norm) {
        Err(m) => Err("Failed to parse date from content: "@ + m),
        Ok(ymd) => match last_separator(norm) {
            None => Err("Missing required section: "@ + "separator line"@),
            Some(separator) => Ok((ymd, spud_lines(norm), separator)),
        },
    }
}

/// Whether the line is a rule of dashes.
pub fn separator_line(line: &str) -> (r: bool)
    ensures
        r == is_separator(line@),
{
    contains(line, "------")
}

/// Whether the line repeats the column names.
pub fn column_header_line(line: &str) -> (r: bool)
    ensures
        r == is_column_header(line@),
{
    contains(line, "BA ID") && contains(line, "NAME") && contains(line, "NUMBER")
}

/// Whether the line closes an open block.
pub fn closing_line(line: &str) -> (r: bool)
    ensures
        r == closes_block(line@),
{
    contains(line, "Report Number:") || contains(line, "Run Date:") || contains(
        line,
        "For the Notification Period",
    ) || contains(line, "TOTAL  -") || contains(line, "WELL ID") || contains(line, "PAGE")
}

/// Whether the line can hold a spud record.
pub fn spud_data_line(line: &str) -> (r: bool)
    ensures
        r == is_spud_data(line@),
{
    trim(line).unicode_len() > 0 && !contains(line, "AER DAILY SPUD REPORT") && utf8_len(line)
        > 10
}

/// The data lines of the bulletin and the rule of dashes that gives their
/// columns. Each rule opens a block; a footer, a summary or a page head
/// closes it; the lines of open blocks that can hold a record are the data
/// lines. The rule handed back is the last one of the input. Without any
/// rule the section is missing.
pub fn extract_data_and_separator(lines: &[String]) -> (r: Result<(Vec<String>, String), ParseError>)
    ensures
        match r {
            Ok((data, separator)) => last_separator(views(lines@)) == Some(separator@) && views(
                data@,
            ) == spud_lines(views(lines@)),
            Err(e) => last_separator(views(lines@)) is None && (e matches ParseError::MissingSection {
                section,
            } && section@ == "separator line"@),
        },
{
    let n = lines.len();
    let ghost all = views(lines@);
    let mut data: Vec<String> = Vec::new();
    let mut separator: Option<String> = None;
    let mut in_block = false;
    let mut i: usize = 0;
    proof {
        assert(all.take(0) =~= Seq::<Seq<char>>::empty());
    }
    while i < n
        invariant
            i <= n,
            n == lines@.len(),
            all == views(lines@),
            in_block == block_open(all.take(i as int)),
            views(data@) == spud_lines(all.take(i as int)),
            match separator {
                Some(s) => last_separator(all.take(i as int)) == Some(s@),
                None => last_separator(all.take(i as int)) is None,
            },
        decreases n - i,
    {
        let line = lines[i].as_str();
        proof {
            let now = all.take(i + 1);
            assert(now.drop_last() =~= all.take(i as int));
            assert(now.last() == all[i as int]);
            assert(now.take(i as int) =~= all.take(i as int));
        }
        if separator_line(line) {
            separator = Some(lines[i].clone());
            in_block = true;
        } else if in_block {
            if column_header_line(line) {
            } else if closing_line(line) {
                in_block = false;
            } else if spud_data_line(line) {
                let kept = lines[i].clone();
                proof {
                    assert(views(data@.push(kept)) =~= views(data@).push(kept@));
                }
                data.push(kept);
            }
        }
        i += 1;
    }
    proof {
        assert(all.take(n as int) =~= all);
    }
    match separator {
        Some(s) => Ok((data, s)),
        None => Err(ParseError::MissingSection { section: "separator line".to_owned() }),
    }
}

/// The columns that a rule of dashes gives, as byte ranges.
pub fn get_field_boundaries(separator: &str) -> (r: Vec<(usize, usize)>)
    ensures
        ranges(r@) == field_boundaries(separator@),
{
    let chars = to_chars(separator);
    let n = chars.len();
    let total = utf8_len(separator);
    let ghost s = separator@;
    let mut out: Vec<(usize, usize)> = Vec::new();
    let mut start: usize = 0;
    let mut pos: usize = 0;
    let mut k: usize = 0;
    proof {
        lemma_char_offset_bounds(s, 0);
        if n > 0 {
            lemma_char_offset_step(s, 0);
        }
        assert(s.take(0) =~= Seq::<char>::empty());
        assert(ranges(out@) =~= closed_runs(s, 0));
    }
    while k < n
        invariant
            k <= n,
            n == s.len(),
            chars@ == s,
            total == byte_len(s),
            pos == char_offset(s, k as int),
            start == run_start(s, k as int),
            start <= total,
            ranges(out@) == closed_runs(s, k as int),
        decreases n - k,
    {
        let c = chars[k];
        proof {
            lemma_char_offset_step(s, k as int);
            lemma_char_offset_bounds(s, k + 1);
        }
        if is_whitespace(c) {
            if pos > start {
                proof {
                    assert(ranges(out@.push((start, pos))) =~= ranges(out@).push(
                        (start as int, pos as int),
                    ));
                }
                out.push((start, pos));
            }
            start = pos + 1;
        }
        pos = pos + utf8_width(c);
        k += 1;
    }
    proof {
        lemma_char_offset_bounds(s, n as int);
        assert(ranges(out@.push((start, total))) =~= ranges(out@).push(
            (start as int, total as int),
        ));
    }
    out.push((start, total));
    out
}

/// Column `k` of a line under the given columns.
pub fn column_of(line: &str, columns: &Vec<(usize, usize)>, k: usize) -> (r: String)
    ensures
        r@ == column(line@, ranges(columns@), k as int),
{
    if k < columns.len() {
        let range = columns[k];
        cell_of(line, range.0, range.1)
    } else {
        String::new()
    }
}

/// What follows the eleventh column of a line, trimmed.
pub fn trailing_column_of(line: &str, columns: &Vec<(usize, usize)>) -> (r: String)
    ensures
        r@ == trailing_column(line@, ranges(columns@)),
{
    let from = if columns.len() > 10 {
        columns[10].1
    } else {
        utf8_len(line)
    };
    tail_cell_of(line, from)
}

/// The spud records of the data lines: one per line; the first eleven values
/// are the cells under the columns that `separator` gives, the last is what
/// follows the eleventh column; every value trimmed. A column that is
/// missing, or whose range does not fit the line, gives an empty value.
pub fn extract_spud_data(lines: Vec<String>, date: ReportDate, separator: &str) -> (r: Vec<SpudData>)
    ensures
        r@.len() == lines@.len(),
        rows_of(r@) == spud_rows(date.iso_text(), views(lines@), separator@),
        forall|k: int|
            0 <= k < r@.len() ==> (#[trigger] r@[k]).fields() == spud_fields(
                date.iso_text(),
                lines@[k]@,
                field_boundaries(separator@),
            ),
{
    let columns = get_field_boundaries(separator);
    let n = lines.len();
    let mut out: Vec<SpudData> = Vec::new();
    let mut k: usize = 0;
    while k < n
        invariant
            k <= n,
            n == lines@.len(),
            out@.len() == k,
            ranges(columns@) == field_boundaries(separator@),
            forall|j: int|
                0 <= j < k ==> (#[trigger] out@[j]).fields() == spud_fields(
                    date.iso_text(),
                    lines@[j]@,
                    field_boundaries(separator@),
                ),
        decreases n - k,
    {
        let line = lines[k].as_str();
        let record = SpudData {
            date: date.to_string(),
            well_id: column_of(line, &columns, 0),
            well_name: column_of(line, &columns, 1),
            licence: column_of(line, &columns, 2),
            contractor_ba_id: column_of(line, &columns, 3),
            contractor_name: column_of(line, &columns, 4),
            rig_number: column_of(line, &columns, 5),
            activity_date: column_of(line, &columns, 6),
            field_centre: column_of(line, &columns, 7),
            ba_id: column_of(line, &columns, 8),
            licensee: column_of(line, &columns, 9),
            new_projected_total_depth: column_of(line, &columns, 10),
            activity_type: trailing_column_of(line, &columns),
        };
        proof {
            assert(record.fields() =~= spud_fields(
                date.iso_text(),
                lines@[k as int]@,
                field_boundaries(separator@),
            ));
        }
        out.push(record);
        k += 1;
    }
    proof {
        assert(rows_of(out@) =~= spud_rows(date.iso_text(), views(lines@), separator@));
    }
    out
}

/// The date and the spud records of a spud bulletin, given its lines. The
/// lines are normalised; the date is read; the data lines and the last rule
/// of dashes are taken; every data line makes a record under the columns of
/// that rule. Without a date the error is a date error; with a date but
/// without a rule the section is missing. A bulletin without data lines is
/// no error.
pub fn parse_report(lines: Vec<String>) -> (r: Result<ParsedDocument<SpudData>, ParseError>)
    ensures
        match r {
            Ok(doc) => st49_parse(views(lines@)) matches Ok((ymd, data, separator))
                && doc.report_date.ymd() == ymd && doc.report_date.is_valid() && rows_of(
                doc.records@,
            ) == spud_rows(iso_of(ymd), data, separator),
            Err(e) => st49_parse(views(lines@)) == Err::<
                ((int, int, int), Seq<Seq<char>>, Seq<char>),
                Seq<char>,
            >(e.message()) && (st49_date(normalized(views(lines@))) is Err <==> e is DateParse)
                && (st49_date(normalized(views(lines@))) is Ok <==> e is MissingSection),
        },
{
    let norm = trim_and_remove_empty_lines(lines);
    let date = match extract_st49_date(norm.as_slice()) {
        Ok(d) => d,
        Err(details) => {
            return Err(ParseError::DateParse { details });
        },
    };
    let (data, separator) = match extract_data_and_separator(norm.as_slice()) {
        Ok(found) => found,
        Err(e) => {
            return Err(e);
        },
    };
    let records = extract_spud_data(data, date, separator.as_str());
    Ok(ParsedDocument { report_date: date, records })
}

/// The path of the bulletin with the given stem in the given directory.
pub fn input_path(txt_input_dir: &str, filename_stem: &str) -> (r: String)
    ensures
        r@ == txt_input_dir@ + "/"@ + filename_stem@ + ".txt"@,
{
    let mut out = txt_input_dir.to_owned();
    out.append("/");
    out.append(filename_stem);
    out.append(".txt");
    out
}

/// `r` is what processing the given content gives: an error that carries
/// the description of what is missing; or the date and no file, where there
/// is no record; or the date and the CSV file of the records; or the error
/// of the `csv` crate, where it refuses a row.
pub open spec fn processed(content: Seq<char>, r: Result<ProcessedReport, AppError>) -> bool {
    match st49_parse(lines_of(content)) {
        Err(m) => r is Err && r->Err_0 is FileProcessing && r->Err_0.detail() == m,
        Ok((ymd, data, separator)) => {
            let rows = spud_rows(iso_of(ymd), data, separator);
            if rows.len() == 0 {
                r matches Ok(p) && p.date.ymd() == ymd && p.output is None
            } else {
                match csv_document(SpudData::columns(), rows) {
                    Some(bytes) => r matches Ok(p) && p.date.ymd() == ymd && (
                    p.output matches Some(file) && file.file_name@ == csv_file_name(
                        p.date,
                        "SPUD"@,
                    ) && file.content@ == bytes),
                    None => r is Err && r->Err_0 is Csv,
                }
            }
        },
    }
}

/// What the content of a spud bulletin gives: its date, and the CSV file of
/// its spud records under the prefix `SPUD`, if it has any. A bulletin that
/// cannot be parsed gives a file-processing error with the description of
/// what is missing, and no file.
pub fn process_file(content: &str) -> (r: Result<ProcessedReport, AppError>)
    ensures
        processed(content@, r),
{
    let lines = split_lines(content);
    let doc = match parse_report(lines) {
        Ok(d) => d,
        Err(e) => {
            return Err(e.into_app_error());
        },
    };
    match write_csv_records(doc.records.as_slice(), "SPUD", doc.report_date) {
        Ok(output) => Ok(ProcessedReport { date: doc.report_date, output }),
        Err(e) => Err(e),
    }
}


/// A bulletin of fewer than two lines has no date line and is not
/// processed: the outcome is the error of a date that cannot be read, and
/// no file.
pub proof fn lemma_missing_date_line_is_a_date_error(
    content: Seq<char>,
    r: Result<ProcessedReport, AppError>,
)
    requires
        processed(content, r),
        normalized(lines_of(content)).len() < 2,
    ensures
        r is Err,
        r->Err_0 is FileProcessing,
        r->Err_0.detail() == "Failed to parse date from content: "@ + "Date line not found"@,
{
}

/// A bulletin without data lines is processed without error and gives no
/// file.
pub proof fn lemma_no_data_line_no_file(content: Seq<char>, r: Result<ProcessedReport, AppError>)
    requires
        processed(content, r),
        st49_parse(lines_of(content)) matches Ok((ymd, data, separator)) && data.len() == 0,
    ensures
        r matches Ok(p) && p.output is None,
{
}

/// There are as many spud records as data lines, and the columns of every
/// record are those of the one rule of dashes handed in.
pub proof fn lemma_one_record_per_data_line(
    date: Seq<char>,
    data: Seq<Seq<char>>,
    separator: Seq<char>,
)
    ensures
        spud_rows(date, data, separator).len() == data.len(),
        forall|k: int|
            0 <= k < data.len() ==> #[trigger] spud_rows(date, data, separator)[k] == spud_fields(
                date,
                data[k],
                field_boundaries(separator),
            ),
{
}


/// The line shuts an open block: it closes a block and is neither a rule of
/// dashes nor a repeat of the column names.
pub open spec fn shuts_block(line: Seq<char>) -> bool {
    !is_separator(line) && !is_column_header(line) && closes_block(line)
}

/// A block is open after the given lines exactly when one of them is a rule
/// of dashes that no shutting line follows.
pub proof fn lemma_block_open(lines: Seq<Seq<char>>)
    ensures
        block_open(lines) <==> exists|j: int|
            0 <= j < lines.len() && is_separator(#[trigger] lines[j]) && forall|m: int|
                j < m < lines.len() ==> !shuts_block(#[trigger] lines[m]),
    decreases lines.len(),
{
    if lines.len() > 0 {
        let rest = lines.drop_last();
        let last = lines.len() - 1;
        let line = lines.last();
        lemma_block_open(rest);
        if is_separator(line) {
            assert(is_separator(lines[last]) && forall|m: int|
                last < m < lines.len() ==> !shuts_block(#[trigger] lines[m]));
        } else if shuts_block(line) {
            assert forall|j: int|
                0 <= j < lines.len() && is_separator(#[trigger] lines[j]) implies !(forall|m: int|
                    j < m < lines.len() ==> !shuts_block(#[trigger] lines[m])) by {
                assert(j < last);
                assert(shuts_block(lines[last]));
            }
        } else {
            if block_open(rest) {
                let j = choose|j: int|
                    0 <= j < rest.len() && is_separator(#[trigger] rest[j]) && forall|m: int|
                        j < m < rest.len() ==> !shuts_block(#[trigger] rest[m]);
                assert(lines[j] == rest[j]);
                assert forall|m: int| j < m < lines.len() implies !shuts_block(
                    #[trigger] lines[m],
                ) by {
                    if m < last {
                        assert(lines[m] == rest[m]);
                    }
                }
            }
            if exists|j: int|
                0 <= j < lines.len() && is_separator(#[trigger] lines[j]) && forall|m: int|
                    j < m < lines.len() ==> !shuts_block(#[trigger] lines[m]) {
                let j = choose|j: int|
                    0 <= j < lines.len() && is_separator(#[trigger] lines[j]) && forall|m: int|
                        j < m < lines.len() ==> !shuts_block(#[trigger] lines[m]);
                assert(j < last);
                assert(rest[j] == lines[j]);
                assert forall|m: int| j < m < rest.len() implies !shuts_block(
                    #[trigger] rest[m],
                ) by {
                    assert(rest[m] == lines[m]);
                }
            }
        }
    }
}

/// The runs closed among the first `k` characters lie before the start of
/// the current run, which is no later than the offset of character `k`; each
/// holds a byte; and they come one after the other.
proof fn lemma_closed_runs(s: Seq<char>, k: int)
    requires
        0 <= k <= s.len(),
    ensures
        0 <= run_start(s, k) <= char_offset(s, k),
        forall|i: int|
            0 <= i < closed_runs(s, k).len() ==> 0 <= (#[trigger] closed_runs(s, k)[i]).0
                < closed_runs(s, k)[i].1 < run_start(s, k),
        forall|i: int|
            0 <= i < closed_runs(s, k).len() - 1 ==> (#[trigger] closed_runs(s, k)[i]).1
                < closed_runs(s, k)[i + 1].0,
    decreases k,
{
    if k > 0 {
        lemma_closed_runs(s, k - 1);
        lemma_char_offset_step(s, k - 1);
        let before = closed_runs(s, k - 1);
        let now = closed_runs(s, k);
        if is_white_space(s[k - 1]) && char_offset(s, k - 1) > run_start(s, k - 1) {
            assert forall|i: int| 0 <= i < now.len() - 1 implies (#[trigger] now[i]).1 < now[i
                + 1].0 by {
                if i < before.len() - 1 {
                    assert(now[i] == before[i]);
                    assert(now[i + 1] == before[i + 1]);
                } else {
                    assert(now[i] == before[i]);
                }
            }
            assert forall|i: int| 0 <= i < now.len() implies 0 <= (#[trigger] now[i]).0 < now[i].1
                < run_start(s, k) by {
                if i < before.len() {
                    assert(now[i] == before[i]);
                }
            }
        }
    } else {
        lemma_char_offset_bounds(s, 0);
    }
}

/// The columns that a rule of dashes gives lie within the line and come one
/// after the other; each but the last holds a byte.
pub proof fn lemma_columns_in_order(s: Seq<char>)
    ensures
        field_boundaries(s).len() >= 1,
        forall|i: int|
            0 <= i < field_boundaries(s).len() ==> 0 <= (#[trigger] field_boundaries(s)[i]).0
                <= field_boundaries(s)[i].1 <= byte_len(s),
        forall|i: int|
            0 <= i < field_boundaries(s).len() - 1 ==> (#[trigger] field_boundaries(s)[i]).0
                < field_boundaries(s)[i].1 < field_boundaries(s)[i + 1].0,
{
    let n = s.len() as int;
    lemma_closed_runs(s, n);
    lemma_char_offset_bounds(s, n);
    let closed = closed_runs(s, n);
    let all = field_boundaries(s);
    assert forall|i: int| 0 <= i < all.len() implies 0 <= (#[trigger] all[i]).0 <= all[i].1
        <= byte_len(s) by {
        if i < closed.len() {
            assert(all[i] == closed[i]);
        }
    }
    assert forall|i: int| 0 <= i < all.len() - 1 implies (#[trigger] all[i]).0 < all[i].1 < all[i
        + 1].0 by {
        assert(all[i] == closed[i]);
        if i + 1 < closed.len() {
            assert(all[i + 1] == closed[i + 1]);
        }
    }
}

} // verus!
