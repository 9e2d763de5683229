//! Well-licence bulletins: where the block of licences lies, which of its
//! lines hold data, and how five lines make one licence.

use crate::date::{iso_of, ReportDate};
use crate::error::AppError;
use crate::parsers::common::date_utils::{
    date_line_pred, extract_st1_date, st1_date, st1_date_line,
};
use crate::parsers::common::{
    csv_document, csv_file_name, normalized, rows_of, trim_and_remove_empty_lines,
    write_csv_records, CsvRecord, ParsedDocument, ProcessedReport,
};
use crate::parsers::error::ParseError;
use crate::text::{
    byte_len, cell, cell_of, contains, first_index, has_substring, lemma_first_index, lines_of,
    split_lines, tail_cell, tail_cell_of, trim, trimmed, utf8_len, views,
};
use vstd::prelude::*;
use vstd::string::*;

verus! {

/// A well licence, every value as the text found in the bulletin.
#[derive(Debug, Clone, PartialEq, Eq)]
pub struct License {
    /// Date of the bulletin.
    pub date: String,
    pub well_name: String,
    pub licence_number: String,
    pub mineral_rights: String,
    pub ground_elevation: String,
    pub unique_identifier: String,
    pub surface_coordinates: String,
    pub aer_field_centre: String,
    pub projected_depth: String,
    pub aer_classification: String,
    pub field: String,
    pub terminating_zone: String,
    pub drilling_operation: String,
    pub well_purpose: String,
    pub well_type: String,
    pub substance: String,
    pub licensee: String,
    pub surface_location: String,
}

impl License {
    /// The values of the licence, in the order of its columns.
    pub open spec fn fields(self) -> Seq<Seq<char>> {
        seq![
            self.date@,
            self.well_name@,
            self.licence_number@,
            self.mineral_rights@,
            self.ground_elevation@,
            self.unique_identifier@,
            self.surface_coordinates@,
            self.aer_field_centre@,
            self.projected_depth@,
            self.aer_classification@,
            self.field@,
            self.terminating_zone@,
            self.drilling_operation@,
            self.well_purpose@,
            self.well_type@,
            self.substance@,
            self.licensee@,
            self.surface_location@,
        ]
    }
}

impl CsvRecord for License {
    open spec fn columns() -> Seq<Seq<char>> {
        seq![
            "date"@,
            "well_name"@,
            "licence_number"@,
            "mineral_rights"@,
            "ground_elevation"@,
            "unique_identifier"@,
            "surface_coordinates"@,
            "aer_field_centre"@,
            "projected_depth"@,
            "aer_classification"@,
            "field"@,
            "terminating_zone"@,
            "drilling_operation"@,
            "well_purpose"@,
            "well_type"@,
            "substance"@,
            "licensee"@,
            "surface_location"@,
        ]
    }

    open spec fn values(&self) -> Seq<Seq<char>> {
        self.fields()
    }

    proof fn lemma_one_value_per_column(&self) {
    }

    fn column_names() -> (r: Vec<String>) {
        let mut out: Vec<String> = Vec::new();
        out.push("date".to_owned());
        out.push("well_name".to_owned());
        out.push("licence_number".to_owned());
        out.push("mineral_rights".to_owned());
        out.push("ground_elevation".to_owned());
        out.push("unique_identifier".to_owned());
        out.push("surface_coordinates".to_owned());
        out.push("aer_field_centre".to_owned());
        out.push("projected_depth".to_owned());
        out.push("aer_classification".to_owned());
        out.push("field".to_owned());
        out.push("terminating_zone".to_owned());
        out.push("drilling_operation".to_owned());
        out.push("well_purpose".to_owned());
        out.push("well_type".to_owned());
        out.push("substance".to_owned());
        out.push("licensee".to_owned());
        out.push("surface_location".to_owned());
        proof {
            assert(views(out@) =~= Self::columns());
        }
        out
    }

    fn to_row(&self) -> (r: Vec<String>) {
        let mut out: Vec<String> = Vec::new();
        out.push(self.date.clone());
        out.push(self.well_name.clone());
        out.push(self.licence_number.clone());
        out.push(self.mineral_rights.clone());
        out.push(self.ground_elevation.clone());
        out.push(self.unique_identifier.clone());
        out.push(self.surface_coordinates.clone());
        out.push(self.aer_field_centre.clone());
        out.push(self.projected_depth.clone());
        out.push(self.aer_classification.clone());
        out.push(self.field.clone());
        out.push(self.terminating_zone.clone());
        out.push(self.drilling_operation.clone());
        out.push(self.well_purpose.clone());
        out.push(self.well_type.clone());
        out.push(self.substance.clone());
        out.push(self.licensee.clone());
        out.push(self.surface_location.clone());
        proof {
            assert(views(out@) =~= self.fields());
        }
        out
    }
}

/// The rule of dashes that frames the blocks of a bulletin.
pub open spec fn rule_line() -> Seq<char> {
    "--------------------------------------------------------------------------------------------"@
}

/// The line names the columns of the block of licences issued.
pub open spec fn is_licence_header(line: Seq<char>) -> bool {
    has_substring(line, "WELL NAME"@) && has_substring(line, "LICENCE NUMBER"@)
}

/// The line opens the block that follows the licences issued, or closes the
/// list.
pub open spec fn is_licence_terminator(line: Seq<char>) -> bool {
    has_substring(line, "WELL LICENCES UPDATED"@) || has_substring(
        line,
        "WELL LICENCES CANCELLED"@,
    ) || has_substring(line, "AMENDMENTS OF WELL LICENCES"@) || has_substring(
        line,
        "END OF WELL LICENCES DAILY LIST"@,
    )
}

/// The line, once trimmed, holds data of a licence: it is longer than 20
/// bytes and is neither a rule, a total, a page header nor a column header.
pub open spec fn is_licence_data(line: Seq<char>) -> bool {
    let t = trimmed(line);
    t.len() > 0 && !has_substring(t, rule_line()) && !has_substring(t, "TOTAL"@) && !has_substring(
        t,
        "PAGE"@,
    ) && !has_substring(t, "WELL NAME AND U.I.D."@) && !has_substring(
        t,
        "END OF WELL LICENCES DAILY LIST"@,
    ) && byte_len(t) > 20
}

/// The header lines.
pub open spec fn licence_header_pred() -> spec_fn(Seq<char>) -> bool {
    |l: Seq<char>| is_licence_header(l)
}

/// The terminator lines.
pub open spec fn licence_terminator_pred() -> spec_fn(Seq<char>) -> bool {
    |l: Seq<char>| is_licence_terminator(l)
}

/// The data lines.
pub open spec fn licence_data_pred() -> spec_fn(Seq<char>) -> bool {
    |l: Seq<char>| is_licence_data(l)
}

/// Index of the first header line; the number of lines when there is none.
pub open spec fn header_index(lines: Seq<Seq<char>>) -> int {
    first_index(lines, licence_header_pred())
}

/// Index of the first line of the block of licences: the sixth line after
/// the header.
pub open spec fn data_start(lines: Seq<Seq<char>>) -> int {
    header_index(lines) + 6
}

/// Index of the line that ends the block: the first terminator at or after
/// the start of the block, or the end of the input.
pub open spec fn data_end(lines: Seq<Seq<char>>) -> int {
    let start = data_start(lines);
    if start >= lines.len() {
        lines.len() as int
    } else {
        start + first_index(lines.skip(start), licence_terminator_pred())
    }
}

/// The lines of the block of licences, rules and headers included.
pub open spec fn licence_block(lines: Seq<Seq<char>>) -> Seq<Seq<char>> {
    if data_start(lines) >= lines.len() {
        Seq::empty()
    } else {
        lines.subrange(data_start(lines), data_end(lines))
    }
}

/// The data lines of the block of licences, as they stand in the input;
/// `None` when the input has no header line.
pub open spec fn licence_lines(lines: Seq<Seq<char>>) -> Option<Seq<Seq<char>>> {
    if header_index(lines) >= lines.len() {
        None
    } else {
        Some(licence_block(lines).filter(licence_data_pred()))
    }
}

/// The values of the licence that five consecutive lines describe, in the
/// order of the columns.
pub open spec fn licence_fields(
    date: Seq<char>,
    l0: Seq<char>,
    l1: Seq<char>,
    l2: Seq<char>,
    l3: Seq<char>,
    l4: Seq<char>,
) -> Seq<Seq<char>> {
    seq![
        date,
        cell(l0, 0, 37),
        cell(l0, 37, 47),
        cell(l0, 47, 68),
        tail_cell(l0, 68),
        cell(l1, 0, 37),
        cell(l1, 37, 47),
        cell(l1, 47, 68),
        tail_cell(l1, 68),
        cell(l2, 0, 37),
        cell(l2, 37, 68),
        tail_cell(l2, 68),
        cell(l3, 0, 37),
        cell(l3, 37, 47),
        cell(l3, 47, 68),
        tail_cell(l3, 68),
        cell(l4, 0, 68),
        tail_cell(l4, 68),
    ]
}

/// The rows of the licences that the data lines describe: one for every
/// five consecutive lines.
pub open spec fn licence_rows(date: Seq<char>, data: Seq<Seq<char>>) -> Seq<Seq<Seq<char>>> {
    Seq::new(
        (data.len() / 5) as nat,
        |k: int|
            licence_fields(
                date,
                data[5 * k],
                data[5 * k + 1],
                data[5 * k + 2],
                data[5 * k + 3],
                data[5 * k + 4],
            ),
    )
}

/// What a well-licence bulletin with the given lines holds: its date and
/// the normalised data lines of its licences, or the description of what is
/// missing. The date is looked for first.
pub open spec fn st1_parse(lines: Seq<Seq<char>>) -> Result<
    ((int, int, int), Seq<Seq<char>>),
    Seq<char>,
> {
    let norm = normalized(lines);
    match st1_date(norm) {
        Err(m) => Err("Failed to parse date from content: "@ + m),
        Ok(ymd) => match licence_lines(norm) {
            None => Err("Missing required section: "@ + "WELL LICENCES ISSUED"@),
            Some(block) => Ok((ymd, normalized(block))),
        },
    }
}

/// Where the parts of a well-licence bulletin lie, as indices of lines: the
/// line of the date, if there is one; the first line of the block of
/// licences; and the line that ends the block. The block is never cut
/// short: it starts no later than it ends.
#[derive(Debug, Clone, Copy, PartialEq, Eq, Structural)]
pub struct SectionBoundaries {
    pub date_line: Option<usize>,
    pub data_start: usize,
    pub data_end: usize,
}

impl SectionBoundaries {
    /// The date comes before the block, and the block holds a line.
    pub open spec fn strictly_ordered(self) -> bool {
        self.date_line is Some && self.date_line->0 < self.data_start && self.data_start
            < self.data_end
    }

    /// Whether the date comes before the block and the block holds a line.
    pub fn is_strictly_ordered(&self) -> (r: bool)
        ensures
            r == self.strictly_ordered(),
    {
        match self.date_line {
            Some(d) => d < self.data_start && self.data_start < self.data_end,
            None => false,
        }
    }
}

/// `found` are the boundaries of the sections of `lines`: the date line is
/// the first line that holds `DATE`; the block starts six lines after the
/// header line, or at the end of the input where that is earlier; it ends
/// before the first terminator from its start on, or at the end of the
/// input.
pub open spec fn are_boundaries(found: SectionBoundaries, lines: Seq<Seq<char>>) -> bool {
    &&& found.date_line == if st1_date_line(lines) < lines.len() {
        Some(st1_date_line(lines) as usize)
    } else {
        None
    }
    &&& found.data_start == if data_start(lines) <= lines.len() {
        data_start(lines)
    } else {
        lines.len() as int
    }
    &&& found.data_end == data_end(lines)
    &&& found.data_start <= found.data_end <= lines.len()
}

/// Whether the line names the columns of the block of licences issued.
pub fn licence_header(line: &str) -> (r: bool)
    ensures
        r == is_licence_header(line@),
{
    contains(line, "WELL NAME") && contains(line, "LICENCE NUMBER")
}

/// Whether the line ends the block of licences issued.
pub fn licence_terminator(line: &str) -> (r: bool)
    ensures
        r == is_licence_terminator(line@),
{
    contains(line, "WELL LICENCES UPDATED") || contains(line, "WELL LICENCES CANCELLED")
        || contains(line, "AMENDMENTS OF WELL LICENCES") || contains(
        line,
        "END OF WELL LICENCES DAILY LIST",
    )
}

/// Whether the line holds data of a licence.
pub fn licence_data(line: &str) -> (r: bool)
    ensures
        r == is_licence_data(line@),
{
    let t = trim(line);
    t.unicode_len() > 0 && !contains(
        t,
        "--------------------------------------------------------------------------------------------",
    ) && !contains(t, "TOTAL") && !contains(t, "PAGE") && !contains(t, "WELL NAME AND U.I.D.")
        && !contains(t, "END OF WELL LICENCES DAILY LIST") && utf8_len(t) > 20
}

/// The data lines of the block of licences issued, untouched and in order.
/// The block starts six lines after the header line and ends before the
/// first terminator or at the end of the input. Without a header line the
/// section is missing.
pub fn extract_licences_lines(lines: &[String]) -> (r: Result<Vec<String>, ParseError>)
    ensures
        match r {
            Ok(v) => licence_lines(views(lines@)) == Some(views(v@)),
            Err(e) => licence_lines(views(lines@)) is None && (e matches ParseError::MissingSection {
                section,
            } && section@ == "WELL LICENCES ISSUED"@),
        },
{
    let n = lines.len();
    let ghost all = views(lines@);
    let found = match locate_sections(lines) {
        Ok(f) => f,
        Err(e) => {
            return Err(e);
        },
    };
    let start = found.data_start;
    let end = found.data_end;
    let mut out: Vec<String> = Vec::new();
    proof {
        assert(licence_block(all) =~= all.subrange(start as int, end as int));
    }
    let ghost block = all.subrange(start as int, end as int);
    let mut i: usize = start;
    proof {
        reveal_with_fuel(Seq::filter, 1);
        assert(block.take(0) =~= Seq::<Seq<char>>::empty());
    }
    while i < end
        invariant
            start <= i <= end <= n,
            n == lines@.len(),
            all == views(lines@),
            block == all.subrange(start as int, end as int),
            views(out@) == block.take(i - start).filter(licence_data_pred()),
        decreases end - i,
    {
        let keep = licence_data(lines[i].as_str());
        proof {
            let before = block.take(i - start);
            let now = block.take(i - start + 1);
            assert(now =~= before.push(all[i as int]));
            assert(now.drop_last() =~= before);
            reveal_with_fuel(Seq::filter, 1);
        }
        if keep {
            let line = lines[i].clone();
            proof {
                assert(views(out@.push(line)) =~= views(out@).push(line@));
            }
            out.push(line);
        }
        i += 1;
    }
    proof {
        assert(block.take(end - start) =~= block);
    }
    Ok(out)
}

/// Where the sections of a well-licence bulletin lie. Without a header line
/// the section of the licences is missing.
pub fn locate_sections(lines: &[String]) -> (r: Result<SectionBoundaries, ParseError>)
    ensures
        match r {
            Ok(found) => header_index(views(lines@)) < lines@.len() && are_boundaries(
                found,
                views(lines@),
            ),
            Err(e) => header_index(views(lines@)) >= lines@.len() && (
            e matches ParseError::MissingSection { section } && section@
                == "WELL LICENCES ISSUED"@),
        },
{
    let n = lines.len();
    let ghost all = views(lines@);
    let mut d: usize = 0;
    while d < n && !contains(lines[d].as_str(), "DATE")
        invariant
            d <= n,
            n == lines@.len(),
            all == views(lines@),
            forall|k: int| 0 <= k < d ==> !date_line_pred()(#[trigger] all[k]),
        decreases n - d,
    {
        d += 1;
    }
    let mut h: usize = 0;
    while h < n && !licence_header(lines[h].as_str())
        invariant
            h <= n,
            n == lines@.len(),
            all == views(lines@),
            forall|k: int| 0 <= k < h ==> !licence_header_pred()(#[trigger] all[k]),
        decreases n - h,
    {
        h += 1;
    }
    proof {
        lemma_first_index(all, date_line_pred(), d as int);
        lemma_first_index(all, licence_header_pred(), h as int);
    }
    if h == n {
        return Err(ParseError::MissingSection { section: "WELL LICENCES ISSUED".to_owned() });
    }
    let date_line = if d < n {
        Some(d)
    } else {
        None
    };
    if n - h <= 6 {
        return Ok(SectionBoundaries { date_line, data_start: n, data_end: n });
    }
    let start: usize = h + 6;
    let ghost rest = all.skip(start as int);
    let mut end: usize = start;
    while end < n && !licence_terminator(lines[end].as_str())
        invariant
            start <= end <= n,
            n == lines@.len(),
            all == views(lines@),
            rest == all.skip(start as int),
            forall|k: int| 0 <= k < end - start ==> !licence_terminator_pred()(#[trigger] rest[k]),
        decreases n - end,
    {
        proof {
            assert(rest[end - start] == all[end as int]);
        }
        end += 1;
    }
    proof {
        if end < n {
            assert(rest[end - start] == all[end as int]);
        }
        lemma_first_index(rest, licence_terminator_pred(), end - start);
    }
    Ok(SectionBoundaries { date_line, data_start: start, data_end: end })
}

/// The licences that the data lines describe: every five consecutive lines
/// make one, cut at fixed byte offsets, each value trimmed; lines left over
/// at the end make none. A cell whose offsets do not fit its line is empty.
pub fn extract_license(lines: Vec<String>, date: ReportDate) -> (r: Vec<License>)
    ensures
        r@.len() == lines@.len() / 5,
        rows_of(r@) == licence_rows(date.iso_text(), views(lines@)),
        forall|k: int|
            0 <= k < r@.len() ==> (#[trigger] r@[k]).fields() == licence_fields(
                date.iso_text(),
                lines@[5 * k]@,
                lines@[5 * k + 1]@,
                lines@[5 * k + 2]@,
                lines@[5 * k + 3]@,
                lines@[5 * k + 4]@,
            ),
{
    let n = lines.len();
    let count: usize = n / 5;
    let mut out: Vec<License> = Vec::new();
    let mut k: usize = 0;
    while k < count
        invariant
            k <= count,
            count == n / 5,
            n == lines@.len(),
            out@.len() == k,
            forall|j: int|
                0 <= j < k ==> (#[trigger] out@[j]).fields() == licence_fields(
                    date.iso_text(),
                    lines@[5 * j]@,
                    lines@[5 * j + 1]@,
                    lines@[5 * j + 2]@,
                    lines@[5 * j + 3]@,
                    lines@[5 * j + 4]@,
                ),
        decreases count - k,
    {
        let base: usize = 5 * k;
        let line0 = lines[base].as_str();
        let line1 = lines[base + 1].as_str();
        let line2 = lines[base + 2].as_str();
        let line3 = lines[base + 3].as_str();
        let line4 = lines[base + 4].as_str();
        let licence = License {
            date: date.to_string(),
            well_name: cell_of(line0, 0, 37),
            licence_number: cell_of(line0, 37, 47),
            mineral_rights: cell_of(line0, 47, 68),
            ground_elevation: tail_cell_of(line0, 68),
            unique_identifier: cell_of(line1, 0, 37),
            surface_coordinates: cell_of(line1, 37, 47),
            aer_field_centre: cell_of(line1, 47, 68),
            projected_depth: tail_cell_of(line1, 68),
            aer_classification: cell_of(line2, 0, 37),
            field: cell_of(line2, 37, 68),
            terminating_zone: tail_cell_of(line2, 68),
            drilling_operation: cell_of(line3, 0, 37),
            well_purpose: cell_of(line3, 37, 47),
            well_type: cell_of(line3, 47, 68),
            substance: tail_cell_of(line3, 68),
            licensee: cell_of(line4, 0, 68),
            surface_location: tail_cell_of(line4, 68),
        };
        proof {
            assert(licence.fields() =~= licence_fields(
                date.iso_text(),
                lines@[5 * k]@,
                lines@[5 * k + 1]@,
                lines@[5 * k + 2]@,
                lines@[5 * k + 3]@,
                lines@[5 * k + 4]@,
            ));
        }
        out.push(licence);
        k += 1;
    }
    proof {
        assert(rows_of(out@) =~= licence_rows(date.iso_text(), views(lines@)));
    }
    out
}

/// The date and the licences of a well-licence bulletin, given its lines.
/// The lines are normalised; the date is read; the data lines of the block
/// of licences are taken and normalised; every five of them make a licence.
/// Without a date the error is a date error; with a date but without a
/// header line the section is missing. A bulletin without licences is no
/// error.
pub fn parse_report(lines: Vec<String>) -> (r: Result<ParsedDocument<License>, ParseError>)
    ensures
        match r {
            Ok(doc) => st1_parse(views(lines@)) matches Ok((ymd, data)) && doc.report_date.ymd()
                == ymd && doc.report_date.is_valid() && rows_of(doc.records@) == licence_rows(
                iso_of(ymd),
                data,
            ),
            Err(e) => st1_parse(views(lines@)) == Err::<((int, int, int), Seq<Seq<char>>), Seq<char>>(
                e.message(),
            ) && (st1_date(normalized(views(lines@))) is Err <==> e is DateParse) && (st1_date(
                normalized(views(lines@)),
            ) is Ok <==> e is MissingSection),
        },
{
    let norm = trim_and_remove_empty_lines(lines);
    let date = match extract_st1_date(norm.as_slice()) {
        Ok(d) => d,
        Err(details) => {
            return Err(ParseError::DateParse { details });
        },
    };
    let block = match extract_licences_lines(norm.as_slice()) {
        Ok(b) => b,
        Err(e) => {
            return Err(e);
        },
    };
    let data = trim_and_remove_empty_lines(block);
    let records = extract_license(data, date);
    Ok(ParsedDocument { report_date: date, records })
}

/// The path of the bulletin with the given stem in the given directory.
pub fn input_path(txt_input_dir: &str, filename_stem: &str) -> (r: String)
    ensures
        r@ == txt_input_dir@ + "/"@ + filename_stem@ + ".TXT"@,
{
    let mut out = txt_input_dir.to_owned();
    out.append("/");
    out.append(filename_stem);
    out.append(".TXT");
    out
}

/// `r` is what processing the given content gives: an error that carries
/// the description of what is missing; or the date and no file, where there
/// is no record; or the date and the CSV file of the records; or the error
/// of the `csv` crate, where it refuses a row.
pub open spec fn processed(content: Seq<char>, r: Result<ProcessedReport, AppError>) -> bool {
    match st1_parse(lines_of(content)) {
        Err(m) => r is Err && r->Err_0 is FileProcessing && r->Err_0.detail() == m,
        Ok((ymd, data)) => {
            let rows = licence_rows(iso_of(ymd), data);
            if rows.len() == 0 {
                r matches Ok(p) && p.date.ymd() == ymd && p.output is None
            } else {
                match csv_document(License::columns(), rows) {
                    Some(bytes) => r matches Ok(p) && p.date.ymd() == ymd && (
                    p.output matches Some(file) && file.file_name@ == csv_file_name(
                        p.date,
                        "WELLS"@,
                    ) && file.content@ == bytes),
                    None => r is Err && r->Err_0 is Csv,
                }
            }
        },
    }
}

/// What the content of a well-licence bulletin gives: its date, and the CSV
/// file of its licences under the prefix `WELLS`, if it has any. A bulletin
/// that cannot be parsed gives a file-processing error with the description
/// of what is missing, and no file.
pub fn process_file(content: &str) -> (r: Result<ProcessedReport, AppError>)
    ensures
        processed(content@, r),
{
    let lines = split_lines(content);
    let doc = match parse_report(lines) {
        Ok(d) => d,
        Err(e) => {
            return Err(e.into_app_error());
        },
    };
    match write_csv_records(doc.records.as_slice(), "WELLS", doc.report_date) {
        Ok(output) => Ok(ProcessedReport { date: doc.report_date, output }),
        Err(e) => Err(e),
    }
}


/// A bulletin in which no line holds the word `DATE` is not processed: the
/// outcome is the error of a date that cannot be read, and no file.
pub proof fn lemma_missing_date_line_is_a_date_error(
    content: Seq<char>,
    r: Result<ProcessedReport, AppError>,
)
    requires
        processed(content, r),
        st1_date_line(normalized(lines_of(content))) >= normalized(lines_of(content)).len(),
    ensures
        r is Err,
        r->Err_0 is FileProcessing,
        r->Err_0.detail() == "Failed to parse date from content: "@
            + "No date line found in file"@,
{
}

/// A bulletin whose block of licences holds fewer than five data lines is
/// processed without error and gives no file.
pub proof fn lemma_no_licence_no_file(content: Seq<char>, r: Result<ProcessedReport, AppError>)
    requires
        processed(content, r),
        st1_parse(lines_of(content)) matches Ok((ymd, data)) && data.len() < 5,
    ensures
        r matches Ok(p) && p.output is None,
{
}

/// Data lines that hold `n` whole stanzas of five lines, and fewer than
/// five lines more, make `n` licences.
pub proof fn lemma_one_licence_per_stanza(date: Seq<char>, data: Seq<Seq<char>>, n: int)
    requires
        0 <= n,
        5 * n <= data.len() < 5 * n + 5,
    ensures
        licence_rows(date, data).len() == n,
        forall|k: int|
            0 <= k < n ==> #[trigger] licence_rows(date, data)[k] == licence_fields(
                date,
                data[5 * k],
                data[5 * k + 1],
                data[5 * k + 2],
                data[5 * k + 3],
                data[5 * k + 4],
            ),
{
}

} // verus!
