//! Line normalisation and the naming and rendering of CSV output.

pub mod date_utils;
pub mod error_utils;

use crate::date::ReportDate;
use crate::error::AppError;
use crate::text::{trim, trimmed, views};
use vstd::prelude::*;
use vstd::string::*;

verus! {

/// Makes the error type of the `csv` crate known; nothing is claimed of
/// its values.
#[verifier::external_type_specification]
#[verifier::external_body]
pub struct ExCsvError(csv::Error);

/// A record that can stand as one row of a CSV file.
pub trait CsvRecord {
    /// The names of the columns, in order.
    spec fn columns() -> Seq<Seq<char>>;

    /// The values of the record, in the order of the columns.
    spec fn values(&self) -> Seq<Seq<char>>;

    /// A record has one value for each column.
    proof fn lemma_one_value_per_column(&self)
        ensures
            self.values().len() == Self::columns().len(),
    ;

    /// The names of the columns, in order.
    fn column_names() -> (r: Vec<String>)
        ensures
            views(r@) == Self::columns(),
    ;

    /// The values of the record, in the order of the columns.
    fn to_row(&self) -> (r: Vec<String>)
        ensures
            views(r@) == self.values(),
    ;
}

/// What a report holds: its date and its records, in order.
#[derive(Debug, Clone, PartialEq, Eq)]
pub struct ParsedDocument<R> {
    pub report_date: ReportDate,
    pub records: Vec<R>,
}

/// What processing a report gives: its date, and the CSV file to write, if
/// the report holds any record.
#[derive(Debug, Clone, PartialEq, Eq)]
pub struct ProcessedReport {
    pub date: ReportDate,
    pub output: Option<CsvFile>,
}

/// A CSV file that is ready to be written: its name and its bytes.
#[derive(Debug, Clone, PartialEq, Eq)]
pub struct CsvFile {
    pub file_name: String,
    pub content: Vec<u8>,
}

/// The bytes that the `csv` crate writes for one record with the given
/// fields, terminator included; `None` where it reports an error.
pub uninterp spec fn csv_record_spec(fields: Seq<Seq<char>>) -> Option<Seq<u8>>;

/// The bytes of the given rows, one after the other; `None` where the
/// `csv` crate refuses one of them.
pub open spec fn csv_rows(rows: Seq<Seq<Seq<char>>>) -> Option<Seq<u8>>
    decreases rows.len(),
{
    if rows.len() == 0 {
        Some(Seq::empty())
    } else {
        match (csv_rows(rows.drop_last()), csv_record_spec(rows.last())) {
            (Some(before), Some(row)) => Some(before + row),
            _ => None,
        }
    }
}

/// The bytes of a CSV file with a header row and the given rows.
pub open spec fn csv_document(header: Seq<Seq<char>>, rows: Seq<Seq<Seq<char>>>) -> Option<
    Seq<u8>,
> {
    csv_rows(seq![header] + rows)
}

/// The name of the CSV file of a report: the date as `YYYYMMDD`, an
/// underscore, the prefix of the format, and `.csv`.
pub open spec fn csv_file_name(date: ReportDate, prefix: Seq<char>) -> Seq<char> {
    date.compact_text() + "_"@ + prefix + ".csv"@
}

/// The values of each record.
pub open spec fn rows_of<T: CsvRecord>(records: Seq<T>) -> Seq<Seq<Seq<char>>> {
    records.map_values(|t: T| t.values())
}

/// Writes one record into memory with a `csv::Writer` of default settings
/// (comma, quotes where needed, line feed) and hands back the bytes, or the
/// crate's error. What is written depends on the fields alone and is named
/// `csv_record_spec`.
#[verifier::external_body]
fn csv_encode_record(fields: &Vec<String>) -> (r: Result<Vec<u8>, csv::Error>)
    ensures
        r is Ok <==> csv_record_spec(views(fields@)) is Some,
        r is Ok ==> csv_record_spec(views(fields@)) == Some(r->Ok_0@),
{
    let mut buffer: Vec<u8> = Vec::new();
    {
        let mut writer = csv::Writer::from_writer(&mut buffer);
        writer.write_record(fields)?;
        writer.flush()?;
    }
    Ok(buffer)
}

/// Calls `to_string` on an error of the `csv` crate: its description.
#[verifier::external_body]
fn csv_error_text(error: &csv::Error) -> (r: String) {
    error.to_string()
}

/// Appends the bytes of `row` to `content`.
pub fn append_bytes(content: &mut Vec<u8>, row: &Vec<u8>)
    ensures
        final(content)@ == old(content)@ + row@,
{
    let n = row.len();
    let mut i: usize = 0;
    while i < n
        invariant
            i <= n,
            n == row@.len(),
            content@ == old(content)@ + row@.take(i as int),
        decreases n - i,
    {
        content.push(row[i]);
        proof {
            assert(row@.take(i + 1) =~= row@.take(i as int).push(row@[i as int]));
            assert(content@ =~= old(content)@ + row@.take(i + 1));
        }
        i += 1;
    }
    proof {
        assert(row@.take(n as int) =~= row@);
    }
}

/// The name of the CSV file of a report.
pub fn csv_file_name_of(date: ReportDate, prefix: &str) -> (r: String)
    ensures
        r@ == csv_file_name(date, prefix@),
{
    let mut out = date.to_compact_string();
    out.append("_");
    out.append(prefix);
    out.append(".csv");
    out
}

/// The CSV file of the given records: nothing where there are no records,
/// else the file named by date and prefix, with a header row and one row per
/// record, in order. Where the `csv` crate refuses a row, its error.
pub fn write_csv_records<T: CsvRecord>(
    records: &[T],
    filename_prefix: &str,
    report_date: ReportDate,
) -> (r: Result<Option<CsvFile>, AppError>)
    ensures
        records@.len() == 0 ==> r == Ok::<Option<CsvFile>, AppError>(None),
        records@.len() > 0 ==> match csv_document(T::columns(), rows_of(records@)) {
            Some(bytes) => r matches Ok(Some(file)) && file.file_name@ == csv_file_name(
                report_date,
                filename_prefix@,
            ) && file.content@ == bytes,
            None => r is Err && r->Err_0 is Csv,
        },
{
    let n = records.len();
    if n == 0 {
        return Ok(None);
    }
    let ghost rows = seq![T::columns()] + rows_of(records@);
    let mut content: Vec<u8> = Vec::new();
    let header = T::column_names();
    match csv_encode_record(&header) {
        Ok(bytes) => {
            append_bytes(&mut content, &bytes);
        },
        Err(e) => {
            proof {
                lemma_csv_rows_none(rows, 0);
            }
            return Err(AppError::Csv(csv_error_text(&e)));
        },
    }
    proof {
        assert(rows.take(1) =~= seq![T::columns()]);
        assert(rows.take(1).drop_last() =~= Seq::<Seq<Seq<char>>>::empty());
        reveal_with_fuel(csv_rows, 2);
        assert(content@ =~= Seq::<u8>::empty() + csv_record_spec(T::columns())->0);
    }
    let mut i: usize = 0;
    while i < n
        invariant
            i <= n,
            n == records@.len(),
            rows == seq![T::columns()] + rows_of(records@),
            csv_rows(rows.take(i + 1)) == Some(content@),
        decreases n - i,
    {
        let row = records[i].to_row();
        proof {
            assert(rows[i + 1] == records@[i as int].values());
            assert(rows.take(i + 2).drop_last() =~= rows.take(i + 1));
            assert(rows.take(i + 2).last() == rows[i + 1]);
        }
        match csv_encode_record(&row) {
            Ok(bytes) => {
                append_bytes(&mut content, &bytes);
            },
            Err(e) => {
                proof {
                    lemma_csv_rows_none(rows, i + 1);
                }
                return Err(AppError::Csv(csv_error_text(&e)));
            },
        }
        i += 1;
    }
    proof {
        assert(rows.take(n + 1) =~= rows);
    }
    Ok(Some(CsvFile { file_name: csv_file_name_of(report_date, filename_prefix), content }))
}

/// Where the `csv` crate refuses one row, there are no bytes for the rows.
proof fn lemma_csv_rows_none(rows: Seq<Seq<Seq<char>>>, k: int)
    requires
        0 <= k < rows.len(),
        csv_record_spec(rows[k]) is None,
    ensures
        csv_rows(rows) is None,
    decreases rows.len(),
{
    if k < rows.len() - 1 {
        assert(rows.drop_last()[k] == rows[k]);
        lemma_csv_rows_none(rows.drop_last(), k);
    }
}

/// The lines that remain of `lines`: each one trimmed, the empty ones left
/// out, the others in their order.
pub open spec fn normalized(lines: Seq<Seq<char>>) -> Seq<Seq<char>> {
    lines.map_values(|l: Seq<char>| trimmed(l)).filter(|l: Seq<char>| l.len() > 0)
}

/// Trims every line and drops those that are empty afterwards.
pub fn trim_and_remove_empty_lines(lines: Vec<String>) -> (r: Vec<String>)
    ensures
        views(r@) == normalized(views(lines@)),
{
    let mut out: Vec<String> = Vec::new();
    let n = lines.len();
    let mut i: usize = 0;
    proof {
        assert(views(lines@).take(0) =~= Seq::<Seq<char>>::empty());
        reveal_with_fuel(Seq::filter, 1);
        assert(views(out@) =~= normalized(views(lines@).take(0)));
    }
    while i < n
        invariant
            i <= n,
            n == lines@.len(),
            views(out@) == normalized(views(lines@).take(i as int)),
        decreases n - i,
    {
        let t = trim(lines[i].as_str());
        proof {
            let all = views(lines@);
            let before = all.take(i as int);
            let now = all.take(i + 1);
            let f = |l: Seq<char>| trimmed(l);
            let keep = |l: Seq<char>| l.len() > 0;
            assert(now =~= before.push(all[i as int]));
            assert(now.map_values(f) =~= before.map_values(f).push(t@));
            assert(now.map_values(f).drop_last() =~= before.map_values(f));
            reveal_with_fuel(Seq::filter, 1);
            assert(now.map_values(f).filter(keep) == if keep(t@) {
                before.map_values(f).filter(keep).push(t@)
            } else {
                before.map_values(f).filter(keep)
            });
        }
        if t.unicode_len() > 0 {
            let owned = t.to_owned();
            proof {
                assert(views(out@.push(owned)) =~= views(out@).push(owned@));
            }
            out.push(owned);
        }
        i += 1;
    }
    proof {
        assert(views(lines@).take(n as int) =~= views(lines@));
    }
    out
}

} // verus!
