//! Where each report format keeps its date, and how it is read.

use crate::date::{day_month_year, parse_day_month_year, ReportDate};
use crate::text::{
    byte_len, byte_slice_from, contains, first_index, get_bytes_from, has_substring, join, joined,
    lemma_first_index, split_whitespace, tokens, trim, trimmed, valid_byte_range, views,
};
use vstd::prelude::*;
use vstd::string::*;

verus! {

/// The outcome of reading a date: year, month and day, or the text of the
/// error.
pub type DateOutcome = Result<(int, int, int), Seq<char>>;

/// What the parse of the date text means for the extraction: the date, or
/// an error text that begins with `Failed to parse date: `.
pub open spec fn date_outcome(parsed: DateOutcome) -> DateOutcome {
    match parsed {
        Ok(d) => Ok(d),
        Err(e) => Err("Failed to parse date: "@ + e),
    }
}

/// The lines that hold the word `DATE`.
pub open spec fn date_line_pred() -> spec_fn(Seq<char>) -> bool {
    |l: Seq<char>| has_substring(l, "DATE"@)
}

/// Index of the first line that holds the word `DATE`; the number of lines
/// when there is none.
pub open spec fn st1_date_line(lines: Seq<Seq<char>>) -> int {
    first_index(lines, date_line_pred())
}

/// The date of a well-licence bulletin: the first line that holds `DATE`,
/// trimmed, read from its seventh byte on.
pub open spec fn st1_date(lines: Seq<Seq<char>>) -> DateOutcome {
    let i = st1_date_line(lines);
    if i >= lines.len() {
        Err("No date line found in file"@)
    } else {
        let line = trimmed(lines[i]);
        if !valid_byte_range(line, 6, byte_len(line)) {
            Err("Could not extract date string from line"@)
        } else {
            date_outcome(day_month_year(byte_slice_from(line, 6)))
        }
    }
}

/// Index of the first token of the date in the banner line.
pub const DATE_TOKEN_OFFSET: usize = 4;

/// Number of tokens that make the date: day, month name, year.
pub const DATE_TOKEN_COUNT: usize = 3;

/// The tokens of the date in the banner line: the fifth, sixth and seventh
/// token, as far as the line has them.
pub open spec fn date_tokens(all: Seq<Seq<char>>) -> Seq<Seq<char>> {
    if all.len() <= DATE_TOKEN_OFFSET {
        Seq::empty()
    } else if all.len() <= DATE_TOKEN_OFFSET + DATE_TOKEN_COUNT {
        all.subrange(DATE_TOKEN_OFFSET as int, all.len() as int)
    } else {
        all.subrange(DATE_TOKEN_OFFSET as int, DATE_TOKEN_OFFSET + DATE_TOKEN_COUNT)
    }
}

/// The text of the date in the banner line of a spud bulletin.
pub open spec fn st49_date_text(line: Seq<char>) -> Seq<char> {
    joined(date_tokens(tokens(line)), " "@)
}

/// The date of a spud bulletin: the tokens of the date on the second line,
/// joined by single spaces.
pub open spec fn st49_date(lines: Seq<Seq<char>>) -> DateOutcome {
    if lines.len() < 2 {
        Err("Date line not found"@)
    } else {
        date_outcome(day_month_year(st49_date_text(lines[1])))
    }
}

/// Whether the outcome `r` of an extraction is the outcome `expected`.
pub open spec fn is_outcome(r: Result<ReportDate, String>, expected: DateOutcome) -> bool {
    match r {
        Ok(d) => expected == Ok::<(int, int, int), Seq<char>>(d.ymd()),
        Err(e) => expected == Err::<(int, int, int), Seq<char>>(e@),
    }
}

/// Turns the parse of the date text into the outcome of the extraction: a
/// date stays, an error gets `Failed to parse date: ` in front of its text.
pub fn date_from_parse(parsed: Result<ReportDate, String>) -> (r: Result<ReportDate, String>)
    ensures
        match parsed {
            Ok(d) => r == Ok::<ReportDate, String>(d),
            Err(e) => r is Err && r->Err_0@ == "Failed to parse date: "@ + e@,
        },
{
    match parsed {
        Ok(d) => Ok(d),
        Err(e) => {
            let mut message = "Failed to parse date: ".to_owned();
            message.append(e.as_str());
            Err(message)
        },
    }
}

/// The date of a well-licence bulletin. It stands on the first line that
/// holds the word `DATE`, from the seventh byte of the trimmed line on, as
/// day, month name and year.
pub fn extract_st1_date(lines: &[String]) -> (r: Result<ReportDate, String>)
    ensures
        is_outcome(r, st1_date(views(lines@))),
        r is Ok ==> r->Ok_0.is_valid(),
{
    let n = lines.len();
    let ghost all = views(lines@);
    let mut i: usize = 0;
    while i < n && !contains(lines[i].as_str(), "DATE")
        invariant
            i <= n,
            n == lines@.len(),
            all == views(lines@),
            forall|k: int| 0 <= k < i ==> !date_line_pred()(#[trigger] all[k]),
        decreases n - i,
    {
        i += 1;
    }
    proof {
        lemma_first_index(all, date_line_pred(), i as int);
    }
    if i == n {
        return Err("No date line found in file".to_owned());
    }
    let line = trim(lines[i].as_str());
    match get_bytes_from(line, 6) {
        None => Err("Could not extract date string from line".to_owned()),
        Some(text) => date_from_parse(parse_day_month_year(text)),
    }
}

/// The tokens of the date in the banner line, as far as the line has them.
pub fn take_date_tokens(all: &Vec<String>) -> (r: Vec<String>)
    ensures
        views(r@) == date_tokens(views(all@)),
{
    let n = all.len();
    let mut out: Vec<String> = Vec::new();
    if n <= DATE_TOKEN_OFFSET {
        proof {
            assert(views(out@) =~= Seq::<Seq<char>>::empty());
        }
        return out;
    }
    let stop: usize = if n <= DATE_TOKEN_OFFSET + DATE_TOKEN_COUNT {
        n
    } else {
        DATE_TOKEN_OFFSET + DATE_TOKEN_COUNT
    };
    let mut i: usize = DATE_TOKEN_OFFSET;
    proof {
        assert(views(out@) =~= views(all@).subrange(DATE_TOKEN_OFFSET as int, i as int));
    }
    while i < stop
        invariant
            DATE_TOKEN_OFFSET <= i <= stop <= n,
            n == all@.len(),
            views(out@) == views(all@).subrange(DATE_TOKEN_OFFSET as int, i as int),
        decreases stop - i,
    {
        let token = all[i].clone();
        proof {
            assert(views(out@.push(token)) =~= views(out@).push(token@));
            assert(views(all@).subrange(DATE_TOKEN_OFFSET as int, i + 1) =~= views(all@).subrange(
                DATE_TOKEN_OFFSET as int,
                i as int,
            ).push(token@));
        }
        out.push(token);
        i += 1;
    }
    out
}

/// The date of a spud bulletin. It stands on the second line, after the
/// four words of the banner, as three tokens: day, month name and year.
pub fn extract_st49_date(lines: &[String]) -> (r: Result<ReportDate, String>)
    ensures
        is_outcome(r, st49_date(views(lines@))),
        r is Ok ==> r->Ok_0.is_valid(),
{
    if lines.len() < 2 {
        return Err("Date line not found".to_owned());
    }
    let all = split_whitespace(lines[1].as_str());
    let picked = take_date_tokens(&all);
    let text = join(&picked, " ");
    date_from_parse(parse_day_month_year(text.as_str()))
}

} // verus!
