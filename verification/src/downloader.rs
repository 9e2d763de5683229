//! Where the bulletin of a day is found, and where it is kept.

use crate::date::ReportDate;
use crate::ReportType;
use vstd::prelude::*;
use vstd::string::*;

verus! {

/// Where to fetch a bulletin, where to keep it, and the month and day that
/// name it.
#[derive(Debug, Clone, PartialEq, Eq)]
pub struct DownloadTarget {
    pub url: String,
    pub file_path: String,
    pub filename_date: String,
}

/// The address of the bulletins of a format, up to the month and day.
pub open spec fn url_prefix(report_type: ReportType) -> Seq<char> {
    match report_type {
        ReportType::St1 => "https://static.aer.ca/prd/data/well-lic/WELLS"@,
        ReportType::St49 => "https://static.aer.ca/prd/data/wells/SPUD"@,
    }
}

/// The first part of the file name of the bulletins of a format.
pub open spec fn file_prefix(report_type: ReportType) -> Seq<char> {
    match report_type {
        ReportType::St1 => "WELLS"@,
        ReportType::St49 => "SPUD"@,
    }
}

/// The extension of the bulletins of a format.
pub open spec fn extension(report_type: ReportType) -> Seq<char> {
    match report_type {
        ReportType::St1 => "TXT"@,
        ReportType::St49 => "txt"@,
    }
}

/// A measure of dates that grows from each day to the next.
pub open spec fn rank(date: ReportDate) -> int {
    date.year * 372 + (date.month - 1) * 31 + date.day
}

/// The day that comes `k` days after `start`, if a date can hold it.
pub open spec fn day_after(start: ReportDate, k: nat) -> Option<ReportDate>
    decreases k,
{
    if k == 0 {
        Some(start)
    } else {
        match day_after(start, (k - 1) as nat) {
            Some(d) => d.next(),
            None => None,
        }
    }
}

/// `days` are the days from `start` to `end`, both included, in order: each
/// is the day after the one before it, none is later than `end`, and the day
/// after the last one is later than `end` or cannot be held.
pub open spec fn is_day_range(days: Seq<ReportDate>, start: ReportDate, end: ReportDate) -> bool {
    &&& forall|k: int|
        0 <= k < days.len() ==> day_after(start, k as nat) == Some(#[trigger] days[k])
            && !end.before(days[k])
    &&& match day_after(start, days.len()) {
        Some(d) => end.before(d),
        None => true,
    }
}

/// An earlier day has a smaller rank; days of equal rank are the same day.
proof fn lemma_rank_orders(a: ReportDate, b: ReportDate)
    requires
        a.is_valid(),
        b.is_valid(),
    ensures
        a.before(b) ==> rank(a) < rank(b),
        !b.before(a) ==> rank(a) <= rank(b),
{
}

/// `target` is where the bulletin of the given day and format is fetched
/// and kept: the address and the path end with the month and day, a dot and
/// the extension of the format; the path lies in the folder `TXT`.
pub open spec fn is_target(target: DownloadTarget, date: ReportDate, report_type: ReportType) -> bool {
    &&& target.filename_date@ == date.month_day_text()
    &&& target.url@ == url_prefix(report_type) + date.month_day_text() + "."@ + extension(
        report_type,
    )
    &&& target.file_path@ == "TXT/"@ + file_prefix(report_type) + date.month_day_text() + "."@
        + extension(report_type)
}

/// Where the bulletin of the given day and format is fetched and kept.
pub fn download_target(date: ReportDate, report_type: &ReportType) -> (r: DownloadTarget)
    ensures
        is_target(r, date, *report_type),
{
    let (address, name, ending) = match report_type {
        ReportType::St1 => ("https://static.aer.ca/prd/data/well-lic/WELLS", "WELLS", "TXT"),
        ReportType::St49 => ("https://static.aer.ca/prd/data/wells/SPUD", "SPUD", "txt"),
    };
    let filename_date = date.to_month_day_string();
    let mut url = address.to_owned();
    url.append(filename_date.as_str());
    url.append(".");
    url.append(ending);
    let mut file_path = "TXT/".to_owned();
    file_path.append(name);
    file_path.append(filename_date.as_str());
    file_path.append(".");
    file_path.append(ending);
    DownloadTarget { url, file_path, filename_date }
}

/// The days from `start_date` to `end_date`, both included, in order; none
/// where the end is before the start.
pub fn dates_in_range(start_date: ReportDate, end_date: ReportDate) -> (r: Vec<ReportDate>)
    requires
        start_date.is_valid(),
        end_date.is_valid(),
    ensures
        is_day_range(r@, start_date, end_date),
{
    let mut out: Vec<ReportDate> = Vec::new();
    let mut current = Some(start_date);
    loop
        invariant
            end_date.is_valid(),
            current == day_after(start_date, out@.len()),
            current is Some ==> current->0.is_valid(),
            forall|k: int|
                0 <= k < out@.len() ==> day_after(start_date, k as nat) == Some(#[trigger] out@[k])
                    && !end_date.before(out@[k]),
        ensures
            is_day_range(out@, start_date, end_date),
        decreases
                match current {
                    Some(d) => if end_date.before(d) {
                        1
                    } else {
                        rank(end_date) - rank(d) + 2
                    },
                    None => 0,
                },
    {
        match current {
            None => {
                break ;
            },
            Some(day) => {
                if day.is_after(&end_date) {
                    break ;
                }
                out.push(day);
                current = day.succ_opt();
                proof {
                    lemma_rank_orders(day, end_date);
                    if current is Some {
                        lemma_rank_orders(day, current->0);
                        lemma_rank_orders(current->0, end_date);
                    }
                }
            },
        }
    }
    out
}

/// The bulletins to fetch for the days from `start_date` to `end_date`, one
/// for each day, in order.
pub fn download_targets(
    report_type: ReportType,
    start_date: ReportDate,
    end_date: ReportDate,
) -> (r: Vec<DownloadTarget>)
    requires
        start_date.is_valid(),
        end_date.is_valid(),
    ensures
        exists|days: Seq<ReportDate>|
            #![auto]
            is_day_range(days, start_date, end_date) && days.len() == r@.len() && forall|k: int|
                0 <= k < r@.len() ==> is_target(#[trigger] r@[k], days[k], report_type),
{
    let days = dates_in_range(start_date, end_date);
    let n = days.len();
    let mut out: Vec<DownloadTarget> = Vec::new();
    let mut i: usize = 0;
    while i < n
        invariant
            i <= n,
            n == days@.len(),
            out@.len() == i,
            forall|k: int| 0 <= k < i ==> is_target(#[trigger] out@[k], days@[k], report_type),
        decreases n - i,
    {
        out.push(download_target(days[i], &report_type));
        i += 1;
    }
    out
}

/// The names of the bulletins that were fetched: of each target whose
/// download succeeded, the month and day, in order. A failed download leaves
/// its bulletin out and does not stop the others.
pub fn downloaded_files(targets: &[DownloadTarget], fetched: &[bool]) -> (r: Vec<String>)
    requires
        targets@.len() == fetched@.len(),
    ensures
        crate::text::views(r@) == fetched_names(targets@, fetched@),
{
    let n = targets.len();
    let mut out: Vec<String> = Vec::new();
    let mut i: usize = 0;
    proof {
        assert(crate::text::views(out@) =~= fetched_names(targets@.take(0), fetched@.take(0)));
    }
    while i < n
        invariant
            i <= n,
            n == targets@.len(),
            n == fetched@.len(),
            crate::text::views(out@) == fetched_names(
                targets@.take(i as int),
                fetched@.take(i as int),
            ),
        decreases n - i,
    {
        proof {
            assert(targets@.take(i + 1).drop_last() =~= targets@.take(i as int));
            assert(fetched@.take(i + 1).drop_last() =~= fetched@.take(i as int));
        }
        if fetched[i] {
            let name = targets[i].filename_date.clone();
            proof {
                assert(crate::text::views(out@.push(name)) =~= crate::text::views(out@).push(
                    name@,
                ));
            }
            out.push(name);
        }
        i += 1;
    }
    proof {
        assert(targets@.take(n as int) =~= targets@);
        assert(fetched@.take(n as int) =~= fetched@);
    }
    out
}

/// The month-and-day names of the targets that were fetched, in order.
pub open spec fn fetched_names(targets: Seq<DownloadTarget>, fetched: Seq<bool>) -> Seq<Seq<char>>
    decreases targets.len(),
{
    if targets.len() == 0 || fetched.len() != targets.len() {
        Seq::empty()
    } else if fetched.last() {
        fetched_names(targets.drop_last(), fetched.drop_last()).push(
            targets.last().filename_date@,
        )
    } else {
        fetched_names(targets.drop_last(), fetched.drop_last())
    }
}

} // verus!
