//! The load of CSV files into the target table: the schema of each format,
//! the log of the files already loaded, and the decisions of a batch load.
//! Reading files and talking to the table are left to the caller; what is
//! decided here is which files to read, whether to append, and what to log.

use crate::error::AppError;
use crate::parsers::common::CsvRecord;
use crate::st1::License;
use crate::st49::SpudData;
use crate::text::{same_text, views};
use vstd::prelude::*;
use vstd::string::*;

verus! {

/// The report formats that can be loaded.
#[derive(Copy, Clone, Debug, PartialEq, Eq, Structural)]
pub enum DeltaReportType {
    St1,
    St49,
}

/// A column of the target table: its name; every column holds text and may
/// be empty.
#[derive(Debug, Clone, PartialEq, Eq)]
pub struct SchemaField {
    pub name: String,
    pub nullable: bool,
}

/// One line of the log: a file that was loaded, and when.
#[derive(Debug, Clone, PartialEq, Eq)]
pub struct LogEntry {
    pub csv_file: String,
    pub timestamp: String,
}

/// The log of loaded files as it is read: one item per line, in order;
/// `None` stands for a line that could not be understood.
pub type LoadLog = Vec<Option<LogEntry>>;

/// What reading one CSV file gave: the number of its rows, or `None` where
/// it could not be read.
#[derive(Debug, Clone, PartialEq, Eq)]
pub struct CsvRead {
    pub path: String,
    pub rows: Option<usize>,
}

/// The names of the columns of a report format, in order.
pub open spec fn schema_columns(report_type: DeltaReportType) -> Seq<Seq<char>> {
    match report_type {
        DeltaReportType::St1 => License::columns(),
        DeltaReportType::St49 => SpudData::columns(),
    }
}

/// The names of the fields of a schema, in order.
pub open spec fn field_names(schema: Seq<SchemaField>) -> Seq<Seq<char>> {
    schema.map_values(|f: SchemaField| f.name@)
}

/// The paths that the lines of a log name.
pub open spec fn logged_paths(log: Seq<Option<LogEntry>>) -> Set<Seq<char>> {
    Set::new(
        |p: Seq<char>|
            exists|i: int| 0 <= i < log.len() && log[i] is Some && (#[trigger] log[i])->0.csv_file@ == p,
    )
}

/// The candidates that are not yet processed, in order.
pub open spec fn unprocessed(candidates: Seq<Seq<char>>, processed: Set<Seq<char>>) -> Seq<
    Seq<char>,
> {
    candidates.filter(|p: Seq<char>| !processed.contains(p))
}

/// A read as a pair of path and number of rows.
pub open spec fn read_view(read: CsvRead) -> (Seq<char>, Option<nat>) {
    (
        read.path@,
        match read.rows {
            Some(n) => Some(n as nat),
            None => None,
        },
    )
}

/// The reads as pairs of path and number of rows.
pub open spec fn read_views(reads: Seq<CsvRead>) -> Seq<(Seq<char>, Option<nat>)> {
    reads.map_values(|r: CsvRead| read_view(r))
}

/// The rows that one read adds to a batch.
pub open spec fn rows_read(read: (Seq<char>, Option<nat>)) -> nat {
    match read.1 {
        Some(n) => n,
        None => 0,
    }
}

/// The number of rows of the batch that the reads make together: a file
/// that could not be read adds none.
pub open spec fn total_rows(reads: Seq<(Seq<char>, Option<nat>)>) -> nat
    decreases reads.len(),
{
    if reads.len() == 0 {
        0
    } else {
        total_rows(reads.drop_last()) + rows_read(reads.last())
    }
}

/// The paths of the files that add at least one row to the batch, in order.
pub open spec fn contributors(reads: Seq<(Seq<char>, Option<nat>)>) -> Seq<Seq<char>>
    decreases reads.len(),
{
    if reads.len() == 0 {
        Seq::empty()
    } else if rows_read(reads.last()) > 0 {
        contributors(reads.drop_last()).push(reads.last().0)
    } else {
        contributors(reads.drop_last())
    }
}

/// The log `after` is the log `before` with one entry more for each of the
/// given paths, in order, all with the given timestamp.
pub open spec fn extends_log(
    after: Seq<Option<LogEntry>>,
    before: Seq<Option<LogEntry>>,
    paths: Seq<Seq<char>>,
    timestamp: Seq<char>,
) -> bool {
    &&& after.len() == before.len() + paths.len()
    &&& after.take(before.len() as int) == before
    &&& forall|i: int|
        0 <= i < paths.len() ==> (#[trigger] after[before.len() + i]) is Some && after[before.len()
            + i]->0.csv_file@ == paths[i] && after[before.len() + i]->0.timestamp@ == timestamp
}

/// The set of the paths of the files already loaded.
pub struct ProcessedSet {
    paths: Vec<String>,
}

impl View for ProcessedSet {
    type V = Set<Seq<char>>;

    closed spec fn view(&self) -> Set<Seq<char>> {
        views(self.paths@).to_set()
    }
}

impl ProcessedSet {
    /// No path is held twice.
    pub closed spec fn wf(&self) -> bool {
        views(self.paths@).no_duplicates()
    }

    /// The empty set.
    pub fn new() -> (r: ProcessedSet)
        ensures
            r.wf(),
            r@ == Set::<Seq<char>>::empty(),
    {
        let r = ProcessedSet { paths: Vec::new() };
        proof {
            assert(views(r.paths@) =~= Seq::<Seq<char>>::empty());
            assert(r@ =~= Set::<Seq<char>>::empty());
        }
        r
    }

    /// Whether `path` is in the set.
    pub fn contains(&self, path: &str) -> (r: bool)
        ensures
            r == self@.contains(path@),
    {
        let n = self.paths.len();
        let mut i: usize = 0;
        while i < n
            invariant
                i <= n,
                n == self.paths@.len(),
                forall|k: int| 0 <= k < i ==> #[trigger] views(self.paths@)[k] != path@,
            decreases n - i,
        {
            if same_text(self.paths[i].as_str(), path) {
                proof {
                    assert(views(self.paths@)[i as int] == path@);
                }
                return true;
            }
            i += 1;
        }
        false
    }

    /// Puts `path` into the set; tells whether it was new.
    pub fn insert(&mut self, path: String) -> (r: bool)
        requires
            old(self).wf(),
        ensures
            final(self).wf(),
            final(self)@ == old(self)@.insert(path@),
            r == !old(self)@.contains(path@),
    {
        if self.contains(path.as_str()) {
            proof {
                assert(self@.insert(path@) =~= self@);
            }
            return false;
        }
        proof {
            let before = views(self.paths@);
            assert(views(self.paths@.push(path)) =~= before.push(path@));
            assert(before.push(path@).to_set() =~= before.to_set().insert(path@)) by {
                assert forall|p: Seq<char>|
                    before.push(path@).to_set().contains(p) <==> before.to_set().insert(
                        path@,
                    ).contains(p) by {
                    if before.push(path@).contains(p) {
                        let i = choose|i: int|
                            0 <= i < before.push(path@).len() && before.push(path@)[i] == p;
                        if i < before.len() {
                            assert(before[i] == p);
                        }
                    }
                    if before.contains(p) {
                        let i = choose|i: int| 0 <= i < before.len() && before[i] == p;
                        assert(before.push(path@)[i] == p);
                    }
                    if p == path@ {
                        assert(before.push(path@)[before.len() as int] == p);
                    }
                }
            }
        }
        self.paths.push(path);
        true
    }

    /// Number of paths in the set.
    pub fn len(&self) -> (r: usize)
        requires
            self.wf(),
        ensures
            r == self@.len(),
    {
        proof {
            views(self.paths@).unique_seq_to_set();
        }
        self.paths.len()
    }
}

/// The columns of the target table of a report format: those of its
/// records, in order, each one text that may be empty.
pub fn get_schema(report_type: DeltaReportType) -> (r: Vec<SchemaField>)
    ensures
        field_names(r@) == schema_columns(report_type),
        forall|i: int| 0 <= i < r@.len() ==> (#[trigger] r@[i]).nullable,
{
    let names = match report_type {
        DeltaReportType::St1 => License::column_names(),
        DeltaReportType::St49 => SpudData::column_names(),
    };
    let n = names.len();
    let mut out: Vec<SchemaField> = Vec::new();
    let mut i: usize = 0;
    while i < n
        invariant
            i <= n,
            n == names@.len(),
            field_names(out@) == views(names@).take(i as int),
            forall|k: int| 0 <= k < out@.len() ==> (#[trigger] out@[k]).nullable,
        decreases n - i,
    {
        let field = SchemaField { name: names[i].clone(), nullable: true };
        proof {
            assert(field_names(out@.push(field)) =~= field_names(out@).push(field.name@));
            assert(views(names@).take(i + 1) =~= views(names@).take(i as int).push(names@[i as int]@));
        }
        out.push(field);
        i += 1;
    }
    proof {
        assert(views(names@).take(n as int) =~= views(names@));
    }
    out
}

/// The set of the files already loaded, from the lines of the log. A line
/// that could not be understood is passed over; no log at all is an empty
/// log.
pub fn read_load_log(log: &LoadLog) -> (r: ProcessedSet)
    ensures
        r.wf(),
        r@ == logged_paths(log@),
{
    let mut set = ProcessedSet::new();
    let n = log.len();
    let mut i: usize = 0;
    proof {
        assert(logged_paths(log@.take(0)) =~= Set::<Seq<char>>::empty());
    }
    while i < n
        invariant
            i <= n,
            n == log@.len(),
            set.wf(),
            set@ == logged_paths(log@.take(i as int)),
        decreases n - i,
    {
        proof {
            lemma_logged_paths_push(log@.take(i as int), log@[i as int]);
            assert(log@.take(i + 1) =~= log@.take(i as int).push(log@[i as int]));
        }
        match &log[i] {
            Some(entry) => {
                set.insert(entry.csv_file.clone());
            },
            None => {},
        }
        i += 1;
    }
    proof {
        assert(log@.take(n as int) =~= log@);
    }
    set
}

/// Adds to the log the entry of a file that was loaded. To be called only
/// once the table has confirmed the append of the file's rows.
pub fn log_loaded_csv(log: &mut LoadLog, csv_path: &str, timestamp: &str)
    ensures
        extends_log(final(log)@, old(log)@, seq![csv_path@], timestamp@),
{
    let entry = LogEntry { csv_file: csv_path.to_owned(), timestamp: timestamp.to_owned() };
    log.push(Some(entry));
    proof {
        assert(log@.take(old(log)@.len() as int) =~= old(log)@);
    }
}

/// What one more line adds to the paths of a log.
proof fn lemma_logged_paths_push(log: Seq<Option<LogEntry>>, line: Option<LogEntry>)
    ensures
        logged_paths(log.push(line)) == match line {
            Some(e) => logged_paths(log).insert(e.csv_file@),
            None => logged_paths(log),
        },
{
    let after = log.push(line);
    let expected = match line {
        Some(e) => logged_paths(log).insert(e.csv_file@),
        None => logged_paths(log),
    };
    assert forall|p: Seq<char>| logged_paths(after).contains(p) <==> expected.contains(p) by {
        if logged_paths(after).contains(p) {
            let i = choose|i: int|
                0 <= i < after.len() && after[i] is Some && (#[trigger] after[i])->0.csv_file@ == p;
            if i < log.len() {
                assert(log[i] is Some && log[i]->0.csv_file@ == p);
            }
        }
        if logged_paths(log).contains(p) {
            let i = choose|i: int|
                0 <= i < log.len() && log[i] is Some && (#[trigger] log[i])->0.csv_file@ == p;
            assert(after[i] is Some && after[i]->0.csv_file@ == p);
        }
        if line is Some && p == line->0.csv_file@ {
            assert(after[log.len() as int] is Some && after[log.len() as int]->0.csv_file@ == p);
        }
    }
    assert(logged_paths(after) =~= expected);
}


/// What a batch load is about to do: the number of rows of the batch, and
/// the files that add rows to it, in order.
#[derive(Debug, Clone, PartialEq, Eq)]
pub struct LoadPlan {
    pub total_rows: usize,
    pub contributors: Vec<String>,
}

impl LoadPlan {
    /// Whether the batch has to be appended to the table: it has a row.
    pub open spec fn must_append(self) -> bool {
        self.total_rows > 0
    }

    /// Whether the batch has to be appended to the table.
    pub fn needs_append(&self) -> (r: bool)
        ensures
            r == self.must_append(),
    {
        self.total_rows > 0
    }
}

/// The candidates that the log does not name yet, in order: the files that
/// a load has to read.
pub fn select_unprocessed(candidates: &[String], processed: &ProcessedSet) -> (r: Vec<String>)
    ensures
        views(r@) == unprocessed(views(candidates@), processed@),
{
    let n = candidates.len();
    let ghost all = views(candidates@);
    let ghost keep = |p: Seq<char>| !processed@.contains(p);
    let mut out: Vec<String> = Vec::new();
    let mut i: usize = 0;
    proof {
        reveal_with_fuel(Seq::filter, 1);
        assert(all.take(0) =~= Seq::<Seq<char>>::empty());
    }
    while i < n
        invariant
            i <= n,
            n == candidates@.len(),
            all == views(candidates@),
            keep == (|p: Seq<char>| !processed@.contains(p)),
            views(out@) == all.take(i as int).filter(keep),
        decreases n - i,
    {
        let known = processed.contains(candidates[i].as_str());
        proof {
            let before = all.take(i as int);
            let now = all.take(i + 1);
            assert(now =~= before.push(all[i as int]));
            assert(now.drop_last() =~= before);
            reveal_with_fuel(Seq::filter, 1);
        }
        if !known {
            let path = candidates[i].clone();
            proof {
                assert(views(out@.push(path)) =~= views(out@).push(path@));
            }
            out.push(path);
        }
        i += 1;
    }
    proof {
        assert(all.take(n as int) =~= all);
    }
    out
}

/// The plan of a batch load, from what reading the files gave: the rows of
/// all files that could be read make one batch; a file that could not be
/// read is left out and does not stop the others.
pub fn plan_load(reads: &[CsvRead]) -> (r: LoadPlan)
    requires
        total_rows(read_views(reads@)) <= usize::MAX,
    ensures
        r.total_rows == total_rows(read_views(reads@)),
        views(r.contributors@) == contributors(read_views(reads@)),
{
    let n = reads.len();
    let ghost all = read_views(reads@);
    let mut total: usize = 0;
    let mut files: Vec<String> = Vec::new();
    let mut i: usize = 0;
    proof {
        assert(all.take(0) =~= Seq::<(Seq<char>, Option<nat>)>::empty());
        assert(views(files@) =~= contributors(all.take(0)));
    }
    while i < n
        invariant
            i <= n,
            n == reads@.len(),
            all == read_views(reads@),
            total_rows(all) <= usize::MAX,
            total == total_rows(all.take(i as int)),
            views(files@) == contributors(all.take(i as int)),
        decreases n - i,
    {
        proof {
            let now = all.take(i + 1);
            assert(now.drop_last() =~= all.take(i as int));
            assert(now.last() == read_view(reads@[i as int]));
            lemma_total_rows_prefix(all, i + 1);
        }
        match reads[i].rows {
            Some(rows) => {
                total = total + rows;
                if rows > 0 {
                    let path = reads[i].path.clone();
                    proof {
                        assert(views(files@.push(path)) =~= views(files@).push(path@));
                    }
                    files.push(path);
                }
            },
            None => {},
        }
        i += 1;
    }
    proof {
        assert(all.take(n as int) =~= all);
    }
    LoadPlan { total_rows: total, contributors: files }
}

/// Ends a batch load. `reads` is what reading the files gave, and
/// `appended` is what the table answered to the append of the batch (it is
/// not looked at where the batch has no row, since nothing was appended).
/// After a confirmed append, every file that added rows gets its entry in
/// the log, in order, and the number of rows of the batch is handed back.
/// After a failed append the log is left as it was, and the error of the
/// table is handed back. A batch without rows changes nothing and gives 0.
pub fn load_csvs_to_delta(
    log: &mut LoadLog,
    reads: &[CsvRead],
    appended: Result<(), String>,
    timestamp: &str,
) -> (r: Result<usize, AppError>)
    requires
        total_rows(read_views(reads@)) <= usize::MAX,
    ensures
        total_rows(read_views(reads@)) == 0 ==> r == Ok::<usize, AppError>(0) && final(log)@ == old(
            log,
        )@,
        total_rows(read_views(reads@)) > 0 && appended is Ok ==> r == Ok::<usize, AppError>(
            total_rows(read_views(reads@)) as usize,
        ) && extends_log(
            final(log)@,
            old(log)@,
            contributors(read_views(reads@)),
            timestamp@,
        ),
        total_rows(read_views(reads@)) > 0 && appended is Err ==> final(log)@ == old(log)@ && (
        r matches Err(AppError::Delta(m)) && m@ == appended->Err_0@),
{
    let plan = plan_load(reads);
    if !plan.needs_append() {
        return Ok(0);
    }
    match appended {
        Err(m) => Err(AppError::Delta(m)),
        Ok(()) => {
            let n = plan.contributors.len();
            let ghost paths = views(plan.contributors@);
            let mut i: usize = 0;
            proof {
                assert(log@.take(old(log)@.len() as int) =~= old(log)@);
            }
            while i < n
                invariant
                    i <= n,
                    n == plan.contributors@.len(),
                    paths == views(plan.contributors@),
                    extends_log(log@, old(log)@, paths.take(i as int), timestamp@),
                decreases n - i,
            {
                let ghost before = log@;
                log_loaded_csv(log, plan.contributors[i].as_str(), timestamp);
                proof {
                    let base = old(log)@.len() as int;
                    let len = before.len() as int;
                    assert(len == base + i);
                    assert(log@.take(len) == before);
                    assert(log@.take(base) =~= before.take(base));
                    assert(log@[len + 0] is Some);
                    assert(seq![plan.contributors@[i as int]@][0] == paths[i as int]);
                    assert forall|k: int| 0 <= k < i + 1 implies (#[trigger] log@[base + k]) is Some
                        && log@[base + k]->0.csv_file@ == paths.take(i + 1)[k] && log@[base
                        + k]->0.timestamp@ == timestamp@ by {
                        if k < i {
                            assert(log@.take(len)[base + k] == log@[base + k]);
                            assert(before[base + k] is Some);
                            assert(paths.take(i as int)[k] == paths.take(i + 1)[k]);
                        } else {
                            assert(base + k == len + 0);
                        }
                    }
                }
                i += 1;
            }
            proof {
                assert(paths.take(n as int) =~= paths);
            }
            Ok(plan.total_rows)
        },
    }
}

/// Ends the load of a single file: `load_csvs_to_delta` for a batch of one.
pub fn load_csv_to_delta(
    log: &mut LoadLog,
    read: CsvRead,
    appended: Result<(), String>,
    timestamp: &str,
) -> (r: Result<usize, AppError>)
    ensures
        rows_read(read_view(read)) == 0 ==> r == Ok::<usize, AppError>(0) && final(log)@ == old(
            log,
        )@,
        rows_read(read_view(read)) > 0 && appended is Ok ==> r == Ok::<usize, AppError>(
            rows_read(read_view(read)) as usize,
        ) && extends_log(final(log)@, old(log)@, seq![read.path@], timestamp@),
        rows_read(read_view(read)) > 0 && appended is Err ==> final(log)@ == old(log)@ && (
        r matches Err(AppError::Delta(m)) && m@ == appended->Err_0@),
{
    let ghost view = read_view(read);
    let mut reads: Vec<CsvRead> = Vec::new();
    reads.push(read);
    proof {
        let all = read_views(reads@);
        assert(all =~= seq![view]);
        assert(all.drop_last() =~= Seq::<(Seq<char>, Option<nat>)>::empty());
        reveal_with_fuel(total_rows, 2);
        reveal_with_fuel(contributors, 2);
        assert(total_rows(all) == rows_read(view));
        if rows_read(view) > 0 {
            assert(contributors(all) =~= seq![read.path@]);
        }
    }
    load_csvs_to_delta(log, reads.as_slice(), appended, timestamp)
}

/// The rows of a prefix of the reads are no more than the rows of all.
proof fn lemma_total_rows_prefix(reads: Seq<(Seq<char>, Option<nat>)>, k: int)
    requires
        0 <= k <= reads.len(),
    ensures
        total_rows(reads.take(k)) <= total_rows(reads),
    decreases reads.len() - k,
{
    if k < reads.len() {
        lemma_total_rows_prefix(reads, k + 1);
        assert(reads.take(k + 1).drop_last() =~= reads.take(k));
    } else {
        assert(reads.take(k) =~= reads);
    }
}


/// What reading the given files gives, where `outcome` tells for each path
/// the number of rows of its file, or that it cannot be read.
pub open spec fn reads_of(paths: Seq<Seq<char>>, outcome: spec_fn(Seq<char>) -> Option<nat>) -> Seq<
    (Seq<char>, Option<nat>),
> {
    paths.map_values(|p: Seq<char>| (p, outcome(p)))
}

/// A log that was extended names every path that it was extended by, and
/// every path that it named before; its earlier lines stand as they were.
pub proof fn lemma_extended_log_names(
    after: Seq<Option<LogEntry>>,
    before: Seq<Option<LogEntry>>,
    paths: Seq<Seq<char>>,
    timestamp: Seq<char>,
)
    requires
        extends_log(after, before, paths, timestamp),
    ensures
        forall|i: int| 0 <= i < paths.len() ==> logged_paths(after).contains(#[trigger] paths[i]),
        logged_paths(before).subset_of(logged_paths(after)),
        forall|k: int| 0 <= k < before.len() ==> #[trigger] after[k] == before[k],
{
    let base = before.len() as int;
    assert forall|i: int| 0 <= i < paths.len() implies logged_paths(after).contains(
        #[trigger] paths[i],
    ) by {
        assert(after[base + i] is Some && after[base + i]->0.csv_file@ == paths[i]);
    }
    assert forall|k: int| 0 <= k < before.len() implies #[trigger] after[k] == before[k] by {
        assert(after.take(base)[k] == after[k]);
    }
    assert forall|p: Seq<char>| logged_paths(before).contains(p) implies logged_paths(
        after,
    ).contains(p) by {
        let i = choose|i: int|
            0 <= i < before.len() && before[i] is Some && (#[trigger] before[i])->0.csv_file@ == p;
        assert(after[i] == before[i]);
        assert(after[i] is Some && after[i]->0.csv_file@ == p);
    }
}

/// Once a loaded file is recorded, the set read from the log holds its
/// path, and holds every path that it held before.
pub proof fn lemma_recorded_file_is_read(
    before: Seq<Option<LogEntry>>,
    after: Seq<Option<LogEntry>>,
    path: Seq<char>,
    timestamp: Seq<char>,
)
    requires
        extends_log(after, before, seq![path], timestamp),
    ensures
        logged_paths(after).contains(path),
        logged_paths(before).subset_of(logged_paths(after)),
{
    lemma_extended_log_names(after, before, seq![path], timestamp);
    assert(seq![path][0] == path);
}

/// The log only grows at its end: recording a second file leaves the entry
/// of the first, and every line before it, as it was, and the set read from
/// the log then holds both paths.
pub proof fn lemma_second_record_keeps_first(
    start: Seq<Option<LogEntry>>,
    once: Seq<Option<LogEntry>>,
    twice: Seq<Option<LogEntry>>,
    first_path: Seq<char>,
    first_time: Seq<char>,
    second_path: Seq<char>,
    second_time: Seq<char>,
)
    requires
        extends_log(once, start, seq![first_path], first_time),
        extends_log(twice, once, seq![second_path], second_time),
    ensures
        twice.take(once.len() as int) == once,
        twice[start.len() as int] == once[start.len() as int],
        twice[start.len() as int] is Some,
        twice[start.len() as int]->0.csv_file@ == first_path,
        twice[start.len() as int]->0.timestamp@ == first_time,
        logged_paths(twice).contains(first_path),
        logged_paths(twice).contains(second_path),
{
    lemma_recorded_file_is_read(start, once, first_path, first_time);
    lemma_recorded_file_is_read(once, twice, second_path, second_time);
    lemma_extended_log_names(twice, once, seq![second_path], second_time);
    assert(once[start.len() as int + 0] is Some);
    assert(seq![first_path][0] == first_path);
}

/// A file that adds rows to the batch is among the contributors.
proof fn lemma_contributor(reads: Seq<(Seq<char>, Option<nat>)>, i: int)
    requires
        0 <= i < reads.len(),
        rows_read(reads[i]) > 0,
    ensures
        contributors(reads).contains(reads[i].0),
    decreases reads.len(),
{
    let rest = reads.drop_last();
    if i == reads.len() - 1 {
        assert(contributors(reads).last() == reads[i].0);
    } else {
        assert(rest[i] == reads[i]);
        lemma_contributor(rest, i);
        let j = choose|j: int|
            0 <= j < contributors(rest).len() && contributors(rest)[j] == reads[i].0;
        assert(contributors(reads)[j] == reads[i].0);
    }
}

/// Reads that add no rows make a batch without rows.
proof fn lemma_no_rows(reads: Seq<(Seq<char>, Option<nat>)>)
    requires
        forall|i: int| 0 <= i < reads.len() ==> rows_read(#[trigger] reads[i]) == 0,
    ensures
        total_rows(reads) == 0,
    decreases reads.len(),
{
    if reads.len() > 0 {
        let rest = reads.drop_last();
        assert forall|i: int| 0 <= i < rest.len() implies rows_read(#[trigger] rest[i]) == 0 by {
            assert(rest[i] == reads[i]);
        }
        lemma_no_rows(rest);
    }
}

/// A batch load that is run a second time on the same files appends
/// nothing. Let the first run read the candidates that `log` does not name,
/// and let `after` be the log once that run has recorded the files that
/// added rows (the log itself where the batch had no row). Then a second
/// run, in which every file reads as before, makes a batch without rows.
pub proof fn lemma_second_load_appends_nothing(
    candidates: Seq<Seq<char>>,
    log: Seq<Option<LogEntry>>,
    after: Seq<Option<LogEntry>>,
    outcome: spec_fn(Seq<char>) -> Option<nat>,
    timestamp: Seq<char>,
)
    requires
        extends_log(
            after,
            log,
            contributors(reads_of(unprocessed(candidates, logged_paths(log)), outcome)),
            timestamp,
        ),
    ensures
        total_rows(reads_of(unprocessed(candidates, logged_paths(after)), outcome)) == 0,
{
    let first_paths = unprocessed(candidates, logged_paths(log));
    let first = reads_of(first_paths, outcome);
    let second_paths = unprocessed(candidates, logged_paths(after));
    let second = reads_of(second_paths, outcome);
    let new_first = |p: Seq<char>| !logged_paths(log).contains(p);
    let new_second = |p: Seq<char>| !logged_paths(after).contains(p);
    lemma_extended_log_names(after, log, contributors(first), timestamp);
    assert forall|i: int| 0 <= i < second.len() implies rows_read(#[trigger] second[i]) == 0 by {
        let p = second_paths[i];
        candidates.lemma_filter_pred(new_second, i);
        assert(!logged_paths(after).contains(p));
        assert(candidates.filter(new_second).contains(p));
        candidates.lemma_filter_contains_rev(new_second, p);
        let c = choose|c: int| 0 <= c < candidates.len() && candidates[c] == p;
        assert(!logged_paths(log).contains(p));
        candidates.lemma_filter_contains(new_first, c);
        let j = choose|j: int| 0 <= j < first_paths.len() && first_paths[j] == p;
        assert(first[j] == (p, outcome(p)));
        if rows_read(first[j]) > 0 {
            lemma_contributor(first, j);
            let k = choose|k: int|
                0 <= k < contributors(first).len() && contributors(first)[k] == p;
            assert(logged_paths(after).contains(contributors(first)[k]));
        }
    }
    lemma_no_rows(second);
}

} // verus!
