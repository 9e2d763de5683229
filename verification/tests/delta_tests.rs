//! The schema, the log of loaded files, and the decisions of a batch load.

use aer_st1::delta::{
    get_schema, load_csv_to_delta, load_csvs_to_delta, log_loaded_csv, plan_load, read_load_log,
    select_unprocessed, CsvRead, DeltaReportType, LoadLog, LogEntry, ProcessedSet,
};
use aer_st1::AppError;

fn entry(path: &str, time: &str) -> Option<LogEntry> {
    Some(LogEntry { csv_file: path.to_string(), timestamp: time.to_string() })
}

fn read(path: &str, rows: Option<usize>) -> CsvRead {
    CsvRead { path: path.to_string(), rows }
}

fn outcome(path: &str) -> Option<usize> {
    match path {
        "/csv/a.csv" => Some(3),
        "/csv/b.csv" => None,
        "/csv/c.csv" => Some(0),
        "/csv/d.csv" => Some(5),
        _ => None,
    }
}

fn run(log: &mut LoadLog, candidates: &[String], time: &str) -> Result<usize, AppError> {
    let processed = read_load_log(log);
    let pending = select_unprocessed(candidates, &processed);
    let reads: Vec<CsvRead> = pending.iter().map(|p| read(p, outcome(p))).collect();
    load_csvs_to_delta(log, &reads, Ok(()), time)
}

#[test]
fn the_schema_has_the_columns_of_the_records() {
    let wells = get_schema(DeltaReportType::St1);
    let names: Vec<&str> = wells.iter().map(|f| f.name.as_str()).collect();
    assert_eq!(
        names,
        vec![
            "date",
            "well_name",
            "licence_number",
            "mineral_rights",
            "ground_elevation",
            "unique_identifier",
            "surface_coordinates",
            "aer_field_centre",
            "projected_depth",
            "aer_classification",
            "field",
            "terminating_zone",
            "drilling_operation",
            "well_purpose",
            "well_type",
            "substance",
            "licensee",
            "surface_location",
        ]
    );
    assert!(wells.iter().all(|f| f.nullable));
    let spuds = get_schema(DeltaReportType::St49);
    let names: Vec<&str> = spuds.iter().map(|f| f.name.as_str()).collect();
    assert_eq!(
        names,
        vec![
            "date",
            "well_id",
            "well_name",
            "licence",
            "contractor_ba_id",
            "contractor_name",
            "rig_number",
            "activity_date",
            "field_centre",
            "ba_id",
            "licensee",
            "new_projected_total_depth",
            "activity_type",
        ]
    );
    assert!(spuds.iter().all(|f| f.nullable));
}

#[test]
fn a_set_holds_each_path_once() {
    let mut set = ProcessedSet::new();
    assert_eq!(set.len(), 0);
    assert!(!set.contains("/csv/a.csv"));
    assert!(set.insert("/csv/a.csv".to_string()));
    assert!(!set.insert("/csv/a.csv".to_string()));
    assert!(set.insert("/csv/b.csv".to_string()));
    assert_eq!(set.len(), 2);
    assert!(set.contains("/csv/a.csv"));
    assert!(set.contains("/csv/b.csv"));
    assert!(!set.contains("/csv/"));
}

#[test]
fn no_log_is_an_empty_set() {
    let log: LoadLog = vec![];
    let set = read_load_log(&log);
    assert_eq!(set.len(), 0);
    assert!(!set.contains(""));
}

#[test]
fn a_line_that_cannot_be_understood_is_passed_over() {
    let log: LoadLog = vec![
        entry("/csv/a.csv", "2024-01-02T00:00:00+00:00"),
        None,
        entry("/csv/b.csv", "2024-01-03T00:00:00+00:00"),
        entry("/csv/a.csv", "2024-01-04T00:00:00+00:00"),
        None,
    ];
    let set = read_load_log(&log);
    assert_eq!(set.len(), 2);
    assert!(set.contains("/csv/a.csv"));
    assert!(set.contains("/csv/b.csv"));
    assert!(!set.contains("/csv/c.csv"));
}

#[test]
fn a_recorded_file_is_read_back() {
    let mut log: LoadLog = vec![None];
    log_loaded_csv(&mut log, "/csv/a.csv", "2024-01-02T10:00:00+00:00");
    assert_eq!(log, vec![None, entry("/csv/a.csv", "2024-01-02T10:00:00+00:00")]);
    assert!(read_load_log(&log).contains("/csv/a.csv"));
    assert!(!read_load_log(&log).contains("/csv/b.csv"));
    let first = log[1].clone();
    log_loaded_csv(&mut log, "/csv/b.csv", "2024-01-02T11:00:00+00:00");
    assert_eq!(log.len(), 3);
    assert_eq!(log[0], None);
    assert_eq!(log[1], first);
    assert_eq!(log[2], entry("/csv/b.csv", "2024-01-02T11:00:00+00:00"));
    let set = read_load_log(&log);
    assert!(set.contains("/csv/a.csv"));
    assert!(set.contains("/csv/b.csv"));
    assert_eq!(set.len(), 2);
}

#[test]
fn files_in_the_log_are_not_read_again() {
    let log: LoadLog = vec![entry("/csv/b.csv", "t")];
    let candidates: Vec<String> =
        ["/csv/a.csv", "/csv/b.csv", "/csv/c.csv", "/csv/a.csv"].iter().map(|p| p.to_string()).collect();
    let pending = select_unprocessed(&candidates, &read_load_log(&log));
    assert_eq!(pending, vec!["/csv/a.csv", "/csv/c.csv", "/csv/a.csv"]);
    assert_eq!(select_unprocessed(&[], &read_load_log(&log)), Vec::<String>::new());
}

#[test]
fn the_rows_of_the_files_that_could_be_read_make_the_batch() {
    let reads = vec![
        read("/csv/a.csv", Some(3)),
        read("/csv/b.csv", None),
        read("/csv/c.csv", Some(0)),
        read("/csv/d.csv", Some(5)),
    ];
    let plan = plan_load(&reads);
    assert_eq!(plan.total_rows, 8);
    assert_eq!(plan.contributors, vec!["/csv/a.csv", "/csv/d.csv"]);
    assert!(plan.needs_append());
    let nothing = plan_load(&[read("/csv/b.csv", None), read("/csv/c.csv", Some(0))]);
    assert_eq!(nothing.total_rows, 0);
    assert_eq!(nothing.contributors, Vec::<String>::new());
    assert!(!nothing.needs_append());
    assert!(!plan_load(&[]).needs_append());
}

#[test]
fn a_confirmed_append_is_logged_file_by_file() {
    let mut log: LoadLog = vec![entry("/csv/z.csv", "t0")];
    let reads = vec![
        read("/csv/a.csv", Some(3)),
        read("/csv/b.csv", None),
        read("/csv/c.csv", Some(0)),
        read("/csv/d.csv", Some(5)),
    ];
    assert_eq!(load_csvs_to_delta(&mut log, &reads, Ok(()), "t1"), Ok(8));
    assert_eq!(
        log,
        vec![entry("/csv/z.csv", "t0"), entry("/csv/a.csv", "t1"), entry("/csv/d.csv", "t1")]
    );
}

#[test]
fn a_failed_append_logs_nothing() {
    let mut log: LoadLog = vec![entry("/csv/z.csv", "t0")];
    let reads = vec![read("/csv/a.csv", Some(3)), read("/csv/d.csv", Some(5))];
    assert_eq!(
        load_csvs_to_delta(&mut log, &reads, Err("the table is gone".to_string()), "t1"),
        Err(AppError::Delta("the table is gone".to_string()))
    );
    assert_eq!(log, vec![entry("/csv/z.csv", "t0")]);
    assert_eq!(load_csvs_to_delta(&mut log, &reads, Ok(()), "t2"), Ok(8));
    assert_eq!(log.len(), 3);
}

#[test]
fn a_batch_without_rows_changes_nothing() {
    let mut log: LoadLog = vec![];
    let reads = vec![read("/csv/b.csv", None), read("/csv/c.csv", Some(0))];
    assert_eq!(load_csvs_to_delta(&mut log, &reads, Ok(()), "t1"), Ok(0));
    assert_eq!(load_csvs_to_delta(&mut log, &reads, Err("unused".to_string()), "t1"), Ok(0));
    assert_eq!(load_csvs_to_delta(&mut log, &[], Ok(()), "t1"), Ok(0));
    assert_eq!(log, vec![]);
}

#[test]
fn a_single_file_is_a_batch_of_one() {
    let mut log: LoadLog = vec![];
    assert_eq!(load_csv_to_delta(&mut log, read("/csv/a.csv", Some(3)), Ok(()), "t1"), Ok(3));
    assert_eq!(log, vec![entry("/csv/a.csv", "t1")]);
    assert_eq!(load_csv_to_delta(&mut log, read("/csv/b.csv", None), Ok(()), "t2"), Ok(0));
    assert_eq!(load_csv_to_delta(&mut log, read("/csv/c.csv", Some(0)), Ok(()), "t2"), Ok(0));
    assert_eq!(
        load_csv_to_delta(&mut log, read("/csv/d.csv", Some(5)), Err("no".to_string()), "t3"),
        Err(AppError::Delta("no".to_string()))
    );
    assert_eq!(log, vec![entry("/csv/a.csv", "t1")]);
}

#[test]
fn a_second_run_on_the_same_files_appends_nothing() {
    let candidates: Vec<String> = ["/csv/a.csv", "/csv/b.csv", "/csv/c.csv", "/csv/d.csv"]
        .iter()
        .map(|p| p.to_string())
        .collect();
    let mut log: LoadLog = vec![];
    assert_eq!(run(&mut log, &candidates, "t1"), Ok(8));
    assert_eq!(log, vec![entry("/csv/a.csv", "t1"), entry("/csv/d.csv", "t1")]);
    assert_eq!(run(&mut log, &candidates, "t2"), Ok(0));
    assert_eq!(log, vec![entry("/csv/a.csv", "t1"), entry("/csv/d.csv", "t1")]);
}
