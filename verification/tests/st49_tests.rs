//! Spud bulletins, from single lines to a whole file.

use aer_st1::date::ReportDate;
use aer_st1::parsers::common::CsvRecord;
use aer_st1::parsers::error::ParseError;
use aer_st1::st49::{
    closing_line, column_header_line, extract_data_and_separator, extract_spud_data,
    get_field_boundaries, input_path, parse_report, process_file, separator_line, spud_data_line,
    SpudData,
};
use aer_st1::AppError;

const WIDTHS: [usize; 12] = [8, 10, 7, 6, 12, 6, 10, 8, 6, 10, 6, 8];

fn rule() -> String {
    let groups: Vec<String> = WIDTHS.iter().map(|w| "-".repeat(*w)).collect();
    groups.join("  ")
}

fn row(values: [&str; 12]) -> String {
    let mut out = String::new();
    for (value, width) in values.iter().zip(WIDTHS.iter()) {
        out.push_str(&format!("{:<1$}", value, width + 2));
    }
    out.trim_end().to_string()
}

fn first_row() -> String {
    row([
        "W001", "WELL-A", "123456", "1001", "CONTRACTOR A", "RIG-01", "2024-01-01", "CALGARY",
        "2001", "COMPANY A", "3000.0", "SPUD",
    ])
}

fn second_row() -> String {
    row([
        "W002", "WELL-B", "123457", "1002", "CONTRACTOR B", "RIG-02", "2024-01-01", "RED DEER",
        "2002", "COMPANY, B", "2800.5", "RIG RELEASE ONE",
    ])
}

fn bulletin(rows: &[String], banner: &str) -> String {
    let mut lines = vec![
        "AER DAILY SPUD REPORT".to_string(),
        banner.to_string(),
        "".to_string(),
        "------".to_string(),
        "WELL ID   WELL NAME   LICENCE".to_string(),
        "Lines outside of a block are passed over".to_string(),
        rule(),
        "20 CONTRACTOR BA ID   CONTRACTOR NAME   RIG NUMBER".to_string(),
    ];
    for r in rows {
        lines.push(format!("{}   ", r));
    }
    lines.push("short".to_string());
    lines.push("AER DAILY SPUD REPORT continued on the next page".to_string());
    lines.push("Report Number: ST-49".to_string());
    lines.push("Run Date: 2024-01-02 and more text".to_string());
    lines.push("TOTAL  - 2".to_string());
    lines.join("\n")
}

fn first_record() -> SpudData {
    SpudData {
        date: "2024-01-02".to_string(),
        well_id: "W001".to_string(),
        well_name: "WELL-A".to_string(),
        licence: "123456".to_string(),
        contractor_ba_id: "1001".to_string(),
        contractor_name: "CONTRACTOR A".to_string(),
        rig_number: "RIG-01".to_string(),
        activity_date: "2024-01-01".to_string(),
        field_centre: "CALGARY".to_string(),
        ba_id: "2001".to_string(),
        licensee: "COMPANY A".to_string(),
        new_projected_total_depth: "3000.0".to_string(),
        activity_type: "SPUD".to_string(),
    }
}

#[test]
fn spud_lines_are_told_apart() {
    assert!(separator_line("------"));
    assert!(separator_line(&rule()));
    assert!(!separator_line("-----"));
    assert!(column_header_line("20 CONTRACTOR BA ID   CONTRACTOR NAME   RIG NUMBER"));
    assert!(!column_header_line("BA ID   NAME"));
    for line in [
        "Report Number: ST-49",
        "Run Date: 2024-01-02",
        "For the Notification Period 2024-01-01",
        "TOTAL  - 2",
        "WELL ID   WELL NAME",
        "PAGE 2",
    ] {
        assert!(closing_line(line), "{}", line);
    }
    assert!(!closing_line("TOTAL - 2"));
    assert!(!closing_line(&first_row()));
    assert!(spud_data_line(&first_row()));
    assert!(!spud_data_line("ten bytes!"));
    assert!(spud_data_line("eleven byte"));
    assert!(!spud_data_line("           "));
    assert!(!spud_data_line("AER DAILY SPUD REPORT 02 January 2024"));
}

#[test]
fn spud_a_rule_of_dashes_gives_the_columns() {
    assert_eq!(get_field_boundaries("------    ------    ------"), vec![(0, 6), (10, 16), (20, 26)]);
    assert_eq!(get_field_boundaries(""), vec![(0, 0)]);
    assert_eq!(get_field_boundaries("------"), vec![(0, 6)]);
    assert_eq!(get_field_boundaries("--- ---  "), vec![(0, 3), (4, 7), (9, 9)]);
    assert_eq!(get_field_boundaries("  ---"), vec![(2, 5)]);
    assert_eq!(get_field_boundaries("--\u{a0}--"), vec![(0, 2), (3, 6)]);
    let columns = get_field_boundaries(&rule());
    assert_eq!(columns.len(), 12);
    assert_eq!(columns[0], (0, 8));
    assert_eq!(columns[1], (10, 20));
    assert_eq!(columns[11], (rule().len() - 8, rule().len()));
}

#[test]
fn spud_the_columns_follow_the_scan_of_the_standard_library() {
    for separator in ["", " ", "a b", "------    ------", "\t--\t\t---  ", "é  é\u{3000}é", " x"] {
        let mut expected = Vec::new();
        let mut start = 0;
        for (i, c) in separator.char_indices() {
            if c.is_whitespace() {
                if i > start {
                    expected.push((start, i));
                }
                start = i + 1;
            }
        }
        expected.push((start, separator.len()));
        assert_eq!(get_field_boundaries(separator), expected, "{:?}", separator);
    }
}

#[test]
fn spud_every_data_line_makes_one_record() {
    let date = ReportDate::from_ymd_opt(2024, 1, 2).unwrap();
    let records = extract_spud_data(vec![first_row(), second_row()], date, &rule());
    assert_eq!(records.len(), 2);
    assert_eq!(records[0], first_record());
    assert_eq!(records[1].well_id, "W002");
    assert_eq!(records[1].field_centre, "RED DEER");
    assert_eq!(records[1].licensee, "COMPANY, B");
    assert_eq!(records[1].new_projected_total_depth, "2800.5");
    assert_eq!(records[1].activity_type, "RIG RELEASE ONE");
    assert_eq!(extract_spud_data(vec![], date, &rule()), vec![]);
}

#[test]
fn spud_the_columns_come_from_the_rule_alone() {
    let date = ReportDate::from_ymd_opt(2024, 1, 2).unwrap();
    let line = "AAAA BBBB CCCC DDDD".to_string();
    let narrow = extract_spud_data(vec![line.clone()], date, "---- ----");
    assert_eq!(narrow[0].well_id, "AAAA");
    assert_eq!(narrow[0].well_name, "BBBB");
    assert_eq!(narrow[0].licence, "");
    assert_eq!(narrow[0].activity_type, "");
    let wide = extract_spud_data(vec![line.clone()], date, "--------- ---------");
    assert_eq!(wide[0].well_id, "AAAA BBBB");
    assert_eq!(wide[0].well_name, "CCCC DDDD");
    let too_wide = extract_spud_data(vec![line], date, "------------------------");
    assert_eq!(too_wide[0].well_id, "");
    assert_eq!(too_wide[0].date, "2024-01-02");
}

#[test]
fn spud_what_follows_the_eleventh_column_is_the_activity() {
    let date = ReportDate::from_ymd_opt(2024, 1, 2).unwrap();
    let rule = "- - - - - - - - - - - -";
    let line = "a b c d e f g h i j k the rest of the line  ".to_string();
    let records = extract_spud_data(vec![line], date, rule);
    assert_eq!(records[0].well_id, "a");
    assert_eq!(records[0].new_projected_total_depth, "k");
    assert_eq!(records[0].activity_type, "the rest of the line");
}

#[test]
fn spud_data_lines_and_the_last_rule_are_found() {
    let content = bulletin(&[first_row(), second_row()], "AER DAILY SPUD REPORT 02 January 2024");
    let lines: Vec<String> = content.lines().map(|l| l.trim().to_string()).filter(|l| !l.is_empty()).collect();
    let (data, separator) = extract_data_and_separator(&lines).unwrap();
    assert_eq!(data, vec![first_row(), second_row()]);
    assert_eq!(separator, rule());
}

#[test]
fn spud_a_closed_block_is_opened_again_by_the_next_rule() {
    let lines: Vec<String> = vec![
        "------",
        "first data line",
        "PAGE 2",
        "not in a block, passed over",
        "---------   ---",
        "second data line",
    ]
    .into_iter()
    .map(|l| l.to_string())
    .collect();
    let (data, separator) = extract_data_and_separator(&lines).unwrap();
    assert_eq!(data, vec!["first data line", "second data line"]);
    assert_eq!(separator, "---------   ---");
}

#[test]
fn spud_without_a_rule_the_section_is_missing() {
    let lines = vec!["AER DAILY SPUD REPORT".to_string(), "no rule here".to_string()];
    assert_eq!(
        extract_data_and_separator(&lines),
        Err(ParseError::MissingSection { section: "separator line".to_string() })
    );
    assert_eq!(
        extract_data_and_separator(&[]),
        Err(ParseError::MissingSection { section: "separator line".to_string() })
    );
}

#[test]
fn spud_a_whole_bulletin_is_parsed() {
    let content = bulletin(&[first_row(), second_row()], "AER DAILY SPUD REPORT 02 January 2024");
    let lines: Vec<String> = content.lines().map(|l| l.to_string()).collect();
    let document = parse_report(lines).unwrap();
    assert_eq!(document.report_date, ReportDate::from_ymd_opt(2024, 1, 2).unwrap());
    assert_eq!(document.records.len(), 2);
    assert_eq!(document.records[0], first_record());
    for record in &document.records {
        assert_eq!(record.to_row().len(), SpudData::column_names().len());
    }
}

#[test]
fn spud_a_bulletin_becomes_a_csv_file() {
    let content = bulletin(&[first_row(), second_row()], "AER DAILY SPUD REPORT 02 January 2024");
    let processed = process_file(&content).unwrap();
    let file = processed.output.unwrap();
    assert_eq!(file.file_name, "20240102_SPUD.csv");
    let expected = "date,well_id,well_name,licence,contractor_ba_id,contractor_name,rig_number,\
activity_date,field_centre,ba_id,licensee,new_projected_total_depth,activity_type\n\
2024-01-02,W001,WELL-A,123456,1001,CONTRACTOR A,RIG-01,2024-01-01,CALGARY,2001,COMPANY A,3000.0,SPUD\n\
2024-01-02,W002,WELL-B,123457,1002,CONTRACTOR B,RIG-02,2024-01-01,RED DEER,2002,\"COMPANY, B\",2800.5,RIG RELEASE ONE\n";
    assert_eq!(String::from_utf8(file.content).unwrap(), expected);
}

#[test]
fn spud_a_bulletin_without_data_lines_gives_no_file_and_no_error() {
    let processed = process_file(&bulletin(&[], "AER DAILY SPUD REPORT 02 January 2024")).unwrap();
    assert_eq!(processed.date, ReportDate::from_ymd_opt(2024, 1, 2).unwrap());
    assert_eq!(processed.output, None);
}

#[test]
fn spud_a_bulletin_without_its_date_fails_with_a_date_error() {
    assert_eq!(
        parse_report(vec!["AER DAILY SPUD REPORT".to_string()]),
        Err(ParseError::DateParse { details: "Date line not found".to_string() })
    );
    assert_eq!(
        process_file("AER DAILY SPUD REPORT\n\n"),
        Err(AppError::FileProcessing(
            "Failed to parse date from content: Date line not found".to_string()
        ))
    );
    let content = bulletin(&[first_row()], "AER DAILY SPUD REPORT INVALID DATE");
    match parse_report(content.lines().map(|l| l.to_string()).collect()) {
        Err(ParseError::DateParse { details }) => {
            assert!(details.starts_with("Failed to parse date: "), "{}", details);
        }
        other => panic!("expected a date error, got {:?}", other),
    }
}

#[test]
fn spud_a_bulletin_without_a_rule_misses_its_section() {
    let content = "AER DAILY SPUD REPORT\nAER DAILY SPUD REPORT 02 January 2024\nno rule";
    assert_eq!(
        process_file(content),
        Err(AppError::FileProcessing("Missing required section: separator line".to_string()))
    );
}

#[test]
fn spud_the_path_of_a_bulletin_is_built() {
    assert_eq!(input_path("TXT", "SPUD0101"), "TXT/SPUD0101.txt");
}
