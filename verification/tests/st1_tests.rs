//! Well-licence bulletins, from single lines to a whole file.

use aer_st1::date::ReportDate;
use aer_st1::parsers::common::CsvRecord;
use aer_st1::parsers::error::ParseError;
use aer_st1::st1::{
    extract_licences_lines, extract_license, input_path, licence_data, licence_header,
    licence_terminator, locate_sections, parse_report, process_file, License, SectionBoundaries,
};
use aer_st1::AppError;

const RULE: &str =
    "--------------------------------------------------------------------------------------------";

fn four(a: &str, b: &str, c: &str, d: &str) -> String {
    format!("{:<37}{:<10}{:<21}{}", a, b, c, d)
}

fn three(a: &str, b: &str, c: &str) -> String {
    format!("{:<37}{:<31}{}", a, b, c)
}

fn two(a: &str, b: &str) -> String {
    format!("{:<68}{}", a, b)
}

fn stanza(n: u32) -> Vec<String> {
    vec![
        four(&format!("WELL {}", n), &format!("12345{}", n), "FREEHOLD", "1000.5M"),
        four(&format!("UID-00{}", n), "S 10.0M", "CALGARY", "3000.0M"),
        three("NEW (NC)", "FIELD-A", "BANFF"),
        four("HORIZONTAL", "PRODUCT", "GAS WELL", "GAS"),
        two(&format!("COMPANY {}, LTD", n), "12-34-056-01W4"),
    ]
}

fn bulletin(stanzas: u32, date_line: &str) -> String {
    let mut lines: Vec<String> = vec![
        "ALBERTA ENERGY REGULATOR".to_string(),
        "  DAILY WELL LICENCES LIST  ".to_string(),
        date_line.to_string(),
        "".to_string(),
        "WELL LICENCES ISSUED".to_string(),
        RULE.to_string(),
        "WELL NAME                           LICENCE NUMBER  MINERAL RIGHTS              GROUND ELEV".to_string(),
        "UNIQUE IDENTIFIER                   SURFACE COORD   AER FIELD CENTRE            PROJECTED DEPTH".to_string(),
        "AER CLASSIFICATION                  FIELD           TERMINATING ZONE".to_string(),
        "DRILLING OPERATION                  WELL PURPOSE    WELL TYPE       SUBSTANCE".to_string(),
        "LICENSEE                            SURFACE LOCATION".to_string(),
        RULE.to_string(),
    ];
    let mut n = 1;
    while n <= stanzas {
        lines.extend(stanza(n));
        lines.push("   ".to_string());
        n += 1;
    }
    lines.push(RULE.to_string());
    lines.push("END OF WELL LICENCES DAILY LIST".to_string());
    lines.join("\r\n")
}

fn first_licence() -> License {
    License {
        date: "2024-01-02".to_string(),
        well_name: "WELL 1".to_string(),
        licence_number: "123451".to_string(),
        mineral_rights: "FREEHOLD".to_string(),
        ground_elevation: "1000.5M".to_string(),
        unique_identifier: "UID-001".to_string(),
        surface_coordinates: "S 10.0M".to_string(),
        aer_field_centre: "CALGARY".to_string(),
        projected_depth: "3000.0M".to_string(),
        aer_classification: "NEW (NC)".to_string(),
        field: "FIELD-A".to_string(),
        terminating_zone: "BANFF".to_string(),
        drilling_operation: "HORIZONTAL".to_string(),
        well_purpose: "PRODUCT".to_string(),
        well_type: "GAS WELL".to_string(),
        substance: "GAS".to_string(),
        licensee: "COMPANY 1, LTD".to_string(),
        surface_location: "12-34-056-01W4".to_string(),
    }
}

#[test]
fn licence_lines_are_told_apart() {
    assert!(licence_header("WELL NAME                           LICENCE NUMBER  MINERAL RIGHTS"));
    assert!(!licence_header("WELL NAME AND U.I.D."));
    assert!(!licence_header("LICENCE NUMBER"));
    assert!(licence_terminator("WELL LICENCES UPDATED"));
    assert!(licence_terminator("   WELL LICENCES CANCELLED   "));
    assert!(licence_terminator("AMENDMENTS OF WELL LICENCES"));
    assert!(licence_terminator("-------------------- END OF WELL LICENCES DAILY LIST"));
    assert!(!licence_terminator("WELL LICENCES ISSUED"));
    assert!(licence_data("WELL 1                              123456          FREEHOLD"));
    assert!(!licence_data(RULE));
    assert!(!licence_data("                    "));
    assert!(!licence_data("exactly twenty bytes"));
    assert!(licence_data("exactly 21 bytes long"));
    assert!(!licence_data("TOTAL WELL LICENCES ISSUED: 12"));
    assert!(!licence_data("PAGE 2 OF THE DAILY LIST OF LICENCES"));
    assert!(!licence_data("WELL NAME AND U.I.D.     LICENCE NUMBER"));
}

#[test]
fn licence_five_lines_make_one_licence() {
    let date = ReportDate::from_ymd_opt(2024, 1, 2).unwrap();
    let licences = extract_license(stanza(1), date);
    assert_eq!(licences, vec![first_licence()]);
}

#[test]
fn licence_lines_left_over_make_no_licence() {
    let date = ReportDate::from_ymd_opt(2024, 1, 2).unwrap();
    let mut lines = stanza(1);
    lines.extend(stanza(2));
    lines.extend(stanza(3).into_iter().take(4));
    let licences = extract_license(lines, date);
    assert_eq!(licences.len(), 2);
    assert_eq!(licences[0].well_name, "WELL 1");
    assert_eq!(licences[1].well_name, "WELL 2");
    assert_eq!(licences[1].licensee, "COMPANY 2, LTD");
    assert_eq!(extract_license(stanza(1).into_iter().take(4).collect(), date), vec![]);
    assert_eq!(extract_license(vec![], date), vec![]);
}

#[test]
fn licence_a_cell_that_does_not_fit_its_line_is_empty() {
    let date = ReportDate::from_ymd_opt(2024, 1, 2).unwrap();
    let lines = vec![
        "WELL 1".to_string(),
        four("UID-001", "S 10.0M", "", ""),
        "ÉÉÉÉÉÉÉÉÉÉÉÉÉÉÉÉÉÉé and more".to_string(),
        four("HORIZONTAL", "PRODUCT", "GAS WELL", ""),
        two("COMPANY", ""),
    ];
    let licences = extract_license(lines, date);
    assert_eq!(licences.len(), 1);
    let licence = &licences[0];
    assert_eq!(licence.well_name, "");
    assert_eq!(licence.licence_number, "");
    assert_eq!(licence.ground_elevation, "");
    assert_eq!(licence.unique_identifier, "UID-001");
    assert_eq!(licence.surface_coordinates, "S 10.0M");
    assert_eq!(licence.aer_field_centre, "");
    assert_eq!(licence.projected_depth, "");
    assert_eq!(licence.aer_classification, "");
    assert_eq!(licence.field, "");
    assert_eq!(licence.drilling_operation, "HORIZONTAL");
    assert_eq!(licence.well_type, "GAS WELL");
    assert_eq!(licence.substance, "");
    assert_eq!(licence.licensee, "COMPANY");
    assert_eq!(licence.surface_location, "");
}

#[test]
fn licence_the_block_of_licences_is_located() {
    let content = bulletin(2, "DATE: 02 January 2024");
    let lines: Vec<String> = content.lines().map(|l| l.trim().to_string()).filter(|l| !l.is_empty()).collect();
    let block = extract_licences_lines(&lines).unwrap();
    let mut expected = stanza(1);
    expected.extend(stanza(2));
    assert_eq!(block, expected);
}

#[test]
fn licence_the_block_ends_at_the_end_of_the_input_without_a_terminator() {
    let mut lines = vec!["WELL NAME   LICENCE NUMBER".to_string()];
    for _ in 0..5 {
        lines.push("skipped".to_string());
    }
    lines.extend(stanza(1));
    assert_eq!(extract_licences_lines(&lines).unwrap(), stanza(1));
    let short = vec!["WELL NAME   LICENCE NUMBER".to_string(), "one".to_string()];
    assert_eq!(extract_licences_lines(&short).unwrap(), Vec::<String>::new());
    let exact: Vec<String> = lines.iter().take(6).cloned().collect();
    assert_eq!(extract_licences_lines(&exact).unwrap(), Vec::<String>::new());
}

#[test]
fn licence_a_whole_bulletin_is_parsed() {
    let content = bulletin(3, "DATE: 02 January 2024");
    let lines: Vec<String> = content.lines().map(|l| l.to_string()).collect();
    let document = parse_report(lines).unwrap();
    assert_eq!(document.report_date, ReportDate::from_ymd_opt(2024, 1, 2).unwrap());
    assert_eq!(document.records.len(), 3);
    assert_eq!(document.records[0], first_licence());
    assert_eq!(document.records[2].well_name, "WELL 3");
    for record in &document.records {
        assert_eq!(record.to_row().len(), License::column_names().len());
    }
}

#[test]
fn licence_a_bulletin_becomes_a_csv_file() {
    let processed = process_file(&bulletin(2, "DATE: 02 January 2024")).unwrap();
    assert_eq!(processed.date, ReportDate::from_ymd_opt(2024, 1, 2).unwrap());
    let file = processed.output.unwrap();
    assert_eq!(file.file_name, "20240102_WELLS.csv");
    let text = String::from_utf8(file.content).unwrap();
    let expected = "date,well_name,licence_number,mineral_rights,ground_elevation,\
unique_identifier,surface_coordinates,aer_field_centre,projected_depth,aer_classification,field,\
terminating_zone,drilling_operation,well_purpose,well_type,substance,licensee,surface_location\n\
2024-01-02,WELL 1,123451,FREEHOLD,1000.5M,UID-001,S 10.0M,CALGARY,3000.0M,NEW (NC),FIELD-A,BANFF,\
HORIZONTAL,PRODUCT,GAS WELL,GAS,\"COMPANY 1, LTD\",12-34-056-01W4\n\
2024-01-02,WELL 2,123452,FREEHOLD,1000.5M,UID-002,S 10.0M,CALGARY,3000.0M,NEW (NC),FIELD-A,BANFF,\
HORIZONTAL,PRODUCT,GAS WELL,GAS,\"COMPANY 2, LTD\",12-34-056-01W4\n";
    assert_eq!(text, expected);
}

#[test]
fn licence_a_bulletin_without_licences_gives_no_file_and_no_error() {
    let processed = process_file(&bulletin(0, "DATE: 02 January 2024")).unwrap();
    assert_eq!(processed.date, ReportDate::from_ymd_opt(2024, 1, 2).unwrap());
    assert_eq!(processed.output, None);
}

#[test]
fn licence_a_bulletin_without_a_date_line_fails_with_a_date_error() {
    let content = bulletin(2, "ISSUED ON THE SECOND OF JANUARY");
    let lines: Vec<String> = content.lines().map(|l| l.to_string()).collect();
    assert_eq!(
        parse_report(lines),
        Err(ParseError::DateParse { details: "No date line found in file".to_string() })
    );
    assert_eq!(
        process_file(&content),
        Err(AppError::FileProcessing(
            "Failed to parse date from content: No date line found in file".to_string()
        ))
    );
}

#[test]
fn licence_a_date_that_cannot_be_read_is_a_date_error() {
    let lines: Vec<String> =
        bulletin(1, "DATE: 32 January 2024").lines().map(|l| l.to_string()).collect();
    match parse_report(lines) {
        Err(ParseError::DateParse { details }) => {
            assert!(details.starts_with("Failed to parse date: "), "{}", details);
        }
        other => panic!("expected a date error, got {:?}", other),
    }
    let short: Vec<String> = vec!["DATE".to_string()];
    assert_eq!(
        parse_report(short),
        Err(ParseError::DateParse {
            details: "Could not extract date string from line".to_string()
        })
    );
}

#[test]
fn licence_a_bulletin_without_a_header_misses_its_section() {
    let content = "ALBERTA ENERGY REGULATOR\nDATE: 02 January 2024\n\nNO DATA SECTION HERE";
    let lines: Vec<String> = content.lines().map(|l| l.to_string()).collect();
    assert_eq!(
        parse_report(lines),
        Err(ParseError::MissingSection { section: "WELL LICENCES ISSUED".to_string() })
    );
    assert_eq!(
        process_file(content),
        Err(AppError::FileProcessing(
            "Missing required section: WELL LICENCES ISSUED".to_string()
        ))
    );
    assert!(process_file("").is_err());
}

#[test]
fn licence_the_path_of_a_bulletin_is_built() {
    assert_eq!(input_path("TXT", "WELLS0102"), "TXT/WELLS0102.TXT");
}

#[test]
fn licence_the_sections_are_located() {
    let content = bulletin(2, "DATE: 02 January 2024");
    let lines: Vec<String> =
        content.lines().map(|l| l.trim().to_string()).filter(|l| !l.is_empty()).collect();
    let found = locate_sections(&lines).unwrap();
    assert_eq!(found, SectionBoundaries { date_line: Some(2), data_start: 11, data_end: 22 });
    assert!(found.is_strictly_ordered());
    let empty: Vec<String> =
        bulletin(0, "no day").lines().map(|l| l.trim().to_string()).filter(|l| !l.is_empty()).collect();
    let found = locate_sections(&empty).unwrap();
    assert_eq!(found, SectionBoundaries { date_line: None, data_start: 11, data_end: 12 });
    assert!(!found.is_strictly_ordered());
    let short = vec!["DATE".to_string(), "WELL NAME   LICENCE NUMBER".to_string()];
    let found = locate_sections(&short).unwrap();
    assert_eq!(found, SectionBoundaries { date_line: Some(0), data_start: 2, data_end: 2 });
    assert!(!found.is_strictly_ordered());
    assert!(locate_sections(&[]).is_err());
}
