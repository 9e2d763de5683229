//! The text primitives, held against the standard library.

use aer_st1::text::{
    contains, decimal_string, ends_with, get_bytes, get_bytes_from, is_whitespace, join,
    remove_all, slice_bytes, slice_bytes_from, split_lines, split_whitespace, starts_with, trim,
    utf8_len, utf8_width, zero_padded_string,
};

fn samples() -> Vec<&'static str> {
    vec![
        "",
        " ",
        "a",
        "  Hello  ",
        "\t\ttabbed line\r",
        "WELL 1                              123456          FREEHOLD",
        "DATE: 02 January 2024",
        "\u{a0}non-breaking\u{a0}space\u{a0}",
        "\u{3000}wide\u{2003}spaces\u{3000}",
        "naïve café — ünïcödé",
        "line one\nline two\r\nline three\n",
        "\n\nleading\n\ntrailing\r",
        "ends with cr\r\n\r\n",
        "a\u{85}b\u{1680}c\u{2028}d\u{2029}e\u{202f}f\u{205f}g",
        "------    ------    ------",
        "  x  y\t z ",
    ]
}

#[test]
fn whitespace_is_what_the_standard_library_says() {
    let mut c: u32 = 0;
    while c <= 0x10FFFF {
        if let Some(ch) = char::from_u32(c) {
            assert_eq!(is_whitespace(ch), ch.is_whitespace(), "character {:x}", c);
            assert_eq!(utf8_width(ch), ch.len_utf8(), "character {:x}", c);
        }
        c += 1;
    }
}

#[test]
fn trim_agrees_with_the_standard_library() {
    for s in samples() {
        assert_eq!(trim(s), s.trim());
    }
    assert_eq!(trim("  Hello  "), "Hello");
    assert_eq!(trim("   "), "");
}

#[test]
fn search_agrees_with_the_standard_library() {
    let needles = vec!["", "a", "DATE", "WELL", "  ", "é", "------", "line", "\n", "zzz"];
    for s in samples() {
        for n in &needles {
            assert_eq!(contains(s, n), s.contains(n), "{:?} in {:?}", n, s);
            assert_eq!(starts_with(s, n), s.starts_with(n), "{:?} starts {:?}", n, s);
            assert_eq!(ends_with(s, n), s.ends_with(n), "{:?} ends {:?}", n, s);
            assert_eq!(remove_all(s, n), s.replace(n, ""), "{:?} out of {:?}", n, s);
        }
    }
    assert!(contains("DATE: 02 January 2024", "DATE"));
    assert!(!contains("No date here", "DATE"));
    assert_eq!(remove_all("DATE: 02 January 2024", "DATE: "), "02 January 2024");
    assert_eq!(remove_all("aaa", "aa"), "a");
}

#[test]
fn byte_slices_agree_with_the_standard_library() {
    for s in samples() {
        assert_eq!(utf8_len(s), s.len());
        let mut a: usize = 0;
        while a <= s.len() + 2 {
            assert_eq!(get_bytes_from(s, a), s.get(a..));
            assert_eq!(slice_bytes_from(s, a), s.get(a..).unwrap_or(""));
            let mut b: usize = 0;
            while b <= s.len() + 2 {
                assert_eq!(get_bytes(s, a, b), s.get(a..b), "{:?} {} {}", s, a, b);
                assert_eq!(slice_bytes(s, a, b), s.get(a..b).unwrap_or(""));
                b += 1;
            }
            a += 1;
        }
    }
}

#[test]
fn a_slice_that_does_not_fit_is_empty() {
    assert_eq!(slice_bytes("short", 0, 37), "");
    assert_eq!(slice_bytes("short", 3, 2), "");
    assert_eq!(slice_bytes_from("short", 68), "");
    assert_eq!(slice_bytes_from("short", 5), "");
    assert_eq!(slice_bytes("naïve", 0, 3), "");
    assert_eq!(slice_bytes("naïve", 0, 4), "naï");
    assert_eq!(get_bytes("short", 5, 5), Some(""));
    assert_eq!(get_bytes("short", 0, 6), None);
}

#[test]
fn tokens_and_lines_agree_with_the_standard_library() {
    for s in samples() {
        let tokens: Vec<String> = s.split_whitespace().map(|t| t.to_string()).collect();
        assert_eq!(split_whitespace(s), tokens);
        let lines: Vec<String> = s.lines().map(|t| t.to_string()).collect();
        assert_eq!(split_lines(s), lines, "lines of {:?}", s);
    }
    assert_eq!(
        split_whitespace("AER DAILY SPUD REPORT 02 January 2024"),
        vec!["AER", "DAILY", "SPUD", "REPORT", "02", "January", "2024"]
    );
    assert_eq!(split_lines("a\r\nb\n\nc"), vec!["a", "b", "", "c"]);
}

#[test]
fn join_puts_the_separator_between_neighbours() {
    let none: Vec<String> = vec![];
    assert_eq!(join(&none, " "), "");
    assert_eq!(join(&vec!["02".to_string()], " "), "02");
    assert_eq!(
        join(&vec!["02".to_string(), "January".to_string(), "2024".to_string()], " "),
        "02 January 2024"
    );
}

#[test]
fn numbers_are_written_in_decimal() {
    assert_eq!(decimal_string(0), "0");
    assert_eq!(decimal_string(7), "7");
    assert_eq!(decimal_string(2024), "2024");
    assert_eq!(decimal_string(u64::MAX), "18446744073709551615");
    assert_eq!(zero_padded_string(1, 2), "01");
    assert_eq!(zero_padded_string(12, 2), "12");
    assert_eq!(zero_padded_string(123, 2), "123");
    assert_eq!(zero_padded_string(0, 4), "0000");
    assert_eq!(zero_padded_string(5, 0), "5");
    let mut n: u64 = 0;
    while n < 3000 {
        assert_eq!(decimal_string(n), n.to_string());
        assert_eq!(zero_padded_string(n, 4), format!("{:04}", n));
        n += 7;
    }
}
