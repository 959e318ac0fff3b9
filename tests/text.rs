use quote_bot::date::Date;
use quote_bot::text::{chars_of, format_attribution, normalize_author, normalize_quote};

#[test]
fn quote_is_trimmed_stripped_and_curly_quoted() {
    assert_eq!(normalize_quote("\"He said \"hi\"\""), "\u{201C}He said \"hi\"\u{201D}");
}

#[test]
fn quote_lines_run_together() {
    assert_eq!(normalize_quote("  first\nsecond\r\nthird \n"), "\u{201C}firstsecondthird\u{201D}");
}

#[test]
fn quote_marks_of_every_kind_are_stripped_once() {
    assert_eq!(normalize_quote("'single'"), "\u{201C}single\u{201D}");
    assert_eq!(normalize_quote("\u{201C}curly\u{201D}"), "\u{201C}curly\u{201D}");
    assert_eq!(normalize_quote("\"\"double\"\""), "\u{201C}\"double\"\u{201D}");
    assert_eq!(normalize_quote("no marks"), "\u{201C}no marks\u{201D}");
}

#[test]
fn quote_edge_cases() {
    assert_eq!(normalize_quote(""), "\u{201C}\u{201D}");
    assert_eq!(normalize_quote("   "), "\u{201C}\u{201D}");
    assert_eq!(normalize_quote("\""), "\u{201C}\u{201D}");
    assert_eq!(normalize_quote("\u{201D}"), "\u{201C}\u{201D}");
}

#[test]
fn author_loses_leading_dash() {
    assert_eq!(normalize_author("- Jane Doe"), "Jane Doe");
    assert_eq!(normalize_author("  -\tJane  "), "Jane");
    assert_eq!(normalize_author("Jane-Doe"), "Jane-Doe");
    assert_eq!(normalize_author("John\nDoe"), "JohnDoe");
    assert_eq!(normalize_author("-"), "");
}

#[test]
fn attribution_is_author_and_date() {
    let date = Date { year: 2023, month: 6, day: 29 };
    assert_eq!(format_attribution("- Jane Doe", &date), "Jane Doe, 29/06/2023");
}

#[test]
fn dates_are_zero_padded() {
    assert_eq!(Date { year: 5, month: 1, day: 2 }.format(), "02/01/0005");
    assert_eq!(Date { year: 1999, month: 12, day: 31 }.format(), "31/12/1999");
    assert_eq!(format_attribution("Ann", &Date { year: 2000, month: 2, day: 29 }), "Ann, 29/02/2000");
}

#[test]
fn date_validity_follows_the_calendar() {
    assert!(Date { year: 2024, month: 2, day: 29 }.is_valid());
    assert!(!Date { year: 2023, month: 2, day: 29 }.is_valid());
    assert!(!Date { year: 1900, month: 2, day: 29 }.is_valid());
    assert!(Date { year: 2000, month: 2, day: 29 }.is_valid());
    assert!(!Date { year: 2023, month: 4, day: 31 }.is_valid());
    assert!(!Date { year: 2023, month: 13, day: 1 }.is_valid());
    assert!(!Date { year: 2023, month: 0, day: 1 }.is_valid());
    assert!(!Date { year: 2023, month: 1, day: 0 }.is_valid());
    assert!(!Date { year: 300000, month: 1, day: 1 }.is_valid());
}

#[test]
fn chars_of_keeps_every_character() {
    assert_eq!(chars_of("a\u{2026}b"), vec!['a', '\u{2026}', 'b']);
    assert!(chars_of("").is_empty());
}

#[test]
fn years_outside_four_digits_carry_a_sign() {
    assert_eq!(Date { year: 12, month: 3, day: 4 }.format(), "04/03/0012");
    assert_eq!(Date { year: -5, month: 1, day: 2 }.format(), "02/01/-0005");
    assert_eq!(Date { year: -2023, month: 1, day: 2 }.format(), "02/01/-2023");
    assert_eq!(Date { year: 10000, month: 1, day: 2 }.format(), "02/01/+10000");
    assert_eq!(Date { year: -262143, month: 1, day: 1 }.format(), "01/01/-262143");
    assert_eq!(
        format_attribution("Ann", &Date { year: 12345, month: 12, day: 31 }),
        "Ann, 31/12/+12345"
    );
}
