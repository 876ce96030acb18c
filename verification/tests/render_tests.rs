use eval::render::{
    cell_text, centered_text, decimal_text, header_text, row_text, spaces_text, table_lines,
    HEADER_WIDTH,
};
use eval::report::RoundRow;

#[test]
fn decimal_numerals() {
    assert_eq!(decimal_text(0), "0");
    assert_eq!(decimal_text(7), "7");
    assert_eq!(decimal_text(10), "10");
    assert_eq!(decimal_text(1234567890), "1234567890");
    assert_eq!(decimal_text(u64::MAX), format!("{}", u64::MAX));
}

#[test]
fn spaces_have_the_length_asked_for() {
    assert_eq!(spaces_text(0), "");
    assert_eq!(spaces_text(3), "   ");
}

#[test]
fn centering_puts_the_odd_space_right() {
    assert_eq!(centered_text("ab", 5), " ab  ");
    assert_eq!(centered_text("ab", 6), "  ab  ");
    assert_eq!(centered_text("abcdef", 6), "abcdef");
    assert_eq!(centered_text("abcdefgh", 6), "abcdefgh");
    assert_eq!(centered_text("", 2), "  ");
    assert_eq!(centered_text("h\u{e9}", 5), format!("{:^5}", "h\u{e9}"));
    for width in 0..12 {
        assert_eq!(centered_text("N/A", width), format!("{:^width$}", "N/A", width = width));
    }
}

#[test]
fn missing_score_is_not_available() {
    assert_eq!(cell_text(None), "N/A");
    assert_eq!(cell_text(Some(0)), "0");
    assert_eq!(cell_text(Some(u32::MAX)), "4294967295");
}

#[test]
fn row_line_has_three_centred_columns() {
    let row = RoundRow { round: 1, diff: Some(80), thread: None };
    assert_eq!(row_text(&row), format!("|{:^7}│{:^6}│{:^8}│", 1, 80, "N/A"));
    assert_eq!(row_text(&row), "|   1   │  80  │  N/A   │");
    let failed = RoundRow { round: 12, diff: None, thread: None };
    assert_eq!(row_text(&failed), format!("|{:^7}│{:^6}│{:^8}│", 12, "N/A", "N/A"));
    let full = RoundRow { round: 3, diff: Some(100), thread: Some(5) };
    assert_eq!(row_text(&full), format!("|{:^7}│{:^6}│{:^8}│", 3, 100, 5));
}

#[test]
fn table_frames_the_rows() {
    let rows = vec![
        RoundRow { round: 1, diff: Some(80), thread: Some(60) },
        RoundRow { round: 2, diff: None, thread: None },
        RoundRow { round: 3, diff: Some(40), thread: None },
    ];
    let lines = table_lines(&rows);
    assert_eq!(
        lines,
        vec![
            "┌───────┬──────┬────────┐".to_string(),
            "│ Judge │ Diff │ Thread │".to_string(),
            "├───────┼──────┼────────┤".to_string(),
            "|   1   │  80  │   60   │".to_string(),
            "|   2   │ N/A  │  N/A   │".to_string(),
            "|   3   │  40  │  N/A   │".to_string(),
            "└───────┴──────┴────────┘".to_string(),
        ]
    );
    assert_eq!(table_lines(&Vec::new()).len(), 4);
}

#[test]
fn same_rows_same_text() {
    let rows = vec![RoundRow { round: 1, diff: Some(80), thread: Some(60) }];
    assert_eq!(table_lines(&rows), table_lines(&rows.clone()));
}

#[test]
fn header_centres_the_title_between_rules() {
    assert_eq!(HEADER_WIDTH, 40);
    let rule = "========================================";
    assert_eq!(
        header_text("EVAL RESULTS"),
        format!("\n{}\n{:^40}\n{}\n\n", rule, "EVAL RESULTS", rule)
    );
    let long = "a_title_that_is_longer_than_the_forty_characters_of_the_rule";
    assert_eq!(header_text(long), format!("\n{}\n{:^40}\n{}\n\n", rule, long, rule));
}

#[test]
fn failed_runs_are_counted_in_a_line_of_their_own() {
    assert_eq!(eval::render::failures_text(0), None);
    assert_eq!(eval::render::failures_text(1), Some("\n1 examples failed to run!".to_string()));
    assert_eq!(eval::render::failures_text(12), Some("\n12 examples failed to run!".to_string()));
}
