use n_edit::model::LineNumber;
use n_edit::output::{format_error_with_color, DiffLine, OutputFormatter};

#[test]
fn colored_error_report() {
    colored::control::set_override(true);
    let output = format_error_with_color("T", "d1\nd2", &["H"], true);
    assert_eq!(
        output,
        "\u{1b}[1;31mError:\u{1b}[0m \u{1b}[33mT\u{1b}[0m\n  \u{1b}[2md1\u{1b}[0m\n  \u{1b}[2md2\u{1b}[0m\n  \u{1b}[1;32mHint:\u{1b}[0m \u{1b}[37mH\u{1b}[0m\n"
    );
}

#[test]
fn colored_diff_listing() {
    colored::control::set_override(true);
    let formatter = OutputFormatter::with_color(true);
    let lines = vec![
        DiffLine::added(LineNumber::new(3), "a".to_string()),
        DiffLine::deleted(LineNumber::new(4), "b".to_string()),
        DiffLine::unchanged(LineNumber::new(5), "c".to_string()),
        DiffLine::separator(),
    ];
    assert_eq!(
        formatter.format_diff_lines(&lines),
        "\u{1b}[32m+\u{1b}[0m L3: \u{1b}[32ma\u{1b}[0m\n\u{1b}[31m-\u{1b}[0m L4: \u{1b}[31mb\u{1b}[0m\n  L5: \u{1b}[2mc\u{1b}[0m\n\u{1b}[2m  ~~~~~~~~\u{1b}[0m\n"
    );
}

#[test]
fn plain_listing_has_no_escapes() {
    colored::control::set_override(true);
    let formatter = OutputFormatter::with_color(false);
    let lines = vec![DiffLine::added(LineNumber::new(1), "a".to_string())];
    assert_eq!(formatter.format_diff_lines(&lines), "+ L1: a\n");
    assert_eq!(format_error_with_color("T", "", &[], false), "Error: T\n");
}

/// What a terminal shows: every escape sequence, up to its `m`, removed.
fn strip_ansi(s: &str) -> String {
    let mut out = String::new();
    let mut in_sequence = false;
    for c in s.chars() {
        if in_sequence {
            if c == 'm' {
                in_sequence = false;
            }
        } else if c == '\u{1b}' {
            in_sequence = true;
        } else {
            out.push(c);
        }
    }
    out
}

fn sample_lines() -> Vec<DiffLine> {
    vec![
        DiffLine::unchanged(LineNumber::new(1), "fn main() {".to_string()),
        DiffLine::added(LineNumber::new(2), "    let x = 1;".to_string()),
        DiffLine::deleted(LineNumber::new(3), "    old();".to_string()),
        DiffLine::separator(),
        DiffLine::unchanged(LineNumber::new(9), "}".to_string()),
    ]
}

#[test]
fn color_only_decorates_the_listing() {
    colored::control::set_override(true);
    let lines = sample_lines();
    let colored_out = OutputFormatter::with_color(true).format_diff_lines(&lines);
    let plain_out = OutputFormatter::with_color(false).format_diff_lines(&lines);
    assert!(colored_out.contains('\u{1b}'));
    assert!(!plain_out.contains('\u{1b}'));
    assert_eq!(strip_ansi(&colored_out), plain_out);
}

#[test]
fn color_only_decorates_the_report() {
    colored::control::set_override(true);
    let colored_out = format_error_with_color("Location 匹配失败", "第一行\n第二行", &["提示内容", "另一条"], true);
    let plain_out = format_error_with_color("Location 匹配失败", "第一行\n第二行", &["提示内容", "另一条"], false);
    assert!(colored_out.contains("Error:"));
    assert!(colored_out.contains("Hint:"));
    assert_eq!(strip_ansi(&colored_out), plain_out);
}

#[test]
fn listing_a_concatenation_concatenates_the_listings() {
    colored::control::set_override(true);
    let lines = sample_lines();
    for color in [false, true] {
        let formatter = OutputFormatter::with_color(color);
        let (a, b) = lines.split_at(2);
        assert_eq!(
            formatter.format_diff_lines(&lines),
            formatter.format_diff_lines(a) + &formatter.format_diff_lines(b)
        );
    }
}

#[test]
fn colored_report_still_shows_title_and_hints() {
    colored::control::set_override(true);
    let out = format_error_with_color("Location 匹配失败", "", &["提示内容", "第二条"], true);
    assert!(out.contains("Error:"));
    assert!(out.contains("Location 匹配失败"));
    assert!(out.contains("Hint:"));
    assert!(out.contains("提示内容"));
    assert!(out.contains("第二条"));
}
