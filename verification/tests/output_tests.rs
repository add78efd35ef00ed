use n_edit::model::{stripped_content, ContentBlock, Line, LineNumber, MatchInfo};
use n_edit::output::{format_error_with_color, DiffLine, DiffLineKind, OutputFormatter};

#[test]
fn test_output_formatter_no_color_creates_correct_prefixes() {
    let formatter = OutputFormatter::with_color(false);
    let lines = vec![
        DiffLine {
            kind: DiffLineKind::Added,
            line_number: Some(LineNumber::new(3)),
            content: "let x = 1;".to_string(),
        },
        DiffLine {
            kind: DiffLineKind::Deleted,
            line_number: Some(LineNumber::new(4)),
            content: "old_code();".to_string(),
        },
        DiffLine {
            kind: DiffLineKind::Unchanged,
            line_number: Some(LineNumber::new(5)),
            content: "fn main() {".to_string(),
        },
    ];
    let output = formatter.format_diff_lines(&lines);
    assert!(output.contains("+ L3: let x = 1;"));
    assert!(output.contains("- L4: old_code();"));
    assert!(output.contains("  L5: fn main() {"));
}

#[test]
fn test_output_formatter_no_line_number() {
    let formatter = OutputFormatter::with_color(false);
    let lines = vec![
        DiffLine {
            kind: DiffLineKind::Added,
            line_number: None,
            content: "new line".to_string(),
        },
        DiffLine {
            kind: DiffLineKind::Deleted,
            line_number: None,
            content: "deleted line".to_string(),
        },
    ];
    let output = formatter.format_diff_lines(&lines);
    assert!(output.contains("+ new line"));
    assert!(output.contains("- deleted line"));
}

#[test]
fn test_output_formatter_format_block() {
    let block = ContentBlock {
        start_line: LineNumber::new(10),
        end_line: LineNumber::new(11),
        match_info: MatchInfo::Location {
            matched_line_count: 1,
        },
        lines: vec![
            Line {
                line_num: LineNumber::new(10),
                taps: 0,
                diff_taps: 0,
                content: "fn foo() {".to_string(),
                stripped_content: stripped_content("fn foo() {"),
            },
            Line {
                line_num: LineNumber::new(11),
                taps: 4,
                diff_taps: 4,
                content: "    bar();".to_string(),
                stripped_content: stripped_content("    bar();"),
            },
        ],
    };
    let formatter = OutputFormatter::with_color(false);
    let output = formatter.format_block(&block);
    assert!(output.contains("fn foo() {"));
    assert!(output.contains("bar();"));
}

#[test]
fn test_output_formatter_empty_lines() {
    let formatter = OutputFormatter::with_color(false);
    let output = formatter.format_diff_lines(&[]);
    assert_eq!(output, "");
}

#[test]
fn test_separator_formatting_no_color() {
    let formatter = OutputFormatter::with_color(false);
    let lines = vec![DiffLine::separator()];
    let output = formatter.format_diff_lines(&lines);
    assert!(output.contains("~~~~~~~~"));
}

#[test]
fn test_unchanged_lines_with_separator() {
    let formatter = OutputFormatter::with_color(false);
    let lines = vec![
        DiffLine::unchanged(LineNumber::new(10), "fn foo() {".to_string()),
        DiffLine::added(LineNumber::new(11), "    let x = 1;".to_string()),
        DiffLine::unchanged(LineNumber::new(12), "}".to_string()),
        DiffLine::separator(),
        DiffLine::deleted(LineNumber::new(20), "    old();".to_string()),
    ];
    let output = formatter.format_diff_lines(&lines);
    assert!(output.contains("  L10: fn foo() {"));
    assert!(output.contains("+ L11:     let x = 1;"));
    assert!(output.contains("  L12: }"));
    assert!(output.contains("~~~~~~~~"));
    assert!(output.contains("- L20:     old();"));
}

#[test]
fn test_diff_line_constructors() {
    let sep = DiffLine::separator();
    assert_eq!(sep.kind, DiffLineKind::Separator);

    let uc = DiffLine::unchanged(LineNumber::new(5), "ctx".to_string());
    assert_eq!(uc.kind, DiffLineKind::Unchanged);
    assert_eq!(uc.line_number, Some(LineNumber::new(5)));

    let ad = DiffLine::added(LineNumber::new(3), "new".to_string());
    assert_eq!(ad.kind, DiffLineKind::Added);

    let dl = DiffLine::deleted(LineNumber::new(7), "del".to_string());
    assert_eq!(dl.kind, DiffLineKind::Deleted);
}

#[test]
fn test_format_error_no_color() {
    let output = format_error_with_color(
        "Location 匹配失败",
        "  fn main() {\n      let x = 1;\n  ...",
        &["请检查定位内容，或使用行号定位: //!@Location:@行号"],
        false,
    );
    assert!(output.contains("Error: Location 匹配失败"));
    assert!(output.contains("fn main()"));
    assert!(output.contains("Hint: 请检查定位内容"));
}

#[test]
fn test_format_error_with_color() {
    let output = format_error_with_color("Location 匹配失败", "", &["提示内容"], true);
    assert!(output.contains("Error:"));
    assert!(output.contains("Hint:"));
    assert!(output.contains("提示内容"));
}

#[test]
fn test_format_error_empty_hints() {
    let output = format_error_with_color("简单错误", "", &[], false);
    assert!(output.contains("Error: 简单错误"));
    assert!(!output.contains("Hint:"));
}
