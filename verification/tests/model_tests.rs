use n_edit::model::{count_leading_spaces, stripped_content, ContentBlock, FileContent, Line, LineNumber, MatchInfo};

#[test]
fn file_text_round_trips() {
    let text = "fn main() {\n    let x = 1;\n\n}\n";
    let file = FileContent::from_text(text);
    assert_eq!(file.lines.len(), 4);
    assert_eq!(file.to_text(), text);
}

#[test]
fn file_lines_are_numbered_and_measured() {
    let file = FileContent::from_text("  a b\n    c\td\n");
    assert_eq!(file.lines[0].line_num, 1);
    assert_eq!(file.lines[1].line_num, 2);
    assert_eq!(file.lines[0].taps, 2);
    assert_eq!(file.lines[1].taps, 4);
    assert_eq!(file.lines[1].diff_taps, 2);
    assert_eq!(file.lines[1].stripped_content, "cd");
}

#[test]
fn carriage_returns_end_lines_and_a_missing_last_line_feed_is_added() {
    let file = FileContent::from_text("a\r\nb");
    assert_eq!(file.lines.len(), 2);
    assert_eq!(file.lines[0].content, "a");
    assert_eq!(file.lines[1].content, "b");
    assert_eq!(file.to_text(), "a\nb\n");
}

#[test]
fn empty_text_has_no_lines() {
    let file = FileContent::from_text("");
    assert_eq!(file.lines.len(), 0);
    assert_eq!(file.to_text(), "");
}

#[test]
fn stripping_removes_unicode_whitespace() {
    assert_eq!(stripped_content(" a\u{3000}b\u{a0}c "), "abc");
    assert_eq!(count_leading_spaces("\t  x"), 0);
    assert_eq!(count_leading_spaces("   x"), 3);
}

#[test]
fn line_numbers_convert() {
    assert_eq!(LineNumber::new(5).to_index(), 4);
    assert_eq!(LineNumber::new(0).to_index(), 0);
    assert_eq!(LineNumber::from_index(9).to_usize(), 10);
    assert_eq!(LineNumber::new(123).to_text(), "123");
}

#[test]
fn reindex_renumbers_from_the_first_line() {
    let mut block = ContentBlock {
        start_line: LineNumber::new(7),
        end_line: LineNumber::new(9),
        lines: vec![
            Line::from_text(LineNumber::new(1), "    a"),
            Line::from_text(LineNumber::new(1), "        b"),
            Line::from_text(LineNumber::new(1), "c"),
        ],
        match_info: MatchInfo::Empty,
    };
    block.reindex();
    assert_eq!(block.lines[0].line_num, 7);
    assert_eq!(block.lines[2].line_num, 9);
    assert_eq!(block.lines[1].diff_taps, 4);
    assert_eq!(block.lines[2].diff_taps, 0);
    assert_eq!(block.end_line, 9);
}
