use n_edit::error::{EngineError, FileError, MatchError, NEditError, ParseError};
use n_edit::model::LineNumber;

#[test]
fn test_no_match_error_display() {
    let err = MatchError::NoMatch {
        location_content: "fn main()".to_string(),
    };
    let display = err.display_text();
    assert!(display.contains("未找到任何匹配"));
    assert!(display.contains("fn main()"));
}

#[test]
fn test_no_match_hints() {
    let err = MatchError::NoMatch {
        location_content: "fn main()".to_string(),
    };
    let hints = err.hints();
    assert!(!hints.is_empty());
    assert!(hints.iter().any(|h| h.contains("行号定位")));
}

#[test]
fn test_too_many_matches_error_display() {
    let err = MatchError::TooManyMatches {
        count: 3,
        candidates: vec!["L12: fn foo".to_string(), "L45: fn foo".to_string()],
        location_content: "fn foo".to_string(),
    };
    let display = err.display_text();
    assert!(display.contains("3"));
    assert!(display.contains("L12"));
}

#[test]
fn test_too_many_matches_hints() {
    let err = MatchError::TooManyMatches {
        count: 3,
        candidates: vec!["L12: fn foo".to_string()],
        location_content: "fn foo".to_string(),
    };
    let hints = err.hints();
    assert!(!hints.is_empty());
    assert!(hints.iter().any(|h| h.contains("上下文")));
}

#[test]
fn test_parse_error_missing_file_path_display() {
    let err = ParseError::MissingFilePath;
    let display = err.display_text();
    assert!(display.contains("文件路径"));
}

#[test]
fn test_parse_error_missing_file_path_hints() {
    let err = ParseError::MissingFilePath;
    let hints = err.hints();
    assert!(!hints.is_empty());
    assert!(hints.iter().any(|h| h.contains("Open")));
}

#[test]
fn test_parse_error_unknown_command_display() {
    let err = ParseError::UnknownCommand {
        token: "BadCmd".to_string(),
        line: LineNumber::new(5),
    };
    let display = err.display_text();
    assert!(display.contains("BadCmd"));
    assert!(display.contains("5"));
}

#[test]
fn test_file_error_not_found_display() {
    let err = FileError::NotFound {
        path: "/tmp/test.rs".to_string(),
    };
    let display = err.display_text();
    assert!(display.contains("文件未找到"));
    assert!(display.contains("/tmp/test.rs"));
}

#[test]
fn test_file_error_not_found_hints() {
    let err = FileError::NotFound {
        path: "/tmp/test.rs".to_string(),
    };
    let hints = err.hints();
    assert!(!hints.is_empty());
    assert!(hints.iter().any(|h| h.contains("路径")));
}

#[test]
fn test_engine_error_missing_location_new() {
    let err = EngineError::MissingLocationForNew;
    let display = err.display_text();
    assert!(display.contains("Location"));
}

#[test]
fn test_engine_error_missing_location_hints() {
    let err = EngineError::MissingLocationForNew;
    let hints = err.hints();
    assert!(!hints.is_empty());
}

#[test]
fn test_nedit_error_wraps_sub_errors() {
    let err = NEditError::Parse(ParseError::MissingFilePath);
    let display = err.display_text();
    assert!(display.contains("文件路径"));
}

#[test]
fn test_nedit_error_hints() {
    let err = NEditError::Match(MatchError::NoMatch {
        location_content: "fn main()".to_string(),
    });
    let hints = err.hints();
    assert!(!hints.is_empty());
}

#[test]
fn test_delete_match_failed_error_display() {
    let err = MatchError::DeleteMatchFailed {
        delete_content: "let x = 1;".to_string(),
        block_snippet: "fn main() {".to_string(),
    };
    let display = err.display_text();
    assert!(display.contains("未能在当前 Block 中找到匹配内容"));
    assert!(display.contains("let x = 1;"));
}

#[test]
fn test_delete_match_failed_hints() {
    let err = MatchError::DeleteMatchFailed {
        delete_content: "let x = 1;".to_string(),
        block_snippet: "fn main() {".to_string(),
    };
    let hints = err.hints();
    assert!(!hints.is_empty());
    assert!(hints.iter().any(|h| h.contains("嵌套")));
}

#[test]
fn test_delete_not_adjacent_hints() {
    let err = MatchError::DeleteNotAdjacent {
        location_last_line: "}".to_string(),
        delete_first_line: "let x = 1;".to_string(),
        gap_lines: 3,
    };
    let hints = err.hints();
    assert!(!hints.is_empty());
    assert!(hints.iter().any(|h| h.contains("嵌套")));
}

#[test]
fn test_block_not_parseable_error_display() {
    let err = MatchError::BlockNotParseable {
        location_content: "# Title\n## Section".to_string(),
    };
    let display = err.display_text();
    assert!(display.contains("无法解析为一个 Block"));
    assert!(display.contains("# Title"));
}

#[test]
fn test_block_not_parseable_hints() {
    let err = MatchError::BlockNotParseable {
        location_content: "# Title".to_string(),
    };
    let hints = err.hints();
    assert!(!hints.is_empty());
    assert!(hints.iter().any(|h| h.contains("Block")));
}

#[test]
fn test_nedit_error_title() {
    let err = NEditError::File(FileError::NotFound {
        path: "test.rs".to_string(),
    });
    assert!(err.title().contains("文件未找到"));
}

#[test]
fn test_nedit_error_detail() {
    let err = NEditError::Engine(EngineError::MissingLocationForNew);
    let detail = err.detail();
    assert!(detail.is_empty() || !detail.is_empty());
}

#[test]
fn test_parse_error_missing_location_hints() {
    let err = ParseError::MissingLocation {
        command: "New".to_string(),
        line: LineNumber::new(5),
    };
    let hints = err.hints();
    assert!(!hints.is_empty());
}

#[test]
fn test_file_error_cannot_open_hints() {
    let err = FileError::CannotOpen {
        path: "test.rs".to_string(),
        reason: "permission denied".to_string(),
    };
    let hints = err.hints();
    assert!(!hints.is_empty());
    assert!(hints.iter().any(|h| h.contains("权限")));
}
