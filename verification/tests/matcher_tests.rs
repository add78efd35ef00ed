use n_edit::error::MatchError;
use n_edit::matcher::LocationMatcher;
use n_edit::model::{
    count_leading_spaces, stripped_content, ContentBlock, FileContent, Line, LineNumber, LineRange,
    LocationContent, LocationLine, MatchInfo, SearchScope,
};

/// A file whose lines carry their own indentation and stripped content.
fn make_file_content(lines: &[&str]) -> FileContent {
    let mut file_lines: Vec<Line> = Vec::new();
    for (i, content) in lines.iter().enumerate() {
        file_lines.push(Line {
            line_num: LineNumber::from_index(i),
            taps: count_leading_spaces(content),
            diff_taps: 0,
            content: content.to_string(),
            stripped_content: stripped_content(content),
        });
    }
    FileContent { lines: file_lines }
}

/// A location whose indentation is relative to its first line.
fn make_location_content(lines: &[&str]) -> LocationContent {
    if lines.is_empty() {
        return LocationContent { lines: vec![] };
    }
    let base_taps = count_leading_spaces(lines[0]);
    let loc_lines: Vec<LocationLine> = lines
        .iter()
        .enumerate()
        .map(|(i, content)| {
            let line_taps = count_leading_spaces(content);
            LocationLine {
                index: i,
                diff_taps: Some(line_taps.saturating_sub(base_taps)),
                content: content.to_string(),
                line_num: None,
            }
        })
        .collect();
    LocationContent { lines: loc_lines }
}

/// The lines `start..=end` (1-based) of a file as a located block.
fn make_block_scope(file: &FileContent, start_1based: usize, end_1based: usize) -> ContentBlock {
    let start_idx = start_1based.saturating_sub(1);
    let end_idx = end_1based.saturating_sub(1);
    let lines: Vec<Line> = file.lines[start_idx..=end_idx].iter().map(|line| line.duplicate()).collect();
    let mut block = ContentBlock {
        start_line: LineNumber::new(start_1based),
        end_line: LineNumber::new(end_1based),
        lines,
        match_info: MatchInfo::Location {
            matched_line_count: end_1based - start_1based + 1,
        },
    };
    block.reindex();
    block
}

#[test]
fn test_find_unique_block_exact_match() {
    let file = make_file_content(&[
        "// comment",
        "fn main() {",
        "    let x = 1;",
        "    println!(\"{}\", x);",
        "}",
    ]);
    let location = make_location_content(&["fn main() {", "    let x = 1;"]);
    let scope = SearchScope::File(&file);

    let result = LocationMatcher::find_unique_block(&scope, &location, false);
    assert!(result.is_ok());
    let block = result.unwrap();
    assert_eq!(block.start_line, 2);
    assert_eq!(block.lines.len(), 4);
    assert_eq!(block.lines[0].content, "fn main() {");
    assert_eq!(block.lines[1].content, "    let x = 1;");
}

#[test]
fn test_find_unique_block_single_line_location() {
    let file = make_file_content(&["fn foo() {}", "fn bar() {}", "fn baz() {}"]);
    let location = make_location_content(&["fn bar() {}"]);
    let scope = SearchScope::File(&file);

    let result = LocationMatcher::find_unique_block(&scope, &location, false);
    assert!(result.is_ok());
    let block = result.unwrap();
    assert_eq!(block.start_line, 2);
    assert_eq!(block.lines[0].content, "fn bar() {}");
}

#[test]
fn test_find_unique_block_no_match() {
    let file = make_file_content(&["fn foo() {}", "fn bar() {}"]);
    let location = make_location_content(&["fn nonexistent() {}"]);
    let scope = SearchScope::File(&file);

    let result = LocationMatcher::find_unique_block(&scope, &location, false);
    assert!(result.is_err());
    match result.unwrap_err() {
        MatchError::NoMatch { .. } => {}
        _ => panic!("Expected NoMatch error"),
    }
}

#[test]
fn test_find_unique_block_too_many_matches() {
    let file = make_file_content(&[
        "fn foo() {",
        "    bar();",
        "}",
        "",
        "fn foo() {",
        "    baz();",
        "}",
    ]);
    let location = make_location_content(&["fn foo() {"]);
    let scope = SearchScope::File(&file);

    let result = LocationMatcher::find_unique_block(&scope, &location, false);
    assert!(result.is_err());
    match result.unwrap_err() {
        MatchError::TooManyMatches { count, .. } => {
            assert_eq!(count, 2);
        }
        _ => panic!("Expected TooManyMatches error"),
    }
}

#[test]
fn test_find_unique_block_stripped_content_match() {
    let file = make_file_content(&[
        "// file starts",
        "    fn main() {",
        "        let x = 1;",
        "    }",
    ]);
    let location = make_location_content(&["fn main() {", "    let x = 1;"]);
    let scope = SearchScope::File(&file);

    let result = LocationMatcher::find_unique_block(&scope, &location, false);
    assert!(result.is_ok());
    let block = result.unwrap();
    assert_eq!(block.start_line, 2);
}

#[test]
fn test_find_unique_block_disambiguates_by_second_line() {
    let file = make_file_content(&[
        "fn foo() {",
        "    let a = 1;",
        "}",
        "",
        "fn foo() {",
        "    let b = 2;",
        "}",
    ]);
    let location = make_location_content(&["fn foo() {", "    let b = 2;"]);
    let scope = SearchScope::File(&file);

    let result = LocationMatcher::find_unique_block(&scope, &location, false);
    assert!(result.is_ok());
    let block = result.unwrap();
    assert_eq!(block.start_line, 5);
}

#[test]
fn test_find_unique_block_boundary_to_end_of_file() {
    let file = make_file_content(&[
        "// header",
        "mod utils;",
        "",
        "fn process() {",
        "    do_work();",
        "}",
        "",
        "fn main() {",
        "    process();",
        "}",
    ]);
    let location = make_location_content(&["fn process() {"]);
    let scope = SearchScope::File(&file);

    let result = LocationMatcher::find_unique_block(&scope, &location, false);
    assert!(result.is_ok());
    let block = result.unwrap();
    assert_eq!(block.start_line, 4);
    assert_eq!(block.lines.len(), 7);
}

#[test]
fn test_find_unique_block_skips_empty_lines_in_location() {
    let file = make_file_content(&["fn main() {", "", "    let x = 1;", "}"]);
    let location = make_location_content(&["fn main() {", "", "    let x = 1;"]);
    let scope = SearchScope::File(&file);

    let result = LocationMatcher::find_unique_block(&scope, &location, false);
    assert!(result.is_ok());
    let block = result.unwrap();
    assert_eq!(block.start_line, 1);
}

#[test]
fn test_find_unique_block_within_block_scope() {
    let file = make_file_content(&[
        "// header",
        "fn outer() {",
        "    let x = 1;",
        "    fn inner() {",
        "        let y = 2;",
        "    }",
        "    let z = 3;",
        "}",
        "",
        "fn other() {}",
    ]);
    let block = make_block_scope(&file, 2, 8);
    let scope = SearchScope::Block(&block);

    let location = make_location_content(&["fn inner() {"]);
    let result = LocationMatcher::find_unique_block(&scope, &location, false);
    assert!(result.is_ok(), "Unexpected error: {:?}", result.as_ref().err());
    let found = result.unwrap();
    assert_eq!(found.start_line, 4);
    assert_eq!(found.lines.len(), 5);
    assert_eq!(found.lines[0].content, "    fn inner() {");
}

#[test]
fn test_find_unique_block_within_block_scope_empty_location() {
    let file = make_file_content(&["fn outer() {", "    let x = 1;", "    let y = 2;", "}"]);
    let block = make_block_scope(&file, 1, 4);
    let scope = SearchScope::Block(&block);

    let location = make_location_content(&[]);
    let result = LocationMatcher::find_unique_block(&scope, &location, false);
    assert!(result.is_ok());
    let found = result.unwrap();
    assert_eq!(found.start_line, 1);
    assert_eq!(found.lines.len(), 4);
}

#[test]
fn test_find_unique_block_within_block_scope_disambiguates() {
    let file = make_file_content(&[
        "fn outer() {",
        "    if true {",
        "        work();",
        "    }",
        "    if false {",
        "        skip();",
        "    }",
        "}",
    ]);
    let block = make_block_scope(&file, 1, 8);
    let scope = SearchScope::Block(&block);

    let location = make_location_content(&["    if true {", "        work();"]);
    let result = LocationMatcher::find_unique_block(&scope, &location, false);
    assert!(result.is_ok());
    let found = result.unwrap();
    assert_eq!(found.start_line, 2);
}

#[test]
fn test_find_unique_block_within_block_scope_too_many() {
    let file = make_file_content(&[
        "fn outer() {",
        "    let a = 1;",
        "    let b = 2;",
        "    let a = 1;",
        "}",
    ]);
    let block = make_block_scope(&file, 1, 5);
    let scope = SearchScope::Block(&block);

    let location = make_location_content(&["    let a = 1;"]);
    let result = LocationMatcher::find_unique_block(&scope, &location, false);
    assert!(result.is_err());
    match result.unwrap_err() {
        MatchError::TooManyMatches { count, .. } => {
            assert_eq!(count, 2);
        }
        _ => panic!("Expected TooManyMatches"),
    }
}

#[test]
fn test_find_by_line_range_single_line() {
    let file = make_file_content(&["line1", "line2", "line3", "line4"]);
    let scope = SearchScope::File(&file);
    let line_range = LineRange { start: 2, end: 2 };

    let result = LocationMatcher::find_by_line_range(&scope, line_range, false, false);
    assert!(result.is_ok());
    let block = result.unwrap();
    assert_eq!(block.start_line, 2);
    assert_eq!(block.end_line, 2);
    assert_eq!(block.lines.len(), 1);
    assert_eq!(block.lines[0].content, "line2");
}

#[test]
fn test_find_by_line_range_multi_line() {
    let file = make_file_content(&["a", "b", "c", "d", "e"]);
    let scope = SearchScope::File(&file);
    let line_range = LineRange { start: 2, end: 4 };

    let result = LocationMatcher::find_by_line_range(&scope, line_range, false, false);
    assert!(result.is_ok());
    let block = result.unwrap();
    assert_eq!(block.start_line, 2);
    assert_eq!(block.end_line, 4);
    assert_eq!(block.lines.len(), 3);
    assert_eq!(block.lines[0].content, "b");
    assert_eq!(block.lines[1].content, "c");
    assert_eq!(block.lines[2].content, "d");
    match block.match_info {
        MatchInfo::Location { matched_line_count } => {
            assert_eq!(matched_line_count, 3);
        }
        _ => panic!("Expected Location match_info"),
    }
}

#[test]
fn test_find_by_line_range_is_delete_sets_empty_match_info() {
    let file = make_file_content(&["a", "b", "c"]);
    let scope = SearchScope::File(&file);
    let line_range = LineRange { start: 1, end: 3 };

    let result = LocationMatcher::find_by_line_range(&scope, line_range, false, true);
    assert!(result.is_ok());
    let block = result.unwrap();
    assert_eq!(block.match_info, MatchInfo::Empty);
}

#[test]
fn test_find_by_line_range_with_block_brace() {
    let file = make_file_content(&[
        "// header",
        "fn main() {",
        "    let x = 1;",
        "    println!(\"{}\", x);",
        "}",
        "// footer",
    ]);
    let scope = SearchScope::File(&file);
    let line_range = LineRange { start: 2, end: 2 };

    let result = LocationMatcher::find_by_line_range(&scope, line_range, true, false);
    assert!(result.is_ok());
    let block = result.unwrap();
    assert_eq!(block.start_line, 2);
    assert_eq!(block.end_line, 5);
    assert_eq!(block.lines.len(), 4);
    assert_eq!(block.lines[0].content, "fn main() {");
    assert_eq!(block.lines[3].content, "}");
}

#[test]
fn test_find_by_line_range_with_block_indent() {
    let file = make_file_content(&[
        "def outer():",
        "    def inner():",
        "        pass",
        "    return 0",
        "end_outer",
    ]);
    let scope = SearchScope::File(&file);
    let line_range = LineRange { start: 2, end: 2 };

    let result = LocationMatcher::find_by_line_range(&scope, line_range, true, false);
    assert!(result.is_ok());
    let block = result.unwrap();
    assert_eq!(block.start_line, 2);
    assert_eq!(block.end_line, 3);
    assert_eq!(block.lines.len(), 2);
}

#[test]
fn test_find_by_line_range_out_of_bounds() {
    let file = make_file_content(&["a", "b"]);
    let scope = SearchScope::File(&file);
    let line_range = LineRange { start: 10, end: 20 };

    let result = LocationMatcher::find_by_line_range(&scope, line_range, false, false);
    assert!(result.is_err());
}

#[test]
fn test_find_by_line_range_within_block_scope() {
    let file = make_file_content(&[
        "fn outer() {",
        "    let x = 1;",
        "    let y = 2;",
        "    let z = 3;",
        "}",
    ]);
    let block = make_block_scope(&file, 1, 5);
    let scope = SearchScope::Block(&block);
    let line_range = LineRange { start: 2, end: 3 };

    let result = LocationMatcher::find_by_line_range(&scope, line_range, false, false);
    assert!(result.is_ok());
    let found = result.unwrap();
    assert_eq!(found.start_line, 2);
    assert_eq!(found.lines.len(), 2);
    assert_eq!(found.lines[0].content, "    let x = 1;");
    assert_eq!(found.lines[1].content, "    let y = 2;");
}

#[test]
fn every_location_line_is_compared_past_skipped_blank_lines() {
    let file = make_file_content(&["fn main() {", "", "}"]);
    let scope = SearchScope::File(&file);
    let location = make_location_content(&["fn main() {", "zzz();"]);
    let result = LocationMatcher::find_unique_block(&scope, &location, false);
    assert!(matches!(result, Err(MatchError::NoMatch { .. })));

    let closing = make_location_content(&["fn main() {", "}"]);
    let block = LocationMatcher::find_unique_block(&scope, &closing, false).unwrap();
    assert_eq!(block.start_line, LineNumber::new(1));
    assert_eq!(block.match_info, MatchInfo::Location { matched_line_count: 2 });
}

#[test]
fn a_location_that_runs_past_the_scope_does_not_match() {
    let file = make_file_content(&["a", "b"]);
    let scope = SearchScope::File(&file);
    let location = make_location_content(&["b", "c"]);
    assert!(matches!(
        LocationMatcher::find_unique_block(&scope, &location, false),
        Err(MatchError::NoMatch { .. })
    ));
    let trailing_blank = make_location_content(&["b", ""]);
    assert!(LocationMatcher::find_unique_block(&scope, &trailing_blank, false).is_ok());
}

#[test]
fn long_multibyte_candidates_are_cut_between_characters() {
    let long_line = format!("{}{}", "a".repeat(75), "中文中文");
    let file = make_file_content(&[long_line.as_str(), long_line.as_str()]);
    let scope = SearchScope::File(&file);
    let location = make_location_content(&[long_line.as_str()]);
    match LocationMatcher::find_unique_block(&scope, &location, false) {
        Err(MatchError::TooManyMatches { count, candidates, .. }) => {
            assert_eq!(count, 2);
            assert_eq!(candidates[0], format!("  L1: {}...", "a".repeat(75)));
        }
        other => panic!("unexpected: {:?}", other),
    }
}
