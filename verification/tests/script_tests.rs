use n_edit::command::{Command, NewPosition, OffTarget};
use n_edit::error::ParseError;
use n_edit::model::LineRange;
use n_edit::script::{Lexer, Parser, Token};

fn parse(script: &str) -> Result<Vec<Command>, ParseError> {
    Parser::parse(Lexer::tokenize(script))
}

#[test]
fn tokenize_counts_commands_and_separators() {
    let script = "//!@Open: /tmp/sample.rs\n//!@Location:\nfn main() {\n...\n//!@Off:Open\n";
    let tokens = Lexer::tokenize(script);
    assert_eq!(tokens.len(), 4);
    match &tokens[0] {
        Token::Open { file_path, line } => {
            assert_eq!(file_path, "/tmp/sample.rs");
            assert_eq!(*line, 1);
        }
        _ => panic!("expected an Open token"),
    }
    match &tokens[1] {
        Token::Location { block, line_range, lines, line } => {
            assert!(!*block);
            assert!(line_range.is_none());
            assert_eq!(lines, &vec!["fn main() {".to_string()]);
            assert_eq!(*line, 2);
        }
        _ => panic!("expected a Location token"),
    }
    match &tokens[3] {
        Token::Off { target, line } => {
            assert_eq!(target, "Open");
            assert_eq!(*line, 5);
        }
        _ => panic!("expected an Off token"),
    }
    assert!(matches!(tokens[2], Token::Separator { .. }));
    let commands = Parser::parse(tokens).unwrap();
    assert_eq!(commands.len(), 3);
}

#[test]
fn tokenize_without_off() {
    let tokens = Lexer::tokenize("//!@Open: /tmp/implicit.rs\n//!@Location:\nfn bar() {}\n");
    assert_eq!(tokens.len(), 2);
}

#[test]
fn lines_before_the_first_command_and_after_a_separator_are_dropped() {
    let tokens = Lexer::tokenize("intro\n//!@New:Start\na\n...\nstray\n//!@Off:Open\n");
    assert_eq!(tokens.len(), 3);
    match &tokens[0] {
        Token::New { position, lines, .. } => {
            assert_eq!(*position, NewPosition::Start);
            assert_eq!(lines, &vec!["a".to_string()]);
        }
        _ => panic!("expected a New token"),
    }
}

#[test]
fn open_takes_the_trimmed_path() {
    let commands = parse("//!@Open:   src/main.rs  \n").unwrap();
    match &commands[0] {
        Command::Open { file_path } => assert_eq!(file_path, "src/main.rs"),
        _ => panic!("expected Open"),
    }
}

#[test]
fn command_names_ignore_case() {
    let commands = parse("//!@open: a.rs\n//!@LOCATION:\nx\n//!@new:END\ny\n//!@OFF:open\n").unwrap();
    assert_eq!(commands.len(), 4);
    assert!(matches!(commands[2], Command::New { position: NewPosition::End, .. }));
    assert!(matches!(commands[3], Command::Off { target: OffTarget::Open }));
}

#[test]
fn open_without_path_is_rejected() {
    assert!(matches!(parse("//!@Open:\n"), Err(ParseError::MissingFilePath)));
    assert!(matches!(parse("//!@Open:    \n"), Err(ParseError::MissingFilePath)));
}

#[test]
fn unknown_command_is_reported_with_its_name() {
    match parse("//!@Open: a.rs\n//!@BadCmd: x\n") {
        Err(ParseError::UnknownCommand { token, line }) => {
            assert_eq!(token, "BadCmd");
            assert_eq!(line, 2);
        }
        _ => panic!("expected UnknownCommand"),
    }
}

#[test]
fn unknown_off_target_is_reported_with_the_header() {
    match parse("//!@Off:Invalid\n") {
        Err(ParseError::UnknownCommand { token, line }) => {
            assert_eq!(token, "Off:Invalid");
            assert_eq!(line, 1);
        }
        _ => panic!("expected UnknownCommand"),
    }
}

#[test]
fn new_without_location_is_rejected() {
    match parse("//!@Open: a.rs\n//!@New:\n    x();\n") {
        Err(ParseError::MissingLocation { command, line }) => {
            assert_eq!(command, "New");
            assert_eq!(line, 2);
        }
        _ => panic!("expected MissingLocation"),
    }
}

#[test]
fn separator_between_location_and_delete_cuts_the_location() {
    let script = "//!@Open: a.rs\n//!@Location:\nfn example() {\n    let old_code = 1;\n...\n//!@Delete:\n    let old_code = 1;\n";
    match parse(script) {
        Err(ParseError::MissingLocation { command, line }) => {
            assert_eq!(command, "Delete");
            assert_eq!(line, 6);
        }
        _ => panic!("expected MissingLocation"),
    }
}

#[test]
fn separator_without_content_is_unexpected() {
    assert!(matches!(parse("...\n"), Err(ParseError::UnexpectedSeparator { line }) if line == 1));
    assert!(matches!(
        parse("//!@Open: a.rs\n...\n"),
        Err(ParseError::UnexpectedSeparator { line }) if line == 2
    ));
}

#[test]
fn delete_block_needs_location_block() {
    let script = "//!@Open: a.rs\n//!@Location:\nfn foo() {\n//!@Delete:Block\n";
    assert!(matches!(parse(script), Err(ParseError::BlockRequiredForDelete { line }) if line == 4));
    let script = "//!@Open: a.rs\n//!@Location:Block\nfn foo() {\n//!@Delete:Block\n";
    let commands = parse(script).unwrap();
    assert!(matches!(commands[2], Command::Delete { block: true, .. }));
}

#[test]
fn line_ranges_are_read() {
    let commands = parse("//!@Open: a.rs\n//!@Location:@66,120\n//!@Delete:@3\n//!@Location:Block @75,75\n").unwrap();
    match &commands[1] {
        Command::Location { block, line_range, .. } => {
            assert!(!block);
            assert_eq!(*line_range, Some(LineRange { start: 66, end: 120 }));
        }
        _ => panic!("expected Location"),
    }
    match &commands[2] {
        Command::Delete { block, line_range, .. } => {
            assert!(!block);
            assert_eq!(*line_range, Some(LineRange { start: 3, end: 3 }));
        }
        _ => panic!("expected Delete"),
    }
    match &commands[3] {
        Command::Location { block, line_range, .. } => {
            assert!(block);
            assert_eq!(*line_range, Some(LineRange { start: 75, end: 75 }));
        }
        _ => panic!("expected Location"),
    }
}

#[test]
fn bad_line_ranges_are_rejected() {
    assert!(matches!(parse("//!@Location:@5,3\n"), Err(ParseError::UnknownCommand { .. })));
    assert!(matches!(parse("//!@Location:@0\n"), Err(ParseError::UnknownCommand { .. })));
    assert!(matches!(parse("//!@Location:@x\n"), Err(ParseError::UnknownCommand { .. })));
    assert!(matches!(
        parse("//!@Location:@99999999999999999999999\n"),
        Err(ParseError::UnknownCommand { .. })
    ));
}

#[test]
fn location_lines_get_relative_indentation() {
    let commands = parse("//!@Location:\n    fn foo() {\n        bar();\n").unwrap();
    match &commands[0] {
        Command::Location { content, .. } => {
            assert_eq!(content.lines.len(), 2);
            assert_eq!(content.lines[0].diff_taps, Some(0));
            assert_eq!(content.lines[1].diff_taps, Some(4));
            assert_eq!(content.lines[1].index, 1);
            assert_eq!(content.lines[1].content, "        bar();");
        }
        _ => panic!("expected Location"),
    }
}

#[test]
fn new_lines_keep_their_indentation_as_a_number() {
    let commands = parse("//!@Location:\nfn main() {\n//!@New:\n    let x = 1;\n").unwrap();
    match &commands[1] {
        Command::New { position, content } => {
            assert_eq!(*position, NewPosition::Normal);
            assert_eq!(content.lines[0].diff_taps, 4);
            assert_eq!(content.lines[0].content, "let x = 1;");
            assert!(!content.lines[0].is_raw);
        }
        _ => panic!("expected New"),
    }
}

#[test]
fn raw_text_joins_the_new_before_it() {
    let script = "//!@Location:\nfn main() {\n//!@New:\n    println!(\"start\");\n//!@Raw: ...\n...\n";
    let commands = parse(script).unwrap();
    assert_eq!(commands.len(), 2);
    match &commands[1] {
        Command::New { content, .. } => {
            assert_eq!(content.lines.len(), 2);
            assert_eq!(content.lines[1].content, "...");
            assert!(content.lines[1].is_raw);
        }
        _ => panic!("expected New"),
    }
}

#[test]
fn raw_without_new_or_delete_is_rejected() {
    assert!(matches!(parse("//!@Raw: ...\n"), Err(ParseError::UnknownCommand { .. })));
}

#[test]
fn off_location_ends_the_location_for_new() {
    let script = "//!@Location:\nfn main() {\n//!@Off:Location\n//!@New:\nx\n";
    assert!(matches!(parse(script), Err(ParseError::MissingLocation { .. })));
    let script = "//!@Location:\na\n//!@Location:\nb\n//!@Off:Location\n//!@New:\nx\n";
    assert_eq!(parse(script).unwrap().len(), 4);
}

#[test]
fn tokens_carry_what_their_headers_say() {
    let tokens = Lexer::tokenize(
        "//!@Location:Block @3,5\nx\n//!@Delete:@2\n//!@Raw: ...\ny\n//!@Frob: z\n//!@New:Sideways\n",
    );
    assert_eq!(tokens.len(), 5);
    assert!(matches!(
        tokens[0],
        Token::Location { block: true, line_range: Some(LineRange { start: 3, end: 5 }), .. }
    ));
    assert!(matches!(tokens[1], Token::Delete { block: false, line_range: Some(LineRange { start: 2, end: 2 }), .. }));
    match &tokens[2] {
        Token::Raw { content, lines, line } => {
            assert_eq!(content, "...");
            assert_eq!(lines, &vec!["y".to_string()]);
            assert_eq!(*line, 4);
        }
        _ => panic!("expected a Raw token"),
    }
    match &tokens[3] {
        Token::Unknown { text, line } => {
            assert_eq!(text, "Frob");
            assert_eq!(*line, 6);
        }
        _ => panic!("expected an Unknown token"),
    }
    match &tokens[4] {
        Token::Unknown { text, .. } => assert_eq!(text, "New:Sideways"),
        _ => panic!("expected an Unknown token"),
    }
}
