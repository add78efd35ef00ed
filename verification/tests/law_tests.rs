use n_edit::command::{Command, NewPosition, OffTarget};
use n_edit::engine::{Effect, Engine};
use n_edit::error::NEditError;
use n_edit::matcher::LocationMatcher;
use n_edit::model::{FileContent, LineRange, LocationContent, LocationLine, NewContent, NewLine, SearchScope};
use n_edit::script::{Lexer, Parser};

const PATH: &str = "target.rs";

/// Runs a script against `text`; returns the engine, the outcome and the
/// last text written back.
fn run_script(text: &str, script: &str) -> (Engine, Result<(), NEditError>, Option<String>) {
    let commands = Parser::parse(Lexer::tokenize(script)).unwrap();
    let mut engine = Engine::new();
    let mut written = None;
    for command in commands {
        assert!(engine.is_safe(&command));
        match engine.run_command(&command) {
            Ok(Effect::ReadFile { path }) => engine.open_text(&path, text),
            Ok(Effect::WriteFile { text, .. }) => written = Some(text),
            Ok(Effect::Nothing) => {}
            Err(e) => return (engine, Err(e), written),
        }
    }
    assert!(engine.can_finish());
    if let Effect::WriteFile { text, .. } = engine.finish() {
        written = Some(text);
    }
    (engine, Ok(()), written)
}

fn location(lines: &[&str]) -> LocationContent {
    let base = n_edit::model::count_leading_spaces(lines[0]);
    LocationContent {
        lines: lines
            .iter()
            .enumerate()
            .map(|(i, l)| LocationLine {
                index: i,
                diff_taps: Some(n_edit::model::count_leading_spaces(l).saturating_sub(base)),
                content: l.to_string(),
                line_num: None,
            })
            .collect(),
    }
}

#[test]
fn reading_then_writing_gives_the_text_back() {
    for text in ["", "a\n", "  fn x() {\n\n    y();\n}\n", "line\n\n\n"] {
        assert_eq!(FileContent::from_text(text).to_text(), text);
    }
}

#[test]
fn opening_and_closing_writes_the_same_text() {
    let text = "fn main() {\n    work();\n}\n";
    let (_, result, written) = run_script(text, "//!@Open: target.rs\n//!@Off:Open\n");
    assert!(result.is_ok());
    assert_eq!(written.unwrap(), text);
}

#[test]
fn location_then_off_keeps_the_file() {
    let text = "// header\nfn a() {\n    x();\n}\n\nfn b() {\n    y();\n}\n";
    for script in [
        "//!@Open: target.rs\n//!@Location:\nfn b() {\n//!@Off:Location\n",
        "//!@Open: target.rs\n//!@Location:Block\nfn a() {\n//!@Off:Location\n",
        "//!@Open: target.rs\n//!@Location:@2,3\n//!@Off:Location\n",
        "//!@Open: target.rs\n//!@Location:\n//!@Off:Location\n",
    ] {
        let (engine, result, written) = run_script(text, script);
        assert!(result.is_ok());
        assert!(engine.diff_lines.is_empty());
        assert_eq!(written.unwrap(), text);
    }
}

#[test]
fn nested_location_then_off_keeps_the_parent() {
    let text = "impl A {\n    fn f() {\n        g();\n    }\n}\n";
    let mut engine = Engine::new();
    engine.open_text(PATH, text);
    let outer = Command::Location { block: false, line_range: None, content: location(&["impl A {"]) };
    engine.run_command(&outer).unwrap();
    let before: Vec<String> = engine.block_stack[0].lines.iter().map(|l| l.content.clone()).collect();
    let inner = Command::Location { block: true, line_range: None, content: location(&["    fn f() {"]) };
    engine.run_command(&inner).unwrap();
    engine.run_command(&Command::Off { target: OffTarget::Location }).unwrap();
    let after: Vec<String> = engine.block_stack[0].lines.iter().map(|l| l.content.clone()).collect();
    assert_eq!(before, after);
    assert_eq!(engine.block_stack[0].lines[1].line_num, 2);
}

#[test]
fn delete_then_new_replaces_the_lines() {
    let text = "fn main() {\n    old_a();\n    old_b();\n    keep();\n}\n";
    let script = "//!@Open: target.rs\n//!@Location:\nfn main() {\n//!@Delete:\n    old_a();\n    old_b();\n//!@New:\n    new_a();\n...\n//!@Off:Open\n";
    let (_, result, written) = run_script(text, script);
    assert!(result.is_ok());
    assert_eq!(written.unwrap(), "fn main() {\n    new_a();\n    keep();\n}\n");
}

#[test]
fn matching_ignores_whitespace_inside_lines() {
    let file = FileContent::from_text("fn main() {\n    let x = 1;\n}\n");
    let scope = SearchScope::File(&file);
    let tight = LocationMatcher::find_unique_block(&scope, &location(&["fn main(){", "    let x=1;"]), false).unwrap();
    let loose = LocationMatcher::find_unique_block(&scope, &location(&["fn  main ( ) {", "    let  x = 1 ;"]), false).unwrap();
    assert_eq!(tight.start_line, 1);
    assert_eq!(loose.start_line, 1);
    assert_eq!(tight.lines.len(), loose.lines.len());
}

#[test]
fn only_closing_the_file_asks_for_a_write() {
    let mut engine = Engine::new();
    let open = Command::Open { file_path: PATH.to_string() };
    assert!(matches!(engine.run_command(&open), Ok(Effect::ReadFile { .. })));
    engine.open_text(PATH, "a\nb\n");
    let loc = Command::Location { block: false, line_range: Some(LineRange { start: 1, end: 1 }), content: LocationContent { lines: vec![] } };
    assert!(matches!(engine.run_command(&loc), Ok(Effect::Nothing)));
    let new = Command::New {
        position: NewPosition::Normal,
        content: NewContent { lines: vec![NewLine { diff_taps: 0, content: "c".to_string(), is_raw: false }] },
    };
    assert!(matches!(engine.run_command(&new), Ok(Effect::Nothing)));
    assert!(matches!(engine.run_command(&Command::Off { target: OffTarget::Location }), Ok(Effect::Nothing)));
    match engine.run_command(&Command::Off { target: OffTarget::Open }) {
        Ok(Effect::WriteFile { path, text }) => {
            assert_eq!(path, PATH);
            assert_eq!(text, "a\nc\nb\n");
        }
        _ => panic!("expected a write"),
    }
}

#[test]
fn a_failed_command_changes_nothing() {
    let mut engine = Engine::new();
    engine.open_text(PATH, "fn a() {}\nfn a() {}\n");
    let ambiguous = Command::Location { block: false, line_range: None, content: location(&["fn a() {}"]) };
    assert!(engine.is_safe(&ambiguous));
    assert!(engine.run_command(&ambiguous).is_err());
    assert_eq!(engine.block_stack.len(), 0);
    let off = Command::Off { target: OffTarget::Location };
    assert!(engine.run_command(&off).is_err());
    assert!(engine.diff_lines.is_empty());
    match engine.finish() {
        Effect::WriteFile { text, .. } => assert_eq!(text, "fn a() {}\nfn a() {}\n"),
        _ => panic!("expected a write"),
    }
}

#[test]
fn line_numbers_stay_consecutive() {
    let text = "a\nb\nc\nd\n";
    let script = "//!@Open: target.rs\n//!@Location:@2,3\n//!@New:Start\nx\ny\n//!@Delete:@3\n//!@Off:Location\n";
    let (engine, result, _) = run_script(text, script);
    assert!(result.is_ok());
    let file = engine.file.as_ref().unwrap();
    let contents: Vec<&str> = file.lines.iter().map(|l| l.content.as_str()).collect();
    assert_eq!(contents, vec!["a", "x", "y", "c", "d"]);
    for (i, line) in file.lines.iter().enumerate() {
        assert_eq!(line.line_num, i + 1);
    }
}

#[test]
fn changes_in_another_block_start_a_new_group() {
    let text = "fn a() {\n    x();\n}\nfn b() {\n    y();\n}\n";
    let script = "//!@Open: target.rs\n//!@Location:Block\nfn a() {\n//!@New:\n    x2();\n//!@Off:Location\n//!@Location:Block\nfn b() {\n//!@New:\n    y2();\n...\n//!@Off:Open\n";
    let (engine, result, _) = run_script(text, script);
    assert!(result.is_ok());
    let separators = engine
        .diff_lines
        .iter()
        .filter(|d| d.kind == n_edit::output::DiffLineKind::Separator)
        .count();
    assert_eq!(separators, 1);
}

#[test]
fn new_after_delete_block_takes_the_block_place() {
    let text = "fn a() {\n    x();\n}\nfn b() {}\n";
    let script = "//!@Open: target.rs\n//!@Location:Block\nfn a() {\n//!@Delete:Block\n//!@New:\nfn c() {}\n...\n//!@Off:Open\n";
    let (_, result, written) = run_script(text, script);
    assert!(result.is_ok());
    assert_eq!(written.unwrap(), "fn c() {}\n\nfn b() {}\n");
}

#[test]
fn separators_and_command_lines_never_become_content() {
    let tokens = Lexer::tokenize("//!@New:Start\na\n...\nb\n//!@Location:\n...x\n....\n//!@Off:Open\n");
    for token in &tokens {
        let lines = match token {
            n_edit::script::Token::New { lines, .. } => lines.clone(),
            n_edit::script::Token::Location { lines, .. } => lines.clone(),
            _ => vec![],
        };
        for line in &lines {
            assert_ne!(line, "...");
            assert!(!line.starts_with("//!@"));
        }
    }
    assert_eq!(tokens.len(), 4);
}
