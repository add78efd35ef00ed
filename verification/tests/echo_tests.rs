use n_edit::command::{Command, NewPosition, OffTarget};
use n_edit::engine::Engine;
use n_edit::error::{MatchError, NEditError};
use n_edit::output::DiffLineKind;
use n_edit::model::{DeleteContent, LineRange, LocationContent, LocationLine, MatchInfo, NewContent};

fn location(first: &str) -> LocationContent {
    LocationContent {
        lines: vec![LocationLine { index: 0, diff_taps: Some(0), content: first.to_string(), line_num: None }],
    }
}

#[test]
fn echo_lines_name_each_command() {
    assert_eq!(
        Engine::echo_line(&Command::Open { file_path: "a.rs".to_string() }),
        "[verbose] 执行 Open: a.rs"
    );
    assert_eq!(
        Engine::echo_line(&Command::Location { block: true, line_range: Some(LineRange { start: 3, end: 9 }), content: LocationContent { lines: vec![] } }),
        "[verbose] 执行 Location:Block=true @3,9"
    );
    assert_eq!(
        Engine::echo_line(&Command::Location { block: false, line_range: None, content: location("fn main() {") }),
        "[verbose] 执行 Location:Block=false \"fn main() {\""
    );
    assert_eq!(
        Engine::echo_line(&Command::New { position: NewPosition::End, content: NewContent { lines: vec![] } }),
        "[verbose] 执行 New:End (0 行)"
    );
    assert_eq!(
        Engine::echo_line(&Command::Delete { block: true, line_range: None, content: None }),
        "[verbose] 执行 Delete:Block"
    );
    assert_eq!(
        Engine::echo_line(&Command::Delete { block: false, line_range: None, content: Some(DeleteContent { lines: vec![] }) }),
        "[verbose] 执行 Delete (0 行)"
    );
    assert_eq!(
        Engine::echo_line(&Command::Delete { block: false, line_range: Some(LineRange { start: 2, end: 4 }), content: None }),
        "[verbose] 执行 Delete:@2,4"
    );
    assert_eq!(
        Engine::echo_line(&Command::Off { target: OffTarget::Location }),
        "[verbose] 执行 Off:Location"
    );
}

#[test]
fn long_texts_are_shortened_in_the_echo() {
    let long = "x".repeat(60);
    let echoed = Engine::echo_line(&Command::Location { block: false, line_range: None, content: location(&long) });
    assert_eq!(echoed, format!("[verbose] 执行 Location:Block=false \"{}...\"", "x".repeat(47)));
    let raw = "y".repeat(31);
    assert_eq!(
        Engine::echo_line(&Command::Raw { content: raw }),
        format!("[verbose] 执行 Raw: \"{}...\"", "y".repeat(27))
    );
    assert_eq!(Engine::echo_line(&Command::Raw { content: "...".to_string() }), "[verbose] 执行 Raw: \"...\"");
}

#[test]
fn a_cut_inside_a_character_is_made_before_it() {
    let text = format!("{}é{}", "a".repeat(46), "b".repeat(10));
    let command = Command::Location { block: false, line_range: None, content: location(&text) };
    assert_eq!(
        Engine::echo_line(&command),
        format!("[verbose] 执行 Location:Block=false \"{}...\"", "a".repeat(46))
    );
    let raw = format!("{}中{}", "r".repeat(26), "s".repeat(5));
    assert_eq!(
        Engine::echo_line(&Command::Raw { content: raw }),
        format!("[verbose] 执行 Raw: \"{}...\"", "r".repeat(26))
    );
}

#[test]
fn commands_that_could_not_complete_are_flagged() {
    let mut engine = Engine::new();
    let long_line = format!("{}é{}", "a".repeat(76), "b".repeat(10));
    engine.open_text("t.rs", &format!("{}\n{}\nx\n", long_line, long_line));
    let ambiguous = Command::Location { block: false, line_range: None, content: location(&long_line) };
    assert!(engine.is_safe(&ambiguous));
    match engine.run_command(&ambiguous) {
        Err(NEditError::Match(MatchError::TooManyMatches { count, candidates, .. })) => {
            assert_eq!(count, 2);
            assert_eq!(candidates[0], format!("  L1: {}...", "a".repeat(76)));
            assert_eq!(candidates[1], format!("  L2: {}...", "a".repeat(76)));
        }
        other => panic!("unexpected: {:?}", other),
    }
    engine
        .run_command(&Command::Location { block: false, line_range: None, content: LocationContent { lines: vec![] } })
        .unwrap();
    let backwards = Command::Delete { block: false, line_range: Some(LineRange { start: 3, end: 1 }), content: None };
    assert!(!engine.is_safe(&backwards));
    let empty = Command::Delete { block: false, line_range: Some(LineRange { start: 2, end: 1 }), content: None };
    assert!(engine.is_safe(&empty));
    assert!(engine.is_safe(&Command::Off { target: OffTarget::Location }));
    assert!(engine.can_finish());
}

#[test]
fn an_empty_line_range_deletes_nothing() {
    let mut engine = Engine::new();
    engine.open_text("t.rs", "a\nb\nc\n");
    engine
        .run_command(&Command::Location { block: false, line_range: None, content: LocationContent { lines: vec![] } })
        .unwrap();
    let empty = Command::Delete { block: false, line_range: Some(LineRange { start: 3, end: 2 }), content: None };
    assert!(engine.is_safe(&empty));
    engine.run_command(&empty).unwrap();
    let top = engine.block_stack.last().unwrap();
    let texts: Vec<&str> = top.lines.iter().map(|l| l.content.as_str()).collect();
    assert_eq!(texts, vec!["a", "b", "c"]);
    assert_eq!(top.match_info, MatchInfo::DeleteAt { position: 2 });
    assert!(engine.diff_lines.iter().all(|d| d.kind != DiffLineKind::Deleted));
}
